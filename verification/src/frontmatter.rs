//! The framing of a prdoc file: YAML front matter between `---` markers,
//! and the automatic repair of common mistakes in a prdoc's text.

use vstd::prelude::*;
use crate::text::{
    chars_of, contains_seq, disjoint_chars, ends_with_chars, extend_chars, find_chars, find_first,
    is_prefix, is_space, is_suffix, leading_space_count, lemma_find_from, lemma_find_from_is,
    lemma_occurs_contains, lemma_replace_keeps_occurrence, occurs_at, replace_all, replace_chars,
    slice_chars, starts_with_chars, string_of, trim, trim_chars, trim_end, trim_end_chars,
    trim_start, free_of, lemma_occurs_within, lemma_dots_in_splice, lemma_replace_dots_leaves_none,
};
use crate::types::PrdocError;

verus! {

broadcast use vstd::string::group_string_axioms;

/// The message of a text that does not open with `---`.
pub open spec fn unopened_message() -> Seq<char> {
    "content must start with YAML frontmatter (---)"@
}

/// The message of front matter that is never closed.
pub open spec fn unclosed_message() -> Seq<char> {
    "frontmatter must be closed with ---"@
}

/// The front matter of a prdoc text: once leading whitespace is dropped the
/// text must open with `---`; the front matter runs from there up to the
/// first newline followed by `---`, and is returned trimmed. An error
/// carries the message that says which of the two markers is missing.
pub open spec fn frontmatter(content: Seq<char>) -> Result<Seq<char>, Seq<char>> {
    let t = trim_start(content);
    if !is_prefix("---"@, t) {
        Err(unopened_message())
    } else {
        let rest = t.skip(3);
        match find_first(rest, "\n---"@) {
            None => Err(unclosed_message()),
            Some(end) => Ok(trim(rest.take(end))),
        }
    }
}

/// The YAML front matter of a prdoc text, trimmed; an error names the
/// missing marker.
pub fn extract_frontmatter(content: &str) -> (r: Result<String, PrdocError>)
    ensures
        match r {
            Ok(s) => frontmatter(content@) == Ok::<Seq<char>, Seq<char>>(s@),
            Err(PrdocError::Frontmatter(m)) => frontmatter(content@) == Err::<Seq<char>, Seq<char>>(m@),
            Err(_) => false,
        },
{
    proof {
        reveal_strlit("---");
        reveal_strlit("\n---");
    }
    let v = chars_of(content);
    let k = leading_space_count(v.as_slice());
    let t = slice_chars(v.as_slice(), k, v.len());
    assert(t@ == trim_start(content@));
    let open = chars_of("---");
    if !starts_with_chars(t.as_slice(), open.as_slice()) {
        return Err(PrdocError::Frontmatter("content must start with YAML frontmatter (---)".to_string()));
    }
    let rest = slice_chars(t.as_slice(), 3, t.len());
    assert(rest@ == t@.skip(3));
    let close = chars_of("\n---");
    match find_chars(rest.as_slice(), close.as_slice(), 0) {
        None => Err(PrdocError::Frontmatter("frontmatter must be closed with ---".to_string())),
        Some(end) => {
            proof {
                crate::text::lemma_find_from(rest@, close@, 0);
            }
            let body = slice_chars(rest.as_slice(), 0, end);
            assert(body@ == rest@.take(end as int));
            let trimmed = trim_chars(body.as_slice());
            Ok(string_of(trimmed.as_slice()))
        }
    }
}


/// The pattern of an empty crates list on a line of its own.
pub open spec fn empty_crates_pattern() -> Seq<char> {
    "(?m)^crates:\\s*\\[\\s*\\]\\s*$"@
}

/// The crates section that replaces an empty one.
pub open spec fn default_crates_section() -> Seq<char> {
    "crates:\n  - name: changelogger-cli\n    bump: patch"@
}

/// The report of the empty-crates repair.
pub open spec fn empty_crates_fix_message() -> Seq<char> {
    "replaced empty crates section with default crate"@
}

/// The report of the missing-crates repair.
pub open spec fn missing_crates_fix_message() -> Seq<char> {
    "added missing crates section with default crate"@
}

/// The report of the placeholder repair.
pub open spec fn placeholder_fix_message() -> Seq<char> {
    "replaced placeholder description"@
}

/// `new` is `old` with one span, from `a` to `b`, replaced by `mid`.
pub open spec fn spliced(old: Seq<char>, new: Seq<char>, mid: Seq<char>) -> bool {
    exists|a: int, b: int| 0 <= a <= b <= old.len() && new == old.take(a) + mid + old.skip(b)
}

/// Whether `pattern` compiles as a regular expression (`regex::Regex::new`).
pub uninterp spec fn regex_accepts(pattern: Seq<char>) -> bool;

/// Whether `pattern` matches somewhere in `haystack` (`regex::Regex::is_match`).
pub uninterp spec fn regex_matches(pattern: Seq<char>, haystack: Seq<char>) -> bool;

/// `haystack` with the leftmost-first match of `pattern` replaced by
/// `replacement` (`regex::Regex::replace`).
pub uninterp spec fn regex_replace_first(
    pattern: Seq<char>,
    haystack: Seq<char>,
    replacement: Seq<char>,
) -> Seq<char>;

/// Whether `pattern` matches in `haystack`; `None` when it does not compile.
///
/// Trusted: calls `regex::Regex::new` and `regex::Regex::is_match`. Whether
/// the pattern compiles and whether it matches are named, not stated.
#[verifier::external_body]
fn regex_is_match(pattern: &str, haystack: &str) -> (r: Option<bool>)
    ensures
        r is Some == regex_accepts(pattern@),
        r matches Some(b) ==> b == regex_matches(pattern@, haystack@),
{
    match regex::Regex::new(pattern) {
        Ok(re) => Some(re.is_match(haystack)),
        Err(_) => None,
    }
}

/// `haystack` with the first match of `pattern` replaced; `None` when the
/// pattern does not compile.
///
/// Trusted: calls `regex::Regex::new` and `regex::Regex::replace`. Whether
/// the pattern compiles and what the replacement gives are named; stated are
/// the documented facts that without a match the haystack comes back
/// unchanged, and that otherwise one span of it is replaced by the
/// replacement, taken literally when it holds no `$`. Which span it is, is
/// left unsaid.
#[verifier::external_body]
fn regex_replace(pattern: &str, haystack: &str, replacement: &str) -> (r: Option<String>)
    ensures
        r is Some == regex_accepts(pattern@),
        r matches Some(s) ==> s@ == regex_replace_first(pattern@, haystack@, replacement@),
        !regex_matches(pattern@, haystack@) ==> (r matches Some(s) ==> s@ == haystack@),
        regex_matches(pattern@, haystack@) && free_of(replacement@, '$') ==> (r matches Some(s)
            ==> spliced(haystack@, s@, replacement@)),
{
    match regex::Regex::new(pattern) {
        Ok(re) => Some(re.replace(haystack, replacement).to_string()),
        Err(_) => None,
    }
}

/// The crates section appended when a prdoc lists no crate at all.
pub open spec fn appended_crates() -> Seq<char> {
    "\ncrates:\n  - name: changelogger-cli\n    bump: patch\n"@
}

/// The missing-crates repair: a text in which no `- name:` entry occurs
/// gets a default crates section, placed before a closing `---` when the
/// text ends with one.
pub open spec fn add_missing_crates(c: Seq<char>) -> Seq<char> {
    let t = trim_end(c);
    if is_suffix("---"@, t) {
        trim_end(t.take(t.len() - 3)) + appended_crates() + "---\n"@
    } else {
        t + appended_crates()
    }
}

/// The placeholder text that marks an unwritten description.
pub open spec fn placeholder_description() -> Seq<char> {
    "description: |\n      ..."@
}

/// What replaces every `...` once a placeholder description is found.
pub open spec fn placeholder_replacement() -> Seq<char> {
    "auto-fixed: see PR description"@
}

/// The text after the missing-crates and placeholder repairs.
pub open spec fn text_after_repairs(c: Seq<char>) -> Seq<char> {
    let c2 = if contains_seq(c, "- name:"@) { c } else { add_missing_crates(c) };
    if contains_seq(c2, placeholder_description()) {
        replace_all(c2, "..."@, placeholder_replacement())
    } else {
        c2
    }
}

/// The reports of the missing-crates and placeholder repairs on `c`.
pub open spec fn reports_of_repairs(c: Seq<char>) -> Seq<Seq<char>> {
    let c2 = if contains_seq(c, "- name:"@) { c } else { add_missing_crates(c) };
    (if contains_seq(c, "- name:"@) { Seq::empty() } else { seq![missing_crates_fix_message()] })
        + (if contains_seq(c2, placeholder_description()) {
        seq![placeholder_fix_message()]
    } else {
        Seq::empty()
    })
}

fn add_missing_crates_exec(c: &[char]) -> (r: Vec<char>)
    ensures
        r@ == add_missing_crates(c@),
{
    proof {
        reveal_strlit("---");
    }
    let t = trim_end_chars(c);
    let close = chars_of("---");
    let tail = chars_of("\ncrates:\n  - name: changelogger-cli\n    bump: patch\n");
    if ends_with_chars(t.as_slice(), close.as_slice()) {
        let head = slice_chars(t.as_slice(), 0, t.len() - 3);
        assert(head@ == t@.take(t@.len() - 3));
        let mut r = trim_end_chars(head.as_slice());
        extend_chars(&mut r, tail.as_slice());
        let end = chars_of("---\n");
        extend_chars(&mut r, end.as_slice());
        r
    } else {
        let mut r = t;
        extend_chars(&mut r, tail.as_slice());
        r
    }
}

/// Applies the repairs that follow the empty-crates repair.
/// `empty_crates_fixed` is the text that the empty-crates repair produced,
/// or `None` when it did not apply. The missing-crates and placeholder
/// repairs then run on the current text; each repair that changes it is
/// reported, in order.
pub fn fix_prdoc_content_with(content: &mut String, empty_crates_fixed: Option<String>) -> (fixes:
    Vec<String>)
    ensures
        ({
            let c1 = match empty_crates_fixed {
                Some(s) => s@,
                None => old(content)@,
            };
            &&& final(content)@ == text_after_repairs(c1)
            &&& crate::text::views(fixes@) == (if empty_crates_fixed is Some {
                seq![empty_crates_fix_message()]
            } else {
                Seq::empty()
            }) + reports_of_repairs(c1)
        }),
{
    let mut fixes: Vec<String> = Vec::new();
    if let Some(s) = empty_crates_fixed {
        *content = s;
        fixes.push("replaced empty crates section with default crate".to_string());
    }
    let ghost c1 = content@;
    let ghost head = crate::text::views(fixes@);
    let v = chars_of(content.as_str());
    let name_entry = chars_of("- name:");
    let v2 = if find_chars(v.as_slice(), name_entry.as_slice(), 0).is_some() {
        v
    } else {
        let r = add_missing_crates_exec(v.as_slice());
        let m = "added missing crates section with default crate".to_string();
        proof {
            crate::text::lemma_views_push(fixes@, m);
        }
        fixes.push(m);
        r
    };
    let ghost mid = crate::text::views(fixes@);
    let marker = chars_of("description: |\n      ...");
    let v3 = if find_chars(v2.as_slice(), marker.as_slice(), 0).is_some() {
        proof {
            reveal_strlit("...");
        }
        let dots = chars_of("...");
        let repl = chars_of("auto-fixed: see PR description");
        let r = replace_chars(v2.as_slice(), dots.as_slice(), repl.as_slice());
        let m = "replaced placeholder description".to_string();
        proof {
            crate::text::lemma_views_push(fixes@, m);
        }
        fixes.push(m);
        r
    } else {
        v2
    };
    *content = string_of(v3.as_slice());
    assert(crate::text::views(fixes@) =~= head + reports_of_repairs(c1));
    fixes
}

/// The reports of all repairs, given whether the empty-crates repair ran
/// and the text `c1` that it left.
pub open spec fn all_reports(empty_crates_fixed: bool, c1: Seq<char>) -> Seq<Seq<char>> {
    (if empty_crates_fixed { seq![empty_crates_fix_message()] } else { Seq::empty() })
        + reports_of_repairs(c1)
}

/// The empty-crates repair applies: its pattern compiles, matches `c`, and
/// the replacement changes the text.
pub open spec fn empty_crates_fires(c: Seq<char>) -> bool {
    &&& regex_accepts(empty_crates_pattern())
    &&& regex_matches(empty_crates_pattern(), c)
    &&& regex_replace_first(empty_crates_pattern(), c, default_crates_section()) != c
}

/// The text after the empty-crates repair.
pub open spec fn after_empty_crates(c: Seq<char>) -> Seq<char> {
    if empty_crates_fires(c) {
        regex_replace_first(empty_crates_pattern(), c, default_crates_section())
    } else {
        c
    }
}

/// The text that `fix_prdoc_content` leaves.
pub open spec fn fixed_text(c: Seq<char>) -> Seq<char> {
    text_after_repairs(after_empty_crates(c))
}

/// The repairs that `fix_prdoc_content` reports.
pub open spec fn fix_reports(c: Seq<char>) -> Seq<Seq<char>> {
    all_reports(empty_crates_fires(c), after_empty_crates(c))
}

/// Repairs common mistakes in a prdoc's text in place and reports each
/// repair made, in order: an empty `crates: []` line is replaced by a
/// default crate, a missing crates section is added, and when a placeholder
/// description is present every `...` is replaced.
pub fn fix_prdoc_content(content: &mut String) -> (fixes: Vec<String>)
    ensures
        final(content)@ == fixed_text(old(content)@),
        crate::text::views(fixes@) == fix_reports(old(content)@),
        fixes@.len() == 0 <==> final(content)@ == old(content)@,
        !(crate::text::views(fixes@).contains(empty_crates_fix_message())
            && crate::text::views(fixes@).contains(missing_crates_fix_message())),
{
    let pattern = "(?m)^crates:\\s*\\[\\s*\\]\\s*$";
    let replacement = "crates:\n  - name: changelogger-cli\n    bump: patch";
    let ghost before = content@;
    proof {
        reveal_strlit("crates:\n  - name: changelogger-cli\n    bump: patch");
        assert(free_of(default_crates_section(), '$'));
    }
    let fixed = match regex_is_match(pattern, content.as_str()) {
        Some(true) => match regex_replace(pattern, content.as_str(), replacement) {
            Some(s) => if s == *content {
                None
            } else {
                Some(s)
            },
            None => None,
        },
        _ => None,
    };
    let ghost c1 = match fixed {
        Some(ref s) => s@,
        None => before,
    };
    let fixes = fix_prdoc_content_with(content, fixed);
    proof {
        if fixed is Some {
            assert(c1 != before);
        }
        repair_reports_match_changes(before, c1, fixed is Some);
        assert(crate::text::views(fixes@) == all_reports(fixed is Some, c1));
    }
    fixes
}


/// Framing round trip: front matter `f` written between an opening `---`
/// line and a closing `---` line is read back as `f` trimmed, provided no
/// line inside it starts with `---`.
pub proof fn frontmatter_of_framed_text(f: Seq<char>)
    requires
        !contains_seq(seq!['\n'] + f, "\n---"@),
    ensures
        frontmatter("---\n"@ + f + "\n---"@) == Ok::<Seq<char>, Seq<char>>(trim(f)),
{
    reveal_strlit("---");
    reveal_strlit("---\n");
    reveal_strlit("\n---");
    let marker = "\n---"@;
    let content = "---\n"@ + f + marker;
    let g = seq!['\n'] + f;
    assert(content[0] == '-');
    assert(trim_start(content) == content);
    assert(content.subrange(0, 3) =~= "---"@);
    let rest = content.skip(3);
    assert(rest =~= g + marker);
    let k = g.len() as int;
    assert(rest.subrange(k, k + 4) =~= marker);
    lemma_find_from(g, marker, 0);
    assert forall|j: int| 0 <= j < k implies !occurs_at(rest, marker, j) by {
        if occurs_at(rest, marker, j) {
            if j + 4 <= k {
                assert(g.subrange(j, j + 4) =~= rest.subrange(j, j + 4));
                assert(occurs_at(g, marker, j));
            } else {
                assert(rest.subrange(j, j + 4)[k - j] == rest[k]);
                assert(rest[k] == '\n');
            }
        }
    }
    lemma_find_from_is(rest, marker, 0, k);
    assert(rest.take(k) =~= g);
    assert(is_space(g[0]));
    assert(g.drop_first() =~= f);
}

/// When no repair after the empty-crates repair is reported, the text is
/// left exactly as it was.
pub proof fn unreported_repairs_change_nothing(c: Seq<char>)
    ensures
        reports_of_repairs(c).len() == 0 ==> text_after_repairs(c) == c,
{
}


/// After the repairs, the text lists at least one crate: it holds a
/// `- name:` entry.
pub proof fn repaired_text_lists_a_crate(c: Seq<char>)
    ensures
        contains_seq(text_after_repairs(c), "- name:"@),
{
    reveal_strlit("- name:");
    reveal_strlit("...");
    reveal_strlit("\ncrates:\n  - name: changelogger-cli\n    bump: patch\n");
    reveal_strlit("---\n");
    let w = "- name:"@;
    let c2 = if contains_seq(c, w) { c } else { add_missing_crates(c) };
    assert(contains_seq(c2, w)) by {
        if !contains_seq(c, w) {
            let a = appended_crates();
            assert(a.subrange(11, 18) =~= w);
            let t = trim_end(c);
            if is_suffix("---"@, t) {
                let head = trim_end(t.take(t.len() - 3));
                assert(c2 == head + a + "---\n"@);
                assert(c2.subrange(head.len() as int + 11, head.len() as int + 18) =~= a.subrange(11, 18));
                lemma_occurs_contains(c2, w, head.len() as int + 11);
            } else {
                assert(c2 == t + a);
                assert(c2.subrange(t.len() as int + 11, t.len() as int + 18) =~= a.subrange(11, 18));
                lemma_occurs_contains(c2, w, t.len() as int + 11);
            }
        }
    }
    if contains_seq(c2, placeholder_description()) {
        lemma_find_from(c2, w, 0);
        let k = find_first(c2, w)->0;
        assert(disjoint_chars(w, "..."@));
        lemma_replace_keeps_occurrence(c2, "..."@, placeholder_replacement(), w, k);
    }
}


/// What the repairs report matches what they change: the text changes
/// exactly when some repair is reported, and the two crate repairs are
/// never both reported. `c1` is the text after the empty-crates repair,
/// which, when it ran, replaced one span of the original text by the
/// default crates section and so changed it.
pub proof fn repair_reports_match_changes(original: Seq<char>, c1: Seq<char>, empty_crates_fixed: bool)
    requires
        empty_crates_fixed ==> spliced(original, c1, default_crates_section()) && c1 != original,
        !empty_crates_fixed ==> c1 == original,
    ensures
        all_reports(empty_crates_fixed, c1).len() == 0 <==> text_after_repairs(c1) == original,
        !(all_reports(empty_crates_fixed, c1).contains(empty_crates_fix_message())
            && all_reports(empty_crates_fixed, c1).contains(missing_crates_fix_message())),
        all_reports(empty_crates_fixed, c1).contains(missing_crates_fix_message())
            || all_reports(empty_crates_fixed, c1).contains(placeholder_fix_message())
            ==> text_after_repairs(c1) != original,
{
    reveal_strlit("- name:");
    reveal_strlit("...");
    reveal_strlit("crates:\n  - name: changelogger-cli\n    bump: patch");
    reveal_strlit("description: |\n      ...");
    reveal_strlit("auto-fixed: see PR description");
    reveal_strlit("replaced empty crates section with default crate");
    reveal_strlit("added missing crates section with default crate");
    reveal_strlit("replaced placeholder description");
    let w = "- name:"@;
    let d = "..."@;
    assert(d == seq!['.', '.', '.']);
    let e = empty_crates_fix_message();
    let m = missing_crates_fix_message();
    let pm = placeholder_fix_message();
    assert(e[1] != m[1]);
    assert(e[9] != pm[9]);
    assert(m[0] != pm[0]);
    let has_name = contains_seq(c1, w);
    let c2 = if has_name { c1 } else { add_missing_crates(c1) };
    let placeholder = contains_seq(c2, placeholder_description());
    let f = all_reports(empty_crates_fixed, c1);
    assert(f =~= (if empty_crates_fixed { seq![e] } else { Seq::empty() }) + (if has_name {
        Seq::empty()
    } else {
        seq![m]
    }) + (if placeholder { seq![pm] } else { Seq::empty() }));
    if empty_crates_fixed {
        let sec = default_crates_section();
        let (a, b) = choose|a: int, b: int|
            0 <= a <= b <= original.len() && c1 == original.take(a) + sec + original.skip(b);
        assert(c1.subrange(a, a + sec.len()) =~= sec);
        assert(sec.subrange(10, 17) =~= w);
        lemma_occurs_within(c1, sec, a, w, 10);
        lemma_occurs_contains(c1, w, a + 10);
    }
    repaired_text_lists_a_crate(c1);
    unreported_repairs_change_nothing(c1);
    let t = text_after_repairs(c1);
    if f.len() > 0 && !empty_crates_fixed {
        assert(f[0] == m || f[0] == pm);
        assert(f.contains(f[0]));
    }
    if f.len() == 0 {
        assert(!empty_crates_fixed) by {
            if empty_crates_fixed {
                assert(f[0] == e);
            }
        }
    }
    if f.contains(m) {
        assert(!empty_crates_fixed);
        assert(!has_name);
        assert(t != original);
    } else if f.contains(pm) {
        assert(placeholder);
        assert(has_name) by {
            if !has_name {
                let i: int = if empty_crates_fixed { 1 } else { 0 };
                assert(f[i] == m);
            }
        }
        let r = placeholder_replacement();
        assert(free_of(r, '.'));
        lemma_find_from(c1, placeholder_description(), 0);
        let k = find_first(c1, placeholder_description())->0;
        assert(placeholder_description().subrange(21, 24) =~= d);
        lemma_occurs_within(c1, placeholder_description(), k, d, 21);
        assert(contains_seq(original, d)) by {
            if empty_crates_fixed {
                let sec = default_crates_section();
                let (a, b) = choose|a: int, b: int|
                    0 <= a <= b <= original.len() && c1 == original.take(a) + sec + original.skip(b);
                assert(free_of(sec, '.'));
                lemma_dots_in_splice(original, sec, a, b, k + 21);
            } else {
                lemma_occurs_contains(c1, d, k + 21);
            }
        }
        lemma_find_from(original, d, 0);
        let j = find_first(original, d)->0;
        if t == original {
            lemma_replace_dots_leaves_none(c1, r, j);
        }
    } else if empty_crates_fixed {
        assert(has_name);
        assert(!placeholder) by {
            if placeholder {
                assert(f[f.len() - 1] == pm);
            }
        }
        assert(t == c1);
    }
}


/// The repairs after the empty-crates repair are idempotent: run again on
/// their own result, they report nothing and change nothing.
pub proof fn repairs_are_idempotent(c: Seq<char>)
    ensures
        reports_of_repairs(text_after_repairs(c)).len() == 0,
        text_after_repairs(text_after_repairs(c)) == text_after_repairs(c),
{
    reveal_strlit("- name:");
    reveal_strlit("...");
    reveal_strlit("description: |\n      ...");
    reveal_strlit("auto-fixed: see PR description");
    let d = "..."@;
    assert(d == seq!['.', '.', '.']);
    let t = text_after_repairs(c);
    repaired_text_lists_a_crate(c);
    let c2 = if contains_seq(c, "- name:"@) { c } else { add_missing_crates(c) };
    assert(!contains_seq(t, placeholder_description())) by {
        if contains_seq(t, placeholder_description()) {
            lemma_find_from(t, placeholder_description(), 0);
            let k = find_first(t, placeholder_description())->0;
            assert(placeholder_description().subrange(21, 24) =~= d);
            lemma_occurs_within(t, placeholder_description(), k, d, 21);
            if contains_seq(c2, placeholder_description()) {
                assert(free_of(placeholder_replacement(), '.'));
                lemma_replace_dots_leaves_none(c2, placeholder_replacement(), k + 21);
            }
        }
    }
    assert(reports_of_repairs(t) =~= Seq::<Seq<char>>::empty());
}

/// A second `fix_prdoc_content` on the text that a first one left reports
/// nothing and changes nothing, whenever the empty-crates pattern does not
/// match that text again.
pub proof fn second_fix_changes_nothing(c: Seq<char>)
    requires
        !empty_crates_fires(fixed_text(c)),
    ensures
        fix_reports(fixed_text(c)).len() == 0,
        fixed_text(fixed_text(c)) == fixed_text(c),
{
    repairs_are_idempotent(after_empty_crates(c));
}

} // verus!
