//! The texts that the command-line front end prints: validation reports,
//! scaffolding and version-bump summaries, and commit coverage.

use vstd::prelude::*;
use crate::text::{
    chars_of, contains_seq, decimal, find_chars, find_first, join, lemma_views_push, push_decimal,
    slice_chars, string_of, views, find_from, is_prefix, trim,
};
use crate::types::PrDoc;
use crate::workspace::WorkspaceCrate;
use crate::validate::{prdoc_branch_issues, prdoc_issues, validate_prdoc, validate_prdoc_for_branch};

verus! {

broadcast use vstd::string::group_string_axioms;

/// The issues of a prdoc, with the backport rule when a branch is given.
pub fn validation_issues(prdoc: &PrDoc, branch: Option<&str>) -> (issues: Vec<String>)
    ensures
        views(issues@) == match branch {
            Some(b) => prdoc_branch_issues(*prdoc, b@),
            None => prdoc_issues(*prdoc),
        },
{
    match branch {
        Some(b) => validate_prdoc_for_branch(prdoc, b),
        None => validate_prdoc(prdoc),
    }
}

/// Each issue as a list item: two spaces, a dash, a space, the issue and
/// a newline.
pub open spec fn issue_lines(issues: Seq<Seq<char>>) -> Seq<char>
    decreases issues.len(),
{
    if issues.len() == 0 {
        Seq::empty()
    } else {
        issue_lines(issues.drop_last()) + "  - "@ + issues.last() + "\n"@
    }
}

/// The verdict on one prdoc file: valid when it has no issue, else the
/// list of its issues.
pub open spec fn file_verdict(issues: Seq<Seq<char>>) -> Result<Seq<char>, Seq<char>> {
    if issues.len() == 0 {
        Ok("prdoc is valid."@)
    } else {
        Err("Issues:\n"@ + issue_lines(issues))
    }
}

/// The report on one prdoc file, given its issues.
pub fn file_report(issues: &Vec<String>) -> (r: Result<String, String>)
    ensures
        match r {
            Ok(s) => file_verdict(views(issues@)) == Ok::<Seq<char>, Seq<char>>(s@),
            Err(s) => file_verdict(views(issues@)) == Err::<Seq<char>, Seq<char>>(s@),
        },
{
    if issues.len() == 0 {
        return Ok("prdoc is valid.".to_string());
    }
    let mut out = "Issues:\n".to_string();
    let ghost head = out@;
    let n = issues.len();
    for i in 0..n
        invariant
            n == issues@.len(),
            head == "Issues:\n"@,
            out@ == head + issue_lines(views(issues@).take(i as int)),
    {
        out.append("  - ");
        out.append(issues[i].as_str());
        out.append("\n");
        assert(views(issues@).take(i + 1).drop_last() == views(issues@).take(i as int));
    }
    assert(views(issues@).take(n as int) == views(issues@));
    Err(out)
}

/// The issues of one file in a directory report: the file, a colon, and
/// its issues as list items on lines of their own.
pub open spec fn file_issue_block(path: Seq<char>, issues: Seq<Seq<char>>) -> Seq<char> {
    path + ":\n"@ + join(issues.map_values(|i: Seq<char>| "  - "@ + i), "\n"@)
}

/// The entry of a directory report for a file with issues.
pub fn file_issue_entry(path: &str, issues: &Vec<String>) -> (r: String)
    ensures
        r@ == file_issue_block(path@, views(issues@)),
{
    let mut items: Vec<String> = Vec::new();
    let n = issues.len();
    for i in 0..n
        invariant
            n == issues@.len(),
            views(items@) == views(issues@).take(i as int).map_values(|s: Seq<char>| "  - "@ + s),
    {
        let mut item = "  - ".to_string();
        item.append(issues[i].as_str());
        proof {
            lemma_views_push(items@, item);
        }
        items.push(item);
        assert(views(items@) =~= views(issues@).take(i + 1).map_values(|s: Seq<char>| "  - "@ + s));
    }
    assert(views(issues@).take(n as int) == views(issues@));
    let mut out = path.to_string();
    out.append(":\n");
    let body = crate::text::join_strings(&items, "\n");
    out.append(body.as_str());
    out
}

/// The entry of a directory report for a file that could not be read.
pub fn file_error_entry(path: &str, error: &str) -> (r: String)
    ensures
        r@ == path@ + ": "@ + error@,
{
    let mut out = path.to_string();
    out.append(": ");
    out.append(error);
    out
}

/// The verdict on a directory of prdoc files.
pub open spec fn directory_verdict(count: nat, entries: Seq<Seq<char>>) -> Result<
    Seq<char>,
    Seq<char>,
> {
    if entries.len() == 0 {
        Ok("Validated "@ + decimal(count) + " prdoc file(s)."@)
    } else {
        Err(join(entries, "\n"@))
    }
}

/// The report on a directory: how many files were validated when none had
/// an issue, else every entry with issues, one after the other.
pub fn directory_report(count: usize, entries: &Vec<String>) -> (r: Result<String, String>)
    ensures
        match r {
            Ok(s) => directory_verdict(count as nat, views(entries@)) == Ok::<Seq<char>, Seq<char>>(s@),
            Err(s) => directory_verdict(count as nat, views(entries@)) == Err::<Seq<char>, Seq<char>>(s@),
        },
{
    if entries.len() == 0 {
        let mut out = "Validated ".to_string();
        push_decimal(&mut out, count);
        out.append(" prdoc file(s).");
        Ok(out)
    } else {
        Err(crate::text::join_strings(entries, "\n"))
    }
}

/// The outcome of validating a file that does not exist: an error in CI,
/// where every pull request needs a prdoc, and a skip elsewhere.
pub fn missing_prdoc_report(path: &str, in_ci: bool) -> (r: Result<String, String>)
    ensures
        in_ci ==> (r matches Err(s) && s@ == "prdoc not found at "@ + path@ + ". PRs require prdoc."@),
        !in_ci ==> (r matches Ok(s) && s@ == "No prdoc found. Validation skipped."@),
{
    if in_ci {
        let mut out = "prdoc not found at ".to_string();
        out.append(path);
        out.append(". PRs require prdoc.");
        Err(out)
    } else {
        Ok("No prdoc found. Validation skipped.".to_string())
    }
}


/// How a workflow file is listed in the scaffolding summary: by name, or
/// marked as skipped when it already existed.
pub open spec fn workflow_item(name: Seq<char>, existed: bool) -> Seq<char> {
    if existed {
        name + " (already exists, skipped)"@
    } else {
        name
    }
}

/// The scaffolding summary over workflows given as (name, already existed).
pub open spec fn scaffold_summary(entries: Seq<(String, bool)>) -> Seq<char> {
    "Scaffolded "@ + decimal(entries.len()) + " workflow(s) in .github/workflows/:\n  - "@ + join(
        entries.map_values(|e: (String, bool)| workflow_item(e.0@, e.1)),
        "\n  - "@,
    )
}

/// The summary of scaffolding CI workflows, given each workflow's name and
/// whether its file already existed (and so was left alone).
pub fn ci_init_report(entries: &Vec<(String, bool)>) -> (r: String)
    ensures
        r@ == scaffold_summary(entries@),
{
    let mut items: Vec<String> = Vec::new();
    let n = entries.len();
    for i in 0..n
        invariant
            n == entries@.len(),
            views(items@) == entries@.take(i as int).map_values(
                |e: (String, bool)| workflow_item(e.0@, e.1),
            ),
    {
        let (name, existed) = &entries[i];
        let mut item = name.clone();
        if *existed {
            item.append(" (already exists, skipped)");
        }
        proof {
            lemma_views_push(items@, item);
        }
        items.push(item);
        assert(views(items@) =~= entries@.take(i + 1).map_values(
            |e: (String, bool)| workflow_item(e.0@, e.1),
        ));
    }
    assert(entries@.take(n as int) == entries@);
    let mut out = "Scaffolded ".to_string();
    push_decimal(&mut out, n);
    out.append(" workflow(s) in .github/workflows/:\n  - ");
    let body = crate::text::join_strings(&items, "\n  - ");
    out.append(body.as_str());
    out
}

/// One line of the version-bump summary.
pub open spec fn bump_line(krate: Seq<char>, version: Seq<char>, dry_run: bool) -> Seq<char> {
    "  "@ + krate + " -> "@ + version + (if dry_run { " (dry-run)"@ } else { Seq::empty() }) + "\n"@
}

/// The lines of the version-bump summary for the first `n` bumps.
pub open spec fn bump_lines(bumps: Seq<(String, String)>, dry_run: bool, n: nat) -> Seq<char>
    decreases n,
{
    if n == 0 {
        Seq::empty()
    } else {
        bump_lines(bumps, dry_run, (n - 1) as nat) + bump_line(
            bumps[n - 1].0@,
            bumps[n - 1].1@,
            dry_run,
        )
    }
}

/// The version-bump summary.
pub open spec fn bump_summary(current: Seq<char>, bumps: Seq<(String, String)>, dry_run: bool) -> Seq<
    char,
> {
    if bumps.len() == 0 {
        "No version bumps needed."@
    } else {
        "Bumps from "@ + current + ":\n"@ + bump_lines(bumps, dry_run, bumps.len())
    }
}

/// The summary of the version bumps computed from the current version, one
/// line per crate and its next version.
pub fn bump_report(current: &str, bumps: &Vec<(String, String)>, dry_run: bool) -> (r: String)
    ensures
        r@ == bump_summary(current@, bumps@, dry_run),
{
    if bumps.len() == 0 {
        return "No version bumps needed.".to_string();
    }
    let mut out = "Bumps from ".to_string();
    out.append(current);
    out.append(":\n");
    let ghost head = out@;
    let n = bumps.len();
    for i in 0..n
        invariant
            n == bumps@.len(),
            out@ == head + bump_lines(bumps@, dry_run, i as nat),
    {
        let (c, v) = &bumps[i];
        out.append("  ");
        out.append(c.as_str());
        out.append(" -> ");
        out.append(v.as_str());
        if dry_run {
            out.append(" (dry-run)");
        }
        out.append("\n");
        assert(out@ =~= head + bump_lines(bumps@, dry_run, (i + 1) as nat));
    }
    out
}

/// The coverage summary of a commit range: how many of `total` commits
/// lack a prdoc, when `found` prdocs were found.
pub open spec fn coverage_summary(total: nat, found: nat) -> Seq<char> {
    if found >= total {
        "All "@ + decimal(total) + " commit(s) have prdocs."@
    } else {
        decimal((total - found) as nat) + " commit(s) missing prdocs ("@ + decimal(found) + "/"@
            + decimal(total) + " found)."@
    }
}

/// The summary of how many commits in a range have a prdoc.
pub fn verify_report(total: usize, found: usize) -> (r: String)
    ensures
        r@ == coverage_summary(total as nat, found as nat),
{
    let missing = total.saturating_sub(found);
    if missing == 0 {
        let mut out = "All ".to_string();
        push_decimal(&mut out, total);
        out.append(" commit(s) have prdocs.");
        out
    } else {
        let mut out = String::new();
        push_decimal(&mut out, missing);
        out.append(" commit(s) missing prdocs (");
        push_decimal(&mut out, found);
        out.append("/");
        push_decimal(&mut out, total);
        out.append(" found).");
        out
    }
}

/// The commit range from the tag of `version` to the current head.
pub fn default_range(version: &str) -> (r: String)
    ensures
        r@ == "v"@ + version@ + "..HEAD"@,
{
    let mut out = "v".to_string();
    out.append(version);
    out.append("..HEAD");
    out
}

/// The heading of a new changelog file.
pub open spec fn changelog_header() -> Seq<char> {
    "# Changelog\n\nAll notable changes to this project will be documented in this file.\n\nThe format is based on [Keep a Changelog](https://keepachangelog.com/),\nand this project adheres to [Semantic Versioning](https://semver.org/).\n\n"@
}

/// The marker of the section of unreleased changes.
pub open spec fn unreleased_marker() -> Seq<char> {
    "## [Unreleased]"@
}

/// A changelog with a release section added: a new changelog gets the
/// standard heading first; an existing one gets the section right before
/// its first `## [Unreleased]` marker, or at its end when it has none.
pub open spec fn with_release_section(existing: Seq<char>, section: Seq<char>) -> Seq<char> {
    if existing.len() == 0 {
        changelog_header() + section
    } else {
        match find_first(existing, unreleased_marker()) {
            Some(pos) => existing.take(pos) + section + "\n"@ + existing.skip(pos),
            None => existing + "\n"@ + section,
        }
    }
}

/// Adds a release section to a changelog's text (empty when there is no
/// changelog yet).
pub fn insert_release_section(existing: &str, section: &str) -> (r: String)
    ensures
        r@ == with_release_section(existing@, section@),
{
    if existing.is_empty() {
        let mut out = "# Changelog\n\nAll notable changes to this project will be documented in this file.\n\nThe format is based on [Keep a Changelog](https://keepachangelog.com/),\nand this project adheres to [Semantic Versioning](https://semver.org/).\n\n".to_string();
        out.append(section);
        return out;
    }
    let v = chars_of(existing);
    let marker = chars_of("## [Unreleased]");
    match find_chars(v.as_slice(), marker.as_slice(), 0) {
        Some(pos) => {
            proof {
                crate::text::lemma_find_from(v@, marker@, 0);
            }
            let before = slice_chars(v.as_slice(), 0, pos);
            let after = slice_chars(v.as_slice(), pos, v.len());
            assert(before@ == v@.take(pos as int));
            assert(after@ == v@.skip(pos as int));
            let mut out = string_of(before.as_slice());
            out.append(section);
            out.append("\n");
            crate::text::push_chars(&mut out, after.as_slice());
            out
        },
        None => {
            let mut out = existing.to_string();
            out.append("\n");
            out.append(section);
            out
        },
    }
}


/// The last position of `c` in `s` before position `n`.
pub open spec fn last_index_before(s: Seq<char>, c: char, n: int) -> Option<int>
    decreases n,
{
    if n <= 0 {
        None
    } else if s[n - 1] == c {
        Some(n - 1)
    } else {
        last_index_before(s, c, n - 1)
    }
}

/// The `major.minor` part of a version: everything before its last dot,
/// or the whole version when it has no dot.
pub open spec fn major_minor_of(version: Seq<char>) -> Seq<char> {
    match last_index_before(version, '.', version.len() as int) {
        Some(i) => version.take(i),
        None => version,
    }
}

/// The `major.minor` part of a version.
pub fn major_minor(version: &str) -> (r: String)
    ensures
        r@ == major_minor_of(version@),
{
    let v = chars_of(version);
    let mut n = v.len();
    while n > 0 && v[n - 1] != '.'
        invariant
            n <= v@.len(),
            last_index_before(v@, '.', v@.len() as int) == last_index_before(v@, '.', n as int),
        decreases n,
    {
        n = n - 1;
    }
    if n == 0 {
        version.to_string()
    } else {
        let head = slice_chars(v.as_slice(), 0, n - 1);
        assert(head@ == v@.take(n - 1));
        string_of(head.as_slice())
    }
}

/// How a manifest declares a path dependency on crate `name`.
pub open spec fn path_dependency(name: Seq<char>) -> Seq<char> {
    name + " = { path = \""@
}

/// How a manifest declares a registry dependency on version `version` of
/// crate `name`.
pub open spec fn version_dependency(name: Seq<char>, version: Seq<char>) -> Seq<char> {
    name + " = \""@ + version + "\""@
}

/// The text by which a manifest is seen to depend on crate `name` by path
/// when counting workspace dependencies: the declaration up to `path = `.
pub open spec fn path_dependency_start(name: Seq<char>) -> Seq<char> {
    name + " = { path = "@
}

/// How many of `names` the manifest text depends on by path, among the
/// first `n`.
pub open spec fn path_dependency_count(content: Seq<char>, names: Seq<Seq<char>>, n: nat) -> nat
    decreases n,
{
    if n == 0 {
        0
    } else {
        path_dependency_count(content, names, (n - 1) as nat) + if contains_seq(
            content,
            path_dependency_start(names[n - 1]),
        ) {
            1nat
        } else {
            0nat
        }
    }
}

fn path_dependency_of(name: &str) -> (r: String)
    ensures
        r@ == path_dependency(name@),
{
    let mut out = name.to_string();
    out.append(" = { path = \"");
    out
}

fn path_dependency_start_of(name: &str) -> (r: String)
    ensures
        r@ == path_dependency_start(name@),
{
    let mut out = name.to_string();
    out.append(" = { path = ");
    out
}

/// How many of the workspace's crates a manifest text depends on by path.
pub fn workspace_dep_count(content: &str, names: &Vec<String>) -> (r: usize)
    ensures
        r == path_dependency_count(content@, views(names@), names@.len() as nat),
{
    let mut count: usize = 0;
    let n = names.len();
    for i in 0..n
        invariant
            n == names@.len(),
            count == path_dependency_count(content@, views(names@), i as nat),
            count <= i,
    {
        let dep = path_dependency_start_of(names[i].as_str());
        if crate::text::contains_text(content, dep.as_str()) {
            count = count + 1;
        }
    }
    count
}

/// A line without the carriage return that ends it, if any.
pub open spec fn strip_cr(line: Seq<char>) -> Seq<char> {
    if line.len() > 0 && line.last() == '\r' {
        line.drop_last()
    } else {
        line
    }
}

/// The lines of `s` from position `i` on, as `str::lines` splits them: at
/// each newline, dropping a carriage return just before it; a final line
/// ending is optional.
pub open spec fn lines_from(s: Seq<char>, i: int) -> Seq<Seq<char>>
    decreases s.len() - i,
{
    if i < 0 || i >= s.len() {
        Seq::empty()
    } else {
        match find_from(s, "\n"@, i) {
            None => seq![s.subrange(i, s.len() as int)],
            Some(k) => {
                proof {
                    reveal_strlit("\n");
                    crate::text::lemma_find_from(s, "\n"@, i);
                }
                seq![strip_cr(s.subrange(i, k))] + lines_from(s, k + 1)
            },
        }
    }
}

/// The lines of a manifest with every line whose trimmed text starts with
/// `dep` replaced by `replacement`, each line followed by a newline.
pub open spec fn rewrite_lines(lines: Seq<Seq<char>>, dep: Seq<char>, replacement: Seq<char>) -> Seq<
    char,
>
    decreases lines.len(),
{
    if lines.len() == 0 {
        Seq::empty()
    } else {
        rewrite_lines(lines.drop_last(), dep, replacement) + (if is_prefix(
            dep,
            trim(lines.last()),
        ) {
            replacement
        } else {
            lines.last()
        }) + "\n"@
    }
}

/// The manifest of crate `krate` made ready for publishing: the first other
/// workspace crate (from position `j` of `names` on) that the manifest
/// depends on by path has each such dependency line replaced by a
/// dependency on version `version`; a manifest with no such crate is kept.
pub open spec fn patched_manifest_from(
    manifest: Seq<char>,
    krate: Seq<char>,
    names: Seq<Seq<char>>,
    version: Seq<char>,
    j: int,
) -> Seq<char>
    decreases names.len() - j,
{
    if j < 0 || j >= names.len() {
        manifest
    } else if names[j] == krate || !contains_seq(manifest, path_dependency(names[j])) {
        patched_manifest_from(manifest, krate, names, version, j + 1)
    } else {
        rewrite_lines(
            lines_from(manifest, 0),
            path_dependency(names[j]),
            version_dependency(names[j], version),
        )
    }
}

fn rewrite_manifest_lines(manifest: &str, dep: &str, replacement: &str) -> (r: String)
    ensures
        r@ == rewrite_lines(lines_from(manifest@, 0), dep@, replacement@),
{
    proof {
        reveal_strlit("\n");
    }
    let v = chars_of(manifest);
    let nl = chars_of("\n");
    let dep_chars = chars_of(dep);
    let mut out = String::new();
    let mut pos: usize = 0;
    let ghost mut done: Seq<Seq<char>> = Seq::empty();
    while pos < v.len()
        invariant
            pos <= v@.len(),
            nl@ == "\n"@,
            nl@.len() == 1,
            dep_chars@ == dep@,
            done + lines_from(v@, pos as int) == lines_from(v@, 0),
            out@ == rewrite_lines(done, dep@, replacement@),
        decreases v.len() - pos,
    {
        proof {
            crate::text::lemma_find_from(v@, nl@, pos as int);
        }
        let (line, next) = match find_chars(v.as_slice(), nl.as_slice(), pos) {
            Some(k) => {
                let mut raw = slice_chars(v.as_slice(), pos, k);
                if raw.len() > 0 && raw[raw.len() - 1] == '\r' {
                    raw.pop();
                }
                (raw, k + 1)
            },
            None => (slice_chars(v.as_slice(), pos, v.len()), v.len()),
        };
        proof {
            assert(lines_from(v@, pos as int) == seq![line@] + lines_from(v@, next as int));
            assert(done + lines_from(v@, pos as int) == done.push(line@) + lines_from(v@, next as int));
            assert(done.push(line@).drop_last() == done);
            done = done.push(line@);
        }
        let trimmed = crate::text::trim_chars(line.as_slice());
        if crate::text::starts_with_chars(trimmed.as_slice(), dep_chars.as_slice()) {
            out.append(replacement);
        } else {
            crate::text::push_chars(&mut out, line.as_slice());
        }
        out.append("\n");
        pos = next;
    }
    assert(lines_from(v@, pos as int) == Seq::<Seq<char>>::empty());
    assert(done + Seq::<Seq<char>>::empty() == done);
    out
}

/// The manifest of crate `krate` with its path dependency on another
/// workspace crate turned into a dependency on version `version`, as done
/// before publishing; see `patched_manifest_from`.
pub fn patch_manifest(manifest: &str, krate: &str, names: &Vec<String>, version: &str) -> (r: String)
    ensures
        r@ == patched_manifest_from(manifest@, krate@, views(names@), version@, 0),
{
    let n = names.len();
    for j in 0..n
        invariant
            n == names@.len(),
            patched_manifest_from(manifest@, krate@, views(names@), version@, 0)
                == patched_manifest_from(manifest@, krate@, views(names@), version@, j as int),
    {
        let name = names[j].as_str();
        if !crate::text::same_text(name, krate) {
            let dep = path_dependency_of(name);
            if crate::text::contains_text(manifest, dep.as_str()) {
                let mut ver = name.to_string();
                ver.append(" = \"");
                ver.append(version);
                ver.append("\"");
                return rewrite_manifest_lines(manifest, dep.as_str(), ver.as_str());
            }
        }
    }
    manifest.to_string()
}


/// `(ka, a)` comes strictly before `(kb, b)`: by key, then by position.
pub open spec fn key_index_lt(ka: nat, a: nat, kb: nat, b: nat) -> bool {
    ka < kb || (ka == kb && a < b)
}

/// The publishing order: indices of the publishable crates, by ascending
/// number of workspace path dependencies, ties in workspace order.
pub open spec fn is_publish_order(crates: Seq<WorkspaceCrate>, counts: Seq<usize>, order: Seq<usize>) -> bool {
    &&& forall|i: int| 0 <= i < order.len() ==> (#[trigger] order[i] as int) < crates.len() && crates[order[i] as int].publish
    &&& forall|j: int| 0 <= j < crates.len() && crates[j].publish ==> #[trigger] order.contains(j as usize)
    &&& forall|a: int, b: int|
        0 <= a < b < order.len() ==> key_index_lt(
            counts[#[trigger] order[a] as int] as nat,
            order[a] as nat,
            counts[#[trigger] order[b] as int] as nat,
            order[b] as nat,
        )
}

/// The message of a crate to publish that is unknown or not publishable.
pub open spec fn unknown_crate_message(name: Seq<char>) -> Seq<char> {
    "crate '"@ + name + "' not found in workspace or not publishable"@
}

/// The crates to publish, as indices into `crates`: the named one, which
/// must be publishable, or else every publishable crate, those with fewer
/// path dependencies on the workspace (`counts`, one per crate) first and
/// ties in workspace order.
pub fn publish_plan(crates: &Vec<WorkspaceCrate>, counts: &Vec<usize>, crate_name: Option<&str>) -> (r:
    Result<Vec<usize>, String>)
    requires
        counts@.len() == crates@.len(),
    ensures
        match crate_name {
            Some(name) => match r {
                Ok(order) => order@.len() == 1 && (order@[0] as int) < crates@.len()
                    && crates@[order@[0] as int].publish && crates@[order@[0] as int].name@ == name@
                    && forall|j: int| 0 <= j < order@[0] ==> !(crates@[j].publish && #[trigger] crates@[j].name@ == name@),
                Err(m) => m@ == unknown_crate_message(name@) && forall|j: int|
                    0 <= j < crates@.len() ==> !(crates@[j].publish && #[trigger] crates@[j].name@ == name@),
            },
            None => r matches Ok(order) && is_publish_order(crates@, counts@, order@),
        },
{
    match crate_name {
        Some(name) => {
            let n = crates.len();
            for j in 0..n
                invariant
                    n == crates@.len(),
                    crate_name == Some(name),
                    forall|i: int| 0 <= i < j ==> !(crates@[i].publish && #[trigger] crates@[i].name@ == name@),
            {
                if crates[j].publish && crate::text::same_text(crates[j].name.as_str(), name) {
                    let mut order: Vec<usize> = Vec::new();
                    order.push(j);
                    assert(order@[0] == j);
                    assert(crates@[j as int].name@ == name@);
                    assert forall|i: int| 0 <= i < order@[0] implies !(crates@[i].publish && #[trigger] crates@[i].name@ == name@) by {
                        assert(i < j);
                    }
                    return Ok(order);
                }
            }
            let mut m = "crate '".to_string();
            m.append(name);
            m.append("' not found in workspace or not publishable");
            Err(m)
        },
        None => {
            let mut order: Vec<usize> = Vec::new();
            let n = crates.len();
            for j in 0..n
                invariant
                    n == crates@.len(),
                    counts@.len() == n,
                    forall|i: int| 0 <= i < order@.len() ==> (#[trigger] order@[i] as int) < j && crates@[order@[i] as int].publish,
                    forall|i: int| 0 <= i < j && crates@[i].publish ==> #[trigger] order@.contains(i as usize),
                    forall|a: int, b: int|
                        0 <= a < b < order@.len() ==> key_index_lt(
                            counts@[#[trigger] order@[a] as int] as nat,
                            order@[a] as nat,
                            counts@[#[trigger] order@[b] as int] as nat,
                            order@[b] as nat,
                        ),
            {
                if crates[j].publish {
                    let key = counts[j];
                    let mut pos: usize = 0;
                    while pos < order.len() && counts[order[pos]] <= key
                        invariant
                            pos <= order@.len(),
                            counts@.len() == n,
                            j < n,
                            key == counts@[j as int],
                            forall|i: int| 0 <= i < order@.len() ==> (#[trigger] order@[i] as int) < j,
                            forall|i: int| 0 <= i < pos ==> counts@[#[trigger] order@[i] as int] <= key,
                        decreases order.len() - pos,
                    {
                        pos = pos + 1;
                    }
                    let ghost before = order@;
                    order.insert(pos, j);
                    proof {
                        assert(order@ =~= before.insert(pos as int, j));
                        assert forall|i: int| 0 <= i < j + 1 && crates@[i].publish implies #[trigger] order@.contains(i as usize) by {
                            if i < j {
                                assert(before.contains(i as usize));
                                let k = choose|k: int| 0 <= k < before.len() && before[k] == i as usize;
                                if k < pos {
                                    assert(order@[k] == i as usize);
                                } else {
                                    assert(order@[k + 1] == i as usize);
                                }
                            } else {
                                assert(order@[pos as int] == j);
                            }
                        }
                        assert forall|a: int, b: int| 0 <= a < b < order@.len() implies key_index_lt(
                            counts@[#[trigger] order@[a] as int] as nat,
                            order@[a] as nat,
                            counts@[#[trigger] order@[b] as int] as nat,
                            order@[b] as nat,
                        ) by {
                            if b == pos {
                                assert(order@[a] == before[a]);
                            } else if a == pos && b > pos {
                                assert(order@[b] == before[b - 1]);
                                if pos < before.len() {
                                    assert(counts@[before[pos as int] as int] > key);
                                    if b - 1 > pos {
                                        assert(key_index_lt(
                                            counts@[before[pos as int] as int] as nat,
                                            before[pos as int] as nat,
                                            counts@[before[b - 1] as int] as nat,
                                            before[b - 1] as nat,
                                        ));
                                    }
                                }
                            } else if b < pos {
                                assert(order@[a] == before[a]);
                                assert(order@[b] == before[b]);
                            } else if a < pos && b > pos {
                                assert(order@[a] == before[a]);
                                assert(order@[b] == before[b - 1]);
                                if pos < before.len() && a < pos {
                                    assert(key_index_lt(
                                        counts@[before[a] as int] as nat,
                                        before[a] as nat,
                                        counts@[before[b - 1] as int] as nat,
                                        before[b - 1] as nat,
                                    ));
                                }
                            } else {
                                assert(order@[a] == before[a - 1]);
                                assert(order@[b] == before[b - 1]);
                            }
                        }
                    }
                }
            }
            Ok(order)
        },
    }
}

/// What became of publishing one crate.
#[derive(Debug, Clone, Copy, PartialEq, Eq, Structural)]
pub enum PublishOutcome {
    /// The registry accepted the crate.
    Published,
    /// The registry already holds this version; it is skipped.
    AlreadyPublished,
    /// Publishing failed; the run stops.
    Failed,
}

/// The outcome of `cargo publish` from its success and its error output: a
/// failure whose output says that the version already exists (or was
/// already uploaded) counts as already published.
pub fn publish_outcome(success: bool, stderr: &str) -> (r: PublishOutcome)
    ensures
        success ==> r == PublishOutcome::Published,
        !success && (contains_seq(stderr@, "already exists"@) || contains_seq(stderr@, "already uploaded"@))
            ==> r == PublishOutcome::AlreadyPublished,
        !success && !(contains_seq(stderr@, "already exists"@) || contains_seq(stderr@, "already uploaded"@))
            ==> r == PublishOutcome::Failed,
{
    if success {
        PublishOutcome::Published
    } else if crate::text::contains_text(stderr, "already exists") || crate::text::contains_text(
        stderr,
        "already uploaded",
    ) {
        PublishOutcome::AlreadyPublished
    } else {
        PublishOutcome::Failed
    }
}


/// Whether a file with extension `ext` is a prdoc file.
pub fn is_prdoc_extension(ext: Option<&str>) -> (r: bool)
    ensures
        r == (ext matches Some(e) && e@ == "prdoc"@),
{
    match ext {
        Some(e) => crate::text::same_text(e, "prdoc"),
        None => false,
    }
}

/// The issues of a prdoc, with the backport rule when a branch is given.
pub open spec fn issues_for(p: PrDoc, branch: Option<Seq<char>>) -> Seq<Seq<char>> {
    match branch {
        Some(b) => prdoc_branch_issues(p, b),
        None => prdoc_issues(p),
    }
}

/// The entry of a directory report for one prdoc file: the load error when
/// it could not be read, its issues when it has some, nothing otherwise.
pub open spec fn directory_entry(path: Seq<char>, loaded: Result<PrDoc, String>, branch: Option<Seq<char>>) -> Option<Seq<char>> {
    match loaded {
        Err(m) => Some(path + ": "@ + m@),
        Ok(p) => if issues_for(p, branch).len() == 0 {
            None
        } else {
            Some(file_issue_block(path, issues_for(p, branch)))
        },
    }
}

/// The entries of a directory report for the first `n` prdoc files, in order.
pub open spec fn directory_entries(files: Seq<(String, Result<PrDoc, String>)>, branch: Option<Seq<char>>, n: nat) -> Seq<Seq<char>>
    decreases n,
{
    if n == 0 {
        Seq::empty()
    } else {
        let prev = directory_entries(files, branch, (n - 1) as nat);
        match directory_entry(files[n - 1].0@, files[n - 1].1, branch) {
            Some(e) => prev.push(e),
            None => prev,
        }
    }
}

/// A prdoc file that was read and has no issue.
pub open spec fn file_is_clean(loaded: Result<PrDoc, String>, branch: Option<Seq<char>>) -> bool {
    match loaded {
        Ok(p) => issues_for(p, branch).len() == 0,
        Err(_) => false,
    }
}

/// The view of an optional branch name.
pub open spec fn branch_view(branch: Option<&str>) -> Option<Seq<char>> {
    match branch {
        Some(b) => Some(b@),
        None => None,
    }
}

proof fn lemma_directory_entries_empty(files: Seq<(String, Result<PrDoc, String>)>, branch: Option<Seq<char>>, n: nat)
    requires
        n <= files.len(),
    ensures
        directory_entries(files, branch, n).len() == 0 <==> forall|i: int| 0 <= i < n ==> file_is_clean((#[trigger] files[i]).1, branch),
    decreases n,
{
    if n > 0 {
        lemma_directory_entries_empty(files, branch, (n - 1) as nat);
        let prev = directory_entries(files, branch, (n - 1) as nat);
        if directory_entry(files[n - 1].0@, files[n - 1].1, branch) is Some {
            assert(directory_entries(files, branch, n).len() == prev.len() + 1);
        }
    }
}

/// The report on a directory of prdoc files, given each file's path and
/// what reading it gave: every file that could not be read or has issues
/// gets an entry, in order. The report is `Ok` exactly when every file was
/// read and has no issue.
pub fn directory_validation(files: &Vec<(String, Result<PrDoc, String>)>, branch: Option<&str>) -> (r: Result<String, String>)
    ensures
        match r {
            Ok(s) => directory_verdict(files@.len(), directory_entries(files@, branch_view(branch), files@.len() as nat)) == Ok::<Seq<char>, Seq<char>>(s@),
            Err(s) => directory_verdict(files@.len(), directory_entries(files@, branch_view(branch), files@.len() as nat)) == Err::<Seq<char>, Seq<char>>(s@),
        },
        r is Ok <==> forall|i: int| 0 <= i < files@.len() ==> file_is_clean((#[trigger] files@[i]).1, branch_view(branch)),
{
    let mut entries: Vec<String> = Vec::new();
    let n = files.len();
    for i in 0..n
        invariant
            n == files@.len(),
            views(entries@) == directory_entries(files@, branch_view(branch), i as nat),
    {
        let (path, loaded) = &files[i];
        let ghost before = entries@;
        match loaded {
            Err(m) => {
                let e = file_error_entry(path.as_str(), m.as_str());
                proof {
                    lemma_views_push(before, e);
                }
                entries.push(e);
            },
            Ok(p) => {
                let issues = validation_issues(p, branch);
                assert(views(issues@) == issues_for(*p, branch_view(branch)));
                if issues.len() > 0 {
                    let e = file_issue_entry(path.as_str(), &issues);
                    proof {
                        lemma_views_push(before, e);
                    }
                    entries.push(e);
                }
            },
        }
    }
    proof {
        lemma_directory_entries_empty(files@, branch_view(branch), n as nat);
    }
    directory_report(n, &entries)
}


/// The line printed before publishing a crate.
pub fn publishing_line(name: &str, version: &str) -> (r: String)
    ensures
        r@ == "Publishing "@ + name@ + " v"@ + version@ + "..."@,
{
    let mut out = "Publishing ".to_string();
    out.append(name);
    out.append(" v");
    out.append(version);
    out.append("...");
    out
}

/// What follows the publishing of one crate: `Ok` with the line to print
/// when the run goes on (published, or already published and skipped), or
/// `Err` with the error that stops the run, after which the manifests are
/// restored.
pub open spec fn publish_step_result(name: Seq<char>, version: Seq<char>, success: bool, stderr: Seq<char>) -> Result<Seq<char>, Seq<char>> {
    if success {
        Ok("Published "@ + name + " v"@ + version)
    } else if contains_seq(stderr, "already exists"@) || contains_seq(stderr, "already uploaded"@) {
        Ok(name + " v"@ + version + " already published \u{2014} skipping"@)
    } else {
        Err("publish failed for "@ + name + ":\n"@ + stderr)
    }
}

/// The step of the publishing run after `cargo publish` of one crate.
pub fn publish_step(name: &str, version: &str, success: bool, stderr: &str) -> (r: Result<String, String>)
    ensures
        match r {
            Ok(s) => publish_step_result(name@, version@, success, stderr@) == Ok::<Seq<char>, Seq<char>>(s@),
            Err(s) => publish_step_result(name@, version@, success, stderr@) == Err::<Seq<char>, Seq<char>>(s@),
        },
{
    match publish_outcome(success, stderr) {
        PublishOutcome::Published => {
            let mut out = "Published ".to_string();
            out.append(name);
            out.append(" v");
            out.append(version);
            Ok(out)
        },
        PublishOutcome::AlreadyPublished => {
            let mut out = name.to_string();
            out.append(" v");
            out.append(version);
            out.append(" already published \u{2014} skipping");
            Ok(out)
        },
        PublishOutcome::Failed => {
            let mut out = "publish failed for ".to_string();
            out.append(name);
            out.append(":\n");
            out.append(stderr);
            Err(out)
        },
    }
}

/// Where the prdocs of a changelog came from: the directory when one was
/// given, else the commit range, else `prdoc/`.
pub open spec fn changelog_source(dir: Option<Seq<char>>, from: Option<Seq<char>>) -> Seq<char> {
    match dir {
        Some(d) => d,
        None => match from {
            Some(f) => f,
            None => "prdoc/"@,
        },
    }
}

/// The summary of a generated changelog.
pub fn changelog_summary(output: &str, count: usize, dir: Option<&str>, from: Option<&str>) -> (r: String)
    ensures
        r@ == "Generated "@ + output@ + " with "@ + decimal(count as nat) + " entr(ies) from '"@
            + changelog_source(branch_view(dir), branch_view(from)) + "'"@,
{
    let mut out = "Generated ".to_string();
    out.append(output);
    out.append(" with ");
    push_decimal(&mut out, count);
    out.append(" entr(ies) from '");
    match dir {
        Some(d) => out.append(d),
        None => match from {
            Some(f) => out.append(f),
            None => out.append("prdoc/"),
        },
    }
    out.append("'");
    out
}

/// The number of lines of a text, as `str::lines` counts them.
pub fn line_count(text: &str) -> (r: usize)
    ensures
        r == lines_from(text@, 0).len(),
{
    proof {
        reveal_strlit("\n");
    }
    let v = chars_of(text);
    let nl = chars_of("\n");
    let mut count: usize = 0;
    let mut pos: usize = 0;
    while pos < v.len()
        invariant
            pos <= v@.len(),
            nl@ == "\n"@,
            nl@.len() == 1,
            count <= pos,
            count + lines_from(v@, pos as int).len() == lines_from(v@, 0).len(),
        decreases v.len() - pos,
    {
        proof {
            crate::text::lemma_find_from(v@, nl@, pos as int);
        }
        let next = match find_chars(v.as_slice(), nl.as_slice(), pos) {
            Some(k) => k + 1,
            None => v.len(),
        };
        assert(lines_from(v@, pos as int).len() == 1 + lines_from(v@, next as int).len());
        count = count + 1;
        pos = next;
    }
    count
}

/// The coverage summary of a commit range from its `git log --oneline`
/// text (one commit per line) and the number of prdocs found.
pub fn commit_coverage_report(log: &str, found: usize) -> (r: String)
    ensures
        r@ == coverage_summary(lines_from(log@, 0).len(), found as nat),
{
    verify_report(line_count(log), found)
}


/// Where a new prdoc is generated from.
#[derive(Debug, Clone, PartialEq, Eq)]
pub enum GenerateSource {
    /// A pull request, by number.
    PullRequest(u64),
    /// A commit range.
    Range(String),
    /// A diff file, by path.
    DiffFile(String),
}

/// The message when no source for a generated prdoc is given.
pub open spec fn no_generate_source_message() -> Seq<char> {
    "One of --pr, --from, or --diff is required"@
}

/// The source of a generated prdoc: a pull request when a number is given,
/// else a commit range, else a diff file; one of them is required.
pub fn generate_source(pr: Option<u64>, from: Option<&str>, diff: Option<&str>) -> (r: Result<GenerateSource, String>)
    ensures
        match pr {
            Some(n) => r == Ok::<GenerateSource, String>(GenerateSource::PullRequest(n)),
            None => match from {
                Some(f) => r matches Ok(GenerateSource::Range(g)) && g@ == f@,
                None => match diff {
                    Some(d) => r matches Ok(GenerateSource::DiffFile(g)) && g@ == d@,
                    None => r matches Err(m) && m@ == no_generate_source_message(),
                },
            },
        },
{
    match pr {
        Some(n) => Ok(GenerateSource::PullRequest(n)),
        None => match from {
            Some(f) => Ok(GenerateSource::Range(f.to_string())),
            None => match diff {
                Some(d) => Ok(GenerateSource::DiffFile(d.to_string())),
                None => Err("One of --pr, --from, or --diff is required".to_string()),
            },
        },
    }
}

/// Whether a generated prdoc may be written to `output_path`: not when the
/// file exists and overwriting was not asked for.
pub fn check_output_free(output_path: &str, exists: bool, force: bool) -> (r: Result<(), String>)
    ensures
        exists && !force ==> (r matches Err(m) && m@ == output_path@ + " exists. Use --force to overwrite."@),
        !(exists && !force) ==> r is Ok,
{
    if exists && !force {
        let mut m = output_path.to_string();
        m.append(" exists. Use --force to overwrite.");
        Err(m)
    } else {
        Ok(())
    }
}

/// Where the prdocs of a changelog are collected from.
#[derive(Debug, Clone, PartialEq, Eq)]
pub enum ChangelogSource {
    /// A directory of prdoc files.
    Directory(String),
    /// The prdocs added in a commit range.
    Range(String),
    /// The prdoc directory of the project's configuration.
    ProjectDefault,
}

/// The source of a changelog: the directory when one is given (it must
/// exist), else the commit range, else the project's prdoc directory.
pub fn changelog_source_choice(dir: Option<&str>, dir_exists: bool, from: Option<&str>) -> (r: Result<ChangelogSource, String>)
    ensures
        match dir {
            Some(d) => if dir_exists {
                r matches Ok(ChangelogSource::Directory(g)) && g@ == d@
            } else {
                r matches Err(m) && m@ == "Directory not found: "@ + d@
            },
            None => match from {
                Some(f) => r matches Ok(ChangelogSource::Range(g)) && g@ == f@,
                None => r == Ok::<ChangelogSource, String>(ChangelogSource::ProjectDefault),
            },
        },
{
    match dir {
        Some(d) => if dir_exists {
            Ok(ChangelogSource::Directory(d.to_string()))
        } else {
            let mut m = "Directory not found: ".to_string();
            m.append(d);
            Err(m)
        },
        None => match from {
            Some(f) => Ok(ChangelogSource::Range(f.to_string())),
            None => Ok(ChangelogSource::ProjectDefault),
        },
    }
}

/// The error when the project's prdoc directory cannot be used: no project
/// root was found, or it has no prdoc directory.
pub fn project_default_source_error(root_found: bool) -> (r: String)
    ensures
        root_found ==> r@ == "No prdoc directory found. Use --from or --dir."@,
        !root_found ==> r@ == "No project root found. Use --from or --dir."@,
{
    if root_found {
        "No prdoc directory found. Use --from or --dir.".to_string()
    } else {
        "No project root found. Use --from or --dir.".to_string()
    }
}

/// The state of a publishing run: the manifests rewritten so far, by crate
/// index, each with its original text, in the order they were rewritten.
pub struct PublishRun {
    pub rewritten: Vec<(usize, String)>,
}

/// What the publishing run does after one crate's `cargo publish`.
pub enum PublishAction {
    /// Print the line and go on with the next crate.
    Continue(String),
    /// Restore these manifests (crate index, original text) and stop with
    /// the error.
    Abort(Vec<(usize, String)>, String),
}

/// The rewritten manifests of a run, by crate index and original text.
pub open spec fn rewrite_records(v: Seq<(usize, String)>) -> Seq<(usize, Seq<char>)> {
    v.map_values(|e: (usize, String)| (e.0, e.1@))
}

fn clone_records(v: &Vec<(usize, String)>) -> (r: Vec<(usize, String)>)
    ensures
        rewrite_records(r@) == rewrite_records(v@),
{
    let mut r: Vec<(usize, String)> = Vec::new();
    let n = v.len();
    for i in 0..n
        invariant
            n == v@.len(),
            rewrite_records(r@) == rewrite_records(v@.take(i as int)),
    {
        let (k, t) = &v[i];
        let c = t.clone();
        let ghost old_r = r@;
        let ghost e = v@[i as int];
        assert(*k == e.0 && c@ == e.1@);
        r.push((*k, c));
        assert(rewrite_records(r@) =~= rewrite_records(old_r).push((e.0, e.1@)));
        assert(v@.take(i + 1) == v@.take(i as int).push(e));
        assert(rewrite_records(v@.take(i + 1)) =~= rewrite_records(v@.take(i as int)).push((e.0, e.1@)));
    }
    assert(v@.take(n as int) == v@);
    r
}

impl PublishRun {
    /// A run that has rewritten nothing yet.
    pub fn new() -> (run: PublishRun)
        ensures
            run.rewritten@.len() == 0,
    {
        PublishRun { rewritten: Vec::new() }
    }

    /// Records the manifest of crate `index` after patching: it must be
    /// written (and later restored) exactly when the patch changed it.
    pub fn note_manifest(&mut self, index: usize, original: String, patched: &str) -> (write: bool)
        ensures
            write == (patched@ != original@),
            write ==> rewrite_records(final(self).rewritten@) == rewrite_records(old(self).rewritten@).push((index, original@)),
            !write ==> rewrite_records(final(self).rewritten@) == rewrite_records(old(self).rewritten@),
    {
        let write = !crate::text::same_text(patched, original.as_str());
        if write {
            let ghost before = self.rewritten@;
            self.rewritten.push((index, original));
            assert(rewrite_records(self.rewritten@) =~= rewrite_records(before).push((index, original@)));
        }
        write
    }

    /// What to do after `cargo publish` of crate `name`: go on with the line
    /// to print, or, on failure, restore every manifest rewritten so far and
    /// stop with the error.
    pub fn after_publish(&self, name: &str, version: &str, success: bool, stderr: &str) -> (a: PublishAction)
        ensures
            match a {
                PublishAction::Continue(line) => publish_step_result(name@, version@, success, stderr@)
                    == Ok::<Seq<char>, Seq<char>>(line@),
                PublishAction::Abort(restore, error) => publish_step_result(name@, version@, success, stderr@)
                    == Err::<Seq<char>, Seq<char>>(error@) && rewrite_records(restore@) == rewrite_records(self.rewritten@),
            },
    {
        match publish_step(name, version, success, stderr) {
            Ok(line) => PublishAction::Continue(line),
            Err(error) => PublishAction::Abort(clone_records(&self.rewritten), error),
        }
    }

    /// The end of a run in which every crate was published: every rewritten
    /// manifest is restored, and the run reports success.
    pub fn finish(self) -> (r: (Vec<(usize, String)>, String))
        ensures
            rewrite_records(r.0@) == rewrite_records(self.rewritten@),
            r.1@ == "All crates published successfully."@,
    {
        (self.rewritten, "All crates published successfully.".to_string())
    }
}


proof fn lemma_patched_manifest_skip(
    manifest: Seq<char>,
    krate: Seq<char>,
    names: Seq<Seq<char>>,
    version: Seq<char>,
    i: int,
    j: int,
)
    requires
        0 <= i <= j <= names.len(),
        forall|k: int| 0 <= k < j ==> names[k] == krate || !contains_seq(manifest, #[trigger] path_dependency(names[k])),
    ensures
        patched_manifest_from(manifest, krate, names, version, i) == patched_manifest_from(manifest, krate, names, version, j),
    decreases j - i,
{
    if i < j {
        lemma_patched_manifest_skip(manifest, krate, names, version, i + 1, j);
        assert(names[i] == krate || !contains_seq(manifest, path_dependency(names[i])));
    }
}

/// Preparing the manifest of `krate` for publishing rewrites the path
/// dependency on the first workspace crate, other than `krate` itself by
/// name, that the manifest declares as `name = { path = "`: each line whose
/// trimmed text starts with that declaration becomes `name = "version"`,
/// every other line stays, and each line ends with a newline.
pub proof fn publish_rewrites_first_other_path_dependency(
    manifest: Seq<char>,
    krate: Seq<char>,
    names: Seq<Seq<char>>,
    version: Seq<char>,
    j: int,
)
    requires
        0 <= j < names.len(),
        names[j] != krate,
        contains_seq(manifest, names[j] + " = { path = \""@),
        forall|i: int| 0 <= i < j ==> names[i] == krate || !contains_seq(manifest, #[trigger] names[i] + " = { path = \""@),
    ensures
        patched_manifest_from(manifest, krate, names, version, 0) == rewrite_lines(
            lines_from(manifest, 0),
            names[j] + " = { path = \""@,
            names[j] + " = \""@ + version + "\""@,
        ),
{
    assert forall|k: int| 0 <= k < j implies names[k] == krate || !contains_seq(manifest, #[trigger] path_dependency(names[k])) by {
        assert(path_dependency(names[k]) == names[k] + " = { path = \""@);
    }
    lemma_patched_manifest_skip(manifest, krate, names, version, 0, j);
}

/// A manifest that declares no path dependency on any workspace crate
/// other than `krate` itself is published as it is.
pub proof fn publish_keeps_manifest_without_other_path_dependency(
    manifest: Seq<char>,
    krate: Seq<char>,
    names: Seq<Seq<char>>,
    version: Seq<char>,
)
    requires
        forall|i: int| 0 <= i < names.len() ==> names[i] == krate || !contains_seq(manifest, #[trigger] names[i] + " = { path = \""@),
    ensures
        patched_manifest_from(manifest, krate, names, version, 0) == manifest,
{
    assert forall|k: int| 0 <= k < names.len() implies names[k] == krate || !contains_seq(manifest, #[trigger] path_dependency(names[k])) by {
        assert(path_dependency(names[k]) == names[k] + " = { path = \""@);
    }
    lemma_patched_manifest_skip(manifest, krate, names, version, 0, names.len() as int);
}

proof fn lemma_dependency_count_filter(content: Seq<char>, names: Seq<Seq<char>>, n: nat)
    requires
        n <= names.len(),
    ensures
        path_dependency_count(content, names, n) == names.take(n as int).filter(
            |name: Seq<char>| contains_seq(content, name + " = { path = "@),
        ).len(),
    decreases n,
{
    reveal_with_fuel(Seq::<Seq<char>>::filter, 1);
    let pred = |name: Seq<char>| contains_seq(content, name + " = { path = "@);
    if n == 0 {
        assert(names.take(0).filter(pred) =~= Seq::<Seq<char>>::empty());
    } else {
        lemma_dependency_count_filter(content, names, (n - 1) as nat);
        let t = names.take(n as int);
        assert(t.drop_last() =~= names.take(n - 1));
        assert(t.last() == names[n - 1]);
        assert(path_dependency_start(names[n - 1]) == names[n - 1] + " = { path = "@);
    }
}

/// The number of workspace path dependencies of a manifest is the number
/// of workspace crates `name` for which it holds the text
/// `name = { path = `; no other kind of declaration counts.
pub proof fn dependency_count_counts_path_declarations(content: Seq<char>, names: Seq<Seq<char>>)
    ensures
        path_dependency_count(content, names, names.len()) == names.filter(
            |name: Seq<char>| contains_seq(content, name + " = { path = "@),
        ).len(),
{
    lemma_dependency_count_filter(content, names, names.len());
    assert(names.take(names.len() as int) =~= names);
}

} // verus!
