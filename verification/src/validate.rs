//! Validation of a prdoc: the list of problems that keep it from being a
//! complete record of a change, with the extra rule of backport branches.

use vstd::prelude::*;
use crate::text::{lemma_views_push, decimal, is_prefix, push_decimal, same_text, starts_with_text, views};
use crate::types::{BumpLevel, CrateChange, DocSection, PrDoc};

verus! {

broadcast use vstd::string::group_string_axioms;

/// A text that is empty or the `...` placeholder.
pub open spec fn is_placeholder(s: Seq<char>) -> bool {
    s.len() == 0 || s == "..."@
}

/// The issue reported for a missing or placeholder title.
pub open spec fn title_issue() -> Seq<char> {
    "title is required and cannot be '...'"@
}

/// The issue reported for a prdoc without documentation sections.
pub open spec fn no_doc_issue() -> Seq<char> {
    "at least one doc section is required"@
}

/// The issue reported for a prdoc that lists no crate.
pub open spec fn no_crates_issue() -> Seq<char> {
    "at least one crate must be listed"@
}

/// The issue reported for a crate without a name.
pub open spec fn empty_crate_name_issue() -> Seq<char> {
    "crate name must not be empty"@
}

/// The issue reported for the `i`th documentation section when its
/// description is missing or a placeholder.
pub open spec fn description_issue(i: nat) -> Seq<char> {
    "doc["@ + decimal(i) + "].description is required and cannot be '...'"@
}

/// The description issues of the first `n` documentation sections, in order.
pub open spec fn doc_issues(docs: Seq<DocSection>, n: nat) -> Seq<Seq<char>>
    decreases n,
{
    if n == 0 {
        Seq::empty()
    } else {
        let prev = doc_issues(docs, (n - 1) as nat);
        if is_placeholder(docs[n - 1].description@) {
            prev.push(description_issue((n - 1) as nat))
        } else {
            prev
        }
    }
}

/// The name issues of the first `n` crates, in order.
pub open spec fn crate_name_issues(crates: Seq<CrateChange>, n: nat) -> Seq<Seq<char>>
    decreases n,
{
    if n == 0 {
        Seq::empty()
    } else {
        let prev = crate_name_issues(crates, (n - 1) as nat);
        if crates[n - 1].name@.len() == 0 {
            prev.push(empty_crate_name_issue())
        } else {
            prev
        }
    }
}

/// Every issue of a prdoc, in the order in which they are reported.
pub open spec fn prdoc_issues(p: PrDoc) -> Seq<Seq<char>> {
    (if is_placeholder(p.title@) { seq![title_issue()] } else { Seq::empty() }) + (if p.doc@.len()
        == 0 {
        seq![no_doc_issue()]
    } else {
        Seq::empty()
    }) + doc_issues(p.doc@, p.doc@.len()) + (if p.crates@.len() == 0 {
        seq![no_crates_issue()]
    } else {
        Seq::empty()
    }) + crate_name_issues(p.crates@, p.crates@.len())
}

/// A complete prdoc: a real title, at least one section, each with a real
/// description, and at least one crate, each with a name.
pub open spec fn is_complete(p: PrDoc) -> bool {
    &&& !is_placeholder(p.title@)
    &&& p.doc@.len() > 0
    &&& forall|i: int| 0 <= i < p.doc@.len() ==> !is_placeholder(#[trigger] p.doc@[i].description@)
    &&& p.crates@.len() > 0
    &&& forall|i: int| 0 <= i < p.crates@.len() ==> #[trigger] p.crates@[i].name@.len() > 0
}

/// A branch that receives backports: its name starts with `stable` or `release`.
pub open spec fn is_backport_branch(branch: Seq<char>) -> bool {
    is_prefix("stable"@, branch) || is_prefix("release"@, branch)
}

/// The issue reported for a crate with a major bump on a backport branch.
pub open spec fn major_bump_issue(name: Seq<char>, branch: Seq<char>) -> Seq<char> {
    "crate '"@ + name + "' has major bump on backport branch '"@ + branch
        + "' but validate=true. Set validate: false if intentional."@
}

/// The backport issues of the first `n` crates: one for each crate with a
/// major bump whose `validate` flag is set.
pub open spec fn major_bump_issues(crates: Seq<CrateChange>, branch: Seq<char>, n: nat) -> Seq<
    Seq<char>,
>
    decreases n,
{
    if n == 0 {
        Seq::empty()
    } else {
        let prev = major_bump_issues(crates, branch, (n - 1) as nat);
        let c = crates[n - 1];
        if c.bump == BumpLevel::Major && c.validate {
            prev.push(major_bump_issue(c.name@, branch))
        } else {
            prev
        }
    }
}

/// Every issue of a prdoc meant for `branch`.
pub open spec fn prdoc_branch_issues(p: PrDoc, branch: Seq<char>) -> Seq<Seq<char>> {
    prdoc_issues(p) + if is_backport_branch(branch) {
        major_bump_issues(p.crates@, branch, p.crates@.len())
    } else {
        Seq::empty()
    }
}

fn is_placeholder_exec(s: &String) -> (r: bool)
    ensures
        r == is_placeholder(s@),
{
    s.as_str().is_empty() || same_text(s.as_str(), "...")
}

/// The problems that keep a prdoc from being complete, in a fixed order:
/// title, presence of sections, each section's description, presence of
/// crates, each crate's name.
pub fn validate_prdoc(prdoc: &PrDoc) -> (issues: Vec<String>)
    ensures
        views(issues@) == prdoc_issues(*prdoc),
{
    let mut issues: Vec<String> = Vec::new();
    if is_placeholder_exec(&prdoc.title) {
        issues.push("title is required and cannot be '...'".to_string());
    }
    if prdoc.doc.len() == 0 {
        issues.push("at least one doc section is required".to_string());
    }
    let ghost head = views(issues@);
    assert(head == (if is_placeholder(prdoc.title@) { seq![title_issue()] } else {
        Seq::empty()
    }) + (if prdoc.doc@.len() == 0 { seq![no_doc_issue()] } else { Seq::empty() }));
    let n = prdoc.doc.len();
    for i in 0..n
        invariant
            n == prdoc.doc@.len(),
            views(issues@) == head + doc_issues(prdoc.doc@, i as nat),
    {
        let ghost before = issues@;
        if is_placeholder_exec(&prdoc.doc[i].description) {
            let mut m = String::new();
            m.append("doc[");
            push_decimal(&mut m, i);
            m.append("].description is required and cannot be '...'");
            proof {
                lemma_views_push(before, m);
                assert(m@ == description_issue(i as nat));
            }
            issues.push(m);
            assert((head + doc_issues(prdoc.doc@, i as nat)).push(m@) =~= head + doc_issues(prdoc.doc@, i as nat).push(m@));
        }
        assert(views(issues@) == head + doc_issues(prdoc.doc@, (i + 1) as nat));
    }
    if prdoc.crates.len() == 0 {
        issues.push("at least one crate must be listed".to_string());
    }
    let ghost mid = views(issues@);
    let m = prdoc.crates.len();
    for i in 0..m
        invariant
            m == prdoc.crates@.len(),
            views(issues@) == mid + crate_name_issues(prdoc.crates@, i as nat),
    {
        let ghost before = issues@;
        if prdoc.crates[i].name.as_str().is_empty() {
            let m = "crate name must not be empty".to_string();
            proof {
                lemma_views_push(before, m);
            }
            issues.push(m);
            assert((mid + crate_name_issues(prdoc.crates@, i as nat)).push(m@) =~= mid + crate_name_issues(prdoc.crates@, i as nat).push(m@));
        }
        assert(views(issues@) == mid + crate_name_issues(prdoc.crates@, (i + 1) as nat));
    }
    issues
}

/// The problems of a prdoc meant for `branch`: those of `validate_prdoc`,
/// followed, on a backport branch (one whose name starts with `stable` or
/// `release`), by one for each crate with a major bump and `validate` set.
pub fn validate_prdoc_for_branch(prdoc: &PrDoc, branch: &str) -> (issues: Vec<String>)
    ensures
        views(issues@) == prdoc_branch_issues(*prdoc, branch@),
{
    let mut issues = validate_prdoc(prdoc);
    if starts_with_text(branch, "stable") || starts_with_text(branch, "release") {
        let ghost base = views(issues@);
        let m = prdoc.crates.len();
        for i in 0..m
            invariant
                m == prdoc.crates@.len(),
                views(issues@) == base + major_bump_issues(prdoc.crates@, branch@, i as nat),
        {
            let c = &prdoc.crates[i];
            if c.bump == BumpLevel::Major && c.validate {
                let mut msg = String::new();
                msg.append("crate '");
                msg.append(c.name.as_str());
                msg.append("' has major bump on backport branch '");
                msg.append(branch);
                msg.append("' but validate=true. Set validate: false if intentional.");
                let ghost before = issues@;
                proof {
                    lemma_views_push(before, msg);
                }
                issues.push(msg);
                assert((base + major_bump_issues(prdoc.crates@, branch@, i as nat)).push(msg@) =~= base + major_bump_issues(prdoc.crates@, branch@, i as nat).push(msg@));
            }
            assert(views(issues@) == base + major_bump_issues(prdoc.crates@, branch@, (i + 1) as nat));
        }
    }
    issues
}


proof fn lemma_doc_issues_empty(docs: Seq<DocSection>, n: nat)
    requires
        n <= docs.len(),
    ensures
        doc_issues(docs, n).len() == 0 <==> forall|i: int|
            0 <= i < n ==> !is_placeholder(#[trigger] docs[i].description@),
    decreases n,
{
    if n > 0 {
        lemma_doc_issues_empty(docs, (n - 1) as nat);
    }
}

proof fn lemma_crate_name_issues_empty(crates: Seq<CrateChange>, n: nat)
    requires
        n <= crates.len(),
    ensures
        crate_name_issues(crates, n).len() == 0 <==> forall|i: int|
            0 <= i < n ==> #[trigger] crates[i].name@.len() > 0,
    decreases n,
{
    if n > 0 {
        lemma_crate_name_issues_empty(crates, (n - 1) as nat);
    }
}

/// `validate_prdoc` reports no issue exactly when the prdoc is complete.
pub proof fn no_issues_iff_complete(p: PrDoc)
    ensures
        prdoc_issues(p).len() == 0 <==> is_complete(p),
{
    lemma_doc_issues_empty(p.doc@, p.doc@.len());
    lemma_crate_name_issues_empty(p.crates@, p.crates@.len());
}

/// `validate_prdoc_for_branch` reports every issue of `validate_prdoc`,
/// first and in the same order; on a branch that is not a backport branch
/// it reports nothing more.
pub proof fn branch_issues_extend_issues(p: PrDoc, branch: Seq<char>)
    ensures
        prdoc_issues(p).is_prefix_of(prdoc_branch_issues(p, branch)),
        !is_backport_branch(branch) ==> prdoc_branch_issues(p, branch) == prdoc_issues(p),
{
    assert(prdoc_branch_issues(p, branch).subrange(0, prdoc_issues(p).len() as int) =~= prdoc_issues(p));
    assert(prdoc_issues(p) + Seq::<Seq<char>>::empty() =~= prdoc_issues(p));
}


/// A prdoc has no issue exactly when its title is neither empty nor exactly
/// `...`, it has a documentation section and every section's description
/// is neither empty nor exactly `...`, and it lists a crate and every crate
/// has a name. A title that is empty or exactly `...` is reported first.
pub proof fn issues_only_for_empty_or_placeholder_texts(p: PrDoc)
    ensures
        prdoc_issues(p).len() == 0 <==> {
            &&& p.title@.len() > 0
            &&& p.title@ != "..."@
            &&& p.doc@.len() > 0
            &&& forall|i: int| 0 <= i < p.doc@.len() ==> (#[trigger] p.doc@[i]).description@.len() > 0
                && p.doc@[i].description@ != "..."@
            &&& p.crates@.len() > 0
            &&& forall|i: int| 0 <= i < p.crates@.len() ==> (#[trigger] p.crates@[i]).name@.len() > 0
        },
        (p.title@.len() == 0 || p.title@ == "..."@) ==> prdoc_issues(p).len() > 0 && prdoc_issues(p)[0]
            == "title is required and cannot be '...'"@,
{
    no_issues_iff_complete(p);
    if p.title@.len() == 0 || p.title@ == "..."@ {
        assert(prdoc_issues(p)[0] == title_issue());
    }
}

proof fn lemma_major_bump_issues_filter(crates: Seq<CrateChange>, branch: Seq<char>, n: nat)
    requires
        n <= crates.len(),
    ensures
        major_bump_issues(crates, branch, n) == crates.take(n as int).filter(
            |c: CrateChange| c.bump == BumpLevel::Major && c.validate,
        ).map_values(|c: CrateChange| major_bump_issue(c.name@, branch)),
    decreases n,
{
    reveal_with_fuel(Seq::<CrateChange>::filter, 1);
    let pred = |c: CrateChange| c.bump == BumpLevel::Major && c.validate;
    let f = |c: CrateChange| major_bump_issue(c.name@, branch);
    if n == 0 {
        assert(crates.take(0).filter(pred) =~= Seq::<CrateChange>::empty());
        assert(crates.take(0).filter(pred).map_values(f) =~= Seq::<Seq<char>>::empty());
    } else {
        lemma_major_bump_issues_filter(crates, branch, (n - 1) as nat);
        let t = crates.take(n as int);
        assert(t.drop_last() =~= crates.take(n - 1));
        assert(t.last() == crates[n - 1]);
        let prev = crates.take(n - 1).filter(pred);
        if pred(crates[n - 1]) {
            assert(t.filter(pred) == prev.push(crates[n - 1]));
            assert(t.filter(pred).map_values(f) =~= prev.map_values(f).push(f(crates[n - 1])));
        } else {
            assert(t.filter(pred) == prev);
        }
    }
}

/// On a backport branch (one whose name starts with `stable` or `release`)
/// the issues are those of the prdoc followed by one issue for each crate
/// with a major bump and `validate` set, in order, naming the crate and the
/// branch; on any other branch they are the prdoc's issues alone.
pub proof fn backport_issues_one_per_validated_major_crate(p: PrDoc, branch: Seq<char>)
    ensures
        is_prefix("stable"@, branch) || is_prefix("release"@, branch) ==> prdoc_branch_issues(p, branch)
            == prdoc_issues(p) + p.crates@.filter(
            |c: CrateChange| c.bump == BumpLevel::Major && c.validate,
        ).map_values(
            |c: CrateChange|
                "crate '"@ + c.name@ + "' has major bump on backport branch '"@ + branch
                    + "' but validate=true. Set validate: false if intentional."@,
        ),
        !(is_prefix("stable"@, branch) || is_prefix("release"@, branch)) ==> prdoc_branch_issues(p, branch)
            == prdoc_issues(p),
{
    lemma_major_bump_issues_filter(p.crates@, branch, p.crates@.len());
    assert(p.crates@.take(p.crates@.len() as int) =~= p.crates@);
    let f1 = |c: CrateChange| major_bump_issue(c.name@, branch);
    let f2 = |c: CrateChange|
        "crate '"@ + c.name@ + "' has major bump on backport branch '"@ + branch
            + "' but validate=true. Set validate: false if intentional."@;
    let fl = p.crates@.filter(|c: CrateChange| c.bump == BumpLevel::Major && c.validate);
    assert(fl.map_values(f1) =~= fl.map_values(f2));
    assert(prdoc_issues(p) + Seq::<Seq<char>>::empty() =~= prdoc_issues(p));
}

} // verus!
