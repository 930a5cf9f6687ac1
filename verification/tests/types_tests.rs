use changelogger_prdoc::{
    validate_prdoc, validate_prdoc_for_branch, Audience, BumpLevel, CrateChange, DocSection, PrDoc,
};

fn crate_change(name: &str, bump: BumpLevel, validate: bool) -> CrateChange {
    CrateChange { name: name.to_string(), bump, validate, note: None }
}

fn doc(description: &str) -> DocSection {
    DocSection { audience: Audience::Developer, description: description.to_string(), title: None }
}

#[test]
fn validate_empty_title() {
    let prdoc = PrDoc::default();
    let issues = validate_prdoc(&prdoc);
    assert!(!issues.is_empty());
    assert!(issues.iter().any(|i| i.contains("title")));
}

#[test]
fn bump_level_ordering() {
    assert!(BumpLevel::Major.dominates(&BumpLevel::Minor));
    assert!(BumpLevel::Minor.dominates(&BumpLevel::Patch));
    assert!(BumpLevel::Patch.dominates(&BumpLevel::NoBump));
    assert!(!BumpLevel::NoBump.dominates(&BumpLevel::Patch));
}

#[test]
fn bump_level_dominates_itself_and_is_total() {
    let all = [BumpLevel::Major, BumpLevel::Minor, BumpLevel::Patch, BumpLevel::NoBump];
    for a in all.iter() {
        assert!(a.dominates(a));
        for b in all.iter() {
            assert!(a.dominates(b) || b.dominates(a));
            if a.dominates(b) && b.dominates(a) {
                assert_eq!(a, b);
            }
        }
    }
}

#[test]
fn default_prdoc_reports_every_missing_part() {
    let issues = validate_prdoc(&PrDoc::default());
    assert_eq!(
        issues,
        vec![
            "title is required and cannot be '...'".to_string(),
            "at least one doc section is required".to_string(),
            "at least one crate must be listed".to_string(),
        ]
    );
}

#[test]
fn complete_prdoc_has_no_issues() {
    let mut prdoc = PrDoc::default();
    prdoc.title = "Add new feature".to_string();
    prdoc.doc.push(doc("A new feature"));
    prdoc.crates.push(crate_change("my-crate", BumpLevel::Minor, true));
    assert!(validate_prdoc(&prdoc).is_empty());
}

#[test]
fn placeholder_descriptions_and_empty_names_are_reported_by_position() {
    let mut prdoc = PrDoc::default();
    prdoc.title = "...".to_string();
    prdoc.doc.push(doc("fine"));
    prdoc.doc.push(doc("..."));
    prdoc.doc.push(doc(""));
    prdoc.crates.push(crate_change("", BumpLevel::Patch, true));
    let issues = validate_prdoc(&prdoc);
    assert_eq!(
        issues,
        vec![
            "title is required and cannot be '...'".to_string(),
            "doc[1].description is required and cannot be '...'".to_string(),
            "doc[2].description is required and cannot be '...'".to_string(),
            "crate name must not be empty".to_string(),
        ]
    );
}

#[test]
fn description_index_has_several_digits() {
    let mut prdoc = PrDoc::default();
    prdoc.title = "t".to_string();
    for _ in 0..12 {
        prdoc.doc.push(doc("ok"));
    }
    prdoc.doc.push(doc("..."));
    prdoc.crates.push(crate_change("c", BumpLevel::Patch, true));
    assert_eq!(
        validate_prdoc(&prdoc),
        vec!["doc[12].description is required and cannot be '...'".to_string()]
    );
}

#[test]
fn backport_branch_rejects_validated_major_bumps() {
    let mut prdoc = PrDoc::default();
    prdoc.title = "Fix".to_string();
    prdoc.doc.push(doc("fix"));
    prdoc.crates.push(crate_change("a", BumpLevel::Major, true));
    prdoc.crates.push(crate_change("b", BumpLevel::Major, false));
    prdoc.crates.push(crate_change("c", BumpLevel::Minor, true));
    assert_eq!(
        validate_prdoc_for_branch(&prdoc, "stable2409"),
        vec![
            "crate 'a' has major bump on backport branch 'stable2409' but validate=true. Set validate: false if intentional."
                .to_string()
        ]
    );
    assert_eq!(validate_prdoc_for_branch(&prdoc, "release-v1").len(), 1);
    assert!(validate_prdoc_for_branch(&prdoc, "main").is_empty());
    assert!(validate_prdoc_for_branch(&prdoc, "my-stable").is_empty());
}

#[test]
fn audience_names_round_trip() {
    for a in Audience::all() {
        assert_eq!(&Audience::from_str_lossy(a.as_str()), a);
    }
    assert_eq!(Audience::all().len(), 3);
}

#[test]
fn audience_is_read_leniently() {
    assert_eq!(Audience::from_str_lossy("DEV"), Audience::Developer);
    assert_eq!(Audience::from_str_lossy("op"), Audience::Operator);
    assert_eq!(Audience::from_str_lossy("Oper-ator"), Audience::Operator);
    assert_eq!(Audience::from_str_lossy("us_er"), Audience::User);
    assert_eq!(Audience::from_str_lossy("nobody"), Audience::Developer);
    assert_eq!(Audience::User.as_str(), "User");
}

#[test]
fn bump_level_names_round_trip() {
    for b in [BumpLevel::Major, BumpLevel::Minor, BumpLevel::Patch, BumpLevel::NoBump] {
        assert_eq!(BumpLevel::from_str_lossy(b.as_str()), b);
    }
    assert_eq!(BumpLevel::from_str_lossy("MAJOR"), BumpLevel::Major);
    assert_eq!(BumpLevel::from_str_lossy("huge"), BumpLevel::NoBump);
    assert_eq!(BumpLevel::Minor.as_str(), "minor");
}
