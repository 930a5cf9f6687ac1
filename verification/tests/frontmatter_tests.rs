use changelogger_prdoc::{
    default_output_dir, default_prdoc_folders, default_schema, default_template,
    extract_frontmatter, fix_prdoc_content, fix_prdoc_content_with, PrdocConfig, PrdocError,
};

const VALID: &str = r#"---
title: "Add new feature"
doc:
  - audience: Developer
    description: "A new feature"
crates:
  - name: my-crate
    bump: minor
---"#;

#[test]
fn frontmatter_of_valid_prdoc() {
    let f = extract_frontmatter(VALID).unwrap();
    assert!(f.starts_with("title: \"Add new feature\""));
    assert!(f.ends_with("bump: minor"));
    assert!(!f.contains("---"));
}

#[test]
fn frontmatter_is_trimmed_and_leading_space_skipped() {
    let f = extract_frontmatter("  \n---\n  a: 1  \n---\nrest").unwrap();
    assert_eq!(f, "a: 1");
}

#[test]
fn frontmatter_must_open() {
    match extract_frontmatter("title: x\n---") {
        Err(PrdocError::Frontmatter(m)) => {
            assert_eq!(m, "content must start with YAML frontmatter (---)")
        }
        _ => panic!("expected a frontmatter error"),
    }
}

#[test]
fn frontmatter_must_close() {
    match extract_frontmatter("---\ntitle: x\n") {
        Err(PrdocError::Frontmatter(m)) => assert_eq!(m, "frontmatter must be closed with ---"),
        _ => panic!("expected a frontmatter error"),
    }
}

#[test]
fn frontmatter_closing_marker_right_after_opening() {
    assert_eq!(extract_frontmatter("---\n---").unwrap(), "");
}

#[test]
fn fix_replaces_empty_crates_list() {
    let mut content = "---\ntitle: x\ncrates: [ ]\n---\n".to_string();
    let fixes = fix_prdoc_content(&mut content);
    assert_eq!(fixes, vec!["replaced empty crates section with default crate".to_string()]);
    assert_eq!(
        content,
        "---\ntitle: x\ncrates:\n  - name: changelogger-cli\n    bump: patch\n---\n"
    );
}

#[test]
fn fix_adds_missing_crates_before_closing_marker() {
    let mut content = "---\ntitle: x\n---\n\n".to_string();
    let fixes = fix_prdoc_content(&mut content);
    assert_eq!(fixes, vec!["added missing crates section with default crate".to_string()]);
    assert_eq!(
        content,
        "---\ntitle: x\ncrates:\n  - name: changelogger-cli\n    bump: patch\n---\n"
    );
}

#[test]
fn fix_adds_missing_crates_at_end_without_marker() {
    let mut content = "title: x  ".to_string();
    let fixes = fix_prdoc_content(&mut content);
    assert_eq!(fixes.len(), 1);
    assert_eq!(content, "title: x\ncrates:\n  - name: changelogger-cli\n    bump: patch\n");
}

#[test]
fn fix_replaces_placeholder_description() {
    let mut content =
        "---\ntitle: x...\ndoc:\n  - audience: Developer\n    description: |\n      ...\ncrates:\n  - name: a\n    bump: minor\n---\n"
            .to_string();
    let fixes = fix_prdoc_content(&mut content);
    assert_eq!(fixes, vec!["replaced placeholder description".to_string()]);
    assert!(content.contains("description: |\n      auto-fixed: see PR description"));
    assert!(content.contains("title: xauto-fixed: see PR description"));
}

#[test]
fn fix_leaves_a_good_prdoc_alone() {
    let mut content = "---\ntitle: x\ncrates:\n  - name: a\n    bump: minor\n---\n".to_string();
    let before = content.clone();
    assert!(fix_prdoc_content(&mut content).is_empty());
    assert_eq!(content, before);
}

#[test]
fn fix_with_given_empty_crates_result() {
    let mut content = "old".to_string();
    let fixes = fix_prdoc_content_with(&mut content, Some("x\n- name: y".to_string()));
    assert_eq!(fixes, vec!["replaced empty crates section with default crate".to_string()]);
    assert_eq!(content, "x\n- name: y");
}

#[test]
fn config_defaults() {
    let c = PrdocConfig::default();
    assert_eq!(c.version, 0);
    assert_eq!(c.output_dir, "prdoc");
    assert_eq!(c.schema, "prdoc/schema_user.json");
    assert_eq!(c.template, "templates/prdoc/.template.prdoc");
    assert_eq!(c.prdoc_folders, vec!["prdoc".to_string()]);
    assert!(c.audiences.is_none());
    assert_eq!(c.generate.default_output, "");
    assert_eq!(default_schema(), "prdoc/schema_user.json");
    assert_eq!(default_output_dir(), "prdoc");
    assert_eq!(default_prdoc_folders(), vec!["prdoc".to_string()]);
    assert_eq!(default_template(), "templates/prdoc/.template.prdoc");
}

#[test]
fn second_fix_changes_nothing() {
    for start in [
        "---\ntitle: x\ncrates: []\n---\n",
        "---\ntitle: x\ndoc:\n  - audience: User\n    description: |\n      ...\n---\n",
        "title: y",
    ] {
        let mut content = start.to_string();
        let first = fix_prdoc_content(&mut content);
        assert!(!first.is_empty());
        assert_ne!(content, start);
        let once = content.clone();
        assert!(fix_prdoc_content(&mut content).is_empty());
        assert_eq!(content, once);
    }
}

#[test]
fn crate_repairs_are_never_both_reported() {
    let mut content = "crates: []".to_string();
    let fixes = fix_prdoc_content(&mut content);
    assert_eq!(fixes, vec!["replaced empty crates section with default crate".to_string()]);
}
