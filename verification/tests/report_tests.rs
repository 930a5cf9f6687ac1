use changelogger_prdoc::report::{
    changelog_source_choice, check_output_free, generate_source, project_default_source_error,
    ChangelogSource, GenerateSource, PublishAction, PublishRun, changelog_summary, commit_coverage_report, directory_validation, is_prdoc_extension,
    line_count, publish_step, publishing_line, bump_report, ci_init_report, default_range, directory_report, file_error_entry,
    file_issue_entry, file_report, insert_release_section, major_minor, missing_prdoc_report,
    patch_manifest, publish_outcome, publish_plan, validation_issues, verify_report,
    workspace_dep_count, PublishOutcome,
};
use changelogger_prdoc::{BumpLevel, CrateChange, PrDoc, WorkspaceCrate};
use std::path::PathBuf;

fn s(v: &[&str]) -> Vec<String> {
    v.iter().map(|x| x.to_string()).collect()
}

#[test]
fn file_report_valid_and_invalid() {
    assert_eq!(file_report(&vec![]), Ok("prdoc is valid.".to_string()));
    assert_eq!(
        file_report(&s(&["a", "b"])),
        Err("Issues:\n  - a\n  - b\n".to_string())
    );
}

#[test]
fn directory_report_counts_or_lists() {
    assert_eq!(directory_report(3, &vec![]), Ok("Validated 3 prdoc file(s).".to_string()));
    let entry = file_issue_entry("prdoc/pr_1.prdoc", &s(&["x", "y"]));
    assert_eq!(entry, "prdoc/pr_1.prdoc:\n  - x\n  - y");
    let err = file_error_entry("prdoc/pr_2.prdoc", "Invalid frontmatter: oops");
    assert_eq!(err, "prdoc/pr_2.prdoc: Invalid frontmatter: oops");
    assert_eq!(
        directory_report(2, &vec![entry, err]),
        Err("prdoc/pr_1.prdoc:\n  - x\n  - y\nprdoc/pr_2.prdoc: Invalid frontmatter: oops".to_string())
    );
}

#[test]
fn missing_prdoc_in_and_out_of_ci() {
    assert_eq!(
        missing_prdoc_report("prdoc/pr_9.prdoc", true),
        Err("prdoc not found at prdoc/pr_9.prdoc. PRs require prdoc.".to_string())
    );
    assert_eq!(
        missing_prdoc_report("prdoc/pr_9.prdoc", false),
        Ok("No prdoc found. Validation skipped.".to_string())
    );
}

#[test]
fn validation_issues_choose_the_branch_rule() {
    let mut p = PrDoc::default();
    p.title = "t".to_string();
    p.doc.push(changelogger_prdoc::DocSection {
        audience: changelogger_prdoc::Audience::User,
        description: "d".to_string(),
        title: None,
    });
    p.crates.push(CrateChange { name: "a".to_string(), bump: BumpLevel::Major, validate: true, note: None });
    assert!(validation_issues(&p, None).is_empty());
    assert_eq!(validation_issues(&p, Some("release-1")).len(), 1);
}

#[test]
fn ci_init_summary() {
    let entries = vec![("ci.yml".to_string(), false), ("cd.yml".to_string(), true)];
    assert_eq!(
        ci_init_report(&entries),
        "Scaffolded 2 workflow(s) in .github/workflows/:\n  - ci.yml\n  - cd.yml (already exists, skipped)"
    );
}

#[test]
fn bump_summary() {
    assert_eq!(bump_report("0.1.0", &vec![], false), "No version bumps needed.");
    let bumps = vec![("a".to_string(), "0.2.0".to_string()), ("b".to_string(), "0.1.1".to_string())];
    assert_eq!(
        bump_report("0.1.0", &bumps, true),
        "Bumps from 0.1.0:\n  a -> 0.2.0 (dry-run)\n  b -> 0.1.1 (dry-run)\n"
    );
    assert_eq!(bump_report("0.1.0", &bumps, false), "Bumps from 0.1.0:\n  a -> 0.2.0\n  b -> 0.1.1\n");
}

#[test]
fn coverage_summary() {
    assert_eq!(verify_report(5, 5), "All 5 commit(s) have prdocs.");
    assert_eq!(verify_report(3, 7), "All 3 commit(s) have prdocs.");
    assert_eq!(verify_report(12, 4), "8 commit(s) missing prdocs (4/12 found).");
    assert_eq!(verify_report(0, 0), "All 0 commit(s) have prdocs.");
    assert_eq!(default_range("0.1.0"), "v0.1.0..HEAD");
}

#[test]
fn release_section_placement() {
    let header = "# Changelog\n\nAll notable changes to this project will be documented in this file.\n\nThe format is based on [Keep a Changelog](https://keepachangelog.com/),\nand this project adheres to [Semantic Versioning](https://semver.org/).\n\n";
    assert_eq!(insert_release_section("", "## [0.2.0]\n"), format!("{header}## [0.2.0]\n"));
    assert_eq!(
        insert_release_section("# Changelog\n\n## [Unreleased]\n- x\n", "## [0.2.0]\n- y\n"),
        "# Changelog\n\n## [0.2.0]\n- y\n\n## [Unreleased]\n- x\n"
    );
    assert_eq!(insert_release_section("# Old", "## [1.0.0]"), "# Old\n## [1.0.0]");
}

#[test]
fn major_minor_of_versions() {
    assert_eq!(major_minor("1.2.3"), "1.2");
    assert_eq!(major_minor("1.2"), "1");
    assert_eq!(major_minor("7"), "7");
    assert_eq!(major_minor(".5"), "");
}

#[test]
fn manifest_patching_for_publish() {
    let names = s(&["core", "cli", "web"]);
    let manifest = "[package]\nname = \"cli\"\n\n[dependencies]\ncore = { path = \"../core\" }\r\n  web = { path = \"../web\" }\nserde = \"1\"";
    assert_eq!(workspace_dep_count(manifest, &names), 2);
    assert_eq!(
        patch_manifest(manifest, "cli", &names, "0.3"),
        "[package]\nname = \"cli\"\n\n[dependencies]\ncore = \"0.3\"\n  web = { path = \"../web\" }\nserde = \"1\"\n"
    );
    let own = "cli = { path = \".\" }\n";
    assert_eq!(patch_manifest(own, "cli", &names, "0.3"), own);
    assert_eq!(workspace_dep_count("nothing", &names), 0);
}

#[test]
fn publish_order_and_outcome() {
    let c = |n: &str, p: bool| WorkspaceCrate {
        name: n.to_string(),
        manifest_path: PathBuf::from(format!("{n}/Cargo.toml")),
        publish: p,
    };
    let crates = vec![c("cli", true), c("core", true), c("tests", false), c("web", true)];
    let counts = vec![2, 0, 0, 1];
    assert_eq!(publish_plan(&crates, &counts, None), Ok(vec![1, 3, 0]));
    assert_eq!(publish_plan(&crates, &counts, Some("web")), Ok(vec![3]));
    assert_eq!(
        publish_plan(&crates, &counts, Some("tests")),
        Err("crate 'tests' not found in workspace or not publishable".to_string())
    );
    let tie = vec![1, 1, 0, 1];
    assert_eq!(publish_plan(&crates, &tie, None), Ok(vec![0, 1, 3]));
    assert_eq!(publish_outcome(true, ""), PublishOutcome::Published);
    assert_eq!(publish_outcome(false, "error: crate version `0.1.0` is already uploaded"), PublishOutcome::AlreadyPublished);
    assert_eq!(publish_outcome(false, "crate already exists"), PublishOutcome::AlreadyPublished);
    assert_eq!(publish_outcome(false, "network down"), PublishOutcome::Failed);
}

#[test]
fn dependency_count_ignores_quote_style() {
    let names = s(&["dep", "other"]);
    assert_eq!(workspace_dep_count("dep = { path = '../dep' }", &names), 1);
    assert_eq!(workspace_dep_count("other = { path = \"../o\" }\ndep = { path = '../dep' }", &names), 2);
}

fn complete(title: &str) -> PrDoc {
    let mut p = PrDoc::default();
    p.title = title.to_string();
    p.doc.push(changelogger_prdoc::DocSection {
        audience: changelogger_prdoc::Audience::Developer,
        description: "d".to_string(),
        title: None,
    });
    p.crates.push(CrateChange { name: "a".to_string(), bump: BumpLevel::Major, validate: true, note: None });
    p
}

#[test]
fn directory_validation_reports_failing_files() {
    let files: Vec<(String, Result<PrDoc, String>)> = vec![
        ("d/a.prdoc".to_string(), Ok(complete("A"))),
        ("d/b.prdoc".to_string(), Err("Invalid frontmatter: x".to_string())),
        ("d/c.prdoc".to_string(), Ok(complete("..."))),
    ];
    assert_eq!(
        directory_validation(&files, None),
        Err("d/b.prdoc: Invalid frontmatter: x\nd/c.prdoc:\n  - title is required and cannot be '...'".to_string())
    );
    let good: Vec<(String, Result<PrDoc, String>)> =
        vec![("d/a.prdoc".to_string(), Ok(complete("A"))), ("d/e.prdoc".to_string(), Ok(complete("E")))];
    assert_eq!(directory_validation(&good, None), Ok("Validated 2 prdoc file(s).".to_string()));
    assert!(directory_validation(&good, Some("stable1")).is_err());
    assert_eq!(directory_validation(&vec![], None), Ok("Validated 0 prdoc file(s).".to_string()));
    assert!(is_prdoc_extension(Some("prdoc")));
    assert!(!is_prdoc_extension(Some("md")));
    assert!(!is_prdoc_extension(None));
}

#[test]
fn publish_steps() {
    assert_eq!(publishing_line("core", "0.2.0"), "Publishing core v0.2.0...");
    assert_eq!(publish_step("core", "0.2.0", true, ""), Ok("Published core v0.2.0".to_string()));
    assert_eq!(
        publish_step("core", "0.2.0", false, "crate version already exists"),
        Ok("core v0.2.0 already published \u{2014} skipping".to_string())
    );
    assert_eq!(
        publish_step("core", "0.2.0", false, "boom"),
        Err("publish failed for core:\nboom".to_string())
    );
}

#[test]
fn changelog_summaries_and_line_counts() {
    assert_eq!(
        changelog_summary("CHANGELOG.md", 3, Some("docs"), Some("v1..HEAD")),
        "Generated CHANGELOG.md with 3 entr(ies) from 'docs'"
    );
    assert_eq!(
        changelog_summary("C.md", 1, None, Some("v1..HEAD")),
        "Generated C.md with 1 entr(ies) from 'v1..HEAD'"
    );
    assert_eq!(changelog_summary("C.md", 0, None, None), "Generated C.md with 0 entr(ies) from 'prdoc/'");
    assert_eq!(line_count(""), 0);
    assert_eq!(line_count("a\nb\n"), 2);
    assert_eq!(line_count("a\n\nb"), 3);
    assert_eq!(line_count("\n"), 1);
    assert_eq!(commit_coverage_report("abc fix\ndef feat\n", 1), "1 commit(s) missing prdocs (1/2 found).");
}

#[test]
fn generate_dispatch_decisions() {
    assert_eq!(generate_source(Some(42), Some("a..b"), None), Ok(GenerateSource::PullRequest(42)));
    assert_eq!(generate_source(None, Some("a..b"), Some("x.diff")), Ok(GenerateSource::Range("a..b".to_string())));
    assert_eq!(generate_source(None, None, Some("x.diff")), Ok(GenerateSource::DiffFile("x.diff".to_string())));
    assert_eq!(
        generate_source(None, None, None),
        Err("One of --pr, --from, or --diff is required".to_string())
    );
    assert_eq!(
        check_output_free("prdoc/pr_1.prdoc", true, false),
        Err("prdoc/pr_1.prdoc exists. Use --force to overwrite.".to_string())
    );
    assert_eq!(check_output_free("prdoc/pr_1.prdoc", true, true), Ok(()));
    assert_eq!(check_output_free("prdoc/pr_1.prdoc", false, false), Ok(()));
}

#[test]
fn changelog_source_decisions() {
    assert_eq!(
        changelog_source_choice(Some("docs"), true, Some("v1..HEAD")),
        Ok(ChangelogSource::Directory("docs".to_string()))
    );
    assert_eq!(
        changelog_source_choice(Some("docs"), false, None),
        Err("Directory not found: docs".to_string())
    );
    assert_eq!(changelog_source_choice(None, false, Some("v1..HEAD")), Ok(ChangelogSource::Range("v1..HEAD".to_string())));
    assert_eq!(changelog_source_choice(None, false, None), Ok(ChangelogSource::ProjectDefault));
    assert_eq!(project_default_source_error(false), "No project root found. Use --from or --dir.");
    assert_eq!(project_default_source_error(true), "No prdoc directory found. Use --from or --dir.");
}

#[test]
fn publish_run_restores_every_rewritten_manifest() {
    let mut run = PublishRun::new();
    assert!(run.note_manifest(0, "a = { path = \"../a\" }\n".to_string(), "a = \"0.1\"\n"));
    assert!(!run.note_manifest(1, "same".to_string(), "same"));
    match run.after_publish("x", "0.1.0", true, "") {
        PublishAction::Continue(line) => assert_eq!(line, "Published x v0.1.0"),
        PublishAction::Abort(_, _) => panic!("expected to go on"),
    }
    assert!(run.note_manifest(2, "old".to_string(), "new"));
    match run.after_publish("y", "0.1.0", false, "boom") {
        PublishAction::Abort(restore, error) => {
            assert_eq!(error, "publish failed for y:\nboom");
            assert_eq!(restore.len(), 2);
            assert_eq!(restore[0].0, 0);
            assert_eq!(restore[1], (2, "old".to_string()));
        }
        PublishAction::Continue(_) => panic!("expected to stop"),
    }
    let (restore, msg) = run.finish();
    assert_eq!(restore.len(), 2);
    assert_eq!(msg, "All crates published successfully.");
}
