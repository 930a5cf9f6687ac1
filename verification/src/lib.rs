//! Structured pull-request documentation ("prdoc" files): the data model,
//! front-matter framing, validation and automatic repair, configuration
//! defaults, workspace crate lookup, and the text reports of the
//! command-line front end.

pub mod text;
pub mod types;
pub mod validate;
pub mod frontmatter;
pub mod config;
pub mod workspace;
pub mod report;

pub use config::{
    default_output_dir, default_prdoc_folders, default_schema, default_template, AudiencesConfig,
    GenerateSection, PrdocConfig,
};
pub use frontmatter::{extract_frontmatter, fix_prdoc_content, fix_prdoc_content_with};
pub use types::{
    default_validate, is_default_validate, Audience, BumpLevel, CrateChange, DbMigration,
    DocSection, HostFunction, Migrations, PrDoc, PrdocError, RuntimeMigration,
};
pub use validate::{validate_prdoc, validate_prdoc_for_branch};
pub use workspace::{PathIndex, WorkspaceCrate, WorkspaceInfo, WorkspacePackage};
