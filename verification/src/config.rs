//! The project configuration (`changelogger.toml`) and its defaults.

use vstd::prelude::*;

verus! {

broadcast use vstd::string::group_string_axioms;

/// The settings of a project.
#[derive(Debug, Clone)]
pub struct PrdocConfig {
    pub version: u32,
    pub schema: String,
    pub output_dir: String,
    pub prdoc_folders: Vec<String>,
    pub template: String,
    pub audiences: Option<AudiencesConfig>,
    pub generate: GenerateSection,
}

/// The display names given to the three audiences.
#[derive(Debug, Clone)]
pub struct AudiencesConfig {
    pub developer: Option<String>,
    pub user: Option<String>,
    pub operator: Option<String>,
}

/// Settings of prdoc generation.
#[derive(Debug, Clone)]
pub struct GenerateSection {
    pub default_output: String,
}

/// The schema used when the configuration names none.
pub fn default_schema() -> (s: String)
    ensures
        s@ == "prdoc/schema_user.json"@,
{
    "prdoc/schema_user.json".to_string()
}

/// The output directory used when the configuration names none.
pub fn default_output_dir() -> (s: String)
    ensures
        s@ == "prdoc"@,
{
    "prdoc".to_string()
}

/// The prdoc folders used when the configuration names none.
pub fn default_prdoc_folders() -> (v: Vec<String>)
    ensures
        v@.len() == 1,
        v@[0]@ == "prdoc"@,
{
    let mut v: Vec<String> = Vec::new();
    v.push("prdoc".to_string());
    v
}

/// The template used when the configuration names none.
pub fn default_template() -> (s: String)
    ensures
        s@ == "templates/prdoc/.template.prdoc"@,
{
    "templates/prdoc/.template.prdoc".to_string()
}

impl Default for PrdocConfig {
    fn default() -> (c: Self)
        ensures
            c.version == 0,
            c.schema@ == "prdoc/schema_user.json"@,
            c.output_dir@ == "prdoc"@,
            c.prdoc_folders@.len() == 1,
            c.prdoc_folders@[0]@ == "prdoc"@,
            c.template@ == "templates/prdoc/.template.prdoc"@,
            c.audiences is None,
            c.generate.default_output@ == Seq::<char>::empty(),
    {
        PrdocConfig {
            version: 0,
            schema: default_schema(),
            output_dir: default_output_dir(),
            prdoc_folders: default_prdoc_folders(),
            template: default_template(),
            audiences: None,
            generate: GenerateSection::default(),
        }
    }
}

impl Default for AudiencesConfig {
    fn default() -> (c: Self)
        ensures
            c.developer is None,
            c.user is None,
            c.operator is None,
    {
        AudiencesConfig { developer: None, user: None, operator: None }
    }
}

impl Default for GenerateSection {
    fn default() -> (g: Self)
        ensures
            g.default_output@ == Seq::<char>::empty(),
    {
        GenerateSection { default_output: String::new() }
    }
}

} // verus!
