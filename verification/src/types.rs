//! The prdoc data model: the document, its audiences and SemVer bump
//! levels, and the error type of reading a prdoc.

use vstd::prelude::*;
use crate::text::{lemma_replace_absent_char, all_ascii, ascii_lower, chars_of, replace_all, replace_chars, same_text, string_of, to_lowercase, unicode_lowercase};

verus! {

broadcast use vstd::string::group_string_axioms;

/// A pull-request document: what changed, for whom, and which crates it bumps.
#[derive(Debug, Clone)]
pub struct PrDoc {
    pub title: String,
    pub author: Option<String>,
    pub pr: Option<u64>,
    pub doc: Vec<DocSection>,
    pub crates: Vec<CrateChange>,
    pub migrations: Option<Migrations>,
    pub host_functions: Option<Vec<HostFunction>>,
}

impl Default for PrDoc {
    fn default() -> (d: Self)
        ensures
            d.title@ == Seq::<char>::empty(),
            d.author is None,
            d.pr is None,
            d.doc@.len() == 0,
            d.crates@.len() == 0,
            d.migrations is None,
            d.host_functions is None,
    {
        PrDoc {
            title: String::new(),
            author: None,
            pr: None,
            doc: Vec::new(),
            crates: Vec::new(),
            migrations: None,
            host_functions: None,
        }
    }
}

/// The readers that a documentation section is written for.
#[derive(Debug, Clone, Copy, PartialEq, Eq, Structural)]
pub enum Audience {
    Developer,
    User,
    Operator,
}

/// The name under which an audience is written in a prdoc.
pub open spec fn audience_name(a: Audience) -> Seq<char> {
    match a {
        Audience::Developer => "Developer"@,
        Audience::User => "User"@,
        Audience::Operator => "Operator"@,
    }
}

/// The audience that an already lowercased name stands for, once `-` and
/// `_` are removed from it; anything unknown stands for developers.
pub open spec fn audience_from_lowercase(s: Seq<char>) -> Audience {
    let n = replace_all(replace_all(s, "-"@, Seq::empty()), "_"@, Seq::empty());
    if n == "developer"@ || n == "dev"@ {
        Audience::Developer
    } else if n == "user"@ {
        Audience::User
    } else if n == "operator"@ || n == "op"@ {
        Audience::Operator
    } else {
        Audience::Developer
    }
}

/// The ASCII lowercase form of a text.
pub open spec fn ascii_lowercase(s: Seq<char>) -> Seq<char> {
    s.map_values(|c: char| ascii_lower(c))
}

impl Audience {
    /// The name under which this audience is written.
    pub fn as_str(&self) -> (r: &'static str)
        ensures
            r@ == audience_name(*self),
    {
        match self {
            Audience::Developer => "Developer",
            Audience::User => "User",
            Audience::Operator => "Operator",
        }
    }

    /// Every audience, in declaration order.
    pub fn all() -> (r: &'static [Audience])
        ensures
            r@ == seq![Audience::Developer, Audience::User, Audience::Operator],
    {
        &[Audience::Developer, Audience::User, Audience::Operator]
    }

    /// Reads an audience leniently: case, `-` and `_` are ignored, `dev` and
    /// `op` are accepted as short forms, and anything unknown is read as
    /// `Developer`.
    pub fn from_str_lossy(s: &str) -> (r: Audience)
        ensures
            r == audience_from_lowercase(unicode_lowercase(s@)),
            all_ascii(s@) ==> r == audience_from_lowercase(ascii_lowercase(s@)),
    {
        let lower = to_lowercase(s);
        let chars = chars_of(lower.as_str());
        proof {
            reveal_strlit("-");
            reveal_strlit("_");
        }
        let dash = chars_of("-");
        let underscore = chars_of("_");
        let empty: Vec<char> = Vec::new();
        let step = replace_chars(chars.as_slice(), dash.as_slice(), empty.as_slice());
        let n = replace_chars(step.as_slice(), underscore.as_slice(), empty.as_slice());
        let t = string_of(n.as_slice());
        let t = t.as_str();
        if same_text(t, "developer") || same_text(t, "dev") {
            Audience::Developer
        } else if same_text(t, "user") {
            Audience::User
        } else if same_text(t, "operator") || same_text(t, "op") {
            Audience::Operator
        } else {
            Audience::Developer
        }
    }
}


/// One documentation section of a prdoc.
#[derive(Debug, Clone)]
pub struct DocSection {
    pub audience: Audience,
    pub description: String,
    pub title: Option<String>,
}

/// A crate touched by the change, with the version bump it needs.
#[derive(Debug, Clone, PartialEq)]
pub struct CrateChange {
    pub name: String,
    pub bump: BumpLevel,
    pub validate: bool,
    pub note: Option<String>,
}

/// The value that `CrateChange::validate` takes when a prdoc leaves it out.
pub fn default_validate() -> (b: bool)
    ensures
        b,
{
    true
}

/// Whether `validate` holds its default value, in which case it is left out
/// when a prdoc is written.
pub fn is_default_validate(v: &bool) -> (b: bool)
    ensures
        b == *v,
{
    *v
}

/// A SemVer bump level.
#[derive(Debug, Clone, Copy, PartialEq, Eq, Structural)]
pub enum BumpLevel {
    Major,
    Minor,
    Patch,
    NoBump,
}

/// The name under which a bump level is written.
pub open spec fn bump_name(b: BumpLevel) -> Seq<char> {
    match b {
        BumpLevel::Major => "major"@,
        BumpLevel::Minor => "minor"@,
        BumpLevel::Patch => "patch"@,
        BumpLevel::NoBump => "none"@,
    }
}

/// The bump level that an already lowercased name stands for; anything
/// unknown stands for no bump.
pub open spec fn bump_from_lowercase(s: Seq<char>) -> BumpLevel {
    if s == "major"@ {
        BumpLevel::Major
    } else if s == "minor"@ {
        BumpLevel::Minor
    } else if s == "patch"@ {
        BumpLevel::Patch
    } else {
        BumpLevel::NoBump
    }
}

/// The rank of a bump level: none < patch < minor < major.
pub open spec fn bump_rank(b: BumpLevel) -> nat {
    match b {
        BumpLevel::NoBump => 0,
        BumpLevel::Patch => 1,
        BumpLevel::Minor => 2,
        BumpLevel::Major => 3,
    }
}

/// `a` is at least as large a bump as `b`.
pub open spec fn bump_dominates(a: BumpLevel, b: BumpLevel) -> bool {
    bump_rank(a) >= bump_rank(b)
}

fn rank(level: &BumpLevel) -> (r: u8)
    ensures
        r == bump_rank(*level),
{
    match level {
        BumpLevel::NoBump => 0,
        BumpLevel::Patch => 1,
        BumpLevel::Minor => 2,
        BumpLevel::Major => 3,
    }
}

impl BumpLevel {
    /// The name under which this bump level is written.
    pub fn as_str(&self) -> (r: &'static str)
        ensures
            r@ == bump_name(*self),
    {
        match self {
            BumpLevel::Major => "major",
            BumpLevel::Minor => "minor",
            BumpLevel::Patch => "patch",
            BumpLevel::NoBump => "none",
        }
    }

    /// Reads a bump level leniently: case is ignored, and anything unknown is
    /// read as `None`.
    pub fn from_str_lossy(s: &str) -> (r: BumpLevel)
        ensures
            r == bump_from_lowercase(unicode_lowercase(s@)),
            all_ascii(s@) ==> r == bump_from_lowercase(ascii_lowercase(s@)),
    {
        let lower = to_lowercase(s);
        let t = lower.as_str();
        if same_text(t, "major") {
            BumpLevel::Major
        } else if same_text(t, "minor") {
            BumpLevel::Minor
        } else if same_text(t, "patch") {
            BumpLevel::Patch
        } else {
            BumpLevel::NoBump
        }
    }

    /// Whether this bump is at least as large as `other`.
    pub fn dominates(&self, other: &BumpLevel) -> (r: bool)
        ensures
            r == bump_dominates(*self, *other),
    {
        rank(self) >= rank(other)
    }
}

/// Migrations that a change brings.
#[derive(Debug, Clone)]
pub struct Migrations {
    pub db: Vec<DbMigration>,
    pub runtime: Vec<RuntimeMigration>,
}

impl Default for Migrations {
    fn default() -> (m: Self)
        ensures
            m.db@.len() == 0,
            m.runtime@.len() == 0,
    {
        Migrations { db: Vec::new(), runtime: Vec::new() }
    }
}

/// A database migration.
#[derive(Debug, Clone)]
pub struct DbMigration {
    pub name: String,
    pub description: String,
}

/// A runtime migration.
#[derive(Debug, Clone)]
pub struct RuntimeMigration {
    pub reference: Option<String>,
    pub description: String,
}

/// A host function that a change adds or alters.
#[derive(Debug, Clone)]
pub struct HostFunction {
    pub name: String,
    pub description: String,
    pub notes: Option<String>,
}

#[verifier::external_type_specification]
#[verifier::external_body]
pub struct ExIoError(std::io::Error);

#[verifier::external_type_specification]
#[verifier::external_body]
pub struct ExYamlError(serde_yaml::Error);

/// Why a prdoc could not be read.
#[derive(Debug)]
pub enum PrdocError {
    /// The file could not be read.
    Io(std::io::Error),
    /// The text is not framed as YAML front matter.
    Frontmatter(String),
    /// The front matter is not a valid prdoc.
    Yaml(serde_yaml::Error),
}


/// Every audience is written in ASCII, and reading its name back with
/// `Audience::from_str_lossy` gives the same audience.
pub proof fn audience_name_round_trip(a: Audience)
    ensures
        all_ascii(audience_name(a)),
        audience_from_lowercase(ascii_lowercase(audience_name(a))) == a,
{
    reveal_strlit("Developer");
    reveal_strlit("User");
    reveal_strlit("Operator");
    reveal_strlit("developer");
    reveal_strlit("user");
    reveal_strlit("operator");
    reveal_strlit("dev");
    reveal_strlit("op");
    reveal_strlit("-");
    reveal_strlit("_");
    let low = ascii_lowercase(audience_name(a));
    let expected = match a {
        Audience::Developer => "developer"@,
        Audience::User => "user"@,
        Audience::Operator => "operator"@,
    };
    assert(low =~= expected);
    assert("-"@ == seq!['-']);
    assert("_"@ == seq!['_']);
    lemma_replace_absent_char(low, '-', Seq::empty());
    lemma_replace_absent_char(low, '_', Seq::empty());
}

/// Every bump level is written in ASCII, and reading its name back with
/// `BumpLevel::from_str_lossy` gives the same level.
pub proof fn bump_name_round_trip(b: BumpLevel)
    ensures
        all_ascii(bump_name(b)),
        bump_from_lowercase(ascii_lowercase(bump_name(b))) == b,
{
    reveal_strlit("major");
    reveal_strlit("minor");
    reveal_strlit("patch");
    reveal_strlit("none");
    assert(ascii_lowercase(bump_name(b)) =~= bump_name(b));
    assert("major"@[1] != "minor"@[1]);
    assert("major"@[0] != "patch"@[0]);
    assert("minor"@[0] != "patch"@[0]);
    assert("none"@.len() != "major"@.len());
}

/// `dominates` is a total order on bump levels: reflexive, antisymmetric,
/// transitive and total.
pub proof fn dominates_is_total_order(a: BumpLevel, b: BumpLevel, c: BumpLevel)
    ensures
        bump_dominates(a, a),
        bump_dominates(a, b) && bump_dominates(b, a) ==> a == b,
        bump_dominates(a, b) && bump_dominates(b, c) ==> bump_dominates(a, c),
        bump_dominates(a, b) || bump_dominates(b, a),
{
}

/// Major dominates minor, minor dominates patch, patch dominates no bump,
/// and no bump does not dominate patch.
pub proof fn dominates_ranks()
    ensures
        bump_dominates(BumpLevel::Major, BumpLevel::Minor),
        bump_dominates(BumpLevel::Minor, BumpLevel::Patch),
        bump_dominates(BumpLevel::Patch, BumpLevel::NoBump),
        !bump_dominates(BumpLevel::NoBump, BumpLevel::Patch),
        forall|b: BumpLevel| bump_dominates(BumpLevel::Major, b),
        forall|b: BumpLevel| bump_dominates(b, BumpLevel::NoBump),
{
}

} // verus!
