//! The IR data model: one `ModuleDoc` per architectural element.

use vstd::prelude::*;

use crate::text::{matches_token_ci, str_to_chars, trim_chars, trim_spec, token_ieq};

verus! {

/// C4 architecture level for a module.
#[derive(Debug, Clone, Copy, PartialEq, Eq, Structural)]
pub enum C4Level {
    Container,
    Component,
    Unknown,
}

/// Two-tier confidence for design-pattern assignments.
///
/// `Planned` — developer intent, not yet structurally validated.
/// `Verified` — a structural heuristic has confirmed pattern alignment.
#[derive(Debug, Clone, Copy, PartialEq, Eq, Structural)]
pub enum PatternStatus {
    Planned,
    Verified,
}

/// Implementation maturity of a file: `Planned` -> `Active` -> `Stable`.
#[derive(Debug, Clone, Copy, PartialEq, Eq, Structural)]
pub enum HealthStatus {
    Planned,
    Active,
    Stable,
}

/// The wire token of a C4 level.
pub open spec fn c4_token(l: C4Level) -> Seq<char> {
    match l {
        C4Level::Container => "container"@,
        C4Level::Component => "component"@,
        C4Level::Unknown => "unknown"@,
    }
}

/// The wire token of a pattern status.
pub open spec fn status_token(s: PatternStatus) -> Seq<char> {
    match s {
        PatternStatus::Planned => "planned"@,
        PatternStatus::Verified => "verified"@,
    }
}

/// The wire token of a health status.
pub open spec fn health_token(h: HealthStatus) -> Seq<char> {
    match h {
        HealthStatus::Planned => "planned"@,
        HealthStatus::Active => "active"@,
        HealthStatus::Stable => "stable"@,
    }
}

/// What `C4Level::parse` returns: the trimmed input against the two known
/// tokens, case-folded; anything else is `Unknown`.
pub open spec fn c4_parse_spec(s: Seq<char>) -> C4Level {
    if matches_token_ci(trim_spec(s), "container"@) {
        C4Level::Container
    } else if matches_token_ci(trim_spec(s), "component"@) {
        C4Level::Component
    } else {
        C4Level::Unknown
    }
}

/// What `PatternStatus::parse` returns: `verified` for the one token,
/// `Planned` for everything else.
pub open spec fn status_parse_spec(s: Seq<char>) -> PatternStatus {
    if matches_token_ci(trim_spec(s), "verified"@) {
        PatternStatus::Verified
    } else {
        PatternStatus::Planned
    }
}

/// What `HealthStatus::parse` returns: the two known progress tokens,
/// `Planned` for everything else.
pub open spec fn health_parse_spec(s: Seq<char>) -> HealthStatus {
    if matches_token_ci(trim_spec(s), "active"@) {
        HealthStatus::Active
    } else if matches_token_ci(trim_spec(s), "stable"@) {
        HealthStatus::Stable
    } else {
        HealthStatus::Planned
    }
}

impl C4Level {
    /// Parse a level token, trimming blanks and folding ASCII case.
    pub fn parse(s: &str) -> (r: C4Level)
        ensures
            r == c4_parse_spec(s@),
    {
        let c = str_to_chars(s);
        let t = trim_chars(c.as_slice());
        if token_ieq(t.as_slice(), "container") {
            C4Level::Container
        } else if token_ieq(t.as_slice(), "component") {
            C4Level::Component
        } else {
            C4Level::Unknown
        }
    }

    /// The lower-case wire token of this level.
    pub fn token(&self) -> (r: String)
        ensures
            r@ == c4_token(*self),
    {
        match self {
            C4Level::Container => String::from_str("container"),
            C4Level::Component => String::from_str("component"),
            C4Level::Unknown => String::from_str("unknown"),
        }
    }
}

impl PatternStatus {
    /// Parse a confidence token, trimming blanks and folding ASCII case.
    pub fn parse(s: &str) -> (r: PatternStatus)
        ensures
            r == status_parse_spec(s@),
    {
        let c = str_to_chars(s);
        let t = trim_chars(c.as_slice());
        if token_ieq(t.as_slice(), "verified") {
            PatternStatus::Verified
        } else {
            PatternStatus::Planned
        }
    }

    /// The lower-case wire token of this status.
    pub fn token(&self) -> (r: String)
        ensures
            r@ == status_token(*self),
    {
        match self {
            PatternStatus::Planned => String::from_str("planned"),
            PatternStatus::Verified => String::from_str("verified"),
        }
    }
}

impl Default for PatternStatus {
    /// A fresh pattern claim starts out `Planned`.
    fn default() -> (r: PatternStatus)
        ensures
            r == PatternStatus::Planned,
    {
        PatternStatus::Planned
    }
}

impl HealthStatus {
    /// Parse a maturity token, trimming blanks and folding ASCII case.
    pub fn parse(s: &str) -> (r: HealthStatus)
        ensures
            r == health_parse_spec(s@),
    {
        let c = str_to_chars(s);
        let t = trim_chars(c.as_slice());
        if token_ieq(t.as_slice(), "active") {
            HealthStatus::Active
        } else if token_ieq(t.as_slice(), "stable") {
            HealthStatus::Stable
        } else {
            HealthStatus::Planned
        }
    }

    /// The lower-case wire token of this maturity.
    pub fn token(&self) -> (r: String)
        ensures
            r@ == health_token(*self),
    {
        match self {
            HealthStatus::Planned => String::from_str("planned"),
            HealthStatus::Active => String::from_str("active"),
            HealthStatus::Stable => String::from_str("stable"),
        }
    }
}

impl Default for HealthStatus {
    /// A fresh file entry starts out `Planned`.
    fn default() -> (r: HealthStatus)
        ensures
            r == HealthStatus::Planned,
    {
        HealthStatus::Planned
    }
}

/// A directed edge between modules.
#[derive(Debug, Clone, PartialEq, Eq)]
pub struct Relationship {
    pub target: String,
    pub label: String,
    pub protocol: String,
}

/// Mathematical model of a `Relationship`.
#[verifier::ext_equal]
pub ghost struct RelV {
    pub target: Seq<char>,
    pub label: Seq<char>,
    pub protocol: Seq<char>,
}

impl View for Relationship {
    type V = RelV;

    open spec fn view(&self) -> RelV {
        RelV { target: self.target@, label: self.label@, protocol: self.protocol@ }
    }
}

/// One row of a module's file catalog.
#[derive(Debug, Clone, PartialEq, Eq)]
pub struct FileEntry {
    pub name: String,
    pub pattern: String,
    pub pattern_status: PatternStatus,
    pub purpose: String,
    pub health: HealthStatus,
}

/// Mathematical model of a `FileEntry`.
#[verifier::ext_equal]
pub ghost struct FileV {
    pub name: Seq<char>,
    pub pattern: Seq<char>,
    pub pattern_status: PatternStatus,
    pub purpose: Seq<char>,
    pub health: HealthStatus,
}

impl View for FileEntry {
    type V = FileV;

    open spec fn view(&self) -> FileV {
        FileV {
            name: self.name@,
            pattern: self.pattern@,
            pattern_status: self.pattern_status,
            purpose: self.purpose@,
            health: self.health,
        }
    }
}

/// One parsed module documentation unit — the core of the IR contract
/// between language adapters and every consumer.
#[derive(Debug, Clone, PartialEq, Eq)]
pub struct ModuleDoc {
    pub mod_path: String,
    pub content: String,
    pub source_file: String,
    pub c4_level: C4Level,
    pub pattern: String,
    pub pattern_status: PatternStatus,
    pub description: String,
    pub parent_container: Option<String>,
    pub relationships: Vec<Relationship>,
    pub files: Vec<FileEntry>,
}

/// Mathematical model of a `ModuleDoc`.
#[verifier::ext_equal]
pub ghost struct DocV {
    pub mod_path: Seq<char>,
    pub content: Seq<char>,
    pub source_file: Seq<char>,
    pub c4_level: C4Level,
    pub pattern: Seq<char>,
    pub pattern_status: PatternStatus,
    pub description: Seq<char>,
    pub parent_container: Option<Seq<char>>,
    pub relationships: Seq<RelV>,
    pub files: Seq<FileV>,
}

impl View for ModuleDoc {
    type V = DocV;

    open spec fn view(&self) -> DocV {
        DocV {
            mod_path: self.mod_path@,
            content: self.content@,
            source_file: self.source_file@,
            c4_level: self.c4_level,
            pattern: self.pattern@,
            pattern_status: self.pattern_status,
            description: self.description@,
            parent_container: match self.parent_container {
                Some(ref p) => Some(p@),
                None => None,
            },
            relationships: self.relationships@.map_values(|r: Relationship| r@),
            files: self.files@.map_values(|f: FileEntry| f@),
        }
    }
}

/// The view of a whole IR set.
pub open spec fn docs_view(docs: Seq<ModuleDoc>) -> Seq<DocV> {
    docs.map_values(|d: ModuleDoc| d@)
}

} // verus!
