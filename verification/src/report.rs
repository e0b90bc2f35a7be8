//! Report structures produced by the health, validation and drift engines.

use vstd::prelude::*;

verus! {

/// Aggregated health report across all architectural elements.
#[derive(Debug, Clone)]
pub struct HealthReport {
    pub total_elements: usize,
    pub container_count: usize,
    pub component_count: usize,
    pub total_files: usize,
    pub files_planned: usize,
    pub files_active: usize,
    pub files_stable: usize,
    pub patterns_total: usize,
    pub patterns_planned: usize,
    pub patterns_verified: usize,
    pub per_element: Vec<ElementHealth>,
}

/// Health summary for a single architectural element.
#[derive(Debug, Clone)]
pub struct ElementHealth {
    pub name: String,
    pub c4_level: String,
    pub file_count: usize,
    pub files_planned: usize,
    pub files_active: usize,
    pub files_stable: usize,
    pub pattern: String,
    pub pattern_confidence: String,
}

/// Mathematical model of an `ElementHealth`.
#[verifier::ext_equal]
pub ghost struct ElementHealthV {
    pub name: Seq<char>,
    pub c4_level: Seq<char>,
    pub file_count: nat,
    pub files_planned: nat,
    pub files_active: nat,
    pub files_stable: nat,
    pub pattern: Seq<char>,
    pub pattern_confidence: Seq<char>,
}

impl View for ElementHealth {
    type V = ElementHealthV;

    open spec fn view(&self) -> ElementHealthV {
        ElementHealthV {
            name: self.name@,
            c4_level: self.c4_level@,
            file_count: self.file_count as nat,
            files_planned: self.files_planned as nat,
            files_active: self.files_active as nat,
            files_stable: self.files_stable as nat,
            pattern: self.pattern@,
            pattern_confidence: self.pattern_confidence@,
        }
    }
}

/// Mathematical model of a `HealthReport`.
#[verifier::ext_equal]
pub ghost struct HealthReportV {
    pub total_elements: nat,
    pub container_count: nat,
    pub component_count: nat,
    pub total_files: nat,
    pub files_planned: nat,
    pub files_active: nat,
    pub files_stable: nat,
    pub patterns_total: nat,
    pub patterns_planned: nat,
    pub patterns_verified: nat,
    pub per_element: Seq<ElementHealthV>,
}

impl View for HealthReport {
    type V = HealthReportV;

    open spec fn view(&self) -> HealthReportV {
        HealthReportV {
            total_elements: self.total_elements as nat,
            container_count: self.container_count as nat,
            component_count: self.component_count as nat,
            total_files: self.total_files as nat,
            files_planned: self.files_planned as nat,
            files_active: self.files_active as nat,
            files_stable: self.files_stable as nat,
            patterns_total: self.patterns_total as nat,
            patterns_planned: self.patterns_planned as nat,
            patterns_verified: self.patterns_verified as nat,
            per_element: self.per_element@.map_values(|e: ElementHealth| e@),
        }
    }
}

impl Default for HealthReport {
    /// The empty report: every count zero, no elements.
    fn default() -> (r: HealthReport)
        ensures
            r.total_elements == 0,
            r.container_count == 0,
            r.component_count == 0,
            r.total_files == 0,
            r.files_planned == 0,
            r.files_active == 0,
            r.files_stable == 0,
            r.patterns_total == 0,
            r.patterns_planned == 0,
            r.patterns_verified == 0,
            r.per_element@ == Seq::<ElementHealth>::empty(),
    {
        HealthReport {
            total_elements: 0,
            container_count: 0,
            component_count: 0,
            total_files: 0,
            files_planned: 0,
            files_active: 0,
            files_stable: 0,
            patterns_total: 0,
            patterns_planned: 0,
            patterns_verified: 0,
            per_element: Vec::new(),
        }
    }
}

/// A file listed in a catalog but not present on disk.
#[derive(Debug, Clone)]
pub struct GhostEntry {
    pub element: String,
    pub filename: String,
    pub source_dir: String,
}

/// Mathematical model of a `GhostEntry`.
#[verifier::ext_equal]
pub ghost struct GhostEntryV {
    pub element: Seq<char>,
    pub filename: Seq<char>,
    pub source_dir: Seq<char>,
}

impl View for GhostEntry {
    type V = GhostEntryV;

    open spec fn view(&self) -> GhostEntryV {
        GhostEntryV {
            element: self.element@,
            filename: self.filename@,
            source_dir: self.source_dir@,
        }
    }
}

/// A file present on disk but not listed in any catalog.
#[derive(Debug, Clone)]
pub struct OrphanEntry {
    pub element: String,
    pub filename: String,
    pub source_dir: String,
}

/// Mathematical model of an `OrphanEntry`.
#[verifier::ext_equal]
pub ghost struct OrphanEntryV {
    pub element: Seq<char>,
    pub filename: Seq<char>,
    pub source_dir: Seq<char>,
}

impl View for OrphanEntry {
    type V = OrphanEntryV;

    open spec fn view(&self) -> OrphanEntryV {
        OrphanEntryV {
            element: self.element@,
            filename: self.filename@,
            source_dir: self.source_dir@,
        }
    }
}

/// Validation report for file-catalog integrity.
#[derive(Debug, Clone)]
pub struct ValidationReport {
    pub ghosts: Vec<GhostEntry>,
    pub orphans: Vec<OrphanEntry>,
}

impl Default for ValidationReport {
    /// The empty report: no ghosts, no orphans.
    fn default() -> (r: ValidationReport)
        ensures
            r.ghosts@ == Seq::<GhostEntry>::empty(),
            r.orphans@ == Seq::<OrphanEntry>::empty(),
    {
        ValidationReport { ghosts: Vec::new(), orphans: Vec::new() }
    }
}

impl ValidationReport {
    /// A report is clean iff it holds no ghost and no orphan.
    pub fn is_clean(&self) -> (r: bool)
        ensures
            r == (self.ghosts@.len() == 0 && self.orphans@.len() == 0),
    {
        self.ghosts.len() == 0 && self.orphans.len() == 0
    }
}

/// A single file that differs between generated and existing output.
#[derive(Debug, Clone)]
pub struct DriftedFile {
    pub path: String,
    pub expected_lines: usize,
    pub actual_lines: usize,
}

/// Mathematical model of a `DriftedFile`.
#[verifier::ext_equal]
pub ghost struct DriftedFileV {
    pub path: Seq<char>,
    pub expected_lines: nat,
    pub actual_lines: nat,
}

impl View for DriftedFile {
    type V = DriftedFileV;

    open spec fn view(&self) -> DriftedFileV {
        DriftedFileV {
            path: self.path@,
            expected_lines: self.expected_lines as nat,
            actual_lines: self.actual_lines as nat,
        }
    }
}

/// Drift-detection report: freshly derived artifacts against persisted ones.
#[derive(Debug, Clone)]
pub struct DriftReport {
    pub drifted_files: Vec<DriftedFile>,
    pub missing_files: Vec<String>,
    pub extra_files: Vec<String>,
}

impl Default for DriftReport {
    /// The empty report: nothing drifted, missing or extra.
    fn default() -> (r: DriftReport)
        ensures
            r.drifted_files@ == Seq::<DriftedFile>::empty(),
            r.missing_files@ == Seq::<String>::empty(),
            r.extra_files@ == Seq::<String>::empty(),
    {
        DriftReport { drifted_files: Vec::new(), missing_files: Vec::new(), extra_files: Vec::new() }
    }
}

impl DriftReport {
    /// Drift exists iff any of the three collections is non-empty.
    pub fn has_drift(&self) -> (r: bool)
        ensures
            r == (self.drifted_files@.len() > 0 || self.missing_files@.len() > 0
                || self.extra_files@.len() > 0),
    {
        self.drifted_files.len() > 0 || self.missing_files.len() > 0 || self.extra_files.len() > 0
    }
}

} // verus!
