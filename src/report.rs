use vstd::prelude::*;
use crate::tags::TagSet;

verus! {

/// Why an inspection was abandoned; no partial report is produced.
#[derive(Debug, Clone, Copy, PartialEq, Eq, Structural)]
pub enum InspectError {
    /// The analysis backend could not be started.
    BackendUnavailable,
    /// The backend found no entry point.
    MissingEntryPoint,
    /// The backend's auto-analysis failed.
    AnalysisFailed,
    /// A query answered in a shape that could not be read.
    QueryError,
    /// The backend refused a rename.
    RenameFailed,
    /// The optimization classifier could not be loaded or run.
    ClassifierUnavailable,
}

/// The report on one binary.
#[derive(Debug)]
pub struct Sample {
    pub name: String,
    pub arch: String,
    pub bits: u64,
    pub compiler: String,
    pub stripped: bool,
    pub link_static: bool,
    pub sect_header: bool,
    pub functions: Vec<String>,
    pub optimized: u32,
    pub params: TagSet,
    pub cff: Vec<String>,
}

/// The binary has rich section headers: more than three sections.
pub open spec fn rich_sections(section_count: nat) -> bool {
    section_count > 3
}

/// Whether the backend's description of the entry point shows one: an answer
/// that is only a line feed means there is none.
pub fn entry_point_found(answer: &str) -> (r: bool)
    ensures
        r == (answer@ != "\n"@),
{
    proof {
        reveal_strlit("\n");
    }
    let n = answer.unicode_len();
    if n != 1 {
        assert(answer@.len() != "\n"@.len());
        return true;
    }
    let c = answer.get_char(0);
    if c == '\n' {
        assert(answer@ =~= "\n"@);
        false
    } else {
        assert(answer@[0] != "\n"@[0]);
        true
    }
}

impl Sample {
    /// A report holding the binary's characteristics, before any scan.
    pub fn new(
        name: String,
        arch: String,
        bits: u64,
        compiler: String,
        stripped: bool,
        link_static: bool,
        section_count: usize,
    ) -> (r: Sample)
        ensures
            r.name@ == name@,
            r.arch@ == arch@,
            r.bits == bits,
            r.compiler@ == compiler@,
            r.stripped == stripped,
            r.link_static == link_static,
            r.sect_header == rich_sections(section_count as nat),
            r.functions@.len() == 0,
            r.optimized == 0,
            r.params.wf(),
            r.params@ == Set::<crate::tags::Tag>::empty(),
            r.cff@.len() == 0,
    {
        Sample {
            name,
            arch,
            bits,
            compiler,
            stripped,
            link_static,
            sect_header: section_count > 3,
            functions: Vec::new(),
            optimized: 0,
            params: TagSet::new(),
            cff: Vec::new(),
        }
    }
}

} // verus!
