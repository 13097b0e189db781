//! The state a whole compilation carries: collected diagnostics and the
//! registry of the sources they point into.

use vstd::prelude::*;

use crate::reports::ReportContext;
use crate::sourcemap::SourceMap;

verus! {

/// Everything a compilation run accumulates besides its output.
pub struct CompilerContext {
    pub report_context: ReportContext,
    pub source_context: SourceMap,
}

impl CompilerContext {
    /// A fresh context with no reports and no registered sources.
    pub fn new() -> (c: CompilerContext)
        ensures
            c.report_context.reports_seq() == Seq::<crate::reports::Report>::empty(),
            c.source_context.contents() == Map::<u64, crate::sourcemap::SourceDescription>::empty(),
    {
        CompilerContext { report_context: ReportContext::new(), source_context: SourceMap::new() }
    }
}

} // verus!
