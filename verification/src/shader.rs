//! Shader objects and the compile decision.
//!
//! Compiling happens in the driver, outside this crate. A caller builds a
//! [`CompileRequest`], performs the driver calls it describes, and hands the
//! outcome back as a [`CompileReport`]. [`Shader::from_report`] then decides:
//! a report is accepted exactly when the driver confirmed success and handed
//! out a real handle, and every rejected report turns into a typed
//! [`CompileError`] that always carries a non-empty diagnostic — a failure is
//! never accepted silently, and never dropped without a message.

use vstd::prelude::*;
use crate::stage::ShaderStage;

verus! {

/// A compiled shader object: one pipeline stage, one driver handle.
///
/// A `Shader` value stands only for compilations the driver confirmed, so its
/// handle is never the driver's null handle.
#[derive(Clone, Copy, Debug, PartialEq, Eq, Structural)]
pub struct Shader {
    pub stage: ShaderStage,
    pub handle: u32,
}

/// What a caller asks the driver to do: compile `source` for `stage`.
#[derive(Debug)]
pub struct CompileRequest {
    pub stage: ShaderStage,
    pub source: String,
}

/// What the driver reported back about one compilation: the object handle it
/// allocated (zero when allocation itself failed), its compile-status flag,
/// and the text of its info log.
#[derive(Debug)]
pub struct CompileReport {
    pub handle: u32,
    pub status_ok: bool,
    pub info_log: String,
}

/// A detected compilation failure: the stage that failed and a diagnostic
/// that is never empty.
#[derive(Debug)]
pub struct CompileError {
    pub stage: ShaderStage,
    pub log: String,
}

impl Shader {
    /// A shader is well formed when it carries a real (nonzero) handle.
    pub open spec fn wf(self) -> bool {
        self.handle != 0
    }

    /// Build the request that asks the driver to compile `source` for
    /// `stage`.
    pub fn request(stage: ShaderStage, source: String) -> (r: CompileRequest)
        ensures
            r.stage == stage,
            r.source == source,
    {
        CompileRequest { stage, source }
    }

    /// Decide what the driver's report means: a shader for `stage` when the
    /// report is accepted, and otherwise a `CompileError` whose diagnostic is
    /// the driver's info log — or a fixed note when the driver returned no
    /// text — so that a failure always surfaces with a non-empty message.
    pub fn from_report(stage: ShaderStage, report: CompileReport) -> (r: Result<Shader, CompileError>)
        ensures
            r is Ok <==> compile_accepted(report),
            r matches Ok(s) ==> s == (Shader { stage, handle: report.handle }) && s.wf(),
            r matches Err(e) ==> e.stage == stage && e.log@.len() > 0,
            r matches Err(e) ==> (report.info_log@.len() > 0 ==> e.log == report.info_log),
            r matches Err(e) ==> (report.info_log@.len() == 0 ==> e.log@ == missing_diagnostic_note()),
    {
        if report.status_ok && report.handle != 0 {
            Ok(Shader { stage, handle: report.handle })
        } else {
            let log = if report.info_log.as_str().is_empty() {
                proof {
                    reveal_strlit("compilation failed and the driver returned no diagnostic");
                }
                "compilation failed and the driver returned no diagnostic".to_owned()
            } else {
                report.info_log
            };
            Err(CompileError { stage, log })
        }
    }
}

/// A compile report is accepted exactly when the driver confirmed success and
/// handed out a real handle.
pub open spec fn compile_accepted(report: CompileReport) -> bool {
    report.status_ok && report.handle != 0
}

/// The diagnostic a `CompileError` carries when the driver confirmed failure
/// but returned an empty info log.
pub open spec fn missing_diagnostic_note() -> Seq<char> {
    "compilation failed and the driver returned no diagnostic"@
}

} // verus!
