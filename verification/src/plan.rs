use vstd::prelude::*;

verus! {

/// One filesystem action that a command asks its caller to perform.
/// Commands compute full plans; the surrounding binary applies them in
/// order.
#[derive(Debug)]
pub enum PlanStep {
    /// Create a directory (and its parents) relative to the repository root.
    MkDir { path: String },
    /// Write a file with exactly these bytes, relative to the repository
    /// root, overwriting whatever is there.
    WriteFile { path: String, data: Vec<u8> },
}

/// The ghost image of a plan step: the path as text and the bytes to write.
#[verifier::ext_equal]
pub enum PlanStepSpec {
    MkDir { path: Seq<char> },
    WriteFile { path: Seq<char>, data: Seq<u8> },
}

impl View for PlanStep {
    type V = PlanStepSpec;

    open spec fn view(&self) -> PlanStepSpec {
        match self {
            PlanStep::MkDir { path } => PlanStepSpec::MkDir { path: path@ },
            PlanStep::WriteFile { path, data } => PlanStepSpec::WriteFile {
                path: path@,
                data: data@,
            },
        }
    }
}

/// The ghost images of a run of plan steps.
pub open spec fn plan_view(v: Seq<PlanStep>) -> Seq<PlanStepSpec> {
    v.map_values(|p: PlanStep| p@)
}

} // verus!
