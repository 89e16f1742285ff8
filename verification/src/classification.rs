//! What kind of program a process is.

use vstd::prelude::*;

verus! {

#[derive(Clone, Copy, Debug, Eq, PartialEq, Structural)]
pub enum ProcessClassification {
    WindowsProcess,
    App,
    BackgroundProcess,
}

#[derive(Clone, Copy, Debug, Eq, PartialEq, Structural)]
pub struct ProcessClassificationEvidence {
    pub is_critical: bool,
    pub has_visible_window: bool,
}

#[derive(Clone, Copy, Debug, Eq, PartialEq, Structural)]
pub struct ProcessClassificationResult {
    pub classification: ProcessClassification,
    pub evidence: ProcessClassificationEvidence,
}

impl Default for ProcessClassificationEvidence {
    fn default() -> (evidence: Self)
        ensures
            !evidence.is_critical,
            !evidence.has_visible_window,
    {
        ProcessClassificationEvidence { is_critical: false, has_visible_window: false }
    }
}

/// Critical processes belong to Windows; of the others, those with a window are applications.
pub open spec fn kind_of(evidence: ProcessClassificationEvidence) -> ProcessClassification {
    if evidence.is_critical {
        ProcessClassification::WindowsProcess
    } else if evidence.has_visible_window {
        ProcessClassification::App
    } else {
        ProcessClassification::BackgroundProcess
    }
}

pub fn classify_from_evidence(evidence: ProcessClassificationEvidence) -> (kind:
    ProcessClassification)
    ensures
        kind == kind_of(evidence),
{
    if evidence.is_critical {
        ProcessClassification::WindowsProcess
    } else if evidence.has_visible_window {
        ProcessClassification::App
    } else {
        ProcessClassification::BackgroundProcess
    }
}

/// Classifies a process by what was seen of it.
pub fn classify_process_ad_hoc(is_critical: bool, has_visible_window: bool) -> (result:
    ProcessClassificationResult)
    ensures
        result.evidence.is_critical == is_critical,
        result.evidence.has_visible_window == has_visible_window,
        result.classification == kind_of(result.evidence),
{
    let evidence = ProcessClassificationEvidence { is_critical, has_visible_window };
    ProcessClassificationResult { classification: classify_from_evidence(evidence), evidence }
}

/// One top-level window: whether it is visible, and the process that owns it.
#[derive(Clone, Copy, Debug, Eq, PartialEq, Structural)]
pub struct WindowOwner {
    pub visible: bool,
    pub process_id: u32,
}

/// One of the windows is visible and belongs to the process.
pub open spec fn owns_visible_window(windows: Seq<WindowOwner>, process_id: u32) -> bool {
    exists|i: int|
        0 <= i < windows.len() && (#[trigger] windows[i]).visible && windows[i].process_id
            == process_id
}

/// Tells whether the process owns a visible window.
pub fn has_visible_window(windows: &Vec<WindowOwner>, process_id: u32) -> (found: bool)
    ensures
        found == exists|i: int|
            0 <= i < windows@.len() && (#[trigger] windows@[i]).visible && windows@[i].process_id
                == process_id,
        found == owns_visible_window(windows@, process_id),
{
    let mut i: usize = 0;
    while i < windows.len()
        invariant
            i <= windows@.len(),
            forall|j: int|
                0 <= j < i ==> !((#[trigger] windows@[j]).visible && windows@[j].process_id
                    == process_id),
        decreases windows@.len() - i,
    {
        if windows[i].visible && windows[i].process_id == process_id {
            return true;
        }
        i = i + 1;
    }
    false
}

} // verus!
