//! One sort from start to end: its plan, and the stages it passes through
//! while the device works.
use vstd::prelude::*;

use crate::kind::{DeorrType, DeorrTypeError};
use crate::layout::{plan_layout, workgroup_count, BufferLayout, WORKGROUP_SIZE};

verus! {

/// Why a sort, or the session it needs, could not be had.
#[derive(Debug, Clone, Copy, PartialEq, Eq, Structural)]
pub enum DeorrError {
    /// No compute device was found.
    NoAdapterFound,
    /// The driver refused to open a device.
    DeviceRequestFailed,
    /// The elements are of no supported kind.
    UnsupportedElementKind,
    /// The result buffer could not be mapped for reading.
    MapFailure,
}

impl From<DeorrTypeError> for DeorrError {
    fn from(_e: DeorrTypeError) -> (r: DeorrError) {
        DeorrError::UnsupportedElementKind
    }
}

impl vstd::std_specs::convert::FromSpecImpl<DeorrTypeError> for DeorrError {
    open spec fn obeys_from_spec() -> bool {
        true
    }

    open spec fn from_spec(v: DeorrTypeError) -> DeorrError {
        DeorrError::UnsupportedElementKind
    }
}

/// Where a sort stands.
#[derive(Debug, Clone, Copy, PartialEq, Eq, Structural)]
pub enum JobStage {
    Created,
    BuffersAllocated,
    Dispatched,
    Copying,
    AwaitingMap,
    Mapped,
    Completed,
    Failed(DeorrError),
}

/// What the caller does next for a sort.
#[derive(Debug, Clone, Copy, PartialEq, Eq, Structural)]
pub enum JobAction {
    /// Create the input, length, output and read-back buffers.
    AllocateBuffers,
    /// Encode the compute pass over the buffers.
    EncodeDispatch,
    /// Encode the copy of the output into the read-back buffer, and submit
    /// it together with the compute pass.
    SubmitWithCopy,
    /// Ask for the read-back buffer to be mapped for reading.
    RequestMap,
    /// Wait for the one notice that the mapping is done.
    AwaitMap,
    /// Copy the result out of the mapping, then unmap and release the buffers.
    ReadAndRelease,
    /// Nothing is left to do.
    Stop,
}

/// The stage that follows `s` when its step succeeds.
pub open spec fn successor(s: JobStage) -> JobStage {
    match s {
        JobStage::Created => JobStage::BuffersAllocated,
        JobStage::BuffersAllocated => JobStage::Dispatched,
        JobStage::Dispatched => JobStage::Copying,
        JobStage::Copying => JobStage::AwaitingMap,
        JobStage::AwaitingMap => JobStage::Mapped,
        JobStage::Mapped => JobStage::Completed,
        JobStage::Completed => JobStage::Completed,
        JobStage::Failed(e) => JobStage::Failed(e),
    }
}

/// No step leads out of `s`.
pub open spec fn is_terminal(s: JobStage) -> bool {
    s is Completed || s is Failed
}

/// The step taken at stage `s`.
pub open spec fn action_at(s: JobStage) -> JobAction {
    match s {
        JobStage::Created => JobAction::AllocateBuffers,
        JobStage::BuffersAllocated => JobAction::EncodeDispatch,
        JobStage::Dispatched => JobAction::SubmitWithCopy,
        JobStage::Copying => JobAction::RequestMap,
        JobStage::AwaitingMap => JobAction::AwaitMap,
        JobStage::Mapped => JobAction::ReadAndRelease,
        JobStage::Completed => JobAction::Stop,
        JobStage::Failed(_) => JobAction::Stop,
    }
}

/// The stage after the step at `s` ended with `outcome`.
pub open spec fn after(s: JobStage, outcome: Result<(), DeorrError>) -> JobStage {
    if is_terminal(s) {
        s
    } else {
        match outcome {
            Ok(()) => successor(s),
            Err(e) => JobStage::Failed(e),
        }
    }
}

/// The first stage of a sort of `len` elements: an empty sort is complete
/// before it starts.
pub open spec fn first_stage(len: nat) -> JobStage {
    if len == 0 {
        JobStage::Completed
    } else {
        JobStage::Created
    }
}

/// The stage reached from `s` through the steps that ended with `outcomes`.
pub open spec fn run(s: JobStage, outcomes: Seq<Result<(), DeorrError>>) -> JobStage
    decreases outcomes.len(),
{
    if outcomes.len() == 0 {
        s
    } else {
        run(after(s, outcomes[0]), outcomes.drop_first())
    }
}

/// The first stage of a sort of `len` elements.
pub fn begin(len: usize) -> (r: JobStage)
    ensures
        r == first_stage(len as nat),
{
    if len == 0 {
        JobStage::Completed
    } else {
        JobStage::Created
    }
}

/// The step to take at stage `s`.
pub fn next_action(s: JobStage) -> (r: JobAction)
    ensures
        r == action_at(s),
{
    match s {
        JobStage::Created => JobAction::AllocateBuffers,
        JobStage::BuffersAllocated => JobAction::EncodeDispatch,
        JobStage::Dispatched => JobAction::SubmitWithCopy,
        JobStage::Copying => JobAction::RequestMap,
        JobStage::AwaitingMap => JobAction::AwaitMap,
        JobStage::Mapped => JobAction::ReadAndRelease,
        JobStage::Completed => JobAction::Stop,
        JobStage::Failed(_) => JobAction::Stop,
    }
}

/// The stage after the step at `s` ended with `outcome`: the next stage on
/// success, `Failed` on an error, and no change once the sort has ended.
pub fn advance(s: JobStage, outcome: Result<(), DeorrError>) -> (r: JobStage)
    ensures
        r == after(s, outcome),
        is_terminal(s) ==> r == s,
        !is_terminal(s) && outcome is Ok ==> r == successor(s),
        !is_terminal(s) ==> (outcome matches Err(e) ==> r == JobStage::Failed(e)),
{
    match s {
        JobStage::Completed => s,
        JobStage::Failed(_) => s,
        _ => match outcome {
            Ok(()) => match s {
                JobStage::Created => JobStage::BuffersAllocated,
                JobStage::BuffersAllocated => JobStage::Dispatched,
                JobStage::Dispatched => JobStage::Copying,
                JobStage::Copying => JobStage::AwaitingMap,
                JobStage::AwaitingMap => JobStage::Mapped,
                _ => JobStage::Completed,
            },
            Err(e) => JobStage::Failed(e),
        },
    }
}

/// An empty sort touches no device: whatever is reported to it, it stays
/// complete and asks for no step.
pub proof fn lemma_empty_sort_takes_no_step(outcomes: Seq<Result<(), DeorrError>>)
    ensures
        run(first_stage(0), outcomes) == JobStage::Completed,
        action_at(run(first_stage(0), outcomes)) == JobAction::Stop,
    decreases outcomes.len(),
{
    if outcomes.len() > 0 {
        lemma_empty_sort_takes_no_step(outcomes.drop_first());
    }
}

/// A sort that starts and meets no error passes through each stage in turn
/// and ends complete after six steps.
pub proof fn lemma_successful_sort_completes(outcomes: Seq<Result<(), DeorrError>>)
    requires
        outcomes.len() == 6,
        forall|k: int| 0 <= k < 6 ==> outcomes[k] is Ok,
    ensures
        run(JobStage::Created, outcomes) == JobStage::Completed,
{
    let o = outcomes;
    reveal_with_fuel(run, 8);
    assert(o.drop_first().drop_first().drop_first().drop_first().drop_first().drop_first().len() == 0);
    assert(o.drop_first()[0] == o[1]);
    assert(o.drop_first().drop_first()[0] == o[2]);
    assert(o.drop_first().drop_first().drop_first()[0] == o[3]);
    assert(o.drop_first().drop_first().drop_first().drop_first()[0] == o[4]);
    assert(o.drop_first().drop_first().drop_first().drop_first().drop_first()[0] == o[5]);
}

/// What one non-empty sort sends to the device.
#[derive(Debug, Clone, Copy, PartialEq, Eq, Structural)]
pub struct SortPlan {
    /// Kind of the elements.
    pub kind: DeorrType,
    /// Number of elements, which the length buffer carries to the kernel.
    pub length: u32,
    /// Sizes of the buffers.
    pub layout: BufferLayout,
    /// Work-groups to dispatch.
    pub groups: u32,
}

/// Plans the sort of `count` elements of `kind` on a device whose storage
/// buffers are aligned to `alignment` bytes. An empty sort has no plan: it
/// needs no device at all.
pub fn plan_sort(kind: DeorrType, count: usize, alignment: u32) -> (r: Option<SortPlan>)
    requires
        count <= u32::MAX,
        alignment >= 1,
    ensures
        count == 0 <==> r is None,
        r matches Some(p) ==> {
            &&& p.kind == kind
            &&& p.length == count
            &&& p.layout.describes(4, count as int, alignment as int)
            &&& p.layout.padded_size % (alignment as u64) == 0
            &&& p.layout.padding_bytes < alignment
            &&& p.groups as int * WORKGROUP_SIZE as int >= count
            &&& (p.groups as int - 1) * (WORKGROUP_SIZE as int) < count
        },
{
    if count == 0 {
        return None;
    }
    let width = kind.byte_width();
    let layout = plan_layout(width, count as u64, alignment);
    let groups = workgroup_count(count as u32);
    Some(SortPlan { kind, length: count as u32, layout, groups })
}

} // verus!
