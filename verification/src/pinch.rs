//! Detecting the moment at which two fingertips are pinched together.
//!
//! Each frame the detector is given the distance between the tip of a finger
//! and the tip of the thumb, in metres, or nothing when the hand was not
//! seen. A latch is set when the tips come within the engage threshold and
//! cleared only when they part beyond the release threshold; between the two
//! thresholds, and while the hand is not seen, it stays as it was. A frame
//! commits when the tips are within the engage threshold and the latch was
//! clear, so that one pinch commits once however the distance wavers.
use vstd::prelude::*;
use crate::binary32::{lemma_magnitude_increases, Binary32};

verus! {

/// Fingertips closer than this are pinched: the binary32 number nearest to 0.02.
pub const ENGAGE_THRESHOLD_BITS: u32 = 0x3ca3_d70a;

/// Fingertips farther apart than this have let go: the binary32 number nearest to 0.05.
pub const RELEASE_THRESHOLD_BITS: u32 = 0x3d4c_cccd;

/// The engage threshold as a number.
pub open spec fn engage_threshold() -> Binary32 {
    Binary32 { bits: ENGAGE_THRESHOLD_BITS }
}

/// The release threshold as a number.
pub open spec fn release_threshold() -> Binary32 {
    Binary32 { bits: RELEASE_THRESHOLD_BITS }
}

/// The tips were seen, and closer together than the engage threshold.
pub open spec fn engaged(distance: Option<Binary32>) -> bool {
    distance matches Some(d) && d@.lt(engage_threshold()@)
}

/// The tips were seen, and farther apart than the release threshold.
pub open spec fn released(distance: Option<Binary32>) -> bool {
    distance matches Some(d) && release_threshold()@.lt(d@)
}

/// Whether a frame commits: the tips are engaged and the latch was not set.
pub open spec fn commit_event(is_pinched: bool, distance: Option<Binary32>) -> bool {
    engaged(distance) && !is_pinched
}

/// The latch after a frame: set by a frame that is engaged, cleared by a
/// frame that is released, and kept by every other frame. A frame in which
/// the tips were not seen, or whose distance is not a number, is neither
/// engaged nor released and so keeps the latch.
pub open spec fn next_latch(is_pinched: bool, distance: Option<Binary32>) -> bool {
    if engaged(distance) {
        true
    } else if released(distance) {
        false
    } else {
        is_pinched
    }
}

/// The latch after a run of frames that began with the latch at `initial`.
pub open spec fn latch_after(initial: bool, frames: Seq<Option<Binary32>>) -> bool
    decreases frames.len(),
{
    if frames.len() == 0 {
        initial
    } else {
        next_latch(latch_after(initial, frames.drop_last()), frames.last())
    }
}

/// Whether frame `i` of a run that began with the latch at `initial` commits.
pub open spec fn commits_at(initial: bool, frames: Seq<Option<Binary32>>, i: int) -> bool
    recommends
        0 <= i < frames.len(),
{
    commit_event(latch_after(initial, frames.take(i)), frames[i])
}

/// No frame after position `j` of the run is released.
pub open spec fn quiet_after(frames: Seq<Option<Binary32>>, j: int) -> bool {
    forall|k: int| j < k < frames.len() ==> !released(#[trigger] frames[k])
}

/// Some frame of the run was engaged and no frame after it was released; or
/// the latch was set at the start and no frame of the run was released.
pub open spec fn engaged_since_release(initial: bool, frames: Seq<Option<Binary32>>) -> bool {
    ||| initial && quiet_after(frames, -1)
    ||| exists|j: int| 0 <= j < frames.len() && engaged(frames[j]) && #[trigger] quiet_after(frames, j)
}

/// No distance is at once within the engage threshold and beyond the
/// release threshold.
pub proof fn lemma_thresholds_disjoint(distance: Option<Binary32>)
    ensures
        !(engaged(distance) && released(distance)),
{
    lemma_magnitude_increases(engage_threshold(), release_threshold());
}

/// The latch is set after a run of frames exactly when a frame was engaged
/// and none has been released since.
pub proof fn lemma_latch_is_engaged_since_release(initial: bool, frames: Seq<Option<Binary32>>)
    ensures
        latch_after(initial, frames) == engaged_since_release(initial, frames),
    decreases frames.len(),
{
    if frames.len() > 0 {
        let before = frames.drop_last();
        let last = frames.len() - 1;
        lemma_latch_is_engaged_since_release(initial, before);
        assert forall|j: int| -1 <= j < last implies quiet_after(frames, j) == (quiet_after(
            before,
            j,
        ) && !released(frames[last])) by {
            if quiet_after(before, j) && !released(frames[last]) {
                assert forall|k: int| j < k < frames.len() implies !released(
                    #[trigger] frames[k],
                ) by {
                    if k < last {
                        assert(frames[k] == before[k]);
                    }
                }
            }
            if quiet_after(frames, j) {
                assert forall|k: int| j < k < before.len() implies !released(
                    #[trigger] before[k],
                ) by {
                    assert(before[k] == frames[k]);
                }
            }
        }
        assert(quiet_after(frames, last));
    }
}

/// In a run of frames, a frame commits exactly when it is engaged and no
/// frame since the last released one was engaged: a pinch commits once,
/// and commits again only after the tips have parted beyond the release
/// threshold.
pub proof fn lemma_commit_is_rising_edge(initial: bool, frames: Seq<Option<Binary32>>, i: int)
    requires
        0 <= i < frames.len(),
    ensures
        commits_at(initial, frames, i) == (engaged(frames[i]) && !engaged_since_release(
            initial,
            frames.take(i),
        )),
{
    lemma_latch_is_engaged_since_release(initial, frames.take(i));
}

/// The latch of the pinch gesture.
pub struct PinchDetector {
    is_pinched: bool,
}

impl PinchDetector {
    /// Whether the latch is set.
    pub closed spec fn spec_is_pinched(&self) -> bool {
        self.is_pinched
    }

    /// A detector whose latch is clear.
    pub fn new() -> (detector: PinchDetector)
        ensures
            !detector.is_pinched(),
    {
        PinchDetector { is_pinched: false }
    }

    /// Whether the latch is set.
    #[verifier::when_used_as_spec(spec_is_pinched)]
    pub fn is_pinched(&self) -> (pinched: bool)
        ensures
            pinched == self.spec_is_pinched(),
    {
        self.is_pinched
    }

    /// Takes one frame's distance between the fingertips, `None` when they
    /// were not seen, and returns whether the frame commits. A frame in
    /// which the tips were not seen never commits and keeps the latch.
    pub fn update(&mut self, distance: Option<Binary32>) -> (commit: bool)
        ensures
            commit == commit_event(old(self).is_pinched(), distance),
            final(self).is_pinched() == next_latch(old(self).is_pinched(), distance),
    {
        let close: bool = is_engaged(distance);
        let apart: bool = is_released(distance);
        let commit: bool = close && !self.is_pinched;
        if close {
            self.is_pinched = true;
        } else if apart {
            self.is_pinched = false;
        }
        commit
    }
}

/// Whether the tips were seen closer together than the engage threshold.
pub fn is_engaged(distance: Option<Binary32>) -> (close: bool)
    ensures
        close == engaged(distance),
{
    match distance {
        Some(d) => d.lt(Binary32::from_bits(ENGAGE_THRESHOLD_BITS)),
        None => false,
    }
}

/// Whether the tips were seen farther apart than the release threshold.
pub fn is_released(distance: Option<Binary32>) -> (apart: bool)
    ensures
        apart == released(distance),
{
    match distance {
        Some(d) => Binary32::from_bits(RELEASE_THRESHOLD_BITS).lt(d),
        None => false,
    }
}

} // verus!
