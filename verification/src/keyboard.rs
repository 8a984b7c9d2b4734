//! One tick of the keyboard: scroll, detect the pinch, commit.
use vstd::prelude::*;
use crate::binary32::Binary32;
use crate::mapper::Mapper;
use crate::output::Output;
use crate::pinch::{commit_event, next_latch, PinchDetector};

verus! {

/// The state of the keyboard between frames: where the cursor stands, and
/// whether the fingertips are held together.
pub struct Keyboard {
    mapper: Mapper,
    detector: PinchDetector,
}

impl Keyboard {
    /// The motion state.
    pub closed spec fn spec_mapper(&self) -> &Mapper {
        &self.mapper
    }

    /// The pinch latch.
    pub closed spec fn spec_detector(&self) -> &PinchDetector {
        &self.detector
    }

    /// A keyboard at rest: the first symbol is selected and the latch is clear.
    pub fn new() -> (keyboard: Keyboard)
        ensures
            keyboard.mapper().last_distance().bits == 0,
            keyboard.mapper().accumulator().bits == 0,
            keyboard.mapper().selected_char() == 'A',
            !keyboard.detector().is_pinched(),
    {
        Keyboard { mapper: Mapper::new(), detector: PinchDetector::new() }
    }

    /// The motion state, from which the caller integrates the next frame.
    #[verifier::when_used_as_spec(spec_mapper)]
    pub fn mapper(&self) -> (mapper: &Mapper)
        ensures
            mapper == self.spec_mapper(),
    {
        &self.mapper
    }

    /// The pinch latch.
    #[verifier::when_used_as_spec(spec_detector)]
    pub fn detector(&self) -> (detector: &PinchDetector)
        ensures
            detector == self.spec_detector(),
    {
        &self.detector
    }

    /// The symbol under the cursor.
    pub fn selected_char(&self) -> (symbol: char)
        ensures
            symbol == self.mapper().selected_char(),
    {
        self.mapper.selected_char()
    }

    /// The symbol under the cursor as a text of one character, for display.
    pub fn selected_text(&self) -> (text: String)
        ensures
            text@ == seq![self.mapper().selected_char()],
    {
        let mut text = String::new();
        text.push(self.mapper.selected_char());
        text
    }

    /// Moves the cursor: ends a frame in which the hand anchor was seen at
    /// `distance` from the origin and the caller's integration arrived at
    /// `accumulator`, and returns the symbol under the cursor afterwards.
    /// Readings that are not both finite are skipped. The latch is not touched.
    pub fn track(&mut self, distance: Binary32, accumulator: Binary32) -> (symbol: char)
        ensures
            final(self).mapper().last_distance() == if Mapper::admits(distance, accumulator) {
                distance
            } else {
                old(self).mapper().last_distance()
            },
            final(self).mapper().accumulator() == if Mapper::admits(distance, accumulator) {
                accumulator
            } else {
                old(self).mapper().accumulator()
            },
            final(self).detector() == old(self).detector(),
            symbol == final(self).mapper().selected_char(),
    {
        self.mapper.update(distance, accumulator);
        self.mapper.selected_char()
    }

    /// Takes one frame's distance between the two fingertips, `None` when
    /// they were not seen, and returns whether the frame commits. If it
    /// does, the symbol under the cursor is appended to `output`; nothing
    /// else ever changes `output`. The cursor is not touched.
    pub fn pinch(&mut self, pinch_distance: Option<Binary32>, output: &mut Output) -> (commit:
        bool)
        ensures
            final(self).mapper() == old(self).mapper(),
            commit == commit_event(old(self).detector().is_pinched(), pinch_distance),
            final(self).detector().is_pinched() == next_latch(
                old(self).detector().is_pinched(),
                pinch_distance,
            ),
            final(output)@ == if commit {
                old(output)@.push(old(self).mapper().selected_char())
            } else {
                old(output)@
            },
            old(output)@.is_prefix_of(final(output)@),
    {
        let commit: bool = self.detector.update(pinch_distance);
        if commit {
            output.push(self.mapper.selected_char());
        }
        commit
    }

    /// Runs one frame: the cursor moves first, then the pinch is taken.
    ///
    /// `motion` is the hand anchor's distance from the origin and the
    /// accumulator the caller integrated for this frame, or `None` when the
    /// anchor was not seen; the cursor then stays where it is.
    /// `pinch_distance` is the distance between the two fingertips, or `None`
    /// when they were not seen; such a frame does not commit and keeps the latch.
    ///
    /// If the frame commits, the symbol under the cursor after this frame's
    /// move is appended to `output`. Returns whether the frame committed.
    pub fn frame(
        &mut self,
        motion: Option<(Binary32, Binary32)>,
        pinch_distance: Option<Binary32>,
        output: &mut Output,
    ) -> (commit: bool)
        ensures
            final(self).mapper().last_distance() == match motion {
                Some((distance, accumulator)) if Mapper::admits(distance, accumulator) => distance,
                _ => old(self).mapper().last_distance(),
            },
            final(self).mapper().accumulator() == match motion {
                Some((distance, accumulator)) if Mapper::admits(distance, accumulator) => accumulator,
                _ => old(self).mapper().accumulator(),
            },
            commit == commit_event(old(self).detector().is_pinched(), pinch_distance),
            final(self).detector().is_pinched() == next_latch(
                old(self).detector().is_pinched(),
                pinch_distance,
            ),
            final(output)@ == if commit {
                old(output)@.push(final(self).mapper().selected_char())
            } else {
                old(output)@
            },
            old(output)@.is_prefix_of(final(output)@),
    {
        if let Some((distance, accumulator)) = motion {
            self.track(distance, accumulator);
        }
        self.pinch(pinch_distance, output)
    }
}

} // verus!
