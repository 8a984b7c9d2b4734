//! The motion state that persists from frame to frame.
//!
//! Each frame the caller integrates the hand's motion into a new accumulator
//! value and hands it over together with the distance it was measured from.
//! The mapper admits only finite numbers into its state, so that one
//! corrupted reading of the hand never poisons the frames that follow, and
//! folds the accumulator into a symbol of the alphabet.
use vstd::prelude::*;
use crate::alphabet::{alphabet, symbol_at, ALPHABET_LEN};
use vstd::arithmetic::power2::{pow2, lemma_pow2_pos};
use crate::binary32::{Binary32, QUANTUM_EXPONENT};
use crate::selection::{index_of, scroll_position, selection_index};

verus! {

/// The distance of the hand anchor in the previous frame and the scroll
/// accumulator. Both are always finite numbers.
pub struct Mapper {
    last_distance: Binary32,
    accumulator: Binary32,
}

impl Mapper {
    #[verifier::type_invariant]
    spec fn holds_finite_numbers(self) -> bool {
        self.last_distance.is_finite() && self.accumulator.is_finite()
    }

    /// The distance of the hand anchor from the origin in the last admitted frame.
    pub closed spec fn spec_last_distance(&self) -> Binary32 {
        self.last_distance
    }

    /// The scroll accumulator after the last admitted frame.
    pub closed spec fn spec_accumulator(&self) -> Binary32 {
        self.accumulator
    }

    /// Whether a frame with these readings is admitted into the state: both are finite numbers.
    pub open spec fn admits(distance: Binary32, accumulator: Binary32) -> bool {
        distance.is_finite() && accumulator.is_finite()
    }

    /// The position of the alphabet that the accumulator selects.
    pub open spec fn spec_selection_index(&self) -> usize {
        index_of(self.accumulator()@) as usize
    }

    /// The symbol that the accumulator selects.
    pub open spec fn spec_selected_char(&self) -> char {
        alphabet()[self.selection_index() as int]
    }

    /// A mapper at rest: distance and accumulator are zero, and the first symbol is selected.
    pub fn new() -> (mapper: Mapper)
        ensures
            mapper.last_distance().bits == 0,
            mapper.accumulator().bits == 0,
            mapper.selection_index() == 0,
            mapper.selected_char() == 'A',
    {
        let zero = Binary32 { bits: 0 };
        proof {
            lemma_pow2_pos(QUANTUM_EXPONENT as nat);
            assert(zero.magnitude() == 0) by {
                assert(0 * pow2(zero.quantum_shift()) == 0);
            }
            assert(scroll_position(0) == 0);
        }
        Mapper { last_distance: zero, accumulator: zero }
    }

    /// The distance recorded by the last frame that was admitted.
    #[verifier::when_used_as_spec(spec_last_distance)]
    pub fn last_distance(&self) -> (distance: Binary32)
        ensures
            distance == self.spec_last_distance(),
            distance.is_finite(),
    {
        proof {
            use_type_invariant(self);
        }
        self.last_distance
    }

    /// The accumulator recorded by the last frame that was admitted.
    #[verifier::when_used_as_spec(spec_accumulator)]
    pub fn accumulator(&self) -> (accumulator: Binary32)
        ensures
            accumulator == self.spec_accumulator(),
            accumulator.is_finite(),
    {
        proof {
            use_type_invariant(self);
        }
        self.accumulator
    }

    /// Ends a frame in which the hand anchor was seen at `distance` from the
    /// origin and the integration arrived at `accumulator`, and returns the
    /// position of the alphabet that is selected afterwards.
    ///
    /// The frame is admitted if both numbers are finite and skipped
    /// otherwise; a skipped frame leaves the state as it was.
    pub fn update(&mut self, distance: Binary32, accumulator: Binary32) -> (index: usize)
        ensures
            final(self).last_distance() == if Mapper::admits(distance, accumulator) {
                distance
            } else {
                old(self).last_distance()
            },
            final(self).accumulator() == if Mapper::admits(distance, accumulator) {
                accumulator
            } else {
                old(self).accumulator()
            },
            index == final(self).selection_index(),
            index < ALPHABET_LEN,
    {
        if distance.is_finite() && accumulator.is_finite() {
            *self = Mapper { last_distance: distance, accumulator };
        }
        self.selection_index()
    }

    /// The position of the alphabet under the cursor.
    #[verifier::when_used_as_spec(spec_selection_index)]
    pub fn selection_index(&self) -> (index: usize)
        ensures
            index == self.spec_selection_index(),
            index < ALPHABET_LEN,
    {
        proof {
            use_type_invariant(self);
        }
        selection_index(self.accumulator)
    }

    /// The symbol under the cursor.
    #[verifier::when_used_as_spec(spec_selected_char)]
    pub fn selected_char(&self) -> (symbol: char)
        ensures
            symbol == self.spec_selected_char(),
    {
        symbol_at(self.selection_index())
    }
}

} // verus!
