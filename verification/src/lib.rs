//! Interaction core of a hand-tracked virtual keyboard.
//!
//! A hand that moves scrolls a cursor over a fixed alphabet; a pinch of two
//! fingertips types the symbol under the cursor into an output buffer.
//!
//! Tracked quantities reach this crate as IEEE 754 bit patterns
//! ([`binary32::Binary32`]) and are only ever examined with integer
//! arithmetic, so that every decision is specified against the exact number
//! a pattern denotes. Arithmetic in floating point is left to the caller.
pub mod alphabet;
pub mod binary32;
pub mod keyboard;
pub mod mapper;
pub mod output;
pub mod pinch;
pub mod selection;

pub use binary32::Binary32;
pub use keyboard::Keyboard;
pub use mapper::Mapper;
pub use output::Output;
pub use pinch::PinchDetector;
