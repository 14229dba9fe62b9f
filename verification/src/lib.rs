//! Sliding-window iteration over the characters of a string slice.
//!
//! [`SubstrIter`] walks a `&str` and yields every run of `N` consecutive
//! characters (Unicode scalar values, never bytes) as a fixed-size array,
//! advancing one character per step.  A fixed circular buffer of the last
//! `N` characters is kept, so stepping never allocates.
//! [`SubstrWrapper`] adds rendering to and parsing from plain text
//! fragments.

mod iter;
mod wrapper;

pub use iter::Substr;
pub use iter::SubstrIter;
pub use iter::Trigram;
pub use iter::TrigramIter;
pub use iter::lemma_window_count_boundary;
pub use iter::window_count;
pub use iter::windows;
pub use iter::wrap;
pub use wrapper::decimal;
pub use wrapper::digit;
pub use wrapper::lemma_parse_render_round_trip;
pub use wrapper::message_of;
pub use wrapper::SubstrParserError;
pub use wrapper::SubstrWrapper;
