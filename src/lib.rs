//! Stores an ordered sequence of values in a single text column: each element
//! is written as its display string, and neighbours are separated by a
//! delimiter character that ordinary text does not contain.

pub mod element;
pub mod laws;
pub mod sql_vec;
pub mod stored;
pub mod text;

pub use element::TextElement;
pub use sql_vec::SqlVec;
pub use stored::{ExtractError, StoredValue};
pub use text::DELIMITER;
