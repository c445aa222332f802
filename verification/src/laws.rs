//! What the library promises, said of plain fields, members and positions.

pub mod serving;
pub mod checking;
pub mod learning;
pub mod running;
pub mod talking;
pub mod keeping;
pub mod storing;
pub mod sending;
pub mod spelling;
