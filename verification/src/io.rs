//! Reading roll requests from text and rendering rolls back to text.

pub mod read;
pub mod write;
