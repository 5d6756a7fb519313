//! Laws of the grammar, proved from the definitions of its rules.

pub mod strings;
pub mod whitespace;
pub mod spans;
pub mod items;
pub mod shape;
pub mod values;
