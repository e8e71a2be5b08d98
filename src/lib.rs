//! Row-reduction matrices written out as text, and their layout as a
//! drawing made of boxes, text and lines.

pub mod excalidraw;
pub mod matrix_text;
pub mod number_text;
pub mod rows;
