pub mod offsets;
pub mod text_input;
