pub mod calc;
pub mod notes;
pub mod text;
pub mod framework;
