pub mod model;
pub mod widgets;
