pub mod model;
pub mod repository;
pub mod service;
pub mod preview;
pub mod viewmodel;
pub mod theme;
pub mod widgets;
pub mod laws;
