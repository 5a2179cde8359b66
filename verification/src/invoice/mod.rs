pub mod model;
pub mod book;
