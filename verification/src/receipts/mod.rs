pub mod book;
pub mod model;
