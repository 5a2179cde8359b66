pub mod reference;
pub mod state;
