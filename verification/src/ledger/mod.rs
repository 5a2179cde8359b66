pub mod account;
pub mod journal;
pub mod state;
