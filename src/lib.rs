//! Player progression, inventory and mining economy of a small text game.
pub mod account;
pub mod inventory;
pub mod mining;
pub mod player;
pub mod text;
