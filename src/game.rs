pub mod gameplay;
pub mod rooms;
