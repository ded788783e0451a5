pub mod events;
pub mod payloads;
pub mod sessions;
