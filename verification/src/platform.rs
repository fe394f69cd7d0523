//! What the server knows of the platform it runs on.
pub mod alsa;
pub mod common;
pub mod single_instance;
