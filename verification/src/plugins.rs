//! The bundled search plugins and the recognition of plugin libraries.
pub mod dummy;
pub mod linux_fs;
pub mod loader;
pub mod local_fs;
