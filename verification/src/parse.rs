//! Records read from paths, directory listings and file contents.

pub mod bin;
pub mod cursors;
pub mod desktop;
pub mod elf;
pub mod fonts;
pub mod icons;
pub mod libc;
pub mod libs;
pub mod man;
pub mod modules;
pub mod services;
pub mod themes;
