//! Verified decision logic of the E-OS installer.
pub mod copy;
pub mod disk_wrapper;
pub mod disks;
pub mod install;
pub mod net;
pub mod optional;
pub mod packages;
pub mod text;
pub mod toml_tree;
pub mod window;
