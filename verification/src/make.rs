//! The distributable-package builder's text work: which files are batch
//! files, and the version stamp written into them.  Reading directories
//! and writing archives is file-system work and stays outside.

pub mod bat;
pub mod dir;
