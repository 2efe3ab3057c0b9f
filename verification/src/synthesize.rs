//! The back end: from the intermediate representation to an executable file.

pub mod arch;
pub mod bytes;
pub mod exe;
