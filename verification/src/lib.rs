//! A small backend for a desktop application shell: a greeting echo and a
//! batch file writer.
//!
//! The library plans every filesystem step of a batch write (which
//! directories to create, which files to write, in what order) and states the
//! effect of those steps on a model of the disk. The caller performs the
//! planned steps against the real filesystem and turns any failure into the
//! message that [`batch::directory_failure_message`] and its siblings build.

pub mod batch;
pub mod greeting;
pub mod model;
pub mod paths;

pub use batch::FileEntry;
pub use batch::WriteStep;
pub use batch::create_failure_message;
pub use batch::directory_failure_message;
pub use batch::write_failure_message;
pub use batch::write_plan;
pub use greeting::greet;
pub use paths::join_path;
pub use paths::parent_of;
