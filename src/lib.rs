//! Batch extraction of split and single-file archives: classification of
//! archive file names, the command line for each archive tool, the policy that
//! decides whether an archive is skipped, repaired or extracted again, and the
//! reading of the user's selection of archives.

pub mod archive;
pub mod command;
pub mod extraction;
pub mod relay;
pub mod scan;
pub mod selection;
mod text;

pub use archive::{Archive, ArchiveType};
pub use command::ExtractCommand;
pub use text::{has_suffix, without_suffix};
