//! Deployment of dotfiles and system configuration files.
//!
//! A configuration file names links, configuration files and scripts. This library loads its
//! entries, compares their targets with them, and brings the targets into the wanted state. It
//! touches nothing itself: its procedures hand out requests and go on with the replies.
pub mod entry;
pub mod error;
pub mod install;
pub mod laws;
pub mod load;
pub mod path;
pub mod privilege;
pub mod request;
pub mod search;
pub mod session;
pub mod status;
pub mod text;

pub use entry::Entry;
pub use entry::EntryStatus;
pub use entry::FileEntry;
pub use entry::InstallOptions;
pub use entry::LinkEntry;
pub use error::Error;
pub use install::install_entry;
pub use load::load_entries;
pub use path::UnixPath;
pub use privilege::ensure_not_running_as_root;
pub use search::find_config_upwards;
pub use status::entry_status;
