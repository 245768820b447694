//! Commit-aggregation engine for a personal standup report.
//!
//! The library scans a resolved set of repository directories, filters each
//! repository's commit history by author identity and a recent time window,
//! aggregates the matches into an ordered report, and drives the selection
//! state machine behind the interactive table that displays the result.

pub mod config;
pub mod filter;
pub mod report;
pub mod ui;

pub use config::get_directories;
pub use config::ChildEntry;
pub use config::DirectoryUnreadable;
pub use config::RootListing;
pub use filter::sig_matches;
pub use filter::time_within;
pub use report::get_commits;
pub use report::get_repo_info;
pub use report::GitInfo;
pub use report::RawCommit;
pub use report::RepoInfo;
pub use report::RepoSource;
pub use ui::flatten_rows;
pub use ui::handle_event;
pub use ui::App;
pub use ui::DisplayRow;
pub use ui::InputEvent;
