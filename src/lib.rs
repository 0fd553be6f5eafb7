//! Library core of a shell-command assistant: the history log and bookmark
//! catalog documents, the suggestion pipeline and its text normalisation.
pub mod assistant;
pub mod bookmark;
pub mod command;
pub mod config;
pub mod history;
pub mod text;

pub use assistant::{
    BookmarkMetadata, PipelineStep, SuggestionPipeline, clean_metadata_reply, normalize_suggestion,
};
pub use bookmark::{Bookmark, BookmarkData, BookmarkError, BookmarkItem};
pub use command::{Command, Suggestion};
pub use config::Config;
pub use history::{History, HistoryData};
