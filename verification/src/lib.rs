//! Extracts mutual-follower records from saved timeline JSON exports and
//! plans the download of each mutual's profile picture.
//!
//! The library is organised around a small JSON document model: `json` holds
//! the document type and field lookup, `text` the string utilities shared by
//! the extractor and the downloader, `user` the record type, `extract` the
//! extraction pipeline, `parse` the bridge to the JSON parser, and `download`
//! the per-record download decision.

pub mod download;
pub mod extract;
pub mod json;
pub mod parse;
pub mod text;
pub mod user;

pub use download::{DownloadAction, plan_download};
pub use extract::{concat_mutuals, extract_mutuals, extract_user_info, find_all_entries};
pub use json::Json;
pub use parse::{ParseError, process_followers_text};
pub use user::MutualUser;
