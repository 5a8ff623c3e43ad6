//! Episode catalogue, search and playback logic of a terminal Dragon Ball Z browser.

pub mod text;
pub mod url;
pub mod episode;
pub mod outside;
pub mod metadata;
pub mod covers;
pub mod paths;
pub mod video;
pub mod history;
pub mod browser;
pub mod display;
pub mod laws;

pub use episode::{Episode, Subtitle};
pub use metadata::fetch_episode;
pub use paths::{cover_cache_path, data_path, CACHE_DIR, EPISODES_FILE};
pub use url::clean_url;
