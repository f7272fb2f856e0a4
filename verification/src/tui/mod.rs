//! The interactive browser.

pub mod app;
pub mod date_text;
pub mod draw;
pub mod filter;
pub mod heap;
pub mod highlight;
pub mod key_laws;
pub mod keys;
pub mod laws;
pub mod list_laws;
pub mod listing;
pub mod loading;
pub mod matching;
pub mod names;
pub mod overlay;
pub mod overlay_laws;
pub mod panes;
pub mod render;
pub mod results;
pub mod search;
pub mod time;
pub mod util;
pub mod view_laws;

pub use app::App;
