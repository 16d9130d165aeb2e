pub mod ids;
pub mod text;
pub mod time;
pub mod note;
pub mod paths;
pub mod crypto;
pub mod sync;
pub mod index;
pub mod report;
pub mod config;
pub mod util;
pub mod watcher;
