pub mod bytes;
pub mod crypto;
pub mod errors;
pub mod imaging;
pub mod settings;
pub mod store;
pub mod ui;
pub mod watcher;
pub mod writer;
