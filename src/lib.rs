pub mod bytes;
pub mod directory;
pub mod download;
pub mod error;
pub mod form;
pub mod index;
pub mod router;
pub mod search;
