pub mod cancel;
pub mod db;
pub mod error;
pub mod relation;
