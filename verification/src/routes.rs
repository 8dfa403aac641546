pub mod listing;
pub mod objects;
pub mod session;
pub mod upload;
pub mod walk;
