//! The runtime of the generated Telegram client: the API front, listeners,
//! the event handler and the response observer.
pub mod api;
pub mod errors;
pub mod handler;
pub mod listener;
pub mod observer;
pub mod rtd;
pub mod types;
