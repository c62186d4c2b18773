//! SIP signalling: message parsing and building, dialogs, registration.
pub mod parser;
pub mod message;
pub mod register;
pub mod dialog;
