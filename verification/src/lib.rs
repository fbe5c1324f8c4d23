//! Keeps channel messages about proposals in their final comment period in
//! step with the tracking feed: what a message says, where its formatting
//! lies, and whether a channel needs a new message, an edit or nothing.

pub mod data;
pub mod msg;
pub mod sync;
pub mod text;
