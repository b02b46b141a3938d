//! Client-side state machine of a real-time chat interface.
//!
//! The crate decodes tagged wire envelopes into semantic updates, applies
//! them to a local session state (a roster of online users and an
//! append-only message log), decides when the view must re-render, and
//! projects the state into a render tree.

pub mod chars;
pub mod codec;
pub mod projection;
pub mod reducer;
