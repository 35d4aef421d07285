//! A reddit bot library: it finds quoted friend names in inbox mentions,
//! resolves each name to a wiki page and image, and assembles the replies.
//! The session state machine that gates every outbound call, and the batched
//! resolution pipeline, are verified; the network itself stays outside.

pub mod batch;
pub mod friend;
pub mod image_url;
pub mod message;
pub mod page;
pub mod partial_page;
pub mod process;
pub mod session;
pub mod text;

use vstd::prelude::*;

verus! {

/// The version string carried in every user agent.
pub const VERSION: &'static str = "1.0";

} // verus!
