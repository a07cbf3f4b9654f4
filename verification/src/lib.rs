//! A reverse-tunnel proxy core: request correlation and response assembly.
//!
//! An HTTP listener on the public side hands each inbound request to this
//! library; the actual handler lives behind NAT and talks back over a
//! persistent tunnel. The library owns the per-request hand-off queue, the
//! registry that routes inbound tunnel frames by correlation id, the wire
//! codec for those frames, and the request lifecycle state machine that
//! assembles the frames into one HTTP response.

pub mod codec;
pub mod ext;
pub mod handler;
pub mod ids;
pub mod logging;
pub mod protocol;
pub mod queue;
pub mod registry;
pub mod request;
pub mod server;
pub mod session;
