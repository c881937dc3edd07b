//! The media loop: rooms, the peers in them and the tracks between them.
pub mod audibility;
pub mod command;
pub mod course;
pub mod dispatch;
pub mod engine;
pub mod engine_io;
pub mod join;
pub mod join_laws;
pub mod laws;
pub mod media_laws;
pub mod media_loop;
pub mod negotiate;
pub mod offer_laws;
pub mod outbox;
pub mod payloads;
pub mod peer;
pub mod peer_media;
pub mod poll;
pub mod room;
pub mod round_laws;
pub mod soundness;
pub mod state_laws;
pub mod tracks;
pub mod transport;
pub mod turn_laws;
pub mod webrtc;

pub use command::{Command, JoinRequest};
pub use engine::Engine;
pub use tracks::PeerId;
