//! Messages on their way to the browsers.
use vstd::prelude::*;

use crate::proto::{ServerMsg, ServerMsgView};
use crate::sfu::tracks::PeerId;

verus! {

/// A message for one peer's signaling socket.
#[derive(Debug)]
pub struct Envelope {
    pub to: PeerId,
    pub message: ServerMsg,
}

#[verifier::ext_equal]
pub struct Post {
    pub to: PeerId,
    pub message: ServerMsgView,
}

impl View for Envelope {
    type V = Post;

    open spec fn view(&self) -> Post {
        Post { to: self.to, message: self.message@ }
    }
}

/// What an outbox holds.
pub open spec fn posts_of(outbox: Seq<Envelope>) -> Seq<Post> {
    outbox.map_values(|e: Envelope| e@)
}

/// Adds a message to an outbox.
pub fn post(outbox: &mut Vec<Envelope>, to: PeerId, message: ServerMsg)
    ensures
        posts_of(final(outbox)@) == posts_of(old(outbox)@).push(Post { to, message: message@ }),
{
    outbox.push(Envelope { to, message });
    assert(posts_of(outbox@) =~= posts_of(old(outbox)@).push(Post { to, message: message@ }));
}

} // verus!
