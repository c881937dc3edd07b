//! A call and who is in it.
use vstd::prelude::*;
use vstd::string::*;

use crate::find::{first_where, first_where_found, first_where_missing};
use crate::names::{copy_names, insert_name, ordered, remove_name, same_names, texts, without_name};
use crate::proto::{peer_infos, PeerInfo, PeerInfoView, ServerMsg, ServerMsgView};
use crate::sfu::outbox::{posts_of, Envelope, Post};
use crate::sfu::peer::{Peer, PeerView};
use crate::sfu::peer_media::{forwards, serves_keyframe};
use crate::sfu::tracks::{
    PeerId, Propagated, PropagatedView, TrackIn, TrackInEntryView, TrackInView, TrackOut,
    TrackOutState, TrackOutStateView, TrackOutView,
};
use crate::sfu::webrtc::Now;

verus! {

/// A call. Rooms are created by the first join and destroyed by the last leave;
/// nothing else can bring one into existence, so a stale room cannot linger.
pub struct Room {
    /// The host application's identifier for this call, carried for anything
    /// that needs to correlate a room with its own records.
    pub call_id: String,
    pub peers: Vec<Peer>,
    /// Last speaking set broadcast, so an unchanged set costs nothing.
    pub speaking: Vec<String>,
}

#[verifier::ext_equal]
pub struct RoomView {
    pub call_id: Seq<char>,
    pub peers: Seq<PeerView>,
    pub speaking: Seq<Seq<char>>,
}

pub open spec fn peers_of(peers: Seq<Peer>) -> Seq<PeerView> {
    peers.map_values(|p: Peer| p@)
}

impl View for Room {
    type V = RoomView;

    open spec fn view(&self) -> RoomView {
        RoomView {
            call_id: self.call_id@,
            peers: peers_of(self.peers@),
            speaking: texts(self.speaking@),
        }
    }
}

/// Being the peer with an id.
pub open spec fn has_id(id: PeerId) -> spec_fn(PeerView) -> bool {
    |peer: PeerView| peer.id == id
}

/// Who is there.
pub open spec fn ids_of(peers: Seq<PeerView>) -> Seq<PeerId> {
    peers.map_values(|p: PeerView| p.id)
}

pub open spec fn infos_of(peers: Seq<PeerView>) -> Seq<PeerInfoView> {
    peers.map_values(|p: PeerView| p.info())
}

/// One message for every peer.
pub open spec fn to_all(peers: Seq<PeerView>, message: ServerMsgView) -> Seq<Post> {
    peers.map_values(|p: PeerView| Post { to: p.id, message })
}

/// A subscription that waits for its m-line.
pub open spec fn new_subscription(track: TrackInView) -> TrackOutView {
    TrackOutView { track_in: track, state: TrackOutStateView::ToOpen }
}

/// What something one peer produced does to a peer of its room.
pub open spec fn receives(
    before: PeerView,
    after: PeerView,
    event: PropagatedView,
    present: Seq<PeerId>,
) -> bool {
    if event.source() == Some(before.id) {
        after == before
    } else {
        match event {
            PropagatedView::TrackOpen(_, track) => after == (PeerView {
                tracks_out: before.tracks_out.push(new_subscription(track)),
                ..before
            }),
            PropagatedView::Media(origin, packet) => forwards(
                before,
                after,
                origin,
                packet,
                present,
            ),
            PropagatedView::KeyframeRequest(_, kind, publisher, mid) => if publisher == before.id {
                serves_keyframe(before, after, mid, kind)
            } else {
                after == before
            },
            _ => after == before,
        }
    }
}

/// What something one peer produced does to its room.
pub open spec fn propagates(before: RoomView, after: RoomView, event: PropagatedView) -> bool {
    &&& after == RoomView { peers: after.peers, ..before }
    &&& after.peers.len() == before.peers.len()
    &&& forall|i: int|
        0 <= i < before.peers.len() ==> receives(
            before.peers[i],
            #[trigger] after.peers[i],
            event,
            ids_of(before.peers),
        )
}

/// The tracks a list of published tracks names.
pub open spec fn tracks_named(entries: Seq<TrackInEntryView>) -> Seq<TrackInView> {
    entries.map_values(|t: TrackInEntryView| t.id)
}

/// Everything that is published, except by one peer.
pub open spec fn published_by_others(peers: Seq<PeerView>, except: PeerId) -> Seq<TrackInView>
    decreases peers.len(),
{
    if peers.len() == 0 {
        Seq::empty()
    } else {
        let rest = published_by_others(peers.drop_last(), except);
        if peers.last().id == except {
            rest
        } else {
            rest + tracks_named(peers.last().tracks_in)
        }
    }
}

/// Subscriptions that wait, for a list of tracks.
pub open spec fn new_subscriptions(tracks: Seq<TrackInView>) -> Seq<TrackOutView> {
    tracks.map_values(|t: TrackInView| new_subscription(t))
}

/// A room in which one peer has subscribed to all the others.
pub open spec fn subscribed(peers: Seq<PeerView>, joining: PeerId) -> Seq<PeerView> {
    match first_where(peers, has_id(joining)) {
        None => peers,
        Some(i) => peers.update(
            i,
            PeerView {
                tracks_out: peers[i].tracks_out + new_subscriptions(
                    published_by_others(peers, joining),
                ),
                ..peers[i]
            },
        ),
    }
}

/// Who is heard: the ids of those who speak and are not muted, in the order of
/// their arrival.
pub open spec fn talking(peers: Seq<PeerView>, now: u64) -> Seq<Seq<char>>
    decreases peers.len(),
{
    if peers.len() == 0 {
        Seq::empty()
    } else {
        let rest = talking(peers.drop_last(), now);
        if !peers.last().muted && peers.last().is_speaking(now) {
            rest.push(peers.last().id.text())
        } else {
            rest
        }
    }
}

/// A room whose list of speakers is up to date.
pub open spec fn speaking_synced(room: RoomView, now: u64) -> RoomView {
    RoomView { speaking: ordered(talking(room.peers, now)), ..room }
}

/// What the room is told of its speakers: nothing, unless the list has moved.
pub open spec fn speaking_posts(room: RoomView, now: u64) -> Seq<Post> {
    let current = ordered(talking(room.peers, now));
    if current == room.speaking {
        Seq::empty()
    } else {
        to_all(room.peers, ServerMsgView::Speaking { peer_ids: current })
    }
}

/// A room that one peer has left.
pub open spec fn without_peer(room: RoomView, id: PeerId) -> RoomView {
    match first_where(room.peers, has_id(id)) {
        None => room,
        Some(i) => RoomView {
            peers: room.peers.remove(i),
            speaking: without_name(room.speaking, id.text()),
            ..room
        },
    }
}

/// What those who stay are told when a peer leaves.
pub open spec fn farewell(room: RoomView, id: PeerId) -> Seq<Post> {
    match first_where(room.peers, has_id(id)) {
        None => Seq::empty(),
        Some(i) => to_all(room.peers.remove(i), ServerMsgView::PeerLeft { peer_id: id.text() }),
    }
}

impl Room {
    pub fn new(call_id: String) -> (room: Self)
        ensures
            room@ == (RoomView { call_id: call_id@, peers: Seq::empty(), speaking: Seq::empty() }),
    {
        let room = Room { call_id, peers: Vec::new(), speaking: Vec::new() };
        assert(room@.peers =~= Seq::empty());
        assert(room@.speaking =~= Seq::empty());
        room
    }

    /// Where a peer stands in the room.
    pub fn position(&self, id: PeerId) -> (found: Option<usize>)
        ensures
            match found {
                Some(i) => i < self.peers.len() && first_where(self@.peers, has_id(id)) == Some(i as int),
                None => first_where(self@.peers, has_id(id)) is None,
            },
    {
        let ghost all = self@.peers;
        let ghost wanted = has_id(id);
        let mut i: usize = 0;
        while i < self.peers.len()
            invariant
                i <= self.peers.len(),
                all == self@.peers,
                wanted == has_id(id),
                forall|j: int| 0 <= j < i ==> !wanted(#[trigger] all[j]),
            decreases self.peers.len() - i,
        {
            if self.peers[i].id == id {
                proof {
                    first_where_found(all, wanted, i as int);
                }
                return Some(i);
            }
            assert(!wanted(all[i as int]));
            i = i + 1;
        }
        proof {
            first_where_missing(all, wanted);
        }
        None
    }

    pub fn peer_mut(&mut self, id: PeerId) -> (found: Option<&mut Peer>)
        ensures
            match found {
                Some(peer) => {
                    &&& first_where(old(self)@.peers, has_id(id)) matches Some(i)
                    &&& 0 <= i < old(self).peers@.len()
                    &&& *peer == old(self).peers@[i]
                    &&& *final(self) == (Room {
                        peers: final(self).peers,
                        call_id: old(self).call_id,
                        speaking: old(self).speaking,
                    })
                    &&& final(self).peers@ == old(self).peers@.update(i, *final(peer))
                },
                None => {
                    &&& first_where(old(self)@.peers, has_id(id)) is None
                    &&& *final(self) == *old(self)
                },
            },
    {
        match self.position(id) {
            Some(i) => Some(&mut self.peers[i]),
            None => None,
        }
    }

    pub fn roster(&self) -> (roster: Vec<PeerInfo>)
        ensures
            peer_infos(roster@) == infos_of(self@.peers),
    {
        let mut roster: Vec<PeerInfo> = Vec::new();
        let mut i: usize = 0;
        while i < self.peers.len()
            invariant
                i <= self.peers.len(),
                peer_infos(roster@) =~= infos_of(self@.peers).take(i as int),
            decreases self.peers.len() - i,
        {
            let ghost held = peer_infos(roster@);
            let info = self.peers[i].info();
            roster.push(info);
            assert(peer_infos(roster@) =~= held.push(info@));
            i = i + 1;
        }
        assert(infos_of(self@.peers).take(i as int) =~= infos_of(self@.peers));
        roster
    }

    /// Who is there.
    pub fn ids(&self) -> (ids: Vec<PeerId>)
        ensures
            ids@ == ids_of(self@.peers),
    {
        let mut ids: Vec<PeerId> = Vec::new();
        let mut i: usize = 0;
        while i < self.peers.len()
            invariant
                i <= self.peers.len(),
                ids@ =~= ids_of(self@.peers).take(i as int),
            decreases self.peers.len() - i,
        {
            ids.push(self.peers[i].id);
            i = i + 1;
        }
        ids
    }

    pub fn broadcast(&self, message: ServerMsg, outbox: &mut Vec<Envelope>)
        ensures
            posts_of(final(outbox)@) == posts_of(old(outbox)@) + to_all(self@.peers, message@),
    {
        let ghost posted = posts_of(outbox@);
        let ghost all = to_all(self@.peers, message@);
        let mut i: usize = 0;
        assert(posted + all.take(0) =~= posted);
        while i < self.peers.len()
            invariant
                i <= self.peers.len(),
                all == to_all(self@.peers, message@),
                posts_of(outbox@) == posted + all.take(i as int),
            decreases self.peers.len() - i,
        {
            self.peers[i].send(message.clone(), outbox);
            assert((posted + all.take(i as int)).push(all[i as int]) =~= posted + all.take(i + 1));
            i = i + 1;
        }
        assert(all.take(i as int) =~= all);
    }

    /// Hands one peer's output to everyone else in the room.
    pub fn propagate(&mut self, propagated: &Propagated)
        ensures
            propagates(old(self)@, final(self)@, propagated@),
    {
        let origin = match propagated.source() {
            Some(origin) => origin,
            None => {
                return;
            },
        };
        let ghost before = self@;
        let present = self.ids();
        let mut i: usize = 0;
        while i < self.peers.len()
            invariant
                i <= self.peers.len(),
                propagated@.source() == Some(origin),
                before == old(self)@,
                present@ == ids_of(before.peers),
                self@ == (RoomView { peers: self@.peers, ..before }),
                self.peers.len() == before.peers.len(),
                forall|j: int|
                    0 <= j < i ==> receives(
                        before.peers[j],
                        #[trigger] self@.peers[j],
                        propagated@,
                        present@,
                    ),
                forall|j: int|
                    i <= j < self.peers.len() ==> #[trigger] self@.peers[j] == before.peers[j],
            decreases self.peers.len() - i,
        {
            let ghost held = self@;
            assert(self@.peers[i as int] == before.peers[i as int]);
            if self.peers[i].id != origin {
                let peer = &mut self.peers[i];
                match propagated {
                    Propagated::TrackOpen(_, track_in) => {
                        peer.tracks_out.push(
                            TrackOut { track_in: track_in.clone(), state: TrackOutState::ToOpen },
                        );
                        assert(peer@.tracks_out =~= before.peers[i as int].tracks_out.push(
                            new_subscription(track_in@),
                        ));
                    },
                    Propagated::Media(_, packet) => peer.forward(origin, packet, &present),
                    Propagated::KeyframeRequest(_, kind, publisher, mid) => {
                        if *publisher == peer.id {
                            peer.serve_keyframe_request(mid, *kind);
                        }
                    },
                    Propagated::Noop => {},
                    Propagated::Timeout(_) => {},
                }
            }
            proof {
                assert forall|j: int| 0 <= j < self.peers.len() && j != i implies
                    #[trigger] self@.peers[j] == held.peers[j] by {}
            }
            i = i + 1;
        }
    }

    /// Gives a joining peer a subscription to everything already being published.
    pub fn subscribe_to_existing(&mut self, joining: PeerId)
        ensures
            final(self)@ == (RoomView { peers: subscribed(old(self)@.peers, joining), ..old(self)@ }),
    {
        let existing = self.publications(joining);
        let ghost tracks = published_by_others(self@.peers, joining);
        match self.position(joining) {
            Some(at) => {
                let ghost before = self@.peers;
                let ghost added = new_subscriptions(tracks);
                let mut i: usize = 0;
                while i < existing.len()
                    invariant
                        i <= existing.len(),
                        at < self.peers.len(),
                        before == old(self)@.peers,
                        self.peers.len() == before.len(),
                        tracks_views(existing@) == tracks,
                        added == new_subscriptions(tracks),
                        self@ == (RoomView { peers: self@.peers, ..old(self)@ }),
                        self@.peers =~= before.update(
                            at as int,
                            PeerView {
                                tracks_out: before[at as int].tracks_out + added.take(i as int),
                                ..before[at as int]
                            },
                        ),
                    decreases existing.len() - i,
                {
                    let ghost all = self@.peers;
                    let ghost held = all[at as int];
                    let track_in = existing[i].clone();
                    assert(tracks_views(existing@)[i as int] == track_in@);
                    self.peers[at].tracks_out.push(
                        TrackOut { track_in, state: TrackOutState::ToOpen },
                    );
                    proof {
                        let now = self@.peers[at as int];
                        assert(now.tracks_out =~= held.tracks_out.push(added[i as int]));
                        assert(now.tracks_out =~= before[at as int].tracks_out + added.take(i + 1));
                        assert(now =~= (PeerView { tracks_out: now.tracks_out, ..held }));
                        assert forall|j: int| 0 <= j < before.len() && j != at implies
                            #[trigger] self@.peers[j] == all[j] by {}
                    }
                    i = i + 1;
                }
                assert(added.take(i as int) =~= added);
            },
            None => {},
        }
    }

    /// Everything that is published, except by one peer.
    fn publications(&self, except: PeerId) -> (tracks: Vec<TrackIn>)
        ensures
            tracks_views(tracks@) == published_by_others(self@.peers, except),
    {
        let mut tracks: Vec<TrackIn> = Vec::new();
        let ghost all = self@.peers;
        let mut i: usize = 0;
        assert(tracks_views(tracks@) =~= published_by_others(all.take(0), except));
        while i < self.peers.len()
            invariant
                i <= self.peers.len(),
                all == self@.peers,
                tracks_views(tracks@) == published_by_others(all.take(i as int), except),
            decreases self.peers.len() - i,
        {
            let peer = &self.peers[i];
            let ghost held = tracks_views(tracks@);
            proof {
                assert(all.take(i + 1).drop_last() =~= all.take(i as int));
                assert(all.take(i + 1).last() == peer@);
            }
            if peer.id != except {
                let ghost named = tracks_named(peer@.tracks_in);
                let mut k: usize = 0;
                assert(held + named.take(0) =~= held);
                while k < peer.tracks_in.len()
                    invariant
                        k <= peer.tracks_in.len(),
                        named == tracks_named(peer@.tracks_in),
                        tracks_views(tracks@) == held + named.take(k as int),
                    decreases peer.tracks_in.len() - k,
                {
                    let ghost so_far = tracks_views(tracks@);
                    let track = peer.tracks_in[k].id.clone();
                    tracks.push(track);
                    assert(tracks_views(tracks@) =~= so_far.push(named[k as int]));
                    assert(tracks_views(tracks@) =~= held + named.take(k + 1));
                    k = k + 1;
                }
                assert(named.take(k as int) =~= named);
            }
            i = i + 1;
        }
        assert(all.take(i as int) =~= all);
        tracks
    }

    /// Recomputes who is talking from the audio-level header extension and
    /// broadcasts only when the set actually moves.
    pub fn sync_speaking(&mut self, now: Now, outbox: &mut Vec<Envelope>)
        ensures
            final(self)@ == speaking_synced(old(self)@, now.nanos),
            posts_of(final(outbox)@) == posts_of(old(outbox)@) + speaking_posts(
                old(self)@,
                now.nanos,
            ),
    {
        let current = self.speakers(now);
        if same_names(&current, &self.speaking) {
            assert(posts_of(outbox@) + Seq::<Post>::empty() =~= posts_of(outbox@));
            return;
        }
        self.speaking = copy_names(&current);
        self.broadcast(ServerMsg::Speaking { peer_ids: current }, outbox);
    }

    /// Who is heard, in alphabetical order.
    fn speakers(&self, now: Now) -> (names: Vec<String>)
        ensures
            texts(names@) == ordered(talking(self@.peers, now.nanos)),
    {
        let mut names: Vec<String> = Vec::new();
        let ghost all = self@.peers;
        let mut i: usize = 0;
        assert(texts(names@) =~= ordered(talking(all.take(0), now.nanos)));
        while i < self.peers.len()
            invariant
                i <= self.peers.len(),
                all == self@.peers,
                texts(names@) == ordered(talking(all.take(i as int), now.nanos)),
            decreases self.peers.len() - i,
        {
            let peer = &self.peers[i];
            proof {
                assert(all.take(i + 1).drop_last() =~= all.take(i as int));
                assert(all.take(i + 1).last() == peer@);
            }
            if !peer.muted && peer.is_speaking(now) {
                let ghost heard = talking(all.take(i as int), now.nanos);
                assert(heard.push(peer.id.text()).drop_last() =~= heard);
                insert_name(&mut names, peer.id.as_string());
            }
            i = i + 1;
        }
        assert(all.take(i as int) =~= all);
        names
    }

    /// Removes a peer and tells the room. Returns it so the caller can decide
    /// whether the departure is worth reporting to the host application.
    pub fn remove(&mut self, id: PeerId, outbox: &mut Vec<Envelope>) -> (gone: Option<Peer>)
        ensures
            final(self)@ == without_peer(old(self)@, id),
            posts_of(final(outbox)@) == posts_of(old(outbox)@) + farewell(old(self)@, id),
            match first_where(old(self)@.peers, has_id(id)) {
                Some(i) => gone matches Some(peer) && peer@ == old(self)@.peers[i],
                None => gone is None,
            },
    {
        match self.position(id) {
            Some(i) => {
                let ghost before = self@;
                let peer = self.peers.remove(i);
                assert(self@.peers =~= before.peers.remove(i as int));
                let name = id.as_string();
                remove_name(&mut self.speaking, name.as_str());
                self.broadcast(ServerMsg::PeerLeft { peer_id: name }, outbox);
                Some(peer)
            },
            None => {
                assert(posts_of(outbox@) + Seq::<Post>::empty() =~= posts_of(outbox@));
                None
            },
        }
    }

    pub fn is_empty(&self) -> (empty: bool)
        ensures
            empty == (self@.peers.len() == 0),
    {
        self.peers.len() == 0
    }
}

pub open spec fn tracks_views(tracks: Seq<TrackIn>) -> Seq<TrackInView> {
    tracks.map_values(|t: TrackIn| t@)
}

} // verus!
