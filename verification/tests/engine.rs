//! A whole media loop without sockets: "browsers" built out of str0m exchange
//! datagrams with the engine through memory, on a clock of the test's own.

use std::collections::HashSet;
use std::time::{Duration, Instant};

use ferrite_sfu::auth::JoinClaims;
use ferrite_sfu::net::{Endpoint, Ip};
use ferrite_sfu::proto::ServerMsg;
use ferrite_sfu::report::ReportEvent;
use ferrite_sfu::sfu::command::JoinReply;
use ferrite_sfu::sfu::engine::Engine;
use ferrite_sfu::sfu::engine_io::read_timeout;
use ferrite_sfu::sfu::media_loop::{ControlFlow, Received};
use ferrite_sfu::sfu::peer::AnswerError;
use ferrite_sfu::sfu::tracks::{KeyframeKind, TrackOutState};
use ferrite_sfu::sfu::webrtc::{Happening, IceState, Now};
use ferrite_sfu::sfu::{Command, JoinRequest, PeerId};
use str0m::change::{SdpAnswer, SdpOffer, SdpPendingOffer};
use str0m::media::{Direction, Frequency, KeyframeRequestKind, MediaKind, MediaTime, Mid};
use str0m::net::{Protocol, Receive};
use str0m::{Candidate, Event, IceConnectionState, Input, Output, Rtc};

const SFU_PORT: u16 = 7899;

/// One step of the clock, in milliseconds.
const STEP: u64 = 5;

fn local(port: u16) -> Endpoint {
    Endpoint { ip: Ip::V4([127, 0, 0, 1]), port }
}

/// Stands in for a browser tab: it offers send-only m-lines, answers whatever
/// the SFU offers back, and counts the media it receives.
struct Browser {
    id: PeerId,
    port: u16,
    rtc: Rtc,
    pending: Option<SdpPendingOffer>,
    audio: Mid,
    video: Mid,
    joined: bool,
    connected: bool,
    /// Whether its datagrams reach the SFU, and the SFU's reach it.
    reachable: bool,
    received: usize,
    received_mids: HashSet<Mid>,
    payloads: HashSet<Vec<u8>>,
    levels: HashSet<Option<i8>>,
    video_mids: HashSet<Mid>,
    keyframe_requests: usize,
    inbox: Vec<ServerMsg>,
    rtp_time: u64,
}

struct World {
    engine: Engine,
    base: Instant,
    millis: u64,
    browsers: Vec<Browser>,
    reports: Vec<ReportEvent>,
    strays: Vec<(PeerId, ServerMsg)>,
    /// Answers that are held back, if any are to be.
    held: Option<Vec<(PeerId, String)>>,
}

fn claims(room: &str, user: &str) -> JoinClaims {
    JoinClaims {
        sub: user.to_string(),
        room: room.to_string(),
        call_id: "call-under-test".to_string(),
        name: format!("name of {user}"),
        avatar_url: "".to_string(),
        exp: 0,
    }
}

impl World {
    fn new(max_room_peers: usize) -> World {
        let base = Instant::now();
        World {
            engine: Engine::new(false, max_room_peers, local(SFU_PORT), Now { instant: base, nanos: 0 }),
            base,
            millis: 0,
            browsers: Vec::new(),
            reports: Vec::new(),
            strays: Vec::new(),
            held: None,
        }
    }

    fn now(&self) -> Now {
        Now { instant: self.instant(), nanos: self.millis * 1_000_000 }
    }

    fn instant(&self) -> Instant {
        self.base + Duration::from_millis(self.millis)
    }

    fn tell(&mut self, command: Command) -> Option<JoinReply> {
        let now = self.now();
        match self.engine.drain_commands(Received::Command(command), now) {
            ControlFlow::Reply(reply) => Some(reply),
            ControlFlow::Again => None,
            _ => panic!("the loop should go on"),
        }
    }

    fn ask(&mut self, room: &str, user: &str, sdp: &str) -> JoinReply {
        let request = JoinRequest { claims: claims(room, user), sdp: sdp.to_string() };
        self.tell(Command::Join(Box::new(request))).expect("a reply")
    }

    /// A session that offers a microphone and a screen, and the offer.
    fn offer(&self, port: u16) -> (Rtc, SdpPendingOffer, String, Mid, Mid) {
        let mut rtc = Rtc::builder().build(self.instant());
        let address = format!("127.0.0.1:{port}").parse().expect("an address");
        rtc.add_local_candidate(Candidate::host(address, "udp").expect("candidate"));
        let mut change = rtc.sdp_api();
        let audio = change.add_media(MediaKind::Audio, Direction::SendOnly, None, None, None);
        let video = change.add_media(MediaKind::Video, Direction::SendOnly, None, None, None);
        let (offer, pending) = change.apply().expect("initial offer");
        (rtc, pending, offer.to_sdp_string(), audio, video)
    }

    fn join(&mut self, room: &str, user: &str) -> usize {
        self.join_with(room, user, |sdp| sdp.to_string())
    }

    /// Joins with an offer that was worked over on the way.
    fn join_with(&mut self, room: &str, user: &str, edit: fn(&str) -> String) -> usize {
        let port = 50_000 + self.browsers.len() as u16;
        let (rtc, pending, sdp, audio, video) = self.offer(port);
        let id = match self.ask(room, user, &edit(&sdp)) {
            JoinReply::Admitted(id) => id,
            JoinReply::Refused(message) => panic!("refused: {message:?}"),
        };
        self.browsers.push(Browser {
            id,
            port,
            rtc,
            pending: Some(pending),
            audio,
            video,
            joined: false,
            connected: false,
            reachable: true,
            received: 0,
            received_mids: HashSet::new(),
            payloads: HashSet::new(),
            levels: HashSet::new(),
            video_mids: HashSet::new(),
            keyframe_requests: 0,
            inbox: Vec::new(),
            rtp_time: 0,
        });
        self.browsers.len() - 1
    }

    /// One turn of everybody's event loop.
    fn step(&mut self) {
        self.millis += STEP;
        let now = self.now();
        self.deliver_signals();
        let (wake, _, _) = self.engine.see_to_rooms(now);
        assert!(read_timeout(wake, now) >= 1_000_000);
        assert!(wake <= now.nanos + 100_000_000);
        self.reports.append(&mut self.engine.reports);
        self.deliver_signals();
        for transmit in std::mem::take(&mut self.engine.transmits) {
            for browser in self.browsers.iter_mut() {
                if browser.reachable && transmit.destination.port() == browser.port {
                    let receive = Receive::new(
                        Protocol::Udp,
                        transmit.source,
                        transmit.destination,
                        &transmit.contents,
                    )
                    .expect("a datagram");
                    let _ = browser.rtc.handle_input(Input::Receive(now.instant, receive));
                }
            }
        }
        for i in 0..self.browsers.len() {
            self.poll_browser(i);
        }
        self.engine.resume(None, now);
        for browser in self.browsers.iter_mut() {
            let _ = browser.rtc.handle_input(Input::Timeout(now.instant));
        }
    }

    fn poll_browser(&mut self, i: usize) {
        loop {
            let now = self.now();
            let browser = &mut self.browsers[i];
            match browser.rtc.poll_output() {
                Ok(Output::Transmit(transmit)) => {
                    if browser.reachable {
                        let source = local(browser.port);
                        self.engine.read_once(source, &transmit.contents, now);
                    }
                }
                Ok(Output::Timeout(_)) => return,
                Ok(Output::Event(event)) => browser.on_event(event),
                Err(_) => return,
            }
        }
    }

    fn deliver_signals(&mut self) {
        for envelope in std::mem::take(&mut self.engine.outbox) {
            let Some(at) = self.browsers.iter().position(|b| b.id == envelope.to) else {
                self.strays.push((envelope.to, envelope.message));
                continue;
            };
            let browser = &mut self.browsers[at];
            let peer = browser.id;
            let mut answer = None;
            match &envelope.message {
                ServerMsg::Joined { sdp, .. } => {
                    let parsed = SdpAnswer::from_sdp_string(sdp).expect("answer parses");
                    let pending = browser.pending.take().expect("pending offer");
                    browser.rtc.sdp_api().accept_answer(pending, parsed).expect("answer accepted");
                    browser.joined = true;
                }
                ServerMsg::Offer { sdp, .. } => {
                    let parsed = SdpOffer::from_sdp_string(sdp).expect("offer parses");
                    let made = browser.rtc.sdp_api().accept_offer(parsed).expect("offer accepted");
                    answer = Some(made.to_sdp_string());
                }
                _ => {}
            }
            browser.inbox.push(envelope.message);
            if let Some(sdp) = answer {
                match &mut self.held {
                    Some(held) => held.push((peer, sdp)),
                    None => {
                        self.tell(Command::Answer { peer, sdp });
                    }
                }
            }
        }
    }

    fn run_until(&mut self, what: &str, seconds: u64, done: impl Fn(&World) -> bool) {
        let deadline = self.millis + seconds * 1000;
        while self.millis < deadline {
            self.step();
            if done(self) {
                return;
            }
        }
        panic!("timed out waiting for {what}");
    }

    fn run_for(&mut self, millis: u64) {
        let deadline = self.millis + millis;
        while self.millis < deadline {
            self.step();
        }
    }

    fn all_connected(&mut self) {
        self.run_until("all joins to be answered", 10, |world| {
            world.browsers.iter().all(|browser| browser.joined)
        });
        self.run_until("ICE to connect", 20, |world| {
            world.browsers.iter().all(|browser| browser.connected)
        });
    }

    /// Everybody publishes audio, every 20 ms, until something holds.
    fn talk_until(&mut self, what: &str, seconds: u64, done: impl Fn(&World) -> bool) {
        let deadline = self.millis + seconds * 1000;
        while self.millis < deadline {
            let instant = self.instant();
            for browser in self.browsers.iter_mut() {
                browser.send_audio(instant, None, 0x0a);
            }
            for _ in 0..4 {
                self.step();
            }
            if done(self) {
                return;
            }
        }
        panic!("timed out waiting for {what}");
    }

    /// Everyone is subscribed to everything the others publish.
    fn everyone_hears_everyone(&self) -> bool {
        self.engine.rooms.iter().all(|entry| {
            let peers = &entry.room.peers;
            peers.iter().all(|listener| {
                peers.iter().filter(|publisher| publisher.id != listener.id).all(|publisher| {
                    publisher.tracks_in.iter().all(|track| {
                        listener.tracks_out.iter().any(|out| {
                            out.track_in.origin == publisher.id && out.track_in.mid == track.id.mid
                        })
                    })
                })
            })
        })
    }

    fn reported(&self, event: &str) -> usize {
        self.reports.iter().filter(|report| report.event == event).count()
    }
}

impl Browser {
    fn send_audio(&mut self, now: Instant, level: Option<i8>, byte: u8) {
        if !self.connected {
            return;
        }
        let Some(writer) = self.rtc.writer(self.audio) else { return };
        let Some(pt) = writer.payload_params().map(|params| params.pt()).next() else { return };
        let writer = match level {
            Some(level) => writer.audio_level(level, true),
            None => writer,
        };
        let time = MediaTime::new(self.rtp_time, Frequency::FORTY_EIGHT_KHZ);
        let _ = writer.write(pt, now, time, vec![byte; 80]);
        self.rtp_time += 960;
    }

    fn send_video(&mut self, now: Instant) {
        let Some(writer) = self.rtc.writer(self.video) else { return };
        let Some(pt) = writer.payload_params().map(|params| params.pt()).next() else { return };
        let time = MediaTime::new(self.rtp_time * 90 / 48, Frequency::NINETY_KHZ);
        let _ = writer.write(pt, now, time, vec![0x10; 200]);
        self.rtp_time += 960;
    }

    fn on_event(&mut self, event: Event) {
        match event {
            Event::IceConnectionStateChange(state) => {
                if matches!(state, IceConnectionState::Connected | IceConnectionState::Completed) {
                    self.connected = true;
                }
            }
            Event::MediaAdded(added) => {
                if added.kind == MediaKind::Video {
                    self.video_mids.insert(added.mid);
                }
            }
            Event::MediaData(data) => {
                self.received += 1;
                self.received_mids.insert(data.mid);
                self.payloads.insert(data.data.to_vec());
                self.levels.insert(data.ext_vals.audio_level);
            }
            Event::KeyframeRequest(_) => self.keyframe_requests += 1,
            _ => {}
        }
    }

    fn heard(&self, wanted: impl Fn(&ServerMsg) -> bool) -> usize {
        self.inbox.iter().filter(|message| wanted(message)).count()
    }

    fn last_speakers(&self) -> Option<Vec<String>> {
        self.inbox.iter().rev().find_map(|message| match message {
            ServerMsg::Speaking { peer_ids } => Some(peer_ids.clone()),
            _ => None,
        })
    }
}

fn code_of(reply: JoinReply) -> (String, String) {
    match reply {
        JoinReply::Refused(ServerMsg::Error { code, message }) => (code, message),
        JoinReply::Refused(other) => panic!("refused with {other:?}"),
        JoinReply::Admitted(id) => panic!("admitted as {id:?}"),
    }
}

#[test]
fn two_peers_join_and_audio_is_forwarded() {
    let mut world = World::new(8);
    world.join("room-1", "user-alice");
    world.join("room-1", "user-bob");
    world.all_connected();
    world.talk_until("audio to be forwarded", 15, |world| {
        world.browsers.iter().all(|browser| browser.received >= 5)
    });
    for browser in &world.browsers {
        assert!(browser.received >= 5);
        // The payload arrives as it was sent.
        assert!(browser.payloads.contains(&vec![0x0a_u8; 80]));
        assert_eq!(browser.payloads.len(), 1);
    }
}

#[test]
fn a_third_peer_receives_every_other_publisher() {
    let mut world = World::new(8);
    for name in ["carol", "dave", "erin"] {
        world.join("room-3", &format!("user-{name}"));
    }
    world.all_connected();
    world.talk_until("everyone to hear everyone", 20, |world| {
        world.browsers.iter().all(|browser| browser.received_mids.len() >= 2)
    });
    for browser in &world.browsers {
        assert_eq!(browser.received_mids.len(), 2);
    }
    assert!(world.everyone_hears_everyone());
    assert!(world.engine.rooms[0].room.peers.iter().all(|peer| peer.tracks_in.len() == 2));
    // Everyone learned about the two who arrived after them.
    let arrivals = world.browsers[0].heard(|m| matches!(m, ServerMsg::PeerJoined { .. }));
    assert!(arrivals >= 2, "carol saw the later arrivals");
}

#[test]
fn a_departure_reaches_the_rest_of_the_room() {
    let mut world = World::new(8);
    world.join("room-4", "user-frank");
    world.join("room-4", "user-grace");
    world.run_until("both joins", 10, |world| world.browsers.iter().all(|b| b.joined));
    let grace = world.browsers[1].id;
    world.tell(Command::Leave { peer: grace });
    world.step();
    let told = world.browsers[0].heard(
        |m| matches!(m, ServerMsg::PeerLeft { peer_id } if *peer_id == grace.as_string()),
    );
    assert_eq!(told, 1, "frank should be told grace left");
    assert_eq!(world.browsers[1].heard(|m| matches!(m, ServerMsg::PeerLeft { .. })), 0);
}

#[test]
fn a_joiner_is_told_who_is_there_and_they_of_it() {
    let mut world = World::new(8);
    world.join("room", "first");
    world.join("room", "second");
    world.step();
    let roster = world.browsers[1].inbox.iter().find_map(|m| match m {
        ServerMsg::Joined { peer_id, call_id, peers, .. } => {
            Some((peer_id.clone(), call_id.clone(), peers.clone()))
        }
        _ => None,
    });
    let (peer_id, call_id, peers) = roster.expect("joined");
    assert_eq!(peer_id, "2");
    assert_eq!(call_id, "call-under-test");
    assert_eq!(peers.len(), 1);
    assert_eq!(peers[0].peer_id, "1");
    assert_eq!(peers[0].user_id, "first");
    assert_eq!(peers[0].name, "name of first");
    assert!(!peers[0].muted && !peers[0].screen);
    let told = world.browsers[0].heard(
        |m| matches!(m, ServerMsg::PeerJoined { peer } if peer.user_id == "second"),
    );
    assert_eq!(told, 1);
}

#[test]
fn rooms_do_not_hear_each_other() {
    let mut world = World::new(8);
    world.join("one", "a");
    world.join("two", "b");
    world.all_connected();
    let instant = world.instant();
    world.browsers[0].send_audio(instant, None, 0x0a);
    world.run_for(500);
    assert_eq!(world.browsers[1].received, 0);
    assert_eq!(world.browsers[1].heard(|m| matches!(m, ServerMsg::PeerJoined { .. })), 0);
    assert_eq!(world.engine.rooms.len(), 2);
}

#[test]
fn a_full_room_refuses() {
    let mut world = World::new(2);
    world.join("room", "a");
    world.join("room", "b");
    let (_, _, sdp, _, _) = world.offer(51_000);
    let (code, message) = code_of(world.ask("room", "c", &sdp));
    assert_eq!(code, "room_full");
    assert_eq!(message, "This call is full.");
    assert_eq!(world.engine.rooms[0].room.peers.len(), 2);
    assert_eq!(world.engine.next_peer, 3);
}

#[test]
fn a_user_reconnects_to_a_full_room() {
    let mut world = World::new(2);
    world.join("room", "a");
    world.join("room", "b");
    let old = world.browsers[0].id;
    let again = world.join("room", "a");
    let id = world.browsers[again].id;
    assert_ne!(id, old);
    let ids: Vec<PeerId> = world.engine.rooms[0].room.peers.iter().map(|peer| peer.id).collect();
    assert_eq!(ids, vec![world.browsers[1].id, id]);
    assert!(!world.engine.peer_rooms.contains_key(&old.0));
    assert_eq!(world.engine.peer_rooms.get(&id.0).map(|name| name.as_str()), Some("room"));
    world.deliver_signals();
    let replaced = world.browsers[0].heard(
        |m| matches!(m, ServerMsg::Error { code, .. } if code == "replaced"),
    );
    assert_eq!(replaced, 1);
    let left = world.browsers[1].heard(
        |m| matches!(m, ServerMsg::PeerLeft { peer_id } if *peer_id == old.as_string()),
    );
    assert_eq!(left, 1);
    assert!(world.engine.reports.is_empty());
    // The limit still holds for anybody else.
    let (_, _, sdp, _, _) = world.offer(51_000);
    assert_eq!(code_of(world.ask("room", "c", &sdp)).0, "room_full");
}

#[test]
fn an_offer_with_a_nameless_line_is_refused() {
    let mut world = World::new(8);
    let (_, _, sdp, _, _) = world.offer(51_000);
    let bare: Vec<&str> = sdp.lines().filter(|line| !line.starts_with("a=mid:")).collect();
    let (code, message) = code_of(world.ask("room", "a", &format!("{}\r\n", bare.join("\r\n"))));
    assert_eq!((code.as_str(), message.as_str()), ("bad_offer", "Malformed session description."));
    assert!(world.engine.rooms.is_empty());
}

/// Two peers that hold back their answers, and the answer of the first to being
/// offered what the second publishes.
fn with_an_answer() -> (World, String) {
    with_an_answer_after(|sdp| sdp.to_string())
}

/// The same, where the first offered this when it joined.
fn with_an_answer_after(edit: fn(&str) -> String) -> (World, String) {
    let mut world = World::new(8);
    world.held = Some(Vec::new());
    world.join_with("room", "a", edit);
    world.join("room", "b");
    let id = world.browsers[0].id;
    let answers = |world: &World| -> Option<String> {
        let held = world.held.as_ref().expect("answers are held back");
        held.iter().find(|(peer, _)| *peer == id).map(|(_, sdp)| sdp.clone())
    };
    world.run_until("an offer", 10, |world| answers(world).is_some());
    let answer = answers(&world).expect("an answer");
    (world, answer)
}

#[test]
fn an_answer_that_names_a_line_twice_is_not_taken() {
    let (mut world, answer) = with_an_answer();
    let mids: Vec<&str> = answer.lines().filter(|line| line.starts_with("a=mid:")).collect();
    assert_eq!(mids.len(), 4);
    let twice = answer.replace(mids[3], mids[2]);
    let peer = &mut world.engine.rooms[0].room.peers[0];
    let parsed = SdpAnswer::from_sdp_string(&twice).expect("answer parses");
    let error = peer.accept_answer(parsed).unwrap_err();
    assert_eq!(error, AnswerError::Indistinct);
    assert_eq!(error.message(), "m-lines share a name");
    assert!(peer.pending.is_none());
    assert!(peer.link.is_alive());
    // The offer is done with.
    let proper = SdpAnswer::from_sdp_string(&answer).expect("answer parses");
    assert_eq!(peer.accept_answer(proper), Err(AnswerError::NoPendingOffer));
}

/// The payload type that a description gives to a codec first.
fn number_of(sdp: &str, codec: &str) -> String {
    let line = sdp.lines().find(|line| line.starts_with("a=rtpmap:") && line.contains(codec));
    let line = line.expect("the codec is there");
    line["a=rtpmap:".len()..].split(' ').next().expect("a number").to_string()
}

/// A description with another payload type for one of its codecs.
fn renumbered(sdp: &str, from: &str, to: &str) -> String {
    let mut lines: Vec<String> = Vec::new();
    for line in sdp.lines() {
        if line.starts_with("m=video") {
            let words: Vec<&str> = line.split(' ').collect();
            let words: Vec<&str> = words.iter().map(|word| if *word == from { to } else { word }).collect();
            lines.push(words.join(" "));
        } else {
            let mut changed = line.replace(&format!("apt={from}"), &format!("apt={to}"));
            for name in ["rtpmap", "fmtp", "rtcp-fb"] {
                changed = changed.replace(&format!("a={name}:{from} "), &format!("a={name}:{to} "));
            }
            lines.push(changed);
        }
    }
    format!("{}\r\n", lines.join("\r\n"))
}

/// A description whose video is VP8 and nothing else.
fn only_vp8(sdp: &str) -> String {
    let kept = number_of(sdp, "VP8");
    let mut lines: Vec<String> = Vec::new();
    let mut video = false;
    for line in sdp.lines() {
        video = video || line.starts_with("m=video");
        let named = ["a=rtpmap:", "a=fmtp:", "a=rtcp-fb:"].iter().find(|name| line.starts_with(**name));
        match named {
            Some(name) if video && !line.starts_with(&format!("{name}{kept} ")) => {}
            _ if line.starts_with("m=video") => {
                let words: Vec<&str> = line.split(' ').take(3).collect();
                lines.push(format!("{} {kept}", words.join(" ")));
            }
            _ => lines.push(line.to_string()),
        }
    }
    format!("{}\r\n", lines.join("\r\n"))
}

#[test]
fn an_offer_of_one_number_for_two_formats_is_refused() {
    let mut world = World::new(8);
    let (_, _, sdp, _, _) = world.offer(51_000);
    let opus = number_of(&sdp, "opus");
    let vp8 = number_of(&sdp, "VP8");
    let clashing = renumbered(&sdp, &vp8, &opus);
    for direction in ["a=sendrecv", "a=recvonly", "a=inactive"] {
        let offer = clashing.replace("a=sendonly", direction);
        let (code, message) = code_of(world.ask("room", "a", &offer));
        assert_eq!((code.as_str(), message.as_str()), ("bad_offer", "Session description refused."));
    }
    assert!(world.engine.rooms.is_empty());
    // Without the clash each of them is taken.
    for direction in ["a=sendrecv", "a=recvonly", "a=inactive"] {
        let offer = sdp.replace("a=sendonly", direction);
        assert!(matches!(world.ask("room", direction, &offer), JoinReply::Admitted(_)));
    }
}

#[test]
fn a_number_that_is_only_proposed_can_be_moved() {
    let mut world = World::new(8);
    world.join_with("room", "a", |sdp| renumbered(sdp, &number_of(sdp, "VP8"), &number_of(sdp, "opus")));
    let answer = world
        .engine
        .outbox
        .iter()
        .find_map(|envelope| match &envelope.message {
            ServerMsg::Joined { sdp, .. } => Some(sdp.clone()),
            _ => None,
        })
        .expect("a welcome");
    assert_ne!(number_of(&answer, "VP8"), number_of(&answer, "opus"));
}

#[test]
fn retransmissions_need_a_number_of_their_own() {
    let mut world = World::new(8);
    let (_, _, sdp, _, _) = world.offer(51_000);
    let vp8 = number_of(&sdp, "VP8");
    let resend = sdp
        .lines()
        .find(|line| line.starts_with("a=fmtp:") && line.ends_with(&format!("apt={vp8}")))
        .map(|line| line["a=fmtp:".len()..].split(' ').next().expect("a number").to_string())
        .expect("VP8 can be sent again");
    let offer = renumbered(&sdp, &resend, &number_of(&sdp, "opus")).replace("a=sendonly", "a=sendrecv");
    let (code, message) = code_of(world.ask("room", "a", &offer));
    assert_eq!((code.as_str(), message.as_str()), ("bad_offer", "Session description refused."));
}

#[test]
fn an_answer_of_one_number_for_two_formats_is_not_taken() {
    let (mut world, answer) = with_an_answer_after(only_vp8);
    let clashing = renumbered(&answer, &number_of(&answer, "H264"), &number_of(&answer, "opus"));
    let peer = &mut world.engine.rooms[0].room.peers[0];
    let parsed = SdpAnswer::from_sdp_string(&clashing).expect("answer parses");
    let error = peer.accept_answer(parsed).unwrap_err();
    assert_eq!(error, AnswerError::Conflicting);
    assert_eq!(error.message(), "formats share a payload type");
    assert!(peer.pending.is_none());
    assert!(peer.link.is_alive());
}

#[test]
fn an_answer_may_choose_numbers_that_are_free() {
    let (mut world, answer) = with_an_answer_after(only_vp8);
    let free = (35..128).map(|n| n.to_string()).find(|n| !answer.contains(&format!("a=rtpmap:{n} ")));
    let moved = renumbered(&answer, &number_of(&answer, "H264"), &free.expect("a free number"));
    let peer = &mut world.engine.rooms[0].room.peers[0];
    let parsed = SdpAnswer::from_sdp_string(&moved).expect("answer parses");
    assert_eq!(peer.accept_answer(parsed), Ok(()));
}

#[test]
fn numbers_that_are_settled_stay_as_they_are() {
    let (mut world, answer) = with_an_answer();
    // Every format was settled when the peer joined: the session goes by that.
    let clashing = renumbered(&answer, &number_of(&answer, "H264"), &number_of(&answer, "opus"));
    let peer = &mut world.engine.rooms[0].room.peers[0];
    let parsed = SdpAnswer::from_sdp_string(&clashing).expect("answer parses");
    assert_eq!(peer.accept_answer(parsed), Ok(()));
}

#[test]
fn an_answer_that_moves_a_line_is_rejected_by_the_session() {
    let (mut world, answer) = with_an_answer();
    let mids: Vec<&str> = answer.lines().filter(|line| line.starts_with("a=mid:")).collect();
    let moved = answer.replace(mids[2], mids[1]);
    let peer = &mut world.engine.rooms[0].room.peers[0];
    let parsed = SdpAnswer::from_sdp_string(&moved).expect("answer parses");
    let error = peer.accept_answer(parsed).unwrap_err();
    assert!(error.message().contains("Changed order for m-line with mid"), "{error:?}");
}

#[test]
fn a_line_of_another_kind_may_share_a_name() {
    let (mut world, answer) = with_an_answer();
    let mids: Vec<&str> = answer.lines().filter(|line| line.starts_with("a=mid:")).collect();
    let text = format!("{answer}m=text 9 UDP/TLS/RTP/SAVPF 0\r\n{}\r\na=inactive\r\n", mids[3]);
    let peer = &mut world.engine.rooms[0].room.peers[0];
    let parsed = SdpAnswer::from_sdp_string(&text).expect("answer parses");
    assert_eq!(peer.accept_answer(parsed), Ok(()));
}

#[test]
fn a_rejected_answer_says_why() {
    let (mut world, answer) = with_an_answer();
    let bare: Vec<&str> = answer.lines().filter(|line| !line.starts_with("a=ice-ufrag")).collect();
    let parsed = SdpAnswer::from_sdp_string(&format!("{}\r\n", bare.join("\r\n")));
    let peer = &mut world.engine.rooms[0].room.peers[0];
    let error = peer.accept_answer(parsed.expect("answer parses")).unwrap_err();
    assert!(error.message().contains("missing a=ice-ufrag/pwd"), "{error:?}");
    assert!(matches!(error, AnswerError::Rejected(_)));
}

#[test]
fn a_proper_answer_is_taken() {
    let (mut world, answer) = with_an_answer();
    let peer = &mut world.engine.rooms[0].room.peers[0];
    let parsed = SdpAnswer::from_sdp_string(&answer).expect("answer parses");
    assert_eq!(peer.accept_answer(parsed), Ok(()));
    assert_eq!(peer.tracks_out.len(), 2);
    assert!(peer.tracks_out.iter().all(|track| matches!(track.state, TrackOutState::Open(_))));
}

#[test]
fn ice_lite_is_as_configured() {
    for lite in [false, true] {
        let mut world = World::new(8);
        world.engine.ice_lite = lite;
        world.join("room", "a");
        let answer = world
            .engine
            .outbox
            .iter()
            .find_map(|envelope| match &envelope.message {
                ServerMsg::Joined { sdp, .. } => Some(sdp.clone()),
                _ => None,
            })
            .expect("a welcome");
        assert_eq!(answer.lines().any(|line| line == "a=ice-lite"), lite);
    }
}

#[test]
fn ids_grow_past_those_who_left() {
    let mut world = World::new(8);
    world.join("room", "a");
    world.join("room", "b");
    let gone = world.browsers[1].id;
    world.tell(Command::Leave { peer: gone });
    let next = world.join("elsewhere", "b");
    assert!(world.browsers[next].id.0 > gone.0);
    assert_eq!(world.engine.next_peer, world.browsers[next].id.0 + 1);
}

#[test]
fn every_report_has_an_id_of_its_own() {
    let mut world = World::new(8);
    world.join("room", "a");
    world.join("room", "b");
    world.all_connected();
    world.run_until("arrivals", 5, |world| world.reported("participant_joined") == 2);
    let peers = [world.browsers[0].id, world.browsers[1].id];
    world.tell(Command::Screen { peer: peers[0], active: true });
    world.tell(Command::Leave { peer: peers[0] });
    world.tell(Command::Leave { peer: peers[1] });
    world.reports.append(&mut world.engine.reports);
    assert_eq!(world.reports.len(), 6);
    let ids: HashSet<&str> = world.reports.iter().map(|report| report.id.as_str()).collect();
    assert_eq!(ids.len(), 6);
    assert!(ids.iter().all(|id| id.len() == 36 && id.as_bytes()[14] == b'4'));
}

#[test]
fn an_offer_that_is_none_is_refused() {
    let mut world = World::new(8);
    let (code, message) = code_of(world.ask("room", "a", "this is not sdp"));
    assert_eq!((code.as_str(), message.as_str()), ("bad_offer", "Malformed session description."));
    assert_eq!(world.engine.next_peer, 1);
    assert!(world.engine.rooms.is_empty());
}

#[test]
fn an_offer_the_session_refuses_is_refused() {
    let mut world = World::new(8);
    let (_, _, sdp, _, _) = world.offer(51_000);
    let bare: Vec<&str> = sdp.lines().filter(|line| !line.starts_with("a=fingerprint")).collect();
    let (code, message) = code_of(world.ask("room", "a", &format!("{}\r\n", bare.join("\r\n"))));
    assert_eq!((code.as_str(), message.as_str()), ("bad_offer", "Session description refused."));
    // The id is spent, and no room was made.
    assert_eq!(world.engine.next_peer, 2);
    assert!(world.engine.rooms.is_empty());
}

#[test]
fn reconnecting_replaces_without_a_departure() {
    let mut world = World::new(8);
    world.join("room", "same");
    world.join("room", "other");
    world.all_connected();
    world.run_until("arrivals", 5, |world| world.reported("participant_joined") == 2);
    let old = world.browsers[0].id;
    world.join("room", "same");
    world.run_for(100);
    let replaced = world.browsers[0].heard(
        |m| matches!(m, ServerMsg::Error { code, .. } if code == "replaced"),
    );
    assert_eq!(replaced, 1);
    assert_eq!(world.reported("participant_left"), 0);
    let told = world.browsers[1].heard(
        |m| matches!(m, ServerMsg::PeerLeft { peer_id } if *peer_id == old.as_string()),
    );
    assert_eq!(told, 1);
    let users: Vec<&str> =
        world.engine.rooms[0].room.peers.iter().map(|peer| peer.user_id.as_str()).collect();
    assert_eq!(users, vec!["other", "same"]);
    assert!(world.browsers[2].id.0 > old.0);
}

#[test]
fn an_arrival_is_reported_once_and_only_when_connected() {
    let mut world = World::new(8);
    world.join("room", "a");
    world.step();
    assert_eq!(world.reported("participant_joined"), 0);
    world.all_connected();
    world.run_for(3_000);
    assert_eq!(world.reported("participant_joined"), 1);
    let report = &world.reports[0];
    assert_eq!(report.room.name, "room");
    assert_eq!(report.participant.as_ref().expect("a participant").identity, "a");
}

#[test]
fn the_last_leave_finishes_the_room() {
    let mut world = World::new(8);
    world.join("room", "a");
    world.join("room", "b");
    world.all_connected();
    world.run_until("arrivals", 5, |world| world.reported("participant_joined") == 2);
    let (a, b) = (world.browsers[0].id, world.browsers[1].id);
    world.tell(Command::Leave { peer: a });
    world.step();
    assert_eq!(world.reported("participant_left"), 1);
    assert_eq!(world.reported("room_finished"), 0);
    world.tell(Command::Leave { peer: b });
    world.step();
    assert_eq!(world.reported("participant_left"), 2);
    assert_eq!(world.reported("room_finished"), 1);
    assert!(world.engine.rooms.is_empty());
    // Leaving again is nothing.
    world.tell(Command::Leave { peer: b });
    world.step();
    assert_eq!(world.reported("room_finished"), 1);
}

#[test]
fn a_peer_that_never_connected_leaves_unreported() {
    let mut world = World::new(8);
    let a = world.join("room", "a");
    world.step();
    let id = world.browsers[a].id;
    world.tell(Command::Leave { peer: id });
    world.step();
    assert_eq!(world.reported("participant_left"), 0);
    assert_eq!(world.reported("room_finished"), 1);
}

#[test]
fn mute_and_screen_reach_the_room_and_only_shares_the_host() {
    let mut world = World::new(8);
    world.join("room", "a");
    world.join("room", "b");
    world.step();
    let a = world.browsers[0].id;
    world.tell(Command::Mute { peer: a, muted: true });
    world.tell(Command::Screen { peer: a, active: true });
    world.tell(Command::Screen { peer: a, active: true });
    world.tell(Command::Screen { peer: a, active: false });
    world.step();
    let states: Vec<(bool, bool)> = world.browsers[1]
        .inbox
        .iter()
        .filter_map(|m| match m {
            ServerMsg::PeerState { peer_id, muted, screen } if *peer_id == a.as_string() => {
                Some((*muted, *screen))
            }
            _ => None,
        })
        .collect();
    assert_eq!(states, vec![(true, false), (true, true), (true, true), (true, false)]);
    assert_eq!(world.browsers[0].heard(|m| matches!(m, ServerMsg::PeerState { .. })), 4);
    assert_eq!(world.reported("track_published"), 1);
    assert_eq!(world.reported("track_unpublished"), 1);
    let share = world.reports.iter().find(|r| r.event == "track_published").expect("a share");
    assert_eq!(share.track.as_ref().expect("a track").source, "SCREEN_SHARE");
    assert_eq!(share.participant.as_ref().expect("a participant").identity, "a");
}

#[test]
fn a_joiner_sees_the_room_as_it_is() {
    let mut world = World::new(8);
    world.join("room", "a");
    world.step();
    let a = world.browsers[0].id;
    world.tell(Command::Mute { peer: a, muted: true });
    world.tell(Command::Screen { peer: a, active: true });
    world.join("room", "b");
    world.step();
    let seen = world.browsers[1].heard(|m| match m {
        ServerMsg::Joined { peers, .. } => peers.len() == 1 && peers[0].muted && peers[0].screen,
        _ => false,
    });
    assert_eq!(seen, 1);
}

#[test]
fn speakers_are_announced_and_held() {
    let mut world = World::new(8);
    world.join("room", "a");
    world.join("room", "b");
    world.all_connected();
    let a = world.browsers[0].id.as_string();
    for _ in 0..40 {
        let instant = world.instant();
        world.browsers[0].send_audio(instant, Some(-30), 0x0a);
        world.run_for(20);
    }
    assert_eq!(world.browsers[1].last_speakers(), Some(vec![a.clone()]));
    assert!(world.browsers[1].levels.contains(&Some(-30)), "the level goes along");
    // The set has not moved since, so it was told once.
    assert_eq!(world.browsers[1].heard(|m| matches!(m, ServerMsg::Speaking { .. })), 1);
    world.run_for(300);
    assert_eq!(world.browsers[1].last_speakers(), Some(vec![a]));
    world.run_for(900);
    assert_eq!(world.browsers[1].last_speakers(), Some(Vec::new()));
    assert_eq!(world.browsers[1].heard(|m| matches!(m, ServerMsg::Speaking { .. })), 2);
}

#[test]
fn quiet_or_muted_peers_do_not_speak() {
    let mut world = World::new(8);
    world.join("room", "a");
    world.join("room", "b");
    world.all_connected();
    let b = world.browsers[1].id;
    world.tell(Command::Mute { peer: b, muted: true });
    for _ in 0..40 {
        let instant = world.instant();
        world.browsers[0].send_audio(instant, Some(-50), 0x0a);
        world.browsers[1].send_audio(instant, Some(-10), 0x0a);
        world.run_for(20);
    }
    assert_eq!(world.browsers[0].last_speakers(), None);
}

#[test]
fn a_publisher_leaving_heals_itself() {
    let mut world = World::new(8);
    world.join("room", "a");
    world.join("room", "b");
    world.all_connected();
    world.talk_until("audio", 15, |world| world.browsers.iter().all(|b| b.received >= 1));
    let b = world.browsers[1].id;
    world.tell(Command::Leave { peer: b });
    world.browsers[1].reachable = false;
    let offers = world.browsers[0].heard(|m| matches!(m, ServerMsg::Offer { .. }));
    world.run_for(500);
    // One offer more, which takes the m-lines out of service.
    assert_eq!(world.browsers[0].heard(|m| matches!(m, ServerMsg::Offer { .. })), offers + 1);
    let last = world.browsers[0].inbox.iter().rev().find_map(|m| match m {
        ServerMsg::Offer { tracks, .. } => Some(tracks.len()),
        _ => None,
    });
    assert_eq!(last, Some(0));
    assert!(world.engine.rooms[0].room.peers[0].tracks_out.is_empty());
}

#[test]
fn offers_say_whose_media_each_line_carries() {
    let mut world = World::new(8);
    world.join("room", "a");
    world.join("room", "b");
    world.all_connected();
    world.run_for(500);
    let a = world.browsers[0].id.as_string();
    let tracks = world.browsers[1].inbox.iter().find_map(|m| match m {
        ServerMsg::Offer { tracks, .. } => Some(tracks.clone()),
        _ => None,
    });
    let tracks = tracks.expect("an offer");
    assert_eq!(tracks.len(), 2);
    assert!(tracks.iter().all(|track| track.peer_id == a));
    let kinds: Vec<&str> = tracks.iter().map(|track| track.kind.as_str()).collect();
    assert_eq!(kinds, vec!["audio", "video"]);
}

#[test]
fn a_subscribers_keyframe_request_reaches_the_publisher() {
    let mut world = World::new(8);
    world.join("room", "a");
    world.join("room", "b");
    world.all_connected();
    for _ in 0..100 {
        let instant = world.instant();
        world.browsers[0].send_video(instant);
        world.run_for(20);
    }
    let mids: Vec<Mid> = world.browsers[1].received_mids.iter().copied().collect();
    assert_eq!(mids.len(), 1, "one video stream arrives");
    let before = world.browsers[0].keyframe_requests;
    let mut writer = world.browsers[1].rtc.writer(mids[0]).expect("a writer");
    writer.request_keyframe(None, KeyframeRequestKind::Pli).expect("a request");
    world.run_for(500);
    assert!(world.browsers[0].keyframe_requests > before);
}

#[test]
fn keyframes_are_asked_for_once_a_second() {
    let mut world = World::new(8);
    world.join("room", "a");
    world.all_connected();
    for _ in 0..20 {
        let instant = world.instant();
        world.browsers[0].send_video(instant);
        world.run_for(20);
    }
    let mid = world.browsers[0].video.to_string();
    let asked = |world: &mut World| {
        let now = world.now();
        let peer = &mut world.engine.rooms[0].room.peers[0];
        peer.request_keyframe_throttled(&mid, KeyframeKind::Pli, now);
        let entry = peer.tracks_in.iter().find(|track| track.id.mid == mid).expect("the screen");
        entry.last_keyframe_request
    };
    let first = asked(&mut world).expect("a request");
    assert_eq!(first, world.now().nanos);
    world.run_for(500);
    assert!(world.browsers[0].keyframe_requests >= 1);
    assert_eq!(asked(&mut world), Some(first));
    world.run_for(495);
    assert_eq!(asked(&mut world), Some(first));
    world.run_for(5);
    assert_eq!(asked(&mut world), Some(world.now().nanos));
}

#[test]
fn nobody_hears_itself() {
    let mut world = World::new(8);
    world.join("room", "a");
    world.all_connected();
    for _ in 0..20 {
        let instant = world.instant();
        world.browsers[0].send_audio(instant, Some(-20), 0x0a);
        world.run_for(20);
    }
    assert_eq!(world.browsers[0].received, 0);
    assert_eq!(world.browsers[0].heard(|m| matches!(m, ServerMsg::Offer { .. })), 0);
}

#[test]
fn the_speakers_are_looked_at_only_so_often() {
    let mut world = World::new(8);
    world.join("room", "a");
    world.engine.outbox.clear();
    world.engine.rooms[0].room.peers[0].speaking_until = Some(u64::MAX);
    world.engine.tick_speaking(Now { instant: world.instant(), nanos: 199_999_999 });
    assert!(world.engine.outbox.is_empty());
    world.engine.tick_speaking(Now { instant: world.instant(), nanos: 200_000_000 });
    assert_eq!(world.engine.outbox.len(), 1);
    assert_eq!(world.engine.last_speaking, 200_000_000);
}

#[test]
fn ids_go_on_counting() {
    let mut world = World::new(8);
    world.join("room", "a");
    let first = world.browsers[0].id;
    world.tell(Command::Leave { peer: first });
    assert!(world.engine.rooms.is_empty());
    world.join("room", "a");
    assert_eq!(world.browsers[1].id, PeerId(first.0 + 1));
    assert_eq!(world.engine.rooms.len(), 1);
    assert_eq!(world.engine.rooms[0].name, "room");
    assert_eq!(world.engine.rooms[0].room.call_id, "call-under-test");
}

#[test]
fn a_short_loss_is_survived_and_a_long_one_is_not() {
    let mut world = World::new(8);
    world.join("room", "a");
    world.join("room", "b");
    world.all_connected();
    world.run_until("arrivals", 5, |world| world.reported("participant_joined") == 2);
    world.browsers[1].reachable = false;
    world.run_until("the loss to be noticed", 60, |world| {
        world.engine.rooms[0].room.peers[1].disconnected_since.is_some()
    });
    world.run_for(15_000);
    assert_eq!(world.engine.rooms[0].room.peers.len(), 2);
    let now = world.now();
    let peer = &mut world.engine.rooms[0].room.peers[1];
    peer.handle_event(Happening::Ice(IceState::Connected), &Vec::new(), now);
    assert_eq!(peer.disconnected_since, None);
    world.run_for(25_000);
    assert_eq!(world.engine.rooms[0].room.peers.len(), 2);
    assert_eq!(world.reported("participant_left"), 0);
    let now = world.now();
    let peer = &mut world.engine.rooms[0].room.peers[1];
    peer.handle_event(Happening::Ice(IceState::Disconnected), &Vec::new(), now);
    assert_eq!(peer.disconnected_since, Some(now.nanos));
    world.run_for(19_000);
    assert_eq!(world.engine.rooms[0].room.peers.len(), 2);
    world.run_for(2_000);
    assert_eq!(world.engine.rooms[0].room.peers.len(), 1);
    assert_eq!(world.reported("participant_left"), 1);
}

#[test]
fn answers_to_nothing_change_nothing() {
    let mut world = World::new(8);
    world.join("room", "a");
    world.step();
    let a = world.browsers[0].id;
    world.tell(Command::Answer { peer: a, sdp: "garbage".to_string() });
    world.tell(Command::Answer { peer: PeerId(99), sdp: "garbage".to_string() });
    world.tell(Command::Mute { peer: PeerId(99), muted: true });
    world.tell(Command::Screen { peer: PeerId(99), active: true });
    assert!(world.engine.outbox.is_empty());
    assert!(world.engine.reports.is_empty());
}

#[test]
fn strangers_packets_are_ignored() {
    let mut world = World::new(8);
    world.join("room", "a");
    world.all_connected();
    let now = world.now();
    world.engine.read_once(local(9), b"", now);
    world.engine.read_once(local(9), b"hello", now);
    world.engine.resume(Some((local(9), vec![0x80; 40])), now);
    world.run_for(100);
    assert_eq!(world.engine.rooms[0].room.peers.len(), 1);
}

#[test]
fn the_loop_stops_when_told_or_left_alone() {
    let mut world = World::new(8);
    let now = world.now();
    assert!(matches!(
        world.engine.drain_commands(Received::Command(Command::Shutdown), now),
        ControlFlow::Stop
    ));
    assert!(matches!(world.engine.drain_commands(Received::Disconnected, now), ControlFlow::Stop));
    assert!(matches!(world.engine.drain_commands(Received::Empty, now), ControlFlow::Continue));
}

#[test]
fn the_wait_is_bounded_from_below() {
    let now = Now { instant: Instant::now(), nanos: 5_000_000 };
    assert_eq!(read_timeout(0, now), 1_000_000);
    assert_eq!(read_timeout(5_500_000, now), 1_000_000);
    assert_eq!(read_timeout(9_000_000, now), 4_000_000);
}
