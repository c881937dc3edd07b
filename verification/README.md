# ferrite_sfu

A small WebRTC SFU for group audio and screen sharing, with its rules verified
by Verus. It forwards RTP and nothing else: the payload of a frame is never
looked at, so an application can encrypt it end to end.

`src/` is the library. It takes commands, datagrams and readings of the clock,
and leaves what it has to say in three queues: messages for the browsers,
reports for the host application and datagrams for the network.

| Module | What it holds |
| --- | --- |
| `auth` | Join tokens: who may join what |
| `config` | The environment, resolved into a configuration |
| `proto` | The signaling frames |
| `report` | Reports to the host application: what they say, their signature, how often they are tried |
| `signal::session` | The course of one signaling socket |
| `sfu::engine`, `join`, `dispatch`, `engine_io`, `media_loop` | The media loop: joins, departures, commands, datagrams, rounds |
| `sfu::room`, `poll` | A room: who is in it, who speaks, what its peers hand each other |
| `sfu::peer`, `peer_media`, `negotiate`, `tracks` | A peer: its tracks, subscriptions, negotiations and keyframes |
| `sfu::transport`, `payloads`, `webrtc` | A peer's session, the descriptions it can stand, and the WebRTC stack below it |
| `sfu::soundness`, `audibility`, `laws`, `course` | What is promised of the whole, at any moment and over time |
| `names`, `text`, `find`, `net` | Small things the rest is built on |

What the library has from other crates is stated where it is called:
`sfu::webrtc` for `str0m`, `auth` for `jsonwebtoken` and `serde_json`, `report` for
`hmac`, `sha2`, `base64` and `uuid`.

`app/` is the program around it: the UDP socket and its thread, the HTTP server,
the signaling sockets, the posting of reports, and JSON.

`tests/` runs the library, among other things with whole calls between sessions
that exchange their datagrams through memory.
