//! One client connection: its life cycle, the text protocol it speaks, the
//! uploads it assembles and its heartbeat. Each event returns the actions it
//! asks of the transport, the coordinator and the session registry.
use vstd::prelude::*;
use vstd::string::StringExecFns;
use vstd::utf8::encode_utf8;

use crate::consts::{HEARTBEAT_TIMEOUT, MAX_SIGNAL_SIZE};
use crate::outside::{
    is_json, json_text, json_text_member, json_valid, random_first_name, random_in_range,
    random_last_name,
};
use crate::protocol::{
    error_message, error_text, first_zero, meta_of_json, name_message, name_text, MetaView,
    parse_chunk_metadata, rooms_message, rooms_text, split_metadata_and_data, FileChunkMetadata,
};
use crate::reassembler::{concat_chunks, has_all_chunks, FileReassembler};
use crate::text::{
    chars_of, has_prefix_at, starts_with, strip_prefix_repeated, strip_repeated, trim, trimmed,
};
use crate::text_map::TextMap;

verus! {

broadcast use vstd::string::group_string_axioms;

#[derive(Clone, Copy, Debug, PartialEq, Eq, Structural)]
pub enum Phase {
    Created,
    Running,
    Stopped,
}

/// What a connection asks for after an event.
#[derive(Debug, PartialEq, Eq)]
pub enum Action {
    /// Send a text frame to this client.
    Text(String),
    /// Ask the coordinator to add this client to a room.
    Join(String),
    /// Ask the coordinator to remove client `id` from a room.
    Leave(String, u64),
    /// Ask the coordinator for the session's room names.
    ListRooms,
    /// Ask the coordinator to relay a signal payload to a named peer.
    RelaySignal(String, String),
    /// Hand a finished upload (name, type, bytes) to the room.
    SendFile(String, String, Vec<u8>),
    /// Send a ping frame.
    Ping,
    /// Answer a ping with its payload.
    Pong(Vec<u8>),
    /// Give the connection's reference to its session back to the registry.
    Release,
    /// Close the transport.
    Close,
}

pub ghost enum ActionView {
    Text(Seq<char>),
    Join(Seq<char>),
    Leave(Seq<char>, u64),
    ListRooms,
    RelaySignal(Seq<char>, Seq<char>),
    SendFile(Seq<char>, Seq<char>, Seq<u8>),
    Ping,
    Pong(Seq<u8>),
    Release,
    Close,
}

impl View for Action {
    type V = ActionView;

    open spec fn view(&self) -> ActionView {
        match self {
            Action::Text(t) => ActionView::Text(t@),
            Action::Join(r) => ActionView::Join(r@),
            Action::Leave(r, id) => ActionView::Leave(r@, *id),
            Action::ListRooms => ActionView::ListRooms,
            Action::RelaySignal(to, p) => ActionView::RelaySignal(to@, p@),
            Action::SendFile(f, m, d) => ActionView::SendFile(f@, m@, d@),
            Action::Ping => ActionView::Ping,
            Action::Pong(p) => ActionView::Pong(p@),
            Action::Release => ActionView::Release,
            Action::Close => ActionView::Close,
        }
    }
}

pub open spec fn actions_view(a: Seq<Action>) -> Seq<ActionView> {
    a.map_values(|x: Action| x@)
}

/// Leaving the current room, when there is one.
pub open spec fn leave_part(room: Seq<char>, id: u64) -> Seq<ActionView> {
    if room.len() > 0 {
        seq![ActionView::Leave(room, id)]
    } else {
        Seq::empty()
    }
}

/// What stopping asks for: leave the room, give the session back. A stopped
/// connection asks for nothing more.
pub open spec fn stop_actions(phase: Phase, room: Seq<char>, id: u64) -> Seq<ActionView> {
    if phase == Phase::Stopped {
        Seq::empty()
    } else {
        leave_part(room, id).push(ActionView::Release)
    }
}

/// Moving from `room` to `target`; nothing when already there.
pub open spec fn join_actions(room: Seq<char>, id: u64, target: Seq<char>) -> Seq<ActionView> {
    if room == target {
        Seq::empty()
    } else {
        leave_part(room, id).push(ActionView::Join(target))
    }
}

/// Position of the first space of `c`, or -1.
pub open spec fn first_space(c: Seq<char>) -> int {
    if exists|i: int| 0 <= i < c.len() && c[i] == ' ' && forall|j: int| 0 <= j < i ==> c[j] != ' ' {
        choose|i: int| 0 <= i < c.len() && c[i] == ' ' && forall|j: int| 0 <= j < i ==> c[j] != ' '
    } else {
        -1
    }
}

/// A command is its first word; its argument, if any, follows the first space.
pub open spec fn command_word(c: Seq<char>) -> Seq<char> {
    if first_space(c) >= 0 {
        c.subrange(0, first_space(c))
    } else {
        c
    }
}

pub open spec fn single_text(t: Seq<char>) -> Seq<ActionView> {
    seq![ActionView::Text(t)]
}

/// The reply to the command `c`.
pub open spec fn command_actions(name: Seq<char>, room: Seq<char>, id: u64, c: Seq<char>) -> Seq<ActionView> {
    let w = command_word(c);
    if w == "/list"@ {
        seq![ActionView::ListRooms]
    } else if w == "/join"@ {
        if first_space(c) >= 0 {
            join_actions(room, id, c.subrange(first_space(c) + 1, c.len() as int))
        } else {
            single_text(error_text("Room name is required"@))
        }
    } else if w == "/name"@ {
        single_text(name_text(name))
    } else {
        single_text(error_text("Error Unknown command: Not Found"@))
    }
}

/// The length of `m` in bytes of UTF-8, as a `usize`.
pub open spec fn byte_len(m: Seq<char>) -> usize {
    encode_utf8(m).len() as usize
}

/// The reply to the signal frame `m`: too large, not JSON, no target, or
/// relayed with its payload.
pub open spec fn signal_actions(m: Seq<char>) -> Seq<ActionView> {
    if byte_len(m) > MAX_SIGNAL_SIZE {
        single_text(error_text("Signal message too large"@))
    } else {
        let p = trim(strip_repeated(m, "[SignalMessage]"@));
        let doc = encode_utf8(p);
        if !json_valid(doc) {
            single_text(error_text("Invalid signaling message format"@))
        } else {
            match json_text_member(doc, "to"@) {
                Some(to) => seq![ActionView::RelaySignal(to, p)],
                None => single_text(error_text("Signaling message missing 'to' field"@)),
            }
        }
    }
}

/// How a text frame is understood: by its tag, once trimmed.
pub open spec fn text_kind(text: Seq<char>) -> int {
    let m = trim(text);
    if starts_with(m, "[SignalMessage]"@) {
        0
    } else if starts_with(m, "[UserCommand]"@) {
        1
    } else if starts_with(m, "[UserDisconnected]"@) {
        2
    } else {
        3
    }
}

/// Milliseconds from `last` to `now`; none when the clock went back.
pub open spec fn elapsed(now: u64, last: u64) -> int {
    if now >= last {
        now - last
    } else {
        0
    }
}

/// The total of the upload `md` belongs to: the one it started with, or
/// the one `md` announces for a new upload.
pub open spec fn base_total(ups: Map<Seq<char>, FileReassembler>, md: MetaView) -> nat {
    if ups.contains_key(md.file_name) {
        ups[md.file_name].total()
    } else {
        md.total_chunks as nat
    }
}

/// The chunks received so far of the upload `md` belongs to.
pub open spec fn base_chunks(ups: Map<Seq<char>, FileReassembler>, md: MetaView) -> Map<usize, Vec<u8>> {
    if ups.contains_key(md.file_name) {
        ups[md.file_name].chunks()
    } else {
        Map::empty()
    }
}

/// Chunk `data` described by `md` arrived while `ups` were in progress; the
/// uploads became `ups2` and the connection asked for `acts`. A chunk out of
/// range is refused, the upload staying open; the last missing chunk
/// completes the upload, which goes to the room and is dropped.
pub open spec fn chunk_outcome(
    ups: Map<Seq<char>, FileReassembler>,
    md: MetaView,
    data: Vec<u8>,
    ups2: Map<Seq<char>, FileReassembler>,
    acts: Seq<ActionView>,
) -> bool {
    let name = md.file_name;
    let t = base_total(ups, md);
    let c0 = base_chunks(ups, md);
    &&& ups2.remove(name) == ups.remove(name)
    &&& if (md.current_chunk as nat) >= t {
        &&& acts == single_text(error_text("IndexOutOfBounds"@))
        &&& ups2.contains_key(name)
        &&& ups2[name].total() == t
        &&& ups2[name].chunks() == c0
    } else {
        let c1 = c0.insert(md.current_chunk, data);
        if has_all_chunks(c1, t) {
            &&& acts == seq![ActionView::SendFile(name, md.mime_type, concat_chunks(c1, t))]
            &&& !ups2.contains_key(name)
        } else {
            &&& acts.len() == 0
            &&& ups2.contains_key(name)
            &&& ups2[name].total() == t
            &&& ups2[name].chunks() == c1
        }
    }
}

/// `b` is the same connection as `a`: session, client id, name and
/// auto-join setting are unchanged.
pub open spec fn keeps_identity(a: WsChatSession, b: WsChatSession) -> bool {
    &&& b.session_id == a.session_id
    &&& b.id == a.id
    &&& b.name == a.name
    &&& b.auto_join == a.auto_join
}

/// A client connection.
pub struct WsChatSession {
    pub session_id: u128,
    pub id: u64,
    pub room: String,
    pub name: String,
    pub auto_join: bool,
    /// Time of the last ping or pong, in milliseconds.
    pub last_heartbeat: u64,
    pub phase: Phase,
    pub file_reassemblers: TextMap<FileReassembler>,
}

impl WsChatSession {
    /// The uploads in progress, by file name.
    pub closed spec fn uploads(&self) -> Map<Seq<char>, FileReassembler> {
        self.file_reassemblers.view()
    }

    pub closed spec fn wf(&self) -> bool {
        &&& self.file_reassemblers.wf()
        &&& forall|k: Seq<char>| #[trigger] self.uploads().contains_key(k) ==> self.uploads()[k].wf()
    }

    /// A connection of session `session_id` under a random non-zero id and a
    /// random two-word name, not started and in no room.
    pub fn new(session_id: u128, auto_join: bool) -> (r: Self)
        ensures
            r.wf(),
            r.session_id == session_id,
            r.auto_join == auto_join,
            r.id != 0,
            exists|first: Seq<char>, last: Seq<char>| r.name@ == first + " "@ + last,
            r.room@ == Seq::<char>::empty(),
            r.phase == Phase::Created,
            r.uploads() == Map::<Seq<char>, FileReassembler>::empty(),
    {
        let id = random_in_range(1, u64::MAX);
        let mut name = random_first_name();
        let ghost first = name@;
        let last_name = random_last_name();
        name.append(" ");
        name.append(last_name.as_str());
        assert(name@ == first + " "@ + last_name@);
        WsChatSession {
            session_id,
            id,
            room: String::new(),
            name,
            auto_join,
            last_heartbeat: 0,
            phase: Phase::Created,
            file_reassemblers: TextMap::new(),
        }
    }

    /// Starts the connection at time `now`: it runs, its heartbeat starts
    /// from `now`, and with auto-join it asks for room `main`.
    pub fn started(&mut self, now: u64) -> (r: Vec<Action>)
        requires
            old(self).wf(),
        ensures
            final(self).wf(),
            keeps_identity(*old(self), *final(self)),
            final(self).phase == Phase::Running,
            final(self).last_heartbeat == now,
            final(self).room == old(self).room,
            final(self).id == old(self).id,
            final(self).name == old(self).name,
            final(self).uploads() == old(self).uploads(),
            old(self).auto_join ==> actions_view(r@) == join_actions(old(self).room@, old(self).id, "main"@),
            !old(self).auto_join ==> r@.len() == 0,
    {
        self.phase = Phase::Running;
        self.last_heartbeat = now;
        assert(self.uploads() == old(self).uploads());
        if self.auto_join {
            self.join_room("main")
        } else {
            Vec::new()
        }
    }

    /// Stops the connection: it leaves its room and gives its session back,
    /// once; a stopped connection asks for nothing.
    pub fn stopped(&mut self) -> (r: Vec<Action>)
        requires
            old(self).wf(),
        ensures
            final(self).wf(),
            keeps_identity(*old(self), *final(self)),
            final(self).phase == Phase::Stopped,
            final(self).room == old(self).room,
            final(self).id == old(self).id,
            final(self).name == old(self).name,
            final(self).last_heartbeat == old(self).last_heartbeat,
            final(self).uploads() == old(self).uploads(),
            actions_view(r@) == stop_actions(old(self).phase, old(self).room@, old(self).id),
    {
        let mut out: Vec<Action> = Vec::new();
        if self.phase != Phase::Stopped {
            if !self.room.as_str().is_empty() {
                out.push(Action::Leave(self.room.clone(), self.id));
            }
            out.push(Action::Release);
        }
        self.phase = Phase::Stopped;
        assert(self.uploads() == old(self).uploads());
        assert(actions_view(out@) =~= stop_actions(old(self).phase, old(self).room@, old(self).id));
        out
    }

    /// Asks to move to `room_name`: leave the current room, if any, and
    /// join the new one. Nothing when already there.
    pub fn join_room(&self, room_name: &str) -> (r: Vec<Action>)
        ensures
            actions_view(r@) == join_actions(self.room@, self.id, room_name@),
    {
        let target = String::from_str(room_name);
        let mut out: Vec<Action> = Vec::new();
        if self.room == target {
            return out;
        }
        if !self.room.as_str().is_empty() {
            out.push(Action::Leave(self.room.clone(), self.id));
        }
        out.push(Action::Join(target));
        assert(actions_view(out@) =~= join_actions(self.room@, self.id, room_name@));
        out
    }

    /// The coordinator placed this connection in `room` under `id`.
    pub fn joined(&mut self, room: String, id: u64)
        ensures
            final(self).room == room,
            final(self).id == id,
            final(self).name == old(self).name,
            final(self).phase == old(self).phase,
            final(self).uploads() == old(self).uploads(),
            final(self).wf() == old(self).wf(),
    {
        self.room = room;
        self.id = id;
    }

    /// The coordinator's answer to a room listing, as a frame for the client.
    pub fn list_rooms(&self, rooms: &Vec<String>) -> (r: Action)
        ensures
            r@ == ActionView::Text(rooms_text(rooms@.map_values(|p: String| p@))),
    {
        Action::Text(rooms_message(rooms))
    }

    /// The reply to the command `command_str` (already trimmed of its tag).
    pub fn user_command(&self, command_str: &str) -> (r: Vec<Action>)
        ensures
            actions_view(r@) == command_actions(self.name@, self.room@, self.id, command_str@),
    {
        let cs = chars_of(command_str);
        let mut pos: usize = 0;
        while pos < cs.len()
            invariant
                pos <= cs.len(),
                cs@ == command_str@,
                forall|j: int| 0 <= j < pos ==> cs@[j] != ' ',
            ensures
                pos <= cs.len(),
                forall|j: int| 0 <= j < pos ==> cs@[j] != ' ',
                pos < cs.len() ==> cs@[pos as int] == ' ',
            decreases cs.len() - pos,
        {
            if cs[pos] == ' ' {
                break;
            }
            pos = pos + 1;
        }
        let ghost c = command_str@;
        proof {
            if pos < cs.len() {
                let q = first_space(c);
                assert(c[pos as int] == ' ' && forall|j: int| 0 <= j < pos ==> c[j] != ' ');
                if q != pos {
                    if q < pos {
                        assert(c[q] != ' ');
                    } else {
                        assert(c[pos as int] != ' ');
                    }
                }
            } else {
                assert(first_space(c) == -1);
                assert(c.subrange(0, pos as int) == c);
            }
        }
        let word = String::from_str(command_str.substring_char(0, pos));
        let mut out: Vec<Action> = Vec::new();
        if word == String::from_str("/list") {
            out.push(Action::ListRooms);
        } else if word == String::from_str("/join") {
            if pos < cs.len() {
                let room = command_str.substring_char(pos + 1, cs.len());
                return self.join_room(room);
            } else {
                out.push(Action::Text(error_message("Room name is required")));
            }
        } else if word == String::from_str("/name") {
            out.push(Action::Text(name_message(self.name.as_str())));
        } else {
            out.push(Action::Text(error_message("Error Unknown command: Not Found")));
        }
        assert(actions_view(out@) =~= command_actions(self.name@, self.room@, self.id, c));
        out
    }

    /// Adds one chunk to the upload it belongs to, starting that upload when
    /// it is new; a completed upload is returned and dropped.
    fn handle_file_chunk(&mut self, md: FileChunkMetadata, data: Vec<u8>) -> (r: Vec<Action>)
        requires
            old(self).wf(),
        ensures
            final(self).wf(),
            keeps_identity(*old(self), *final(self)),
            final(self).room == old(self).room,
            final(self).id == old(self).id,
            final(self).name == old(self).name,
            final(self).phase == old(self).phase,
            final(self).last_heartbeat == old(self).last_heartbeat,
            chunk_outcome(old(self).uploads(), md@, data, final(self).uploads(), actions_view(r@)),
    {
        let ghost ups = self.uploads();
        let ghost mv = md@;
        let FileChunkMetadata { file_name, mime_type, total_chunks, current_chunk } = md;
        let taken = self.file_reassemblers.take(&file_name);
        let mut reassembler = match taken {
            Some(r) => r,
            None => FileReassembler::new(total_chunks),
        };
        proof {
            if ups.contains_key(file_name@) {
                assert(reassembler.wf());
            }
        }
        let ghost c0 = reassembler.chunks();
        let ghost t = reassembler.total();
        assert(t == base_total(ups, mv) && c0 == base_chunks(ups, mv));
        let mut out: Vec<Action> = Vec::new();
        match reassembler.add_chunk(current_chunk, data) {
            Err(_) => {
                let ghost fr = reassembler;
                self.file_reassemblers.insert(file_name, reassembler);
                out.push(Action::Text(error_message("IndexOutOfBounds")));
                assert(actions_view(out@) =~= single_text(error_text("IndexOutOfBounds"@)));
                assert(self.uploads().contains_key(mv.file_name));
                assert(self.uploads()[mv.file_name] == fr);
            },
            Ok(()) => {
                if reassembler.is_complete() {
                    match reassembler.reassemble() {
                        Ok(file_data) => {
                            out.push(Action::SendFile(file_name, mime_type, file_data));
                            assert(actions_view(out@) =~= seq![ActionView::SendFile(mv.file_name, mv.mime_type, concat_chunks(c0.insert(mv.current_chunk, data), t))]);
                        },
                        Err(_) => {
                            out.push(Action::Text(error_message("ChunkMissing")));
                        },
                    }
                } else {
                    let ghost fr = reassembler;
                    self.file_reassemblers.insert(file_name, reassembler);
                    assert(self.uploads()[mv.file_name] == fr);
                }
            },
        }
        proof {
            assert(self.uploads().remove(mv.file_name) =~= ups.remove(mv.file_name));
            assert forall|k: Seq<char>| #[trigger] self.uploads().contains_key(k) implies self.uploads()[k].wf() by {
                if k != mv.file_name {
                    assert(ups.contains_key(k));
                }
            }
        }
        out
    }

    /// A binary frame: split off the metadata, read it, and file the chunk.
    pub fn handle_binary_message(&mut self, bin: &[u8]) -> (r: Vec<Action>)
        requires
            old(self).wf(),
        ensures
            final(self).wf(),
            keeps_identity(*old(self), *final(self)),
            final(self).room == old(self).room,
            final(self).id == old(self).id,
            final(self).name == old(self).name,
            final(self).phase == old(self).phase,
            final(self).last_heartbeat == old(self).last_heartbeat,
            first_zero(bin@) < 0 ==> actions_view(r@) == single_text(error_text("Invalid File"@))
                && final(self).uploads() == old(self).uploads(),
            first_zero(bin@) >= 0 && meta_of_json(bin@.subrange(0, first_zero(bin@))) is None ==> actions_view(r@)
                == single_text(error_text("Metadata Parsing Error"@)) && final(self).uploads() == old(self).uploads(),
            first_zero(bin@) >= 0 && meta_of_json(bin@.subrange(0, first_zero(bin@))) is Some ==> exists|d: Vec<u8>|
                d@ == bin@.subrange(first_zero(bin@) + 1, bin@.len() as int) && #[trigger] chunk_outcome(
                    old(self).uploads(),
                    meta_of_json(bin@.subrange(0, first_zero(bin@)))->0,
                    d,
                    final(self).uploads(),
                    actions_view(r@),
                ),
    {
        let mut out: Vec<Action> = Vec::new();
        match split_metadata_and_data(bin) {
            Err(_) => {
                out.push(Action::Text(error_message("Invalid File")));
                assert(actions_view(out@) =~= single_text(error_text("Invalid File"@)));
                out
            },
            Ok((metadata, data)) => match parse_chunk_metadata(metadata.as_slice()) {
                Err(_) => {
                    out.push(Action::Text(error_message("Metadata Parsing Error")));
                    assert(actions_view(out@) =~= single_text(error_text("Metadata Parsing Error"@)));
                    out
                },
                Ok(md) => {
                    let ghost d = data;
                    let r = self.handle_file_chunk(md, data);
                    assert(chunk_outcome(old(self).uploads(), meta_of_json(bin@.subrange(0, first_zero(bin@)))->0, d, self.uploads(), actions_view(r@)));
                    r
                },
            },
        }
    }

    /// A text frame, told apart by its tag once trimmed. Only a running
    /// connection answers; `[UserDisconnected]` stops it.
    pub fn handle_text(&mut self, text: &str) -> (r: Vec<Action>)
        requires
            old(self).wf(),
        ensures
            final(self).wf(),
            keeps_identity(*old(self), *final(self)),
            final(self).room == old(self).room,
            final(self).id == old(self).id,
            final(self).name == old(self).name,
            final(self).last_heartbeat == old(self).last_heartbeat,
            final(self).uploads() == old(self).uploads(),
            old(self).phase != Phase::Running ==> r@.len() == 0 && final(self).phase == old(self).phase,
            old(self).phase == Phase::Running ==> {
                let m = trim(text@);
                let k = text_kind(text@);
                &&& k == 0 ==> actions_view(r@) == signal_actions(m) && final(self).phase == Phase::Running
                &&& k == 1 ==> actions_view(r@) == command_actions(
                    old(self).name@,
                    old(self).room@,
                    old(self).id,
                    trim(strip_repeated(m, "[UserCommand]"@)),
                ) && final(self).phase == Phase::Running
                &&& k == 2 ==> actions_view(r@) == stop_actions(Phase::Running, old(self).room@, old(self).id).push(
                    ActionView::Close,
                ) && final(self).phase == Phase::Stopped
                &&& k == 3 ==> actions_view(r@) == single_text(error_text("Error Unknown command: Not Found"@))
                    && final(self).phase == Phase::Running
            },
    {
        if self.phase != Phase::Running {
            return Vec::new();
        }
        let m = trimmed(text);
        let cs = chars_of(m.as_str());
        assert(cs@.subrange(0, cs@.len() as int) == cs@);
        proof {
            reveal_strlit("[UserCommand]");
        }
        if has_prefix_at(&cs, 0, &chars_of("[SignalMessage]")) {
            return self.handle_signal_message(m.as_str());
        }
        if has_prefix_at(&cs, 0, &chars_of("[UserCommand]")) {
            let stripped = strip_prefix_repeated(m.as_str(), "[UserCommand]");
            let command = trimmed(stripped.as_str());
            return self.user_command(command.as_str());
        }
        if has_prefix_at(&cs, 0, &chars_of("[UserDisconnected]")) {
            return self.handle_close();
        }
        let mut out: Vec<Action> = Vec::new();
        out.push(Action::Text(error_message("Error Unknown command: Not Found")));
        assert(actions_view(out@) =~= single_text(error_text("Error Unknown command: Not Found"@)));
        out
    }

    /// The transport closed, or the client said it is leaving: stop, then
    /// close.
    pub fn handle_close(&mut self) -> (r: Vec<Action>)
        requires
            old(self).wf(),
        ensures
            final(self).wf(),
            keeps_identity(*old(self), *final(self)),
            final(self).phase == Phase::Stopped,
            final(self).room == old(self).room,
            final(self).id == old(self).id,
            final(self).name == old(self).name,
            final(self).last_heartbeat == old(self).last_heartbeat,
            final(self).uploads() == old(self).uploads(),
            actions_view(r@) == stop_actions(old(self).phase, old(self).room@, old(self).id).push(ActionView::Close),
    {
        let mut out = self.stopped();
        let ghost before = out@;
        out.push(Action::Close);
        assert(actions_view(out@) =~= actions_view(before).push(ActionView::Close));
        out
    }

    /// A frame the transport could not read: report it, stop, then close.
    pub fn handle_protocol_error(&mut self) -> (r: Vec<Action>)
        requires
            old(self).wf(),
        ensures
            final(self).wf(),
            keeps_identity(*old(self), *final(self)),
            final(self).phase == Phase::Stopped,
            final(self).room == old(self).room,
            final(self).last_heartbeat == old(self).last_heartbeat,
            final(self).uploads() == old(self).uploads(),
            actions_view(r@) == seq![ActionView::Text(error_text("Invalid message format"@))] + stop_actions(
                old(self).phase,
                old(self).room@,
                old(self).id,
            ).push(ActionView::Close),
    {
        let mut out: Vec<Action> = Vec::new();
        out.push(Action::Text(error_message("Invalid message format")));
        let mut rest = self.handle_close();
        let ghost a = actions_view(out@);
        let ghost b = actions_view(rest@);
        out.append(&mut rest);
        assert(actions_view(out@) =~= a + b);
        out
    }

    /// A ping at time `now`: the heartbeat is fresh, and the ping is answered.
    pub fn handle_ping(&mut self, now: u64, payload: Vec<u8>) -> (r: Vec<Action>)
        requires
            old(self).wf(),
        ensures
            final(self).wf(),
            keeps_identity(*old(self), *final(self)),
            final(self).phase == old(self).phase,
            final(self).room == old(self).room,
            final(self).uploads() == old(self).uploads(),
            final(self).last_heartbeat == now,
            actions_view(r@) == seq![ActionView::Pong(payload@)],
    {
        self.last_heartbeat = now;
        assert(self.uploads() == old(self).uploads());
        let mut out: Vec<Action> = Vec::new();
        let ghost p = payload@;
        out.push(Action::Pong(payload));
        assert(actions_view(out@) =~= seq![ActionView::Pong(p)]);
        out
    }

    /// A pong at time `now`: the heartbeat is fresh.
    pub fn handle_pong(&mut self, now: u64)
        requires
            old(self).wf(),
        ensures
            final(self).wf(),
            keeps_identity(*old(self), *final(self)),
            final(self).phase == old(self).phase,
            final(self).room == old(self).room,
            final(self).uploads() == old(self).uploads(),
            final(self).last_heartbeat == now,
    {
        self.last_heartbeat = now;
        assert(self.uploads() == old(self).uploads());
    }

    /// The heartbeat timer at time `now`: a running connection silent for
    /// longer than the timeout stops and closes; otherwise it is pinged. A
    /// connection that still runs afterwards has heard from its client
    /// within the timeout.
    pub fn start_heartbeat(&mut self, now: u64) -> (r: Vec<Action>)
        requires
            old(self).wf(),
        ensures
            final(self).wf(),
            keeps_identity(*old(self), *final(self)),
            final(self).room == old(self).room,
            final(self).uploads() == old(self).uploads(),
            final(self).last_heartbeat == old(self).last_heartbeat,
            final(self).phase == Phase::Running ==> elapsed(now, final(self).last_heartbeat) <= HEARTBEAT_TIMEOUT * 1000,
            old(self).phase != Phase::Running ==> r@.len() == 0 && final(self).phase == old(self).phase,
            old(self).phase == Phase::Running && elapsed(now, old(self).last_heartbeat) > HEARTBEAT_TIMEOUT * 1000
                ==> final(self).phase == Phase::Stopped && actions_view(r@) == stop_actions(
                Phase::Running,
                old(self).room@,
                old(self).id,
            ).push(ActionView::Close),
            old(self).phase == Phase::Running && elapsed(now, old(self).last_heartbeat) <= HEARTBEAT_TIMEOUT * 1000
                ==> final(self).phase == Phase::Running && actions_view(r@) == seq![ActionView::Ping],
    {
        if self.phase != Phase::Running {
            return Vec::new();
        }
        let silence: u64 = if now >= self.last_heartbeat {
            now - self.last_heartbeat
        } else {
            0
        };
        if silence > HEARTBEAT_TIMEOUT * 1000 {
            return self.handle_close();
        }
        let mut out: Vec<Action> = Vec::new();
        out.push(Action::Ping);
        assert(actions_view(out@) =~= seq![ActionView::Ping]);
        out
    }

    /// The reply to the signal frame `msg` (trimmed, tag included).
    pub fn handle_signal_message(&self, msg: &str) -> (r: Vec<Action>)
        ensures
            actions_view(r@) == signal_actions(msg@),
    {
        let mut out: Vec<Action> = Vec::new();
        if msg.len() > MAX_SIGNAL_SIZE {
            out.push(Action::Text(error_message("Signal message too large")));
            assert(actions_view(out@) =~= signal_actions(msg@));
            return out;
        }
        proof {
            reveal_strlit("[SignalMessage]");
        }
        let stripped = strip_prefix_repeated(msg, "[SignalMessage]");
        let payload = trimmed(stripped.as_str());
        let doc = payload.as_str().as_bytes();
        assert(stripped@ == strip_repeated(msg@, "[SignalMessage]"@));
        assert(doc@ == encode_utf8(payload@));
        if !is_json(doc) {
            out.push(Action::Text(error_message("Invalid signaling message format")));
        } else {
            match json_text(doc, "to") {
                Some(to) => out.push(Action::RelaySignal(to, payload)),
                None => out.push(Action::Text(error_message("Signaling message missing 'to' field"))),
            }
        }
        assert(actions_view(out@) =~= signal_actions(msg@));
        out
    }
}

} // verus!
