//! The coordinator: the one owner of the tree session → room → client.
//!
//! Every operation returns the text frames it sends, as deliveries addressed
//! by session, room and client id; the caller hands them to the clients'
//! sinks and reports a failed hand-over back as a leave.
use vstd::prelude::*;

use vstd::string::StringExecFns;

use crate::message::{
    ChatMessage, CleanupSession, JoinRoom, LeaveRoom, ListRooms, RelaySignalMessage,
    ValidateAndRelaySignal,
};
use crate::outside::random_in_range;
use crate::consts::MAX_FRAME_SIZE;
use crate::protocol::{
    chunk_texts, file_chunk_messages,
    join_message, join_text, members_message, members_text, rooms_message, rooms_text,
    signal_message, signal_text, file_message, file_text, ack_message, ack_text,
};

verus! {

/// A client as the room holds it.
pub ghost struct MemberView {
    pub id: u64,
    pub name: Seq<char>,
}

pub ghost struct RoomView {
    pub name: Seq<char>,
    pub members: Seq<MemberView>,
}

pub ghost struct SessionView {
    pub id: u128,
    pub rooms: Seq<RoomView>,
}

pub ghost struct DeliveryView {
    pub session: u128,
    pub room: Seq<char>,
    pub client: u64,
    pub text: Seq<char>,
}

/// A client of a room: its id and display name.
#[derive(Debug, PartialEq, Eq)]
pub struct ClientMetadata {
    pub id: u64,
    pub name: String,
}

impl View for ClientMetadata {
    type V = MemberView;

    open spec fn view(&self) -> MemberView {
        MemberView { id: self.id, name: self.name@ }
    }
}

/// A named room and its clients, in order of arrival.
pub struct Room {
    pub name: String,
    pub members: Vec<ClientMetadata>,
}

impl View for Room {
    type V = RoomView;

    open spec fn view(&self) -> RoomView {
        RoomView { name: self.name@, members: self.members@.map_values(|m: ClientMetadata| m@) }
    }
}

/// The rooms of one session, in order of creation.
pub struct SessionRooms {
    pub id: u128,
    pub rooms: Vec<Room>,
}

impl View for SessionRooms {
    type V = SessionView;

    open spec fn view(&self) -> SessionView {
        SessionView { id: self.id, rooms: self.rooms@.map_values(|r: Room| r@) }
    }
}

/// One text frame for one client.
#[derive(Debug, PartialEq, Eq)]
pub struct Delivery {
    pub session: u128,
    pub room: String,
    pub client: u64,
    pub text: String,
}

impl View for Delivery {
    type V = DeliveryView;

    open spec fn view(&self) -> DeliveryView {
        DeliveryView {
            session: self.session,
            room: self.room@,
            client: self.client,
            text: self.text@,
        }
    }
}

pub open spec fn deliveries_view(ds: Seq<Delivery>) -> Seq<DeliveryView> {
    ds.map_values(|d: Delivery| d@)
}

pub open spec fn member_names(ms: Seq<MemberView>) -> Seq<Seq<char>> {
    ms.map_values(|m: MemberView| m.name)
}

pub open spec fn room_names(rs: Seq<RoomView>) -> Seq<Seq<char>> {
    rs.map_values(|r: RoomView| r.name)
}

pub open spec fn members_unique(ms: Seq<MemberView>) -> bool {
    forall|a: int, b: int| 0 <= a < b < ms.len() ==> ms[a].id != ms[b].id
}

pub open spec fn rooms_unique(rs: Seq<RoomView>) -> bool {
    forall|a: int, b: int| 0 <= a < b < rs.len() ==> rs[a].name != rs[b].name
}

pub open spec fn sessions_unique(ss: Seq<SessionView>) -> bool {
    forall|a: int, b: int| 0 <= a < b < ss.len() ==> ss[a].id != ss[b].id
}

/// Keys are unique at every level of the tree.
pub open spec fn tree_wf(ss: Seq<SessionView>) -> bool {
    &&& sessions_unique(ss)
    &&& forall|i: int| 0 <= i < ss.len() ==> rooms_unique(#[trigger] ss[i].rooms)
    &&& forall|i: int, j: int|
        0 <= i < ss.len() && 0 <= j < ss[i].rooms.len() ==> members_unique(
            #[trigger] ss[i].rooms[j].members,
        )
}

/// Position of the session `id`, or -1.
pub open spec fn session_pos(ss: Seq<SessionView>, id: u128) -> int {
    if exists|i: int| 0 <= i < ss.len() && ss[i].id == id {
        choose|i: int| 0 <= i < ss.len() && ss[i].id == id
    } else {
        -1
    }
}

/// Position of the room `name`, or -1.
pub open spec fn room_pos(rs: Seq<RoomView>, name: Seq<char>) -> int {
    if exists|i: int| 0 <= i < rs.len() && rs[i].name == name {
        choose|i: int| 0 <= i < rs.len() && rs[i].name == name
    } else {
        -1
    }
}

/// Position of the client `id`, or -1.
pub open spec fn member_pos(ms: Seq<MemberView>, id: u64) -> int {
    if exists|i: int| 0 <= i < ms.len() && ms[i].id == id {
        choose|i: int| 0 <= i < ms.len() && ms[i].id == id
    } else {
        -1
    }
}

proof fn lemma_session_pos(ss: Seq<SessionView>, i: int)
    requires
        sessions_unique(ss),
        0 <= i < ss.len(),
    ensures
        session_pos(ss, ss[i].id) == i,
{
    let j = session_pos(ss, ss[i].id);
    if j != i {
        assert(ss[j].id == ss[i].id);
        if j < i {
            assert(ss[j].id != ss[i].id);
        } else {
            assert(ss[i].id != ss[j].id);
        }
    }
}

proof fn lemma_room_pos(rs: Seq<RoomView>, i: int)
    requires
        rooms_unique(rs),
        0 <= i < rs.len(),
    ensures
        room_pos(rs, rs[i].name) == i,
{
    let j = room_pos(rs, rs[i].name);
    if j != i {
        assert(rs[j].name == rs[i].name);
        if j < i {
            assert(rs[j].name != rs[i].name);
        } else {
            assert(rs[i].name != rs[j].name);
        }
    }
}

proof fn lemma_member_pos(ms: Seq<MemberView>, i: int)
    requires
        members_unique(ms),
        0 <= i < ms.len(),
    ensures
        member_pos(ms, ms[i].id) == i,
{
    let j = member_pos(ms, ms[i].id);
    if j != i {
        assert(ms[j].id == ms[i].id);
        if j < i {
            assert(ms[j].id != ms[i].id);
        } else {
            assert(ms[i].id != ms[j].id);
        }
    }
}

/// `text` for every client of room `r`, in the room's order.
pub open spec fn room_deliveries(session: u128, r: RoomView, text: Seq<char>) -> Seq<DeliveryView> {
    Seq::new(
        r.members.len(),
        |k: int| DeliveryView { session, room: r.name, client: r.members[k].id, text },
    )
}

/// `text` for every client of every room of `rs`, room by room.
pub open spec fn rooms_deliveries(session: u128, rs: Seq<RoomView>, text: Seq<char>) -> Seq<DeliveryView>
    decreases rs.len(),
{
    if rs.len() == 0 {
        Seq::empty()
    } else {
        rooms_deliveries(session, rs.drop_last(), text) + room_deliveries(session, rs.last(), text)
    }
}

/// The room list of session `s`, sent to every client of it.
pub open spec fn room_list_deliveries(s: SessionView) -> Seq<DeliveryView> {
    rooms_deliveries(s.id, s.rooms, rooms_text(room_names(s.rooms)))
}

/// The roster of room `r`, sent to every client of it.
pub open spec fn roster_deliveries(session: u128, r: RoomView) -> Seq<DeliveryView> {
    room_deliveries(session, r, members_text(member_names(r.members)))
}

pub open spec fn new_room(name: Seq<char>, m: MemberView) -> RoomView {
    RoomView { name, members: seq![m] }
}

/// Whether adding a client to `room` of `session` creates the room.
pub open spec fn creates_room(ss: Seq<SessionView>, session: u128, room: Seq<char>) -> bool {
    session_pos(ss, session) < 0 || room_pos(ss[session_pos(ss, session)].rooms, room) < 0
}

/// The tree after client `m` was added to `room` of `session`: the session and
/// the room are created when missing; a client whose id the room already
/// holds is left as it is.
pub open spec fn with_member(ss: Seq<SessionView>, session: u128, room: Seq<char>, m: MemberView) -> Seq<
    SessionView,
> {
    let si = session_pos(ss, session);
    if si < 0 {
        ss.push(SessionView { id: session, rooms: seq![new_room(room, m)] })
    } else {
        let s = ss[si];
        let ri = room_pos(s.rooms, room);
        if ri < 0 {
            ss.update(si, SessionView { id: session, rooms: s.rooms.push(new_room(room, m)) })
        } else if member_pos(s.rooms[ri].members, m.id) >= 0 {
            ss
        } else {
            ss.update(
                si,
                SessionView {
                    id: session,
                    rooms: s.rooms.update(
                        ri,
                        RoomView { name: room, members: s.rooms[ri].members.push(m) },
                    ),
                },
            )
        }
    }
}

/// The room `room` of session `session` in `ss`; meaningful where both exist.
pub open spec fn room_of(ss: Seq<SessionView>, session: u128, room: Seq<char>) -> RoomView {
    let s = ss[session_pos(ss, session)];
    s.rooms[room_pos(s.rooms, room)]
}

/// Whether `ss` holds room `room` in session `session`.
pub open spec fn has_room(ss: Seq<SessionView>, session: u128, room: Seq<char>) -> bool {
    session_pos(ss, session) >= 0 && room_pos(ss[session_pos(ss, session)].rooms, room) >= 0
}

/// `ms` without client `id`.
pub open spec fn drop_member(ms: Seq<MemberView>, id: u64) -> Seq<MemberView>
    decreases ms.len(),
{
    if ms.len() == 0 {
        ms
    } else {
        let p = drop_member(ms.drop_last(), id);
        if ms.last().id == id {
            p
        } else {
            p.push(ms.last())
        }
    }
}

/// A room outlives emptiness only when it is `main`.
pub open spec fn keeps_room(r: RoomView) -> bool {
    r.members.len() > 0 || r.name == "main"@
}

/// The rooms of `rs` that are kept, in order.
pub open spec fn kept_rooms(rs: Seq<RoomView>) -> Seq<RoomView>
    decreases rs.len(),
{
    if rs.len() == 0 {
        rs
    } else {
        let p = kept_rooms(rs.drop_last());
        if keeps_room(rs.last()) {
            p.push(rs.last())
        } else {
            p
        }
    }
}

pub open spec fn all_rooms_empty(rs: Seq<RoomView>) -> bool {
    forall|k: int| 0 <= k < rs.len() ==> (#[trigger] rs[k]).members.len() == 0
}

/// The rooms of `s` once client `id` left `room`.
pub open spec fn rooms_after_leave(s: SessionView, room: Seq<char>, id: u64) -> Seq<RoomView> {
    let ri = room_pos(s.rooms, room);
    s.rooms.update(ri, RoomView { name: s.rooms[ri].name, members: drop_member(s.rooms[ri].members, id) })
}

/// The tree after client `id` left `room` of `session`: a room other than
/// `main` goes once empty, and the session goes once all its rooms are empty.
/// Nothing changes when the session or the room is unknown.
pub open spec fn without_member(ss: Seq<SessionView>, session: u128, room: Seq<char>, id: u64) -> Seq<
    SessionView,
> {
    if !has_room(ss, session, room) {
        ss
    } else {
        let si = session_pos(ss, session);
        let rs = rooms_after_leave(ss[si], room, id);
        if all_rooms_empty(rs) {
            ss.remove(si)
        } else {
            ss.update(si, SessionView { id: session, rooms: kept_rooms(rs) })
        }
    }
}

proof fn lemma_drop_member(ms: Seq<MemberView>, id: u64)
    requires
        members_unique(ms),
    ensures
        members_unique(drop_member(ms, id)),
        forall|a: int|
            0 <= a < drop_member(ms, id).len() ==> exists|b: int|
                0 <= b < ms.len() && #[trigger] drop_member(ms, id)[a] == ms[b],
        forall|a: int| 0 <= a < drop_member(ms, id).len() ==> #[trigger] drop_member(ms, id)[a].id != id,
    decreases ms.len(),
{
    if ms.len() > 0 {
        let q = ms.drop_last();
        lemma_drop_member(q, id);
        let p = drop_member(q, id);
        let r = drop_member(ms, id);
        assert forall|a: int| 0 <= a < r.len() implies exists|b: int|
            0 <= b < ms.len() && #[trigger] r[a] == ms[b] by {
            if a < p.len() {
                let b = choose|b: int| 0 <= b < q.len() && p[a] == q[b];
                assert(r[a] == ms[b]);
            } else {
                assert(r[a] == ms[ms.len() - 1]);
            }
        }
        if ms.last().id != id {
            assert forall|a: int, b: int| 0 <= a < b < r.len() implies r[a].id != r[b].id by {
                if b == r.len() - 1 {
                    let c = choose|c: int| 0 <= c < q.len() && p[a] == q[c];
                    assert(ms[c].id != ms[ms.len() - 1].id);
                } else {
                    assert(p[a].id != p[b].id);
                }
            }
        }
    }
}

proof fn lemma_kept_rooms(rs: Seq<RoomView>)
    requires
        rooms_unique(rs),
    ensures
        rooms_unique(kept_rooms(rs)),
        forall|a: int|
            0 <= a < kept_rooms(rs).len() ==> exists|b: int|
                0 <= b < rs.len() && #[trigger] kept_rooms(rs)[a] == rs[b],
        forall|a: int| 0 <= a < kept_rooms(rs).len() ==> keeps_room(#[trigger] kept_rooms(rs)[a]),
        forall|b: int| 0 <= b < rs.len() && keeps_room(#[trigger] rs[b]) ==> exists|a: int|
            0 <= a < kept_rooms(rs).len() && kept_rooms(rs)[a] == rs[b],
    decreases rs.len(),
{
    if rs.len() > 0 {
        let q = rs.drop_last();
        lemma_kept_rooms(q);
        let p = kept_rooms(q);
        let r = kept_rooms(rs);
        assert forall|a: int| 0 <= a < r.len() implies exists|b: int|
            0 <= b < rs.len() && #[trigger] r[a] == rs[b] by {
            if a < p.len() {
                let b = choose|b: int| 0 <= b < q.len() && p[a] == q[b];
                assert(r[a] == rs[b]);
            } else {
                assert(r[a] == rs[rs.len() - 1]);
            }
        }
        assert forall|b: int| 0 <= b < rs.len() && keeps_room(#[trigger] rs[b]) implies exists|a: int|
            0 <= a < r.len() && r[a] == rs[b] by {
            if b < q.len() {
                assert(keeps_room(q[b]));
                let a = choose|a: int| 0 <= a < p.len() && p[a] == q[b];
                assert(r[a] == rs[b]);
            } else {
                assert(r[r.len() - 1] == rs[b]);
            }
        }
        if keeps_room(rs.last()) {
            assert forall|a: int, b: int| 0 <= a < b < r.len() implies r[a].name != r[b].name by {
                if b == r.len() - 1 {
                    let c = choose|c: int| 0 <= c < q.len() && p[a] == q[c];
                    assert(rs[c].name != rs[rs.len() - 1].name);
                } else {
                    assert(p[a].name != p[b].name);
                }
            }
        }
    }
}

proof fn lemma_rooms_after_leave(s: SessionView, room: Seq<char>, id: u64)
    requires
        rooms_unique(s.rooms),
        forall|y: int| 0 <= y < s.rooms.len() ==> members_unique(#[trigger] s.rooms[y].members),
        room_pos(s.rooms, room) >= 0,
    ensures
        rooms_unique(rooms_after_leave(s, room, id)),
        forall|y: int|
            0 <= y < rooms_after_leave(s, room, id).len() ==> members_unique(
                #[trigger] rooms_after_leave(s, room, id)[y].members,
            ),
{
    let ri = room_pos(s.rooms, room);
    lemma_drop_member(s.rooms[ri].members, id);
    let rs1 = rooms_after_leave(s, room, id);
    assert forall|a: int, b: int| 0 <= a < b < rs1.len() implies rs1[a].name != rs1[b].name by {
        assert(s.rooms[a].name != s.rooms[b].name);
    }
}

proof fn lemma_tree_remove(ss: Seq<SessionView>, i: int)
    requires
        tree_wf(ss),
        0 <= i < ss.len(),
    ensures
        tree_wf(ss.remove(i)),
        session_pos(ss.remove(i), ss[i].id) == -1,
{
    let t = ss.remove(i);
    assert forall|x: int, y: int| 0 <= x < t.len() && 0 <= y < t[x].rooms.len() implies members_unique(
        #[trigger] t[x].rooms[y].members) by {
        if x < i {
            assert(members_unique(ss[x].rooms[y].members));
        } else {
            assert(members_unique(ss[x + 1].rooms[y].members));
        }
    }
    assert forall|x: int| 0 <= x < t.len() implies rooms_unique(#[trigger] t[x].rooms) by {
        if x < i {
            assert(rooms_unique(ss[x].rooms));
        } else {
            assert(rooms_unique(ss[x + 1].rooms));
        }
    }
    assert forall|a: int, b: int| 0 <= a < b < t.len() implies t[a].id != t[b].id by {
        if a < i && b < i {
            assert(ss[a].id != ss[b].id);
        } else if a < i {
            assert(ss[a].id != ss[b + 1].id);
        } else {
            assert(ss[a + 1].id != ss[b + 1].id);
        }
    }
    if exists|q: int| 0 <= q < t.len() && t[q].id == ss[i].id {
        let q = choose|q: int| 0 <= q < t.len() && t[q].id == ss[i].id;
        if q < i {
            assert(ss[q].id != ss[i].id);
        } else {
            assert(ss[i].id != ss[q + 1].id);
        }
    }
}

proof fn lemma_tree_update_rooms(ss: Seq<SessionView>, i: int, rooms: Seq<RoomView>)
    requires
        tree_wf(ss),
        0 <= i < ss.len(),
        rooms_unique(rooms),
        forall|y: int| 0 <= y < rooms.len() ==> members_unique(#[trigger] rooms[y].members),
    ensures
        tree_wf(ss.update(i, SessionView { id: ss[i].id, rooms })),
        session_pos(ss.update(i, SessionView { id: ss[i].id, rooms }), ss[i].id) == i,
{
    let t = ss.update(i, SessionView { id: ss[i].id, rooms });
    assert forall|x: int, y: int| 0 <= x < t.len() && 0 <= y < t[x].rooms.len() implies members_unique(
        #[trigger] t[x].rooms[y].members) by {
        if x != i {
            assert(members_unique(ss[x].rooms[y].members));
        }
    }
    assert forall|x: int| 0 <= x < t.len() implies rooms_unique(#[trigger] t[x].rooms) by {
        if x != i {
            assert(rooms_unique(ss[x].rooms));
        }
    }
    assert forall|a: int, b: int| 0 <= a < b < t.len() implies t[a].id != t[b].id by {
        assert(ss[a].id != ss[b].id);
    }
    lemma_session_pos(t, i);
}

/// Once a session has a `main` room, a client leaving any room of the
/// session leaves `main` in place, empty or not, for as long as the session
/// itself remains.
pub proof fn lemma_main_outlives_leave(ss: Seq<SessionView>, session: u128, room: Seq<char>, id: u64)
    requires
        tree_wf(ss),
        has_room(ss, session, "main"@),
    ensures
        session_pos(without_member(ss, session, room, id), session) >= 0 ==> has_room(
            without_member(ss, session, room, id),
            session,
            "main"@,
        ),
{
    if has_room(ss, session, room) {
        let si = session_pos(ss, session);
        let s = ss[si];
        let rs1 = rooms_after_leave(s, room, id);
        assert(rooms_unique(s.rooms));
        assert(forall|y: int| 0 <= y < s.rooms.len() ==> members_unique(#[trigger] ss[si].rooms[y].members));
        lemma_rooms_after_leave(s, room, id);
        if all_rooms_empty(rs1) {
            lemma_tree_remove(ss, si);
        } else {
            lemma_kept_rooms(rs1);
            let kr = kept_rooms(rs1);
            assert forall|y: int| 0 <= y < kr.len() implies members_unique(#[trigger] kr[y].members) by {
                let b = choose|b: int| 0 <= b < rs1.len() && #[trigger] kr[y] == rs1[b];
                assert(members_unique(rs1[b].members));
            }
            lemma_tree_update_rooms(ss, si, kr);
            let mi = room_pos(s.rooms, "main"@);
            assert(rs1[mi].name == "main"@);
            assert(keeps_room(rs1[mi]));
            let a = choose|a: int| 0 <= a < kr.len() && kr[a] == rs1[mi];
            assert(kr[a].name == "main"@);
        }
    }
}

/// Whether some client of `ms` is named `name`.
pub open spec fn has_name(ms: Seq<MemberView>, name: Seq<char>) -> bool {
    exists|k: int| 0 <= k < ms.len() && (#[trigger] ms[k]).name == name
}

/// Whether two distinct names both belong to clients of one room of `session`.
pub open spec fn share_room(ss: Seq<SessionView>, session: u128, a: Seq<char>, b: Seq<char>) -> bool {
    let si = session_pos(ss, session);
    &&& a != b
    &&& si >= 0
    &&& exists|j: int|
        0 <= j < ss[si].rooms.len() && has_name(#[trigger] ss[si].rooms[j].members, a) && has_name(
            ss[si].rooms[j].members,
            b,
        )
}

/// Client `k` of room `j` of session `i` exists and is named `name`.
pub open spec fn is_named(ss: Seq<SessionView>, i: int, j: int, k: int, name: Seq<char>) -> bool {
    &&& 0 <= i < ss.len()
    &&& 0 <= j < ss[i].rooms.len()
    &&& 0 <= k < ss[i].rooms[j].members.len()
    &&& ss[i].rooms[j].members[k].name == name
}

/// `(i, j, k)` comes before `(x, y, z)` in the walk of the tree.
pub open spec fn walks_before(i: int, j: int, k: int, x: int, y: int, z: int) -> bool {
    i < x || (i == x && j < y) || (i == x && j == y && k < z)
}

/// The outcome of walking sessions `lo..hi` for the first client named `name`
/// and handing it `text`.
pub open spec fn first_named_delivery(
    ss: Seq<SessionView>,
    lo: int,
    hi: int,
    name: Seq<char>,
    text: Seq<char>,
    r: Option<DeliveryView>,
) -> bool {
    match r {
        None => forall|i: int, j: int, k: int| lo <= i < hi ==> !#[trigger] is_named(ss, i, j, k, name),
        Some(d) => exists|i: int, j: int, k: int|
            #![trigger is_named(ss, i, j, k, name)]
            lo <= i < hi && is_named(ss, i, j, k, name) && d == DeliveryView {
                session: ss[i].id,
                room: ss[i].rooms[j].name,
                client: ss[i].rooms[j].members[k].id,
                text,
            } && forall|x: int, y: int, z: int|
                lo <= x && walks_before(x, y, z, i, j, k) ==> !#[trigger] is_named(ss, x, y, z, name),
    }
}

pub open spec fn delivery_view_of(r: Option<Delivery>) -> Option<DeliveryView> {
    match r {
        Some(d) => Some(d@),
        None => None,
    }
}

/// Whether every room of `s` is empty.
pub open spec fn is_stale(s: SessionView) -> bool {
    all_rooms_empty(s.rooms)
}

/// The sessions of `ss` that are not stale, in order.
pub open spec fn live_sessions(ss: Seq<SessionView>) -> Seq<SessionView>
    decreases ss.len(),
{
    if ss.len() == 0 {
        ss
    } else if is_stale(ss.last()) {
        live_sessions(ss.drop_last())
    } else {
        live_sessions(ss.drop_last()).push(ss.last())
    }
}

proof fn lemma_live_sessions(ss: Seq<SessionView>)
    requires
        tree_wf(ss),
    ensures
        tree_wf(live_sessions(ss)),
        forall|a: int|
            0 <= a < live_sessions(ss).len() ==> exists|b: int|
                0 <= b < ss.len() && #[trigger] live_sessions(ss)[a] == ss[b],
    decreases ss.len(),
{
    if ss.len() > 0 {
        let q = ss.drop_last();
        assert(tree_wf(q)) by {
            assert forall|a: int, b: int| 0 <= a < b < q.len() implies q[a].id != q[b].id by {
                assert(ss[a].id != ss[b].id);
            }
            assert forall|x: int| 0 <= x < q.len() implies rooms_unique(#[trigger] q[x].rooms) by {
                assert(rooms_unique(ss[x].rooms));
            }
            assert forall|x: int, y: int| 0 <= x < q.len() && 0 <= y < q[x].rooms.len() implies members_unique(
                #[trigger] q[x].rooms[y].members) by {
                assert(members_unique(ss[x].rooms[y].members));
            }
        }
        lemma_live_sessions(q);
        let p = live_sessions(q);
        let r = live_sessions(ss);
        assert forall|a: int| 0 <= a < r.len() implies exists|b: int| 0 <= b < ss.len() && #[trigger] r[a] == ss[b] by {
            if a < p.len() {
                let b = choose|b: int| 0 <= b < q.len() && p[a] == q[b];
                assert(r[a] == ss[b]);
            } else {
                assert(r[a] == ss[ss.len() - 1]);
            }
        }
        if !is_stale(ss.last()) {
            assert forall|a: int, b: int| 0 <= a < b < r.len() implies r[a].id != r[b].id by {
                if b == r.len() - 1 {
                    let c = choose|c: int| 0 <= c < q.len() && p[a] == q[c];
                    assert(ss[c].id != ss[ss.len() - 1].id);
                } else {
                    assert(p[a].id != p[b].id);
                }
            }
            assert forall|x: int| 0 <= x < r.len() implies rooms_unique(#[trigger] r[x].rooms) by {
                if x < p.len() {
                    assert(rooms_unique(p[x].rooms));
                } else {
                    assert(rooms_unique(ss[ss.len() - 1].rooms));
                }
            }
            assert forall|x: int, y: int| 0 <= x < r.len() && 0 <= y < r[x].rooms.len() implies members_unique(
                #[trigger] r[x].rooms[y].members) by {
                if x < p.len() {
                    assert(members_unique(p[x].rooms[y].members));
                } else {
                    assert(members_unique(ss[ss.len() - 1].rooms[y].members));
                }
            }
        }
    }
}

/// A finished upload for every client of `r`: `ack` for the sender `src`,
/// `file` for everyone else, in the room's order.
pub open spec fn attachment_deliveries(
    session: u128,
    r: RoomView,
    src: u64,
    file: Seq<char>,
    ack: Seq<char>,
) -> Seq<DeliveryView> {
    Seq::new(
        r.members.len(),
        |k: int|
            DeliveryView {
                session,
                room: r.name,
                client: r.members[k].id,
                text: if r.members[k].id == src {
                    ack
                } else {
                    file
                },
            },
    )
}

/// `texts`, in order, for client `m` of room `room`.
pub open spec fn texts_for(session: u128, room: Seq<char>, m: MemberView, texts: Seq<Seq<char>>) -> Seq<DeliveryView> {
    Seq::new(texts.len(), |i: int| DeliveryView { session, room, client: m.id, text: texts[i] })
}

/// A file in slices for every client of `ms`, one client after the other:
/// `ack` for the sender `src`, every frame of `frames` for everyone else.
pub open spec fn chunked_deliveries(
    session: u128,
    room: Seq<char>,
    ms: Seq<MemberView>,
    src: u64,
    frames: Seq<Seq<char>>,
    ack: Seq<char>,
) -> Seq<DeliveryView>
    decreases ms.len(),
{
    if ms.len() == 0 {
        Seq::empty()
    } else {
        let m = ms.last();
        chunked_deliveries(session, room, ms.drop_last(), src, frames, ack) + if m.id == src {
            texts_for(session, room, m, seq![ack])
        } else {
            texts_for(session, room, m, frames)
        }
    }
}

/// The coordinator's tree: sessions, their rooms, the rooms' clients.
pub struct WsChatServer {
    sessions: Vec<SessionRooms>,
}

impl View for WsChatServer {
    type V = Seq<SessionView>;

    closed spec fn view(&self) -> Seq<SessionView> {
        self.sessions@.map_values(|s: SessionRooms| s@)
    }
}

/// `text` for every client of `room`, in the room's order.
fn deliver_to_room(session: u128, room: &Room, text: &String, out: &mut Vec<Delivery>)
    ensures
        deliveries_view(final(out)@) == deliveries_view(old(out)@) + room_deliveries(
            session,
            room@,
            text@,
        ),
{
    let ghost start = deliveries_view(out@);
    let mut k: usize = 0;
    while k < room.members.len()
        invariant
            k <= room.members.len(),
            deliveries_view(out@) == start + room_deliveries(session, room@, text@).subrange(0, k as int),
        decreases room.members.len() - k,
    {
        let d = Delivery {
            session,
            room: room.name.clone(),
            client: room.members[k].id,
            text: text.clone(),
        };
        let ghost prev = out@;
        out.push(d);
        proof {
            let full = room_deliveries(session, room@, text@);
            assert(full.subrange(0, k + 1) == full.subrange(0, k as int).push(full[k as int]));
            assert(deliveries_view(out@) == deliveries_view(prev).push(d@));
        }
        k = k + 1;
    }
    assert(room_deliveries(session, room@, text@).subrange(0, k as int) == room_deliveries(
        session,
        room@,
        text@,
    ));
}

/// The names of `rooms`, in order.
fn names_of_rooms(rooms: &Vec<Room>) -> (r: Vec<String>)
    ensures
        r@.map_values(|p: String| p@) == room_names(rooms@.map_values(|x: Room| x@)),
{
    let mut out: Vec<String> = Vec::new();
    let mut j: usize = 0;
    while j < rooms.len()
        invariant
            j <= rooms.len(),
            out@.map_values(|p: String| p@) == room_names(rooms@.map_values(|x: Room| x@)).subrange(0, j as int),
        decreases rooms.len() - j,
    {
        out.push(rooms[j].name.clone());
        proof {
            let full = room_names(rooms@.map_values(|x: Room| x@));
            assert(full.subrange(0, j + 1) == full.subrange(0, j as int).push(full[j as int]));
        }
        j = j + 1;
    }
    assert(room_names(rooms@.map_values(|x: Room| x@)).subrange(0, j as int) == room_names(rooms@.map_values(|x: Room| x@)));
    out
}

/// The names of `members`, in order.
fn names_of_members(members: &Vec<ClientMetadata>) -> (r: Vec<String>)
    ensures
        r@.map_values(|p: String| p@) == member_names(members@.map_values(|x: ClientMetadata| x@)),
{
    let mut out: Vec<String> = Vec::new();
    let mut j: usize = 0;
    while j < members.len()
        invariant
            j <= members.len(),
            out@.map_values(|p: String| p@) == member_names(members@.map_values(|x: ClientMetadata| x@)).subrange(0, j as int),
        decreases members.len() - j,
    {
        out.push(members[j].name.clone());
        proof {
            let full = member_names(members@.map_values(|x: ClientMetadata| x@));
            assert(full.subrange(0, j + 1) == full.subrange(0, j as int).push(full[j as int]));
        }
        j = j + 1;
    }
    assert(member_names(members@.map_values(|x: ClientMetadata| x@)).subrange(0, j as int) == member_names(members@.map_values(|x: ClientMetadata| x@)));
    out
}

/// Position of the room `name` in `rooms`.
fn find_room(rooms: &Vec<Room>, name: &String) -> (r: Option<usize>)
    requires
        rooms_unique(rooms@.map_values(|x: Room| x@)),
    ensures
        r is Some ==> r->0 < rooms.len() && room_pos(rooms@.map_values(|x: Room| x@), name@) == r->0,
        r is None ==> room_pos(rooms@.map_values(|x: Room| x@), name@) == -1,
{
    let ghost rs = rooms@.map_values(|x: Room| x@);
    let mut j: usize = 0;
    while j < rooms.len()
        invariant
            j <= rooms.len(),
            rs == rooms@.map_values(|x: Room| x@),
            rooms_unique(rs),
            forall|k: int| 0 <= k < j ==> rs[k].name != name@,
        decreases rooms.len() - j,
    {
        if rooms[j].name == *name {
            proof {
                lemma_room_pos(rs, j as int);
            }
            return Some(j);
        }
        j = j + 1;
    }
    None
}

/// Whether `members` holds client `id`.
fn has_member(members: &Vec<ClientMetadata>, id: u64) -> (r: bool)
    ensures
        r == (member_pos(members@.map_values(|x: ClientMetadata| x@), id) >= 0),
{
    let ghost ms = members@.map_values(|x: ClientMetadata| x@);
    let mut k: usize = 0;
    while k < members.len()
        invariant
            k <= members.len(),
            ms == members@.map_values(|x: ClientMetadata| x@),
            forall|q: int| 0 <= q < k ==> ms[q].id != id,
        decreases members.len() - k,
    {
        if members[k].id == id {
            assert(ms[k as int].id == id);
            return true;
        }
        k = k + 1;
    }
    false
}

/// `members` without client `id`.
fn without_id(members: Vec<ClientMetadata>, id: u64) -> (r: Vec<ClientMetadata>)
    ensures
        r@.map_values(|x: ClientMetadata| x@) == drop_member(members@.map_values(|x: ClientMetadata| x@), id),
{
    let ghost orig = members@.map_values(|x: ClientMetadata| x@);
    let ghost n = members.len();
    let mut rest = members;
    let mut out: Vec<ClientMetadata> = Vec::new();
    let mut k: usize = 0;
    while rest.len() > 0
        invariant
            k + rest.len() == n,
            n == orig.len(),
            rest@.map_values(|x: ClientMetadata| x@) == orig.subrange(k as int, n as int),
            out@.map_values(|x: ClientMetadata| x@) == drop_member(orig.subrange(0, k as int), id),
        decreases rest.len(),
    {
        let ghost before = rest@.map_values(|x: ClientMetadata| x@);
        let ghost raw = rest@;
        let x = rest.remove(0);
        proof {
            assert(x@ == before[0]);
            assert(rest@ == raw.subrange(1, raw.len() as int));
            assert forall|q: int| 0 <= q < rest.len() implies #[trigger] rest@[q]@ == orig[k + 1 + q] by {
                assert(rest@[q] == raw[q + 1]);
                assert(before[q + 1] == raw[q + 1]@);
            }
            assert(rest@.map_values(|x: ClientMetadata| x@) =~= orig.subrange(k + 1, n as int));
            assert(orig.subrange(0, k + 1).drop_last() == orig.subrange(0, k as int));
        }
        if x.id != id {
            out.push(x);
        }
        assert(out@.map_values(|x: ClientMetadata| x@) =~= drop_member(orig.subrange(0, k + 1), id));
        k = k + 1;
    }
    assert(orig.subrange(0, n as int) == orig);
    out
}

/// The rooms of `rooms` that are kept, in order.
fn keep_rooms(rooms: Vec<Room>) -> (r: Vec<Room>)
    ensures
        r@.map_values(|x: Room| x@) == kept_rooms(rooms@.map_values(|x: Room| x@)),
{
    let ghost orig = rooms@.map_values(|x: Room| x@);
    let ghost n = rooms.len();
    let mut rest = rooms;
    let mut out: Vec<Room> = Vec::new();
    let mut k: usize = 0;
    while rest.len() > 0
        invariant
            k + rest.len() == n,
            n == orig.len(),
            rest@.map_values(|x: Room| x@) == orig.subrange(k as int, n as int),
            out@.map_values(|x: Room| x@) == kept_rooms(orig.subrange(0, k as int)),
        decreases rest.len(),
    {
        let ghost before = rest@.map_values(|x: Room| x@);
        let ghost raw = rest@;
        let x = rest.remove(0);
        proof {
            assert(x@ == before[0]);
            assert(rest@ == raw.subrange(1, raw.len() as int));
            assert forall|q: int| 0 <= q < rest.len() implies #[trigger] rest@[q]@ == orig[k + 1 + q] by {
                assert(rest@[q] == raw[q + 1]);
                assert(before[q + 1] == raw[q + 1]@);
            }
            assert(rest@.map_values(|x: Room| x@) =~= orig.subrange(k + 1, n as int));
            assert(orig.subrange(0, k + 1).drop_last() == orig.subrange(0, k as int));
        }
        let main = String::from_str("main");
        if x.members.len() > 0 || x.name == main {
            out.push(x);
        }
        assert(out@.map_values(|x: Room| x@) =~= kept_rooms(orig.subrange(0, k + 1)));
        k = k + 1;
    }
    assert(orig.subrange(0, n as int) == orig);
    out
}

/// Whether no room of `rooms` has a client.
fn no_clients(rooms: &Vec<Room>) -> (r: bool)
    ensures
        r == all_rooms_empty(rooms@.map_values(|x: Room| x@)),
{
    let ghost rs = rooms@.map_values(|x: Room| x@);
    let mut j: usize = 0;
    while j < rooms.len()
        invariant
            j <= rooms.len(),
            rs == rooms@.map_values(|x: Room| x@),
            forall|k: int| 0 <= k < j ==> (#[trigger] rs[k]).members.len() == 0,
        decreases rooms.len() - j,
    {
        if rooms[j].members.len() > 0 {
            assert(rs[j as int].members.len() > 0);
            return false;
        }
        j = j + 1;
    }
    true
}

/// Whether some client of `members` is named `name`.
fn has_named(members: &Vec<ClientMetadata>, name: &String) -> (r: bool)
    ensures
        r == has_name(members@.map_values(|x: ClientMetadata| x@), name@),
{
    let ghost ms = members@.map_values(|x: ClientMetadata| x@);
    let mut k: usize = 0;
    while k < members.len()
        invariant
            k <= members.len(),
            ms == members@.map_values(|x: ClientMetadata| x@),
            forall|q: int| 0 <= q < k ==> (#[trigger] ms[q]).name != name@,
        decreases members.len() - k,
    {
        if members[k].name == *name {
            assert(ms[k as int].name == name@);
            return true;
        }
        k = k + 1;
    }
    false
}

/// The room list of session `s`, for every client of it.
fn room_list_of(s: &SessionRooms) -> (r: Vec<Delivery>)
    ensures
        deliveries_view(r@) == room_list_deliveries(s@),
{
    let names = names_of_rooms(&s.rooms);
    let text = rooms_message(&names);
    let ghost rs = s@.rooms;
    let mut out: Vec<Delivery> = Vec::new();
    let mut j: usize = 0;
    while j < s.rooms.len()
        invariant
            j <= s.rooms.len(),
            rs == s@.rooms,
            text@ == rooms_text(room_names(rs)),
            deliveries_view(out@) == rooms_deliveries(s.id, rs.subrange(0, j as int), text@),
        decreases s.rooms.len() - j,
    {
        deliver_to_room(s.id, &s.rooms[j], &text, &mut out);
        assert(rs.subrange(0, j + 1).drop_last() == rs.subrange(0, j as int));
        j = j + 1;
    }
    assert(rs.subrange(0, j as int) == rs);
    out
}

/// The roster of `room`, for every client of it.
fn roster_of(session: u128, room: &Room) -> (r: Vec<Delivery>)
    ensures
        deliveries_view(r@) == roster_deliveries(session, room@),
{
    let names = names_of_members(&room.members);
    let text = members_message(&names);
    let mut out: Vec<Delivery> = Vec::new();
    deliver_to_room(session, room, &text, &mut out);
    assert(deliveries_view(out@) == Seq::<DeliveryView>::empty() + roster_deliveries(session, room@));
    out
}

impl WsChatServer {
    pub open spec fn wf(&self) -> bool {
        tree_wf(self@)
    }

    pub fn new() -> (r: Self)
        ensures
            r.wf(),
            r@ == Seq::<SessionView>::empty(),
    {
        let r = WsChatServer { sessions: Vec::new() };
        assert(r@ == Seq::<SessionView>::empty());
        r
    }

    /// Adds client `id` (a fresh random non-zero id when none is given) named
    /// `name` to `room_name` of `session_id`. When this creates the room, the
    /// session's new room list goes to all of its clients.
    pub fn add_client_to_room(&mut self, session_id: u128, room_name: &str, id: Option<u64>, name: String) -> (r: (
        u64,
        Vec<Delivery>,
    ))
        requires
            old(self).wf(),
        ensures
            final(self).wf(),
            id is Some ==> r.0 == id->0,
            id is None ==> r.0 != 0,
            final(self)@ == with_member(old(self)@, session_id, room_name@, MemberView { id: r.0, name: name@ }),
            has_room(final(self)@, session_id, room_name@),
            creates_room(old(self)@, session_id, room_name@) ==> deliveries_view(r.1@)
                == room_list_deliveries(final(self)@[session_pos(final(self)@, session_id)]),
            !creates_room(old(self)@, session_id, room_name@) ==> r.1@.len() == 0,
    {
        let id = match id {
            Some(given) => given,
            None => random_in_range(1, u64::MAX),
        };
        if self.insert_client(session_id, room_name, id, name) {
            (id, self.broadcast_room_list(session_id))
        } else {
            (id, Vec::new())
        }
    }

    /// Adds client `id` named `name` to `room_name` of `session_id`, and
    /// tells whether that created the room.
    fn insert_client(&mut self, session_id: u128, room_name: &str, id: u64, name: String) -> (r: bool)
        requires
            old(self).wf(),
        ensures
            final(self).wf(),
            final(self)@ == with_member(old(self)@, session_id, room_name@, MemberView { id, name: name@ }),
            has_room(final(self)@, session_id, room_name@),
            r == creates_room(old(self)@, session_id, room_name@),
    {
        let ghost m = MemberView { id, name: name@ };
        let ghost ss = self@;
        let member = ClientMetadata { id, name };
        let room_key = String::from_str(room_name);
        let mut room = Room { name: String::from_str(room_name), members: Vec::new() };
        match self.find_session(session_id) {
            Some(i) => {
                let ghost s = ss[i as int];
                match find_room(&self.sessions[i].rooms, &room_key) {
                    Some(j) => {
                        let ghost r = s.rooms[j as int];
                        if !has_member(&self.sessions[i].rooms[j].members, id) {
                            self.sessions[i].rooms[j].members.push(member);
                            proof {
                                let nr = RoomView { name: room_name@, members: r.members.push(m) };
                                assert(self.sessions@[i as int].rooms@[j as int]@.members =~= nr.members);
                                assert(self.sessions@[i as int]@.rooms =~= s.rooms.update(j as int, nr));
                                assert(self@ =~= ss.update(i as int, SessionView { id: session_id, rooms: s.rooms.update(j as int, nr) }));
                                self.lemma_member_added(ss, i as int, j as int, m);
                                lemma_room_pos(self@[i as int].rooms, j as int);
                                lemma_session_pos(self@, i as int);
                            }
                        } else {
                            proof {
                                lemma_room_pos(self@[i as int].rooms, j as int);
                                lemma_session_pos(self@, i as int);
                            }
                        }
                        false
                    },
                    None => {
                        room.members.push(member);
                        assert(room@.members =~= seq![m]);
                        assert(room@ == new_room(room_name@, m));
                        self.sessions[i].rooms.push(room);
                        proof {
                            assert(self.sessions@[i as int]@.rooms =~= s.rooms.push(new_room(room_name@, m)));
                            assert(self@ =~= ss.update(i as int, SessionView { id: session_id, rooms: s.rooms.push(new_room(room_name@, m)) }));
                            self.lemma_room_added(ss, i as int, room_name@, m);
                            lemma_room_pos(self@[i as int].rooms, s.rooms.len() as int);
                            lemma_session_pos(self@, i as int);
                        }
                        true
                    },
                }
            },
            None => {
                room.members.push(member);
                assert(room@.members =~= seq![m]);
                assert(room@ == new_room(room_name@, m));
                let mut rooms: Vec<Room> = Vec::new();
                rooms.push(room);
                self.sessions.push(SessionRooms { id: session_id, rooms });
                let last = self.sessions.len() - 1;
                proof {
                    assert(self.sessions@[last as int]@.rooms =~= seq![new_room(room_name@, m)]);
                    assert(self@ =~= ss.push(SessionView { id: session_id, rooms: seq![new_room(room_name@, m)] }));
                    lemma_session_pos(self@, last as int);
                    lemma_room_pos(self@[last as int].rooms, 0);
                }
                true
            },
        }
    }

    proof fn lemma_member_added(&self, ss: Seq<SessionView>, i: int, j: int, m: MemberView)
        requires
            tree_wf(ss),
            0 <= i < ss.len(),
            0 <= j < ss[i].rooms.len(),
            member_pos(ss[i].rooms[j].members, m.id) < 0,
            self@ == ss.update(
                i,
                SessionView {
                    id: ss[i].id,
                    rooms: ss[i].rooms.update(
                        j,
                        RoomView { name: ss[i].rooms[j].name, members: ss[i].rooms[j].members.push(m) },
                    ),
                },
            ),
        ensures
            self.wf(),
    {
        let ms = ss[i].rooms[j].members.push(m);
        assert forall|a: int, b: int| 0 <= a < b < ms.len() implies ms[a].id != ms[b].id by {
            if b == ms.len() - 1 {
                if ms[a].id == m.id {
                    assert(ss[i].rooms[j].members[a].id == m.id);
                }
            } else {
                assert(members_unique(ss[i].rooms[j].members));
            }
        }
        assert forall|x: int, y: int|
            0 <= x < self@.len() && 0 <= y < self@[x].rooms.len() implies members_unique(
            #[trigger] self@[x].rooms[y].members) by {
            if x == i && y == j {
                assert(self@[x].rooms[y].members == ms);
            } else {
                assert(members_unique(ss[x].rooms[y].members));
            }
        }
        assert forall|x: int| 0 <= x < self@.len() implies rooms_unique(#[trigger] self@[x].rooms) by {
            assert(rooms_unique(ss[x].rooms));
            if x == i {
                assert forall|a: int, b: int| 0 <= a < b < self@[x].rooms.len() implies self@[x].rooms[a].name != self@[x].rooms[b].name by {
                    assert(ss[x].rooms[a].name != ss[x].rooms[b].name);
                }
            }
        }
    }

    proof fn lemma_room_added(&self, ss: Seq<SessionView>, i: int, name: Seq<char>, m: MemberView)
        requires
            tree_wf(ss),
            0 <= i < ss.len(),
            room_pos(ss[i].rooms, name) < 0,
            self@ == ss.update(i, SessionView { id: ss[i].id, rooms: ss[i].rooms.push(new_room(name, m)) }),
        ensures
            self.wf(),
    {
        let rs = ss[i].rooms.push(new_room(name, m));
        assert forall|a: int, b: int| 0 <= a < b < rs.len() implies rs[a].name != rs[b].name by {
            if b == rs.len() - 1 {
                if rs[a].name == name {
                    assert(ss[i].rooms[a].name == name);
                }
            } else {
                assert(rooms_unique(ss[i].rooms));
            }
        }
        assert forall|x: int, y: int|
            0 <= x < self@.len() && 0 <= y < self@[x].rooms.len() implies members_unique(
            #[trigger] self@[x].rooms[y].members) by {
            if x == i && y == rs.len() - 1 {
            } else {
                assert(members_unique(ss[x].rooms[y].members));
            }
        }
        assert forall|x: int| 0 <= x < self@.len() implies rooms_unique(#[trigger] self@[x].rooms) by {
            if x != i {
                assert(rooms_unique(ss[x].rooms));
            }
        }
    }

    /// Sends `msg` to every client of `room_name` in `session_id`; `None` when
    /// the session or the room does not exist.
    pub fn send_join_message(&self, session_id: u128, room_name: &str, msg: &String, _src: u64) -> (r: Option<
        Vec<Delivery>,
    >)
        requires
            self.wf(),
        ensures
            !has_room(self@, session_id, room_name@) ==> r is None,
            has_room(self@, session_id, room_name@) ==> r is Some && deliveries_view(r->0@)
                == room_deliveries(session_id, room_of(self@, session_id, room_name@), msg@),
    {
        let i = self.find_session(session_id)?;
        assert(rooms_unique(self@[i as int].rooms));
        let key = String::from_str(room_name);
        let j = find_room(&self.sessions[i].rooms, &key)?;
        let mut out: Vec<Delivery> = Vec::new();
        deliver_to_room(session_id, &self.sessions[i].rooms[j], msg, &mut out);
        assert(deliveries_view(out@) =~= room_deliveries(session_id, room_of(self@, session_id, room_name@), msg@));
        Some(out)
    }

    /// Sends the roster of `room_name` in `session_id` to every client of that room.
    pub fn broadcast_room_members(&self, session_id: u128, room_name: &str) -> (r: Vec<Delivery>)
        requires
            self.wf(),
        ensures
            !has_room(self@, session_id, room_name@) ==> r@.len() == 0,
            has_room(self@, session_id, room_name@) ==> deliveries_view(r@) == roster_deliveries(
                session_id,
                room_of(self@, session_id, room_name@),
            ),
    {
        match self.find_session(session_id) {
            Some(i) => {
                assert(rooms_unique(self@[i as int].rooms));
                let key = String::from_str(room_name);
                match find_room(&self.sessions[i].rooms, &key) {
                    Some(j) => roster_of(session_id, &self.sessions[i].rooms[j]),
                    None => Vec::new(),
                }
            },
            None => Vec::new(),
        }
    }

    /// Adds a client under a fresh random id; then the room learns of the
    /// arrival and gets its new roster, and the whole session its room list.
    pub fn handle_join_room(&mut self, msg: JoinRoom) -> (r: (u64, Vec<Delivery>))
        requires
            old(self).wf(),
        ensures
            final(self).wf(),
            r.0 != 0,
            final(self)@ == with_member(old(self)@, msg.0, msg.1@, MemberView { id: r.0, name: msg.2@ }),
            has_room(final(self)@, msg.0, msg.1@),
            deliveries_view(r.1@) == room_deliveries(msg.0, room_of(final(self)@, msg.0, msg.1@), join_text(msg.2@, msg.1@))
                + roster_deliveries(msg.0, room_of(final(self)@, msg.0, msg.1@))
                + room_list_deliveries(final(self)@[session_pos(final(self)@, msg.0)]),
    {
        let JoinRoom(session_id, room_name, client_name) = msg;
        let text = join_message(client_name.as_str(), room_name.as_str());
        let id = random_in_range(1, u64::MAX);
        self.insert_client(session_id, room_name.as_str(), id, client_name);
        let mut out = self.send_join_message(session_id, room_name.as_str(), &text, id).unwrap();
        let mut roster = self.broadcast_room_members(session_id, room_name.as_str());
        let mut rooms = self.broadcast_room_list(session_id);
        let ghost a = deliveries_view(out@);
        let ghost b = deliveries_view(roster@);
        let ghost c = deliveries_view(rooms@);
        out.append(&mut roster);
        assert(deliveries_view(out@) =~= a + b);
        out.append(&mut rooms);
        assert(deliveries_view(out@) =~= a + b + c);
        (id, out)
    }

    /// Removes client `msg.2` from room `msg.1` of session `msg.0`. The room
    /// goes once empty unless it is `main`, and the session goes once all its
    /// rooms are empty. What remains of the session gets its room list, and the
    /// room, if it remains, its roster.
    #[verifier::rlimit(60)]
    pub fn handle_leave_room(&mut self, msg: LeaveRoom) -> (r: Vec<Delivery>)
        requires
            old(self).wf(),
        ensures
            final(self).wf(),
            final(self)@ == without_member(old(self)@, msg.0, msg.1@, msg.2),
            !has_room(old(self)@, msg.0, msg.1@) ==> r@.len() == 0,
            has_room(old(self)@, msg.0, msg.1@) ==> deliveries_view(r@) == (if session_pos(
                final(self)@,
                msg.0,
            ) >= 0 {
                room_list_deliveries(final(self)@[session_pos(final(self)@, msg.0)])
            } else {
                Seq::empty()
            }) + (if has_room(final(self)@, msg.0, msg.1@) {
                roster_deliveries(msg.0, room_of(final(self)@, msg.0, msg.1@))
            } else {
                Seq::empty()
            }),
    {
        let LeaveRoom(session_id, room_name, id) = msg;
        let ghost ss = self@;
        let i = match self.find_session(session_id) {
            Some(i) => i,
            None => return Vec::new(),
        };
        assert(rooms_unique(self@[i as int].rooms));
        let j = match find_room(&self.sessions[i].rooms, &room_name) {
            Some(j) => j,
            None => return Vec::new(),
        };
        let ghost s = ss[i as int];
        let ghost rs1 = rooms_after_leave(s, room_name@, id);
        proof {
            assert(rooms_unique(s.rooms));
            assert(forall|y: int| 0 <= y < s.rooms.len() ==> members_unique(#[trigger] ss[i as int].rooms[y].members));
            lemma_rooms_after_leave(s, room_name@, id);
        }
        let mut members: Vec<ClientMetadata> = Vec::new();
        std::mem::swap(&mut members, &mut self.sessions[i].rooms[j].members);
        self.sessions[i].rooms[j].members = without_id(members, id);
        assert(self.sessions@[i as int]@.rooms =~= rs1);
        if no_clients(&self.sessions[i].rooms) {
            self.sessions.remove(i);
            proof {
                assert(self@ =~= ss.remove(i as int));
                lemma_tree_remove(ss, i as int);
            }
            return Vec::new();
        }
        let mut rooms: Vec<Room> = Vec::new();
        std::mem::swap(&mut rooms, &mut self.sessions[i].rooms);
        self.sessions[i].rooms = keep_rooms(rooms);
        proof {
            lemma_kept_rooms(rs1);
            let kr = kept_rooms(rs1);
            assert(self.sessions@[i as int]@.rooms =~= kr);
            assert(self@ =~= ss.update(i as int, SessionView { id: session_id, rooms: kr }));
            assert forall|y: int| 0 <= y < kr.len() implies members_unique(#[trigger] kr[y].members) by {
                let b = choose|b: int| 0 <= b < rs1.len() && #[trigger] kr[y] == rs1[b];
                assert(members_unique(rs1[b].members));
            }
            lemma_tree_update_rooms(ss, i as int, kr);
        }
        let mut out = room_list_of(&self.sessions[i]);
        assert(rooms_unique(self@[i as int].rooms));
        match find_room(&self.sessions[i].rooms, &room_name) {
            Some(k) => {
                let mut roster = roster_of(session_id, &self.sessions[i].rooms[k]);
                let ghost a = deliveries_view(out@);
                out.append(&mut roster);
                assert(deliveries_view(out@) =~= a + roster_deliveries(session_id, room_of(self@, session_id, room_name@)));
            },
            None => {
                assert(deliveries_view(out@) =~= deliveries_view(out@) + Seq::<DeliveryView>::empty());
            },
        }
        out
    }

    /// The room names of `msg.0`, in order of creation; none for an unknown session.
    pub fn handle_list_rooms(&self, msg: ListRooms) -> (r: Vec<String>)
        requires
            self.wf(),
        ensures
            session_pos(self@, msg.0) < 0 ==> r@.len() == 0,
            session_pos(self@, msg.0) >= 0 ==> r@.map_values(|p: String| p@) == room_names(
                self@[session_pos(self@, msg.0)].rooms,
            ),
    {
        match self.find_session(msg.0) {
            Some(i) => names_of_rooms(&self.sessions[i].rooms),
            None => Vec::new(),
        }
    }

    /// Drops the empty rooms of `session_id` other than `main`, and the whole
    /// session when no client is left in it; what remains of the session
    /// gets its room list.
    pub fn remove_empty_rooms(&mut self, session_id: u128) -> (r: Vec<Delivery>)
        requires
            old(self).wf(),
        ensures
            final(self).wf(),
            session_pos(old(self)@, session_id) < 0 ==> final(self)@ == old(self)@ && r@.len() == 0,
            session_pos(old(self)@, session_id) >= 0 ==> {
                let si = session_pos(old(self)@, session_id);
                let rs = old(self)@[si].rooms;
                &&& all_rooms_empty(rs) ==> final(self)@ == old(self)@.remove(si) && r@.len() == 0
                &&& !all_rooms_empty(rs) ==> final(self)@ == old(self)@.update(
                    si,
                    SessionView { id: session_id, rooms: kept_rooms(rs) },
                ) && deliveries_view(r@) == room_list_deliveries(final(self)@[si])
            },
    {
        let ghost ss = self@;
        let i = match self.find_session(session_id) {
            Some(i) => i,
            None => return Vec::new(),
        };
        let ghost rs = ss[i as int].rooms;
        if no_clients(&self.sessions[i].rooms) {
            self.sessions.remove(i);
            proof {
                assert(self@ =~= ss.remove(i as int));
                lemma_tree_remove(ss, i as int);
            }
            return Vec::new();
        }
        let mut rooms: Vec<Room> = Vec::new();
        std::mem::swap(&mut rooms, &mut self.sessions[i].rooms);
        self.sessions[i].rooms = keep_rooms(rooms);
        proof {
            assert(rooms_unique(rs));
            lemma_kept_rooms(rs);
            let kr = kept_rooms(rs);
            assert(self.sessions@[i as int]@.rooms =~= kr);
            assert(self@ =~= ss.update(i as int, SessionView { id: session_id, rooms: kr }));
            assert forall|y: int| 0 <= y < kr.len() implies members_unique(#[trigger] kr[y].members) by {
                let b = choose|b: int| 0 <= b < rs.len() && #[trigger] kr[y] == rs[b];
                assert(members_unique(ss[i as int].rooms[b].members));
            }
            lemma_tree_update_rooms(ss, i as int, kr);
        }
        room_list_of(&self.sessions[i])
    }

    /// Drops the whole session `msg.0`, if there is one.
    pub fn handle_cleanup_session(&mut self, msg: CleanupSession)
        requires
            old(self).wf(),
        ensures
            final(self).wf(),
            session_pos(old(self)@, msg.0) < 0 ==> final(self)@ == old(self)@,
            session_pos(old(self)@, msg.0) >= 0 ==> final(self)@ == old(self)@.remove(
                session_pos(old(self)@, msg.0),
            ),
            session_pos(final(self)@, msg.0) == -1,
    {
        let ghost ss = self@;
        if let Some(i) = self.find_session(msg.0) {
            self.sessions.remove(i);
            proof {
                assert(self@ =~= ss.remove(i as int));
                lemma_tree_remove(ss, i as int);
            }
        }
    }

    /// Drops every session whose rooms are all empty.
    pub fn cleanup_stale_sessions(&mut self)
        requires
            old(self).wf(),
        ensures
            final(self).wf(),
            final(self)@ == live_sessions(old(self)@),
    {
        let ghost orig = self@;
        let ghost n = self.sessions.len();
        let mut rest: Vec<SessionRooms> = Vec::new();
        std::mem::swap(&mut rest, &mut self.sessions);
        let mut out: Vec<SessionRooms> = Vec::new();
        let mut k: usize = 0;
        while rest.len() > 0
            invariant
                k + rest.len() == n,
                n == orig.len(),
                rest@.map_values(|x: SessionRooms| x@) == orig.subrange(k as int, n as int),
                out@.map_values(|x: SessionRooms| x@) == live_sessions(orig.subrange(0, k as int)),
            decreases rest.len(),
        {
            let ghost before = rest@.map_values(|x: SessionRooms| x@);
            let ghost raw = rest@;
            let x = rest.remove(0);
            proof {
                assert(x@ == before[0]);
                assert(rest@ == raw.subrange(1, raw.len() as int));
                assert forall|q: int| 0 <= q < rest.len() implies #[trigger] rest@[q]@ == orig[k + 1 + q] by {
                    assert(rest@[q] == raw[q + 1]);
                    assert(before[q + 1] == raw[q + 1]@);
                }
                assert(rest@.map_values(|x: SessionRooms| x@) =~= orig.subrange(k + 1, n as int));
                assert(orig.subrange(0, k + 1).drop_last() == orig.subrange(0, k as int));
            }
            if !no_clients(&x.rooms) {
                out.push(x);
            }
            assert(out@.map_values(|x: SessionRooms| x@) =~= live_sessions(orig.subrange(0, k + 1)));
            k = k + 1;
        }
        assert(orig.subrange(0, n as int) == orig);
        self.sessions = out;
        proof {
            lemma_live_sessions(orig);
        }
    }

    /// Whether `user1` and `user2` are distinct names of clients that share a
    /// room of `session_id`.
    pub fn users_share_room(&self, session_id: u128, user1: &str, user2: &str) -> (r: bool)
        requires
            self.wf(),
        ensures
            r == share_room(self@, session_id, user1@, user2@),
    {
        let a = String::from_str(user1);
        let b = String::from_str(user2);
        if a == b {
            return false;
        }
        let i = match self.find_session(session_id) {
            Some(i) => i,
            None => return false,
        };
        let ghost rs = self@[i as int].rooms;
        let mut j: usize = 0;
        while j < self.sessions[i].rooms.len()
            invariant
                j <= self.sessions@[i as int].rooms.len(),
                i < self@.len(),
                rs == self@[i as int].rooms,
                session_pos(self@, session_id) == i,
                a@ == user1@,
                b@ == user2@,
                user1@ != user2@,
                forall|y: int| 0 <= y < j ==> !(has_name(#[trigger] rs[y].members, user1@) && has_name(rs[y].members, user2@)),
            decreases self.sessions@[i as int].rooms.len() - j,
        {
            let room = &self.sessions[i].rooms[j];
            assert(rs[j as int].members == room.members@.map_values(|x: ClientMetadata| x@));
            let has_a = has_named(&room.members, &a);
            let has_b = has_named(&room.members, &b);
            if has_a && has_b {
                assert(has_name(rs[j as int].members, user1@));
                return true;
            }
            j = j + 1;
        }
        false
    }

    /// Walks sessions `lo..hi` for the first client named `name` and hands it `text`.
    fn first_named(&self, lo: usize, hi: usize, name: &String, text: &String) -> (r: Option<Delivery>)
        requires
            lo <= hi <= self@.len(),
        ensures
            first_named_delivery(self@, lo as int, hi as int, name@, text@, delivery_view_of(r)),
    {
        let ghost ss = self@;
        let mut i: usize = lo;
        while i < hi
            invariant
                lo <= i <= hi <= ss.len(),
                ss == self@,
                forall|x: int, y: int, z: int| lo <= x < i ==> !#[trigger] is_named(ss, x, y, z, name@),
            decreases hi - i,
        {
            let mut j: usize = 0;
            while j < self.sessions[i].rooms.len()
                invariant
                    lo <= i < hi <= ss.len(),
                    ss == self@,
                    j <= ss[i as int].rooms.len(),
                    forall|x: int, y: int, z: int| lo <= x < i ==> !#[trigger] is_named(ss, x, y, z, name@),
                    forall|y: int, z: int| y < j ==> !#[trigger] is_named(ss, i as int, y, z, name@),
                decreases self.sessions@[i as int].rooms.len() - j,
            {
                let mut k: usize = 0;
                while k < self.sessions[i].rooms[j].members.len()
                    invariant
                        lo <= i < hi <= ss.len(),
                        ss == self@,
                        j < ss[i as int].rooms.len(),
                        k <= ss[i as int].rooms[j as int].members.len(),
                        forall|x: int, y: int, z: int| lo <= x < i ==> !#[trigger] is_named(ss, x, y, z, name@),
                        forall|y: int, z: int| y < j ==> !#[trigger] is_named(ss, i as int, y, z, name@),
                        forall|z: int| z < k ==> !#[trigger] is_named(ss, i as int, j as int, z, name@),
                    decreases self.sessions@[i as int].rooms@[j as int].members.len() - k,
                {
                    let m = &self.sessions[i].rooms[j].members[k];
                    if m.name == *name {
                        let d = Delivery {
                            session: self.sessions[i].id,
                            room: self.sessions[i].rooms[j].name.clone(),
                            client: m.id,
                            text: text.clone(),
                        };
                        proof {
                            assert(is_named(ss, i as int, j as int, k as int, name@));
                            assert forall|x: int, y: int, z: int|
                                lo <= x && walks_before(x, y, z, i as int, j as int, k as int) implies !#[trigger] is_named(
                                ss, x, y, z, name@) by {
                                if x == i && y == j {
                                    assert(z < k);
                                }
                            }
                        }
                        return Some(d);
                    }
                    k = k + 1;
                }
                j = j + 1;
            }
            i = i + 1;
        }
        None
    }

    /// Hands `message` to the first client named `to_user` in a walk of the
    /// whole tree; nothing when no client has that name.
    pub fn relay_message_to_user(&self, to_user: &str, message: ChatMessage, from_user: &str) -> (r: Option<Delivery>)
        ensures
            first_named_delivery(self@, 0, self@.len() as int, to_user@, message.0@, delivery_view_of(r)),
    {
        let name = String::from_str(to_user);
        self.first_named(0, self.sessions.len(), &name, &message.0)
    }

    /// The direct relay: `msg.message` for the first client named `msg.to`,
    /// unless a client would send to itself.
    pub fn handle_relay_signal(&self, msg: RelaySignalMessage) -> (r: Option<Delivery>)
        ensures
            msg.from@ == msg.to@ ==> r is None,
            msg.from@ != msg.to@ ==> first_named_delivery(self@, 0, self@.len() as int, msg.to@, msg.message.0@, delivery_view_of(r)),
    {
        if msg.from == msg.to {
            return None;
        }
        self.first_named(0, self.sessions.len(), &msg.to, &msg.message.0)
    }

    /// Relays `[SignalMessage] <payload>` to the first client of the session
    /// named `to_user`, when sender and target share a room; drops it otherwise.
    pub fn handle_validate_and_relay(&self, msg: ValidateAndRelaySignal) -> (r: Option<Delivery>)
        requires
            self.wf(),
        ensures
            !share_room(self@, msg.session_id, msg.from_user@, msg.to_user@) ==> r is None,
            share_room(self@, msg.session_id, msg.from_user@, msg.to_user@) ==> {
                let si = session_pos(self@, msg.session_id);
                &&& r is Some
                &&& first_named_delivery(self@, si, si + 1, msg.to_user@, signal_text(msg.payload@), delivery_view_of(r))
            },
    {
        if !self.users_share_room(msg.session_id, msg.from_user.as_str(), msg.to_user.as_str()) {
            return None;
        }
        let i = self.find_session(msg.session_id).unwrap();
        assert(i < self.sessions.len());
        let text = signal_message(msg.payload.as_str());
        let r = self.first_named(i, i + 1, &msg.to_user, &text);
        proof {
            let si = i as int;
            let j = choose|j: int| 0 <= j < self@[si].rooms.len() && has_name(#[trigger] self@[si].rooms[j].members, msg.to_user@) && has_name(self@[si].rooms[j].members, msg.from_user@);
            let k = choose|k: int| 0 <= k < self@[si].rooms[j].members.len() && (#[trigger] self@[si].rooms[j].members[k]).name == msg.to_user@;
            assert(is_named(self@, si, j, k, msg.to_user@));
        }
        r
    }

    /// Empties `room_name` of `session_id` and returns the clients it held;
    /// the room itself stays. `None` when the session or the room is unknown.
    pub fn take_room(&mut self, session_id: u128, room_name: &str) -> (r: Option<Vec<ClientMetadata>>)
        requires
            old(self).wf(),
        ensures
            final(self).wf(),
            !has_room(old(self)@, session_id, room_name@) ==> r is None && final(self)@ == old(self)@,
            has_room(old(self)@, session_id, room_name@) ==> {
                let si = session_pos(old(self)@, session_id);
                let s = old(self)@[si];
                let ri = room_pos(s.rooms, room_name@);
                &&& r is Some
                &&& r->0@.map_values(|x: ClientMetadata| x@) == s.rooms[ri].members
                &&& final(self)@ == old(self)@.update(
                    si,
                    SessionView {
                        id: session_id,
                        rooms: s.rooms.update(ri, RoomView { name: room_name@, members: Seq::empty() }),
                    },
                )
            },
    {
        let ghost ss = self@;
        let i = self.find_session(session_id)?;
        assert(rooms_unique(self@[i as int].rooms));
        let key = String::from_str(room_name);
        let j = find_room(&self.sessions[i].rooms, &key)?;
        let mut members: Vec<ClientMetadata> = Vec::new();
        std::mem::swap(&mut members, &mut self.sessions[i].rooms[j].members);
        proof {
            let s = ss[i as int];
            let rs = s.rooms.update(j as int, RoomView { name: room_name@, members: Seq::empty() });
            assert(s.rooms[room_pos(s.rooms, key@)].name == key@);
            assert(self.sessions@[i as int].rooms@[j as int]@.members =~= Seq::<MemberView>::empty());
            assert(self.sessions@[i as int]@.rooms =~= rs);
            assert(self@ =~= ss.update(i as int, SessionView { id: session_id, rooms: rs }));
            assert forall|a: int, b: int| 0 <= a < b < rs.len() implies rs[a].name != rs[b].name by {
                assert(rooms_unique(s.rooms));
            }
            assert forall|y: int| 0 <= y < rs.len() implies members_unique(#[trigger] rs[y].members) by {
                assert(members_unique(ss[i as int].rooms[y].members));
            }
            lemma_tree_update_rooms(ss, i as int, rs);
        }
        Some(members)
    }

    /// Sends a finished upload to `room_name` of `session_id`: every client but
    /// the sender gets the file, the sender its acknowledgement. `None` when
    /// the session or the room is unknown.
    pub fn send_chat_attachment(
        &self,
        session_id: u128,
        room_name: &str,
        file_name: &str,
        mime_type: &str,
        file_data: Vec<u8>,
        src: u64,
    ) -> (r: Option<Vec<Delivery>>)
        requires
            self.wf(),
        ensures
            !has_room(self@, session_id, room_name@) ==> r is None,
            has_room(self@, session_id, room_name@) ==> r is Some && deliveries_view(r->0@)
                == attachment_deliveries(
                session_id,
                room_of(self@, session_id, room_name@),
                src,
                file_text(file_name@, mime_type@, file_data@),
                ack_text(file_name@),
            ),
    {
        let i = self.find_session(session_id)?;
        assert(rooms_unique(self@[i as int].rooms));
        let key = String::from_str(room_name);
        let j = find_room(&self.sessions[i].rooms, &key)?;
        let room = &self.sessions[i].rooms[j];
        let file = file_message(file_name, mime_type, file_data.as_slice());
        let ack = ack_message(file_name);
        let ghost full = attachment_deliveries(session_id, room@, src, file@, ack@);
        let mut out: Vec<Delivery> = Vec::new();
        let mut k: usize = 0;
        while k < room.members.len()
            invariant
                k <= room.members.len(),
                full == attachment_deliveries(session_id, room@, src, file@, ack@),
                deliveries_view(out@) == full.subrange(0, k as int),
            decreases room.members.len() - k,
        {
            let id = room.members[k].id;
            let text = if id == src {
                ack.clone()
            } else {
                file.clone()
            };
            let d = Delivery { session: session_id, room: room.name.clone(), client: id, text };
            let ghost prev = out@;
            out.push(d);
            proof {
                assert(full.subrange(0, k + 1) == full.subrange(0, k as int).push(full[k as int]));
                assert(deliveries_view(out@) == deliveries_view(prev).push(d@));
            }
            k = k + 1;
        }
        assert(full.subrange(0, k as int) == full);
        Some(out)
    }

    /// Sends a finished upload to `room_name` of `session_id` in frames of at
    /// most `MAX_FRAME_SIZE` bytes of file: every client but the sender gets
    /// all frames in order, the sender its acknowledgement. `None` when the
    /// session or the room is unknown.
    pub fn send_chat_attachment_in_chunks(
        &self,
        session_id: u128,
        room_name: &str,
        file_name: &str,
        mime_type: &str,
        file_data: Vec<u8>,
        src: u64,
    ) -> (r: Option<Vec<Delivery>>)
        requires
            self.wf(),
            file_data@.len() + MAX_FRAME_SIZE <= usize::MAX,
        ensures
            !has_room(self@, session_id, room_name@) ==> r is None,
            has_room(self@, session_id, room_name@) ==> r is Some && deliveries_view(r->0@)
                == chunked_deliveries(
                session_id,
                room_name@,
                room_of(self@, session_id, room_name@).members,
                src,
                chunk_texts(file_name@, mime_type@, file_data@),
                ack_text(file_name@),
            ),
    {
        let i = self.find_session(session_id)?;
        assert(rooms_unique(self@[i as int].rooms));
        let key = String::from_str(room_name);
        let j = find_room(&self.sessions[i].rooms, &key)?;
        let room = &self.sessions[i].rooms[j];
        let frames = file_chunk_messages(file_name, mime_type, file_data.as_slice());
        let ack = ack_message(file_name);
        let ghost fv = chunk_texts(file_name@, mime_type@, file_data@);
        let ghost ms = room@.members;
        assert(room.name@ == room_name@);
        let mut out: Vec<Delivery> = Vec::new();
        let mut k: usize = 0;
        while k < room.members.len()
            invariant
                k <= room.members.len(),
                ms == room@.members,
                room.name@ == room_name@,
                frames@.map_values(|t: String| t@) == fv,
                deliveries_view(out@) == chunked_deliveries(session_id, room_name@, ms.subrange(0, k as int), src, fv, ack@),
            decreases room.members.len() - k,
        {
            let m = &room.members[k];
            let ghost before = deliveries_view(out@);
            let ghost texts = if m.id == src { seq![ack@] } else { fv };
            if m.id == src {
                out.push(Delivery { session: session_id, room: room.name.clone(), client: m.id, text: ack.clone() });
                assert(deliveries_view(out@) =~= before + texts_for(session_id, room_name@, m@, texts));
            } else {
                let mut f: usize = 0;
                while f < frames.len()
                    invariant
                        f <= frames.len(),
                        frames@.map_values(|t: String| t@) == fv,
                        texts == fv,
                        room.name@ == room_name@,
                        deliveries_view(out@) == before + texts_for(session_id, room_name@, m@, texts).subrange(0, f as int),
                    decreases frames.len() - f,
                {
                    let d = Delivery { session: session_id, room: room.name.clone(), client: m.id, text: frames[f].clone() };
                    let ghost prev = out@;
                    out.push(d);
                    proof {
                        let full = texts_for(session_id, room_name@, m@, texts);
                        assert(full.subrange(0, f + 1) == full.subrange(0, f as int).push(full[f as int]));
                        assert(deliveries_view(out@) == deliveries_view(prev).push(d@));
                    }
                    f = f + 1;
                }
                assert(texts_for(session_id, room_name@, m@, texts).subrange(0, f as int) =~= texts_for(session_id, room_name@, m@, texts));
            }
            assert(ms.subrange(0, k + 1).drop_last() == ms.subrange(0, k as int));
            assert(ms[k as int] == m@);
            k = k + 1;
        }
        assert(ms.subrange(0, k as int) == ms);
        Some(out)
    }

    fn find_session(&self, id: u128) -> (r: Option<usize>)
        requires
            self.wf(),
        ensures
            r is Some ==> r->0 < self@.len() && session_pos(self@, id) == r->0,
            r is None ==> session_pos(self@, id) == -1,
    {
        let mut i: usize = 0;
        while i < self.sessions.len()
            invariant
                i <= self.sessions.len(),
                self.wf(),
                forall|k: int| 0 <= k < i ==> self@[k].id != id,
            decreases self.sessions.len() - i,
        {
            if self.sessions[i].id == id {
                assert(self@[i as int].id == id);
                proof {
                    lemma_session_pos(self@, i as int);
                }
                return Some(i);
            }
            i = i + 1;
        }
        None
    }

    /// Sends the room list of `session_id` to every client of that session.
    pub fn broadcast_room_list(&self, session_id: u128) -> (r: Vec<Delivery>)
        requires
            self.wf(),
        ensures
            session_pos(self@, session_id) == -1 ==> r@.len() == 0,
            session_pos(self@, session_id) >= 0 ==> deliveries_view(r@) == room_list_deliveries(
                self@[session_pos(self@, session_id)],
            ),
    {
        match self.find_session(session_id) {
            Some(i) => room_list_of(&self.sessions[i]),
            None => Vec::new(),
        }
    }
}

} // verus!
