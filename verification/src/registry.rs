use vstd::prelude::*;

verus! {

use crate::codes::RoomCode;
use crate::errors::MessageHandleError;
use crate::errors::MessageSendError;
use crate::errors::RoomMutationError;
use crate::member::MemberState;
use crate::errors::StateMutationError;
use crate::errors::wrap_state_error;
use crate::messages::ClientMessage;
use crate::messages::Destination;
use crate::messages::ServerMessage;
use crate::wager::WagerOutcome;
use crate::room::has_conn;
use crate::room::has_member_id;
use crate::room::member_of_conn;
use crate::room::Room;
use crate::session::SessionData;
use crate::ConnId;
use crate::ID;

/// One live connection's registry record.
#[derive(Debug)]
pub struct SessionEntry {
    pub conn: ConnId,
    pub data: SessionData,
}

/// Whether a room table holds a room under the given code.
pub open spec fn has_room(rooms: Seq<Room>, code: Seq<char>) -> bool {
    exists|i: int| 0 <= i < rooms.len() && rooms[i].room_code.chars@ == code
}

/// The room under the given code, assuming one exists.
pub open spec fn room_with_code(rooms: Seq<Room>, code: Seq<char>) -> Room {
    rooms[choose|i: int| 0 <= i < rooms.len() && rooms[i].room_code.chars@ == code]
}

/// Each room code appears at most once in a room table.
pub open spec fn unique_room_codes(rooms: Seq<Room>) -> bool {
    forall|i: int, j: int|
        0 <= i < j < rooms.len() ==> rooms[i].room_code.chars@ != rooms[j].room_code.chars@
}

/// Whether a session table holds the given connection.
pub open spec fn has_session(sessions: Seq<SessionEntry>, conn: ConnId) -> bool {
    exists|i: int| 0 <= i < sessions.len() && sessions[i].conn == conn
}

/// The session record of the given connection, assuming one exists.
pub open spec fn session_with_conn(sessions: Seq<SessionEntry>, conn: ConnId) -> SessionEntry {
    sessions[choose|i: int| 0 <= i < sessions.len() && sessions[i].conn == conn]
}

/// Each connection appears at most once in a session table.
pub open spec fn unique_session_conns(sessions: Seq<SessionEntry>) -> bool {
    forall|i: int, j: int| 0 <= i < j < sessions.len() ==> sessions[i].conn != sessions[j].conn
}

/// The code a session currently points at, as text; the empty sequence when
/// it is in no room. Codes on the wire are never empty, so the empty
/// sequence is free to stand for "none".
pub open spec fn session_room_of(sessions: Seq<SessionEntry>, conn: ConnId) -> Option<Seq<char>> {
    match session_with_conn(sessions, conn).data.current_room {
        Some(code) => Some(code.chars@),
        None => None,
    }
}

/// The registry after one room's own tables changed in place: the same
/// rooms in the same order under the same codes, every other room
/// untouched, and the sessions untouched.
pub open spec fn room_updated(pre: ServerState, post: ServerState, code: Seq<char>) -> bool {
    &&& post.sessions@ == pre.sessions@
    &&& post.rooms@.len() == pre.rooms@.len()
    &&& forall|i: int|
        0 <= i < pre.rooms@.len() ==> (#[trigger] post.rooms@[i]).room_code == pre.rooms@[i].room_code
    &&& forall|i: int|
        0 <= i < pre.rooms@.len() && pre.rooms@[i].room_code.chars@ != code
            ==> #[trigger] post.rooms@[i] == pre.rooms@[i]
}

/// The registry left as it was.
pub open spec fn unchanged_state(pre: ServerState, post: ServerState) -> bool {
    post.rooms@ == pre.rooms@ && post.sessions@ == pre.sessions@
}

/// The process-wide registry: every room by code and every live session by
/// connection. All mutation is serialized through exclusive access, so no
/// concurrent reader ever observes partially applied state.
#[derive(Debug)]
pub struct ServerState {
    pub rooms: Vec<Room>,
    pub sessions: Vec<SessionEntry>,
}

impl ServerState {
    /// Room codes and session connections are keyed uniquely and every room
    /// is well-formed.
    pub open spec fn wf(self) -> bool {
        &&& unique_room_codes(self.rooms@)
        &&& forall|i: int| 0 <= i < self.rooms@.len() ==> (#[trigger] self.rooms@[i]).wf()
        &&& unique_session_conns(self.sessions@)
    }

    /// No room's id counters are exhausted, so commands that allocate ids
    /// can be accepted.
    pub open spec fn counters_ok(self) -> bool {
        forall|i: int|
            0 <= i < self.rooms@.len() ==> (#[trigger] self.rooms@[i]).next_member_id < usize::MAX
                && self.rooms@[i].next_pot_id < usize::MAX && self.rooms@[i].next_wager_id
                < usize::MAX
    }

    /// A fresh registry: no rooms, no sessions.
    pub fn new() -> (r: ServerState)
        ensures
            r.rooms@ == Seq::<Room>::empty(),
            r.sessions@ == Seq::<SessionEntry>::empty(),
            r.wf(),
            r.counters_ok(),
    {
        ServerState { rooms: Vec::new(), sessions: Vec::new() }
    }

    /// Whether every room can still allocate ids; checked by the embedding
    /// before it hands a command in.
    pub fn check_counters(&self) -> (r: bool)
        ensures
            r == self.counters_ok(),
    {
        let mut i: usize = 0;
        while i < self.rooms.len()
            invariant
                i <= self.rooms@.len(),
                forall|j: int|
                    0 <= j < i ==> (#[trigger] self.rooms@[j]).next_member_id < usize::MAX
                        && self.rooms@[j].next_pot_id < usize::MAX && self.rooms@[j].next_wager_id
                        < usize::MAX,
            decreases self.rooms@.len() - i,
        {
            if !(self.rooms[i].next_member_id < usize::MAX && self.rooms[i].next_pot_id
                < usize::MAX && self.rooms[i].next_wager_id < usize::MAX) {
                return false;
            }
            i += 1;
        }
        true
    }

    /// Finds the index of the room with the given code, if any.
    fn room_index(&self, code: &RoomCode) -> (r: Option<usize>)
        ensures
            match r {
                Some(i) => i < self.rooms@.len() && self.rooms@[i as int].room_code.chars@
                    == code.chars@,
                None => !has_room(self.rooms@, code.chars@),
            },
    {
        let mut i: usize = 0;
        while i < self.rooms.len()
            invariant
                i <= self.rooms@.len(),
                forall|j: int| 0 <= j < i ==> self.rooms@[j].room_code.chars@ != code.chars@,
            decreases self.rooms@.len() - i,
        {
            if self.rooms[i].room_code.same_code(code) {
                return Some(i);
            }
            i += 1;
        }
        None
    }

    /// Finds the index of the session of the given connection, if any.
    fn session_index(&self, conn: ConnId) -> (r: Option<usize>)
        ensures
            match r {
                Some(i) => i < self.sessions@.len() && self.sessions@[i as int].conn == conn,
                None => !has_session(self.sessions@, conn),
            },
    {
        let mut i: usize = 0;
        while i < self.sessions.len()
            invariant
                i <= self.sessions@.len(),
                forall|j: int| 0 <= j < i ==> self.sessions@[j].conn != conn,
            decreases self.sessions@.len() - i,
        {
            if self.sessions[i].conn == conn {
                return Some(i);
            }
            i += 1;
        }
        None
    }

    /// Creates a room under the given code; a taken code is rejected with
    /// no change.
    pub fn add_room(&mut self, code: RoomCode, admin_pass: String) -> (r: Result<
        (),
        MessageHandleError,
    >)
        requires
            old(self).wf(),
            code.wf(),
            crate::auth::pass_len_ok(admin_pass@),
        ensures
            final(self).wf(),
            r is Err ==> *final(self) == *old(self),
            has_room(old(self).rooms@, code.chars@) ==> (r matches Err(
                MessageHandleError::RoomAlreadyExists(c),
            ) && c.chars@ == code.chars@),
            !has_room(old(self).rooms@, code.chars@) ==> r == Ok::<(), MessageHandleError>(())
                && final(self).rooms@ == old(self).rooms@.push(final(self).rooms@.last()) && ({
                let nr = final(self).rooms@.last();
                &&& nr.room_code == code
                &&& nr.members@ == Seq::<MemberState>::empty()
                &&& nr.address_map@.len() == 0
                &&& nr.next_member_id == 0
                &&& nr.admins@.len() == 0
                &&& nr.pots@.len() == 0
                &&& nr.next_pot_id == 0
                &&& nr.wagers@.len() == 0
                &&& nr.next_wager_id == 0
                &&& crate::auth::valid_salt(nr.admin_pass_salt@)
                &&& nr.pass_matches(admin_pass@)
            }) && final(self).sessions@ == old(self).sessions@,
            old(self).counters_ok() ==> final(self).counters_ok(),
    {
        if let Some(_) = self.room_index(&code) {
            return Err(MessageHandleError::RoomAlreadyExists(code));
        }
        let room = Room::new(code, admin_pass.as_str());
        self.rooms.push(room);
        Ok(())
    }

    /// Deletes the room under the given code; an unknown code is rejected
    /// with no change. Sessions still pointing at the code keep the stale
    /// pointer and fail their next room lookup.
    pub fn delete_room(&mut self, code: &RoomCode) -> (r: Result<(), MessageHandleError>)
        requires
            old(self).wf(),
        ensures
            final(self).wf(),
            r is Err ==> *final(self) == *old(self),
            !has_room(old(self).rooms@, code.chars@) ==> (r matches Err(
                MessageHandleError::NonexistentRoom(c),
            ) && c.chars@ == code.chars@),
            has_room(old(self).rooms@, code.chars@) ==> r == Ok::<(), MessageHandleError>(())
                && final(self).rooms@.len() == old(self).rooms@.len() - 1 && !has_room(
                final(self).rooms@,
                code.chars@,
            ) && (forall|x: Seq<char>|
                x != code.chars@ ==> has_room(final(self).rooms@, x) == has_room(
                    old(self).rooms@,
                    x,
                ) && (has_room(old(self).rooms@, x) ==> room_with_code(final(self).rooms@, x)
                    == room_with_code(old(self).rooms@, x))) && final(self).sessions@ == old(self).sessions@,
            old(self).counters_ok() ==> final(self).counters_ok(),
    {
        let ri = match self.room_index(code) {
            Some(i) => i,
            None => {
                return Err(MessageHandleError::NonexistentRoom(code.clone()));
            },
        };
        self.rooms.remove(ri);
        proof {
            old(self).rooms@.remove_ensures(ri as int);
            assert forall|m: int| 0 <= m < self.rooms@.len() implies (
            #[trigger] self.rooms@[m]).room_code.chars@ != code.chars@ by {
                if m < ri {
                    assert(self.rooms@[m] == old(self).rooms@[m]);
                } else {
                    assert(self.rooms@[m] == old(self).rooms@[m + 1]);
                }
            }
            assert forall|x: Seq<char>| x != code.chars@ && has_room(old(self).rooms@, x) implies
                has_room(self.rooms@, x) && room_with_code(self.rooms@, x) == room_with_code(
                old(self).rooms@,
                x,
            ) by {
                let c = choose|c: int|
                    0 <= c < old(self).rooms@.len() && old(self).rooms@[c].room_code.chars@ == x;
                if c < ri {
                    assert(self.rooms@[c] == old(self).rooms@[c]);
                    assert(has_room(self.rooms@, x));
                } else {
                    assert(c > ri);
                    assert(self.rooms@[c - 1] == old(self).rooms@[c]);
                    assert(has_room(self.rooms@, x));
                }
                let a = choose|a: int|
                    0 <= a < self.rooms@.len() && self.rooms@[a].room_code.chars@ == x;
                if a < ri {
                    assert(self.rooms@[a] == old(self).rooms@[a]);
                } else {
                    assert(self.rooms@[a] == old(self).rooms@[a + 1]);
                }
                let b = choose|b: int|
                    0 <= b < old(self).rooms@.len() && old(self).rooms@[b].room_code.chars@ == x;
                assert(b == c);
            }
            assert forall|x: Seq<char>| has_room(self.rooms@, x) implies x == code.chars@
                || has_room(old(self).rooms@, x) by {
                let a = choose|a: int|
                    0 <= a < self.rooms@.len() && self.rooms@[a].room_code.chars@ == x;
                if a < ri {
                    assert(old(self).rooms@[a].room_code.chars@ == x);
                } else {
                    assert(old(self).rooms@[a + 1].room_code.chars@ == x);
                }
            }
        }
        Ok(())
    }

    /// Registers a live connection with no current room; a reconnecting
    /// identity starts over in no room.
    pub fn init_session(&mut self, addr: ConnId)
        requires
            old(self).wf(),
        ensures
            final(self).wf(),
            final(self).rooms@ == old(self).rooms@,
            has_session(final(self).sessions@, addr),
            session_room_of(final(self).sessions@, addr) is None,
            final(self).sessions@.len() == old(self).sessions@.len() + (
            if has_session(old(self).sessions@, addr) {
                0int
            } else {
                1int
            }),
            forall|c: ConnId|
                c != addr ==> has_session(final(self).sessions@, c) == has_session(
                    old(self).sessions@,
                    c,
                ) && (has_session(old(self).sessions@, c) ==> session_with_conn(
                    final(self).sessions@,
                    c,
                ) == session_with_conn(old(self).sessions@, c)),
            old(self).counters_ok() ==> final(self).counters_ok(),
    {
        match self.session_index(addr) {
            Some(i) => {
                proof {
                    let c = choose|k: int|
                        0 <= k < old(self).sessions@.len() && old(self).sessions@[k].conn == addr;
                    assert(c == i as int);
                }
                self.sessions[i] = SessionEntry { conn: addr, data: SessionData::new() };
                proof {
                    let c2 = choose|k: int|
                        0 <= k < self.sessions@.len() && self.sessions@[k].conn == addr;
                    assert(self.sessions@[i as int].conn == addr);
                    assert(c2 == i as int);
                    assert forall|c: ConnId|
                        c != addr && has_session(old(self).sessions@, c) implies has_session(
                        self.sessions@,
                        c,
                    ) && session_with_conn(self.sessions@, c) == session_with_conn(
                        old(self).sessions@,
                        c,
                    ) by {
                        let k = choose|k: int|
                            0 <= k < old(self).sessions@.len() && old(self).sessions@[k].conn == c;
                        assert(self.sessions@[k].conn == c);
                        let a = choose|a: int|
                            0 <= a < self.sessions@.len() && self.sessions@[a].conn == c;
                        assert(a == k);
                    }
                    assert forall|c: ConnId| c != addr && has_session(self.sessions@, c) implies
                        has_session(old(self).sessions@, c) by {
                        let k = choose|k: int|
                            0 <= k < self.sessions@.len() && self.sessions@[k].conn == c;
                        assert(old(self).sessions@[k].conn == c);
                    }
                }
            },
            None => {
                self.sessions.push(SessionEntry { conn: addr, data: SessionData::new() });
                proof {
                    let n = old(self).sessions@.len() as int;
                    assert(self.sessions@[n].conn == addr);
                    let c2 = choose|k: int|
                        0 <= k < self.sessions@.len() && self.sessions@[k].conn == addr;
                    assert(c2 == n);
                    assert forall|c: ConnId|
                        c != addr && has_session(old(self).sessions@, c) implies has_session(
                        self.sessions@,
                        c,
                    ) && session_with_conn(self.sessions@, c) == session_with_conn(
                        old(self).sessions@,
                        c,
                    ) by {
                        let k = choose|k: int|
                            0 <= k < old(self).sessions@.len() && old(self).sessions@[k].conn == c;
                        assert(self.sessions@[k].conn == c);
                        let a = choose|a: int|
                            0 <= a < self.sessions@.len() && self.sessions@[a].conn == c;
                        assert(a == k);
                    }
                    assert forall|c: ConnId| c != addr && has_session(self.sessions@, c) implies
                        has_session(old(self).sessions@, c) by {
                        let k = choose|k: int|
                            0 <= k < self.sessions@.len() && self.sessions@[k].conn == c;
                        assert(k != n);
                        assert(old(self).sessions@[k].conn == c);
                    }
                }
            },
        }
    }

    /// The code of the room the connection's session currently sits in.
    fn get_users_room(&self, user: ConnId) -> (r: Result<RoomCode, MessageHandleError>)
        requires
            self.wf(),
        ensures
            !has_session(self.sessions@, user) ==> r == Err::<RoomCode, MessageHandleError>(
                MessageHandleError::NonexistentSession(user),
            ),
            has_session(self.sessions@, user) ==> match session_room_of(self.sessions@, user) {
                None => r == Err::<RoomCode, MessageHandleError>(
                    MessageHandleError::UserNotInAnyRoom(user),
                ),
                Some(rc) => r matches Ok(code) && code.chars@ == rc,
            },
    {
        let si = match self.session_index(user) {
            Some(i) => i,
            None => {
                return Err(MessageHandleError::NonexistentSession(user));
            },
        };
        proof {
            let c = choose|k: int| 0 <= k < self.sessions@.len() && self.sessions@[k].conn == user;
            assert(c == si as int);
        }
        match self.sessions[si].data.current_room() {
            Some(code) => Ok(code),
            None => Err(MessageHandleError::UserNotInAnyRoom(user)),
        }
    }

    /// Whether the connection holds admin rights in the named room, or in
    /// its current room when none is named; the dispatcher checks this
    /// before it lets an admin command through.
    pub fn is_user_admin(&self, user: ConnId, room_code: Option<&RoomCode>) -> (r: Result<
        bool,
        MessageHandleError,
    >)
        requires
            self.wf(),
        ensures
            ({
                let target: Option<Seq<char>> = match room_code {
                    Some(c) => Some(c.chars@),
                    None => {
                        if has_session(self.sessions@, user) {
                            session_room_of(self.sessions@, user)
                        } else {
                            None
                        }
                    },
                };
                match room_code {
                    Some(c) => {
                        &&& !has_room(self.rooms@, c.chars@) ==> (r matches Err(
                            MessageHandleError::NonexistentRoom(cc),
                        ) && cc.chars@ == c.chars@)
                        &&& has_room(self.rooms@, c.chars@) ==> r == Ok::<
                            bool,
                            MessageHandleError,
                        >(room_with_code(self.rooms@, c.chars@).admins@.contains(user))
                    },
                    None => {
                        &&& !has_session(self.sessions@, user) ==> r == Err::<
                            bool,
                            MessageHandleError,
                        >(MessageHandleError::NonexistentSession(user))
                        &&& has_session(self.sessions@, user) ==> match session_room_of(
                            self.sessions@,
                            user,
                        ) {
                            None => r == Err::<bool, MessageHandleError>(
                                MessageHandleError::UserNotInAnyRoom(user),
                            ),
                            Some(rc) => {
                                &&& !has_room(self.rooms@, rc) ==> (r matches Err(
                                    MessageHandleError::NonexistentRoom(cc),
                                ) && cc.chars@ == rc)
                                &&& has_room(self.rooms@, rc) ==> r == Ok::<
                                    bool,
                                    MessageHandleError,
                                >(room_with_code(self.rooms@, rc).admins@.contains(user))
                            },
                        }
                    },
                }
            }),
    {
        let code: RoomCode = match room_code {
            Some(c) => c.clone(),
            None => {
                match self.get_users_room(user) {
                    Ok(c) => c,
                    Err(e) => {
                        return Err(e);
                    },
                }
            },
        };
        let ri = match self.room_index(&code) {
            Some(i) => i,
            None => {
                return Err(MessageHandleError::NonexistentRoom(code));
            },
        };
        proof {
            let c = choose|k: int|
                0 <= k < self.rooms@.len() && self.rooms@[k].room_code.chars@ == code.chars@;
            assert(c == ri as int);
        }
        Ok(self.rooms[ri].is_admin(user))
    }

    /// Resolves a symbolic destination to the concrete connections it
    /// denotes, in registry order; the delivery layer then pushes the
    /// serialized event to each of them.
    pub fn resolve_destination(&self, sender: ConnId, dest: &Destination) -> (r: Result<
        Vec<ConnId>,
        MessageSendError,
    >)
        requires
            self.wf(),
        ensures
            match *dest {
                Destination::Myself => {
                    &&& has_session(self.sessions@, sender) ==> (r matches Ok(out) && out@
                        =~= seq![sender])
                    &&& !has_session(self.sessions@, sender) ==> r == Err::<
                        Vec<ConnId>,
                        MessageSendError,
                    >(MessageSendError::NonexistentSession(sender))
                },
                Destination::Specific(addr) => {
                    &&& has_session(self.sessions@, addr) ==> (r matches Ok(out) && out@
                        =~= seq![addr])
                    &&& !has_session(self.sessions@, addr) ==> r == Err::<
                        Vec<ConnId>,
                        MessageSendError,
                    >(MessageSendError::NonexistentSession(addr))
                },
                Destination::Everyone => (r matches Ok(out) && out@.len()
                    == self.sessions@.len() && (forall|i: int|
                    0 <= i < out@.len() ==> out@[i] == self.sessions@[i].conn)),
                Destination::PeersExclusive | Destination::PeersInclusive => {
                    let inclusive = *dest is PeersInclusive;
                    &&& !has_session(self.sessions@, sender) ==> r == Err::<
                        Vec<ConnId>,
                        MessageSendError,
                    >(MessageSendError::NonexistentSession(sender))
                    &&& has_session(self.sessions@, sender) ==> match session_room_of(
                        self.sessions@,
                        sender,
                    ) {
                        None => r == Err::<Vec<ConnId>, MessageSendError>(
                            MessageSendError::UserNotInRoom,
                        ),
                        Some(rc) => {
                            &&& !has_room(self.rooms@, rc) ==> (r matches Err(
                                MessageSendError::NonexistentRoom(cc),
                            ) && cc.chars@ == rc)
                            &&& has_room(self.rooms@, rc) ==> (r matches Ok(out) && {
                                let addrs = room_with_code(self.rooms@, rc).address_map@;
                                &&& forall|c: ConnId|
                                    out@.contains(c) == (has_conn(addrs, c) && (inclusive || c
                                        != sender))
                                &&& out@.no_duplicates()
                            })
                        },
                    }
                },
            },
    {
        match dest {
            Destination::Myself => {
                if let Some(_) = self.session_index(sender) {
                    let mut out: Vec<ConnId> = Vec::new();
                    out.push(sender);
                    Ok(out)
                } else {
                    Err(MessageSendError::NonexistentSession(sender))
                }
            },
            Destination::Specific(addr) => {
                if let Some(_) = self.session_index(*addr) {
                    let mut out: Vec<ConnId> = Vec::new();
                    out.push(*addr);
                    Ok(out)
                } else {
                    Err(MessageSendError::NonexistentSession(*addr))
                }
            },
            Destination::Everyone => {
                let mut out: Vec<ConnId> = Vec::new();
                let mut i: usize = 0;
                while i < self.sessions.len()
                    invariant
                        i <= self.sessions@.len(),
                        out@.len() == i,
                        forall|j: int| 0 <= j < i ==> out@[j] == self.sessions@[j].conn,
                    decreases self.sessions@.len() - i,
                {
                    out.push(self.sessions[i].conn);
                    i += 1;
                }
                Ok(out)
            },
            Destination::PeersExclusive | Destination::PeersInclusive => {
                let inclusive = matches!(dest, Destination::PeersInclusive);
                if let None = self.session_index(sender) {
                    return Err(MessageSendError::NonexistentSession(sender));
                }
                let code = match self.get_users_room(sender) {
                    Ok(c) => c,
                    Err(_) => {
                        return Err(MessageSendError::UserNotInRoom);
                    },
                };
                let ri = match self.room_index(&code) {
                    Some(i) => i,
                    None => {
                        return Err(MessageSendError::NonexistentRoom(code));
                    },
                };
                proof {
                    let c = choose|k: int|
                        0 <= k < self.rooms@.len() && self.rooms@[k].room_code.chars@
                            == code.chars@;
                    assert(c == ri as int);
                }
                let ghost addrs = self.rooms@[ri as int].address_map@;
                let mut out: Vec<ConnId> = Vec::new();
                let mut i: usize = 0;
                while i < self.rooms[ri].address_map.len()
                    invariant
                        self.wf(),
                        ri < self.rooms@.len(),
                        addrs == self.rooms@[ri as int].address_map@,
                        i <= addrs.len(),
                        forall|c: ConnId|
                            out@.contains(c) == (crate::room::has_conn(addrs.take(i as int), c)
                                && (inclusive || c != sender)),
                        out@.no_duplicates(),
                    decreases addrs.len() - i,
                {
                    proof {
                        assert(addrs.take(i as int + 1).drop_last() =~= addrs.take(i as int));
                        assert(addrs.take(i as int + 1).last() == addrs[i as int]);
                    }
                    let entry_conn = self.rooms[ri].address_map[i].conn;
                    if inclusive || entry_conn != sender {
                        let ghost opre = out@;
                        proof {
                            assert(!out@.contains(entry_conn)) by {
                                if out@.contains(entry_conn) {
                                    assert(crate::room::has_conn(
                                        addrs.take(i as int),
                                        entry_conn,
                                    ));
                                    let c = choose|c: int|
                                        0 <= c < i && (#[trigger] addrs.take(i as int)[c]).conn
                                            == entry_conn;
                                    assert(addrs[c].conn == addrs[i as int].conn);
                                }
                            }
                        }
                        out.push(entry_conn);
                        proof {
                            assert forall|c: ConnId| out@.contains(c) implies (
                            crate::room::has_conn(addrs.take(i as int + 1), c) && (inclusive || c
                                != sender)) by {
                                let k = choose|k: int| 0 <= k < out@.len() && out@[k] == c;
                                if k < opre.len() {
                                    assert(opre.contains(c));
                                    let d = choose|d: int|
                                        0 <= d < i && (#[trigger] addrs.take(i as int)[d]).conn
                                            == c;
                                    assert(addrs.take(i as int + 1)[d].conn == c);
                                } else {
                                    assert(c == entry_conn);
                                    assert(addrs.take(i as int + 1)[i as int].conn == c);
                                }
                            }
                            assert forall|c: ConnId|
                                crate::room::has_conn(addrs.take(i as int + 1), c) && (inclusive
                                    || c != sender) implies out@.contains(c) by {
                                let d = choose|d: int|
                                    0 <= d < i + 1 && (#[trigger] addrs.take(i as int + 1)[d]).conn
                                        == c;
                                if d < i {
                                    assert(addrs.take(i as int)[d].conn == c);
                                    assert(opre.contains(c));
                                    let k = choose|k: int| 0 <= k < opre.len() && opre[k] == c;
                                    assert(out@[k] == c);
                                } else {
                                    assert(c == entry_conn);
                                    assert(out@[opre.len() as int] == c);
                                }
                            }
                        }
                    } else {
                        proof {
                            assert forall|c: ConnId|
                                crate::room::has_conn(addrs.take(i as int + 1), c) && (inclusive
                                    || c != sender) implies out@.contains(c) by {
                                let d = choose|d: int|
                                    0 <= d < i + 1 && (#[trigger] addrs.take(i as int + 1)[d]).conn
                                        == c;
                                if d < i {
                                    assert(addrs.take(i as int)[d].conn == c);
                                } else {
                                    assert(c == entry_conn);
                                }
                            }
                            assert forall|c: ConnId| out@.contains(c) implies (
                            crate::room::has_conn(addrs.take(i as int + 1), c) && (inclusive || c
                                != sender)) by {
                                let d = choose|d: int|
                                    0 <= d < i && (#[trigger] addrs.take(i as int)[d]).conn == c;
                                assert(addrs.take(i as int + 1)[d].conn == c);
                            }
                        }
                    }
                    i += 1;
                }
                proof {
                    assert(addrs.take(addrs.len() as int) =~= addrs);
                }
                Ok(out)
            },
        }
    }

    /// Puts the connection into the named room as a fresh member and points
    /// its session at the room. The member is created before the session is
    /// checked, so a missing session reports its error after the room-side
    /// join has already committed.
    pub fn add_user_to_room(&mut self, code: &RoomCode, user: ConnId, name: String) -> (r: Result<
        ID,
        MessageHandleError,
    >)
        requires
            old(self).wf(),
            old(self).counters_ok(),
        ensures
            final(self).wf(),
            !has_room(old(self).rooms@, code.chars@) ==> (r matches Err(
                MessageHandleError::NonexistentRoom(c),
            ) && c.chars@ == code.chars@) && final(self).rooms@ == old(self).rooms@ && final(self).sessions@ == old(self).sessions@,
            has_room(old(self).rooms@, code.chars@) ==> {
                let room0 = room_with_code(old(self).rooms@, code.chars@);
                &&& has_conn(room0.address_map@, user) ==> (r matches Err(
                    MessageHandleError::RoomMutationError(e),
                ) && crate::errors::is_user_already_exists(e, user, code.chars@)) && final(self).rooms@ == old(self).rooms@ && final(self).sessions@ == old(self).sessions@
                &&& !has_conn(room0.address_map@, user) ==> {
                    let room1 = room_with_code(final(self).rooms@, code.chars@);
                    &&& final(self).rooms@.len() == old(self).rooms@.len()
                    &&& forall|i: int|
                        0 <= i < old(self).rooms@.len() ==> (#[trigger] final(self).rooms@[i]).room_code == old(self).rooms@[i].room_code
                    &&& forall|i: int|
                        0 <= i < old(self).rooms@.len() && old(self).rooms@[i].room_code.chars@
                            != code.chars@ ==> #[trigger] final(self).rooms@[i] == old(self).rooms@[i]
                    &&& room1.members@ == room0.members@.push(room1.members@.last())
                    &&& room1.members@.last().id == room0.next_member_id
                    &&& room1.members@.last().name == name
                    &&& room1.members@.last().score == 0
                    &&& room1.members@.last().current_wagers@ == Seq::<ID>::empty()
                    &&& room1.members@.last().current_pots@ == Seq::<ID>::empty()
                    &&& room1.address_map@ == room0.address_map@.push(
                        crate::room::AddressEntry { conn: user, member: room0.next_member_id },
                    )
                    &&& room1.next_member_id == room0.next_member_id + 1
                    &&& room1 == (Room {
                        members: room1.members,
                        address_map: room1.address_map,
                        next_member_id: room1.next_member_id,
                        ..room0
                    })
                    &&& !has_session(old(self).sessions@, user) ==> r == Err::<
                        ID,
                        MessageHandleError,
                    >(MessageHandleError::NonexistentSession(user)) && final(self).sessions@
                        == old(self).sessions@
                    &&& has_session(old(self).sessions@, user) ==> r == Ok::<
                        ID,
                        MessageHandleError,
                    >(room0.next_member_id) && final(self).sessions@.len() == old(self).sessions@.len() && session_room_of(final(self).sessions@, user) == Some(
                        code.chars@,
                    ) && has_session(final(self).sessions@, user) && (forall|c: ConnId|
                        c != user ==> has_session(final(self).sessions@, c) == has_session(
                            old(self).sessions@,
                            c,
                        ) && (has_session(old(self).sessions@, c) ==> session_with_conn(
                            final(self).sessions@,
                            c,
                        ) == session_with_conn(old(self).sessions@, c)))
                }
            },
    {
        let ri = match self.room_index(code) {
            Some(i) => i,
            None => {
                return Err(MessageHandleError::NonexistentRoom(code.clone()));
            },
        };
        proof {
            let c = choose|k: int|
                0 <= k < old(self).rooms@.len() && old(self).rooms@[k].room_code.chars@
                    == code.chars@;
            assert(c == ri as int);
        }
        let id = match self.rooms[ri].add_user(user, name) {
            Ok(id) => id,
            Err(e) => {
                proof {
                    assert(self.rooms@ =~= old(self).rooms@);
                    let c2 = choose|k: int|
                        0 <= k < self.rooms@.len() && self.rooms@[k].room_code.chars@
                            == code.chars@;
                    assert(c2 == ri as int);
                }
                return Err(MessageHandleError::RoomMutationError(e));
            },
        };
        proof {
            let c2 = choose|k: int|
                0 <= k < self.rooms@.len() && self.rooms@[k].room_code.chars@ == code.chars@;
            assert(self.rooms@[ri as int].room_code.chars@ == code.chars@);
            assert(c2 == ri as int);
        }
        let si = match self.session_index(user) {
            Some(i) => i,
            None => {
                return Err(MessageHandleError::NonexistentSession(user));
            },
        };
        proof {
            let c3 = choose|k: int|
                0 <= k < old(self).sessions@.len() && old(self).sessions@[k].conn == user;
            assert(c3 == si as int);
        }
        self.sessions[si].data.set_current_room(code.clone());
        proof {
            let c4 = choose|k: int|
                0 <= k < self.sessions@.len() && self.sessions@[k].conn == user;
            assert(self.sessions@[si as int].conn == user);
            assert(c4 == si as int);
            assert forall|c: ConnId| c != user && has_session(old(self).sessions@, c) implies
                has_session(self.sessions@, c) && session_with_conn(self.sessions@, c)
                == session_with_conn(old(self).sessions@, c) by {
                let k = choose|k: int|
                    0 <= k < old(self).sessions@.len() && old(self).sessions@[k].conn == c;
                assert(self.sessions@[k].conn == c);
                let a = choose|a: int| 0 <= a < self.sessions@.len() && self.sessions@[a].conn == c;
                assert(a == k);
            }
            assert forall|c: ConnId| c != user && has_session(self.sessions@, c) implies
                has_session(old(self).sessions@, c) by {
                let k = choose|k: int| 0 <= k < self.sessions@.len() && self.sessions@[k].conn == c;
                assert(old(self).sessions@[k].conn == c);
            }
        }
        Ok(id)
    }

    /// Tears a closed connection down: unregisters the session and, if it
    /// sat in a room, removes its member from that room with the full leave
    /// cascade.
    pub fn cleanup_session(&mut self, addr: ConnId)
        requires
            old(self).wf(),
        ensures
            final(self).wf(),
            old(self).counters_ok() ==> final(self).counters_ok(),
            !has_session(old(self).sessions@, addr) ==> final(self).rooms@ == old(self).rooms@
                && final(self).sessions@ == old(self).sessions@,
            has_session(old(self).sessions@, addr) ==> {
                &&& !has_session(final(self).sessions@, addr)
                &&& final(self).sessions@.len() == old(self).sessions@.len() - 1
                &&& forall|c: ConnId|
                    c != addr ==> has_session(final(self).sessions@, c) == has_session(
                        old(self).sessions@,
                        c,
                    ) && (has_session(old(self).sessions@, c) ==> session_with_conn(
                        final(self).sessions@,
                        c,
                    ) == session_with_conn(old(self).sessions@, c))
                &&& match session_room_of(old(self).sessions@, addr) {
                    None => final(self).rooms@ == old(self).rooms@,
                    Some(rc) => {
                        &&& !has_room(old(self).rooms@, rc) ==> final(self).rooms@ == old(self).rooms@
                        &&& has_room(old(self).rooms@, rc) ==> {
                            let room0 = room_with_code(old(self).rooms@, rc);
                            &&& !has_conn(room0.address_map@, addr) ==> final(self).rooms@ == old(self).rooms@
                            &&& has_conn(room0.address_map@, addr) ==> {
                                let mid = member_of_conn(room0.address_map@, addr);
                                &&& final(self).rooms@.len() == old(self).rooms@.len()
                                &&& forall|i: int|
                                    0 <= i < old(self).rooms@.len() ==> (#[trigger] final(self).rooms@[i]).room_code == old(self).rooms@[i].room_code
                                &&& forall|i: int|
                                    0 <= i < old(self).rooms@.len() && old(self).rooms@[i].room_code.chars@ != rc ==> #[trigger] final(self).rooms@[i] == old(self).rooms@[i]
                                &&& !has_member_id(room0.members@, mid) ==> final(self).rooms@
                                    == old(self).rooms@
                                &&& has_member_id(room0.members@, mid)
                                    ==> crate::room::member_removed(
                                    room0,
                                    room_with_code(final(self).rooms@, rc),
                                    mid,
                                )
                            }
                        }
                    },
                }
            },
    {
        let si = match self.session_index(addr) {
            Some(i) => i,
            None => {
                return ;
            },
        };
        proof {
            let c = choose|k: int|
                0 <= k < old(self).sessions@.len() && old(self).sessions@[k].conn == addr;
            assert(c == si as int);
        }
        let entry = self.sessions.remove(si);
        proof {
            old(self).sessions@.remove_ensures(si as int);
            assert forall|m: int| 0 <= m < self.sessions@.len() implies (
            #[trigger] self.sessions@[m]).conn != addr by {
                if m < si {
                    assert(self.sessions@[m] == old(self).sessions@[m]);
                } else {
                    assert(self.sessions@[m] == old(self).sessions@[m + 1]);
                }
            }
            assert forall|c: ConnId| c != addr && has_session(old(self).sessions@, c) implies
                has_session(self.sessions@, c) && session_with_conn(self.sessions@, c)
                == session_with_conn(old(self).sessions@, c) by {
                let k = choose|k: int|
                    0 <= k < old(self).sessions@.len() && old(self).sessions@[k].conn == c;
                if k < si {
                    assert(self.sessions@[k] == old(self).sessions@[k]);
                    assert(has_session(self.sessions@, c));
                } else {
                    assert(k > si);
                    assert(self.sessions@[k - 1] == old(self).sessions@[k]);
                    assert(has_session(self.sessions@, c));
                }
                let a = choose|a: int| 0 <= a < self.sessions@.len() && self.sessions@[a].conn == c;
                if a < si {
                    assert(self.sessions@[a] == old(self).sessions@[a]);
                } else {
                    assert(self.sessions@[a] == old(self).sessions@[a + 1]);
                }
                let b = choose|b: int|
                    0 <= b < old(self).sessions@.len() && old(self).sessions@[b].conn == c;
                assert(b == k);
            }
            assert forall|c: ConnId| has_session(self.sessions@, c) implies c == addr
                || has_session(old(self).sessions@, c) by {
                let a = choose|a: int| 0 <= a < self.sessions@.len() && self.sessions@[a].conn == c;
                if a < si {
                    assert(old(self).sessions@[a].conn == c);
                } else {
                    assert(old(self).sessions@[a + 1].conn == c);
                }
            }
        }
        let code = match entry.data.current_room() {
            Some(c) => c,
            None => {
                return ;
            },
        };
        let ri = match self.room_index(&code) {
            Some(i) => i,
            None => {
                return ;
            },
        };
        proof {
            let c = choose|k: int|
                0 <= k < self.rooms@.len() && self.rooms@[k].room_code.chars@ == code.chars@;
            assert(c == ri as int);
        }
        let id = match self.rooms[ri].id_lookup(addr) {
            Some(id) => id,
            None => {
                return ;
            },
        };
        let _ = self.rooms[ri].remove_user(id);
        proof {
            let room0 = room_with_code(old(self).rooms@, code.chars@);
            if !has_member_id(room0.members@, id) {
                assert(self.rooms@ =~= old(self).rooms@);
            } else {
                let c2 = choose|k: int|
                    0 <= k < self.rooms@.len() && self.rooms@[k].room_code.chars@ == code.chars@;
                assert(self.rooms@[ri as int].room_code.chars@ == code.chars@);
                assert(c2 == ri as int);
            }
        }
    }

}

/// What one handled command did: for each command, exactly which errors
/// come on which states, how the registry changed, and which events go to
/// which destinations when it succeeds. Command handling is atomic: a
/// command fully succeeds or fully fails with one error — the one
/// exception is joining a room with a missing session, where the room-side
/// join has already committed when the session lookup fails.
pub open spec fn handle_post(
    pre: ServerState,
    post: ServerState,
    message: ClientMessage,
    sender: ConnId,
    r: Result<Vec<(ServerMessage, Destination)>, MessageHandleError>,
) -> bool {
    match message {
        ClientMessage::CreateRoom { code, admin_pass } => post_create_room(
            pre,
            post,
            sender,
            code,
            admin_pass,
            r,
        ),
        ClientMessage::JoinRoom { code, name } => post_join_room(pre, post, sender, code, name, r),
        ClientMessage::LeaveRoom { room_code } => post_leave_room(pre, post, sender, room_code, r),
        ClientMessage::RemoveFromRoom { code, id } => post_remove_from_room(
            pre,
            post,
            sender,
            code,
            id,
            r,
        ),
        ClientMessage::DeleteRoom { room_code } => post_delete_room(pre, post, sender, room_code, r),
        ClientMessage::RequestAdmin { room, password } => post_request_admin(
            pre,
            post,
            sender,
            room,
            password,
            r,
        ),
        ClientMessage::BlessScore { to, amount } => routed_score_change(
            pre,
            post,
            sender,
            r,
            to,
            amount,
        ),
        ClientMessage::RemoveScore { from, amount } => {
            &&& (amount == i64::MIN ==> unchanged_state(pre, post) && r == Err::<
                Vec<(ServerMessage, Destination)>,
                MessageHandleError,
            >(MessageHandleError::RoomMutationError(RoomMutationError::ScoreOutOfRange)))
            &&& (amount != i64::MIN ==> routed_score_change(
                pre,
                post,
                sender,
                r,
                from,
                (-amount) as i64,
            ))
        },
        ClientMessage::GiveScore { to, amount } => {
            &&& (amount < 0 ==> unchanged_state(pre, post) && r == Err::<
                Vec<(ServerMessage, Destination)>,
                MessageHandleError,
            >(MessageHandleError::RoomMutationError(RoomMutationError::NegativeScore)))
            &&& (amount >= 0 ==> routed_transfer(pre, post, sender, r, None, Some(to), amount))
        },
        ClientMessage::TransferScore { from, to, amount } => routed_transfer(
            pre,
            post,
            sender,
            r,
            Some(from),
            Some(to),
            amount,
        ),
        ClientMessage::CreatePot { room_code, score_requirement, description } => post_create_pot(
            pre,
            post,
            sender,
            room_code,
            score_requirement,
            description,
            r,
        ),
        ClientMessage::JoinPot { room_code, pot_id } => post_join_pot(
            pre,
            post,
            sender,
            room_code,
            pot_id,
            r,
        ),
        ClientMessage::ResolvePot { room_id, pot_id, winner } => post_resolve_pot(
            pre,
            post,
            sender,
            room_id,
            pot_id,
            winner,
            r,
        ),
        ClientMessage::CreateWager { room_id, name, outcomes } => post_create_wager(
            pre,
            post,
            sender,
            room_id,
            name,
            outcomes,
            r,
        ),
        ClientMessage::JoinWager { room_id, wager_id, outcome_id, amount } => post_join_wager(
            pre,
            post,
            sender,
            room_id,
            wager_id,
            outcome_id,
            amount,
            r,
        ),
        ClientMessage::ResolveWager { room_id, wager_id, outcome_id } => post_resolve_wager(
            pre,
            post,
            sender,
            room_id,
            wager_id,
            outcome_id,
            r,
        ),
    }
}

/// What creating a room did: a taken code is rejected unchanged, and
/// otherwise a fresh room under the code is appended with its secret
/// stored as a salted hash, with no events to deliver.
pub open spec fn post_create_room(
    pre: ServerState,
    post: ServerState,
    sender: ConnId,
    code: RoomCode,
    admin_pass: String,
    r: Result<Vec<(ServerMessage, Destination)>, MessageHandleError>,
) -> bool {
    {
            &&& (has_room(pre.rooms@, code.chars@) ==> unchanged_state(pre, post) && (r
                matches Err(MessageHandleError::RoomAlreadyExists(c)) && c.chars@ == code.chars@))
            &&& (!has_room(pre.rooms@, code.chars@) ==> (r matches Ok(out) && out@.len() == 0)
                && post.sessions@ == pre.sessions@ && post.rooms@ == pre.rooms@.push(
                post.rooms@.last(),
            ) && ({
                let nr = post.rooms@.last();
                &&& nr.room_code == code
                &&& nr.members@.len() == 0
                &&& nr.address_map@.len() == 0
                &&& nr.next_member_id == 0
                &&& nr.admins@.len() == 0
                &&& nr.pots@.len() == 0
                &&& nr.next_pot_id == 0
                &&& nr.wagers@.len() == 0
                &&& nr.next_wager_id == 0
                &&& crate::auth::valid_salt(nr.admin_pass_salt@)
                &&& nr.pass_matches(admin_pass@)
            }))
        }
}

/// What joining a room did: the member and connection mapping the
/// room-side join commits, the session pointed at the room, and the
/// UserJoined broadcast plus the joiner's own snapshot; or the exact
/// lookup failure, with the one partial commit noted on `handle_post`.
pub open spec fn post_join_room(
    pre: ServerState,
    post: ServerState,
    sender: ConnId,
    code: RoomCode,
    name: String,
    r: Result<Vec<(ServerMessage, Destination)>, MessageHandleError>,
) -> bool {
    {
            &&& (!has_room(pre.rooms@, code.chars@) ==> unchanged_state(pre, post) && (r
                matches Err(MessageHandleError::NonexistentRoom(c)) && c.chars@ == code.chars@))
            &&& (has_room(pre.rooms@, code.chars@) ==> {
                let room0 = room_with_code(pre.rooms@, code.chars@);
                &&& (has_conn(room0.address_map@, sender) ==> unchanged_state(pre, post) && (r
                    matches Err(MessageHandleError::RoomMutationError(e))
                    && crate::errors::is_user_already_exists(e, sender, code.chars@)))
                &&& (!has_conn(room0.address_map@, sender) && !has_session(pre.sessions@, sender)
                    ==> r == Err::<Vec<(ServerMessage, Destination)>, MessageHandleError>(
                    MessageHandleError::NonexistentSession(sender),
                ) && post.sessions@ == pre.sessions@ && room_updated(pre, post, code.chars@)
                    && joined_room(room0, room_with_code(post.rooms@, code.chars@), sender, name))
                &&& (!has_conn(room0.address_map@, sender) && has_session(pre.sessions@, sender)
                    ==> {
                    let room1 = room_with_code(post.rooms@, code.chars@);
                    &&& room_updated_rooms(pre, post, code.chars@)
                    &&& joined_room(room0, room1, sender, name)
                    &&& post.sessions@.len() == pre.sessions@.len()
                    &&& session_room_of(post.sessions@, sender) == Some(code.chars@)
                    &&& has_session(post.sessions@, sender)
                    &&& forall|c: ConnId|
                        c != sender ==> has_session(post.sessions@, c) == has_session(
                            pre.sessions@,
                            c,
                        ) && (has_session(pre.sessions@, c) ==> session_with_conn(
                            post.sessions@,
                            c,
                        ) == session_with_conn(pre.sessions@, c))
                    &&& (r matches Ok(out) && out@.len() == 2 && (out@[0].0
                        matches ServerMessage::UserJoined { name: n2, id: id2 } && n2@ == name@
                        && id2 == room0.next_member_id) && out@[0].1
                        == Destination::PeersInclusive && (out@[1].0
                        matches ServerMessage::SynchronizeRoom {
                        members: ms,
                        pots: ps,
                        wager: ws,
                        requester_id: rq,
                    } && rq == room0.next_member_id && ms@.len() == room1.members@.len() && (
                    forall|i: int|
                        0 <= i < ms@.len() ==> (#[trigger] ms@[i]).eqv(room1.members@[i]))
                        && ps@.len() == room1.pots@.len() && (forall|i: int|
                        0 <= i < ps@.len() ==> (#[trigger] ps@[i]).eqv(room1.pots@[i]))
                        && ws@.len() == room1.wagers@.len() && (forall|i: int|
                        0 <= i < ws@.len() ==> (#[trigger] ws@[i]).eqv(room1.wagers@[i])))
                        && out@[1].1 == Destination::Myself)
                })
            })
        }
}

/// What leaving a room did: the member behind the sender's connection is
/// removed with the full cascade and the peers are told, or the exact
/// lookup failure leaves everything unchanged.
pub open spec fn post_leave_room(
    pre: ServerState,
    post: ServerState,
    sender: ConnId,
    room_code: RoomCode,
    r: Result<Vec<(ServerMessage, Destination)>, MessageHandleError>,
) -> bool {
    {
            &&& (!has_room(pre.rooms@, room_code.chars@) ==> unchanged_state(pre, post) && (r
                matches Err(MessageHandleError::NonexistentRoom(c)) && c.chars@
                == room_code.chars@))
            &&& (has_room(pre.rooms@, room_code.chars@) ==> {
                let room0 = room_with_code(pre.rooms@, room_code.chars@);
                &&& (!has_conn(room0.address_map@, sender) ==> unchanged_state(pre, post) && (r
                    matches Err(MessageHandleError::RoomMutationError(e))
                    && crate::errors::is_addr_not_in_room(e, sender, room_code.chars@)))
                &&& (has_conn(room0.address_map@, sender) ==> {
                    let mid = member_of_conn(room0.address_map@, sender);
                    &&& (!has_member_id(room0.members@, mid) ==> unchanged_state(pre, post) && (r
                        matches Err(MessageHandleError::RoomMutationError(e))
                        && crate::errors::is_user_not_in_room(e, mid, room_code.chars@)))
                    &&& (has_member_id(room0.members@, mid) ==> room_updated(
                        pre,
                        post,
                        room_code.chars@,
                    ) && crate::room::member_removed(
                        room0,
                        room_with_code(post.rooms@, room_code.chars@),
                        mid,
                    ) && (r matches Ok(out) && out@ =~= seq![
                        (
                            ServerMessage::UserRemoved { id: mid },
                            Destination::PeersExclusive,
                        ),
                    ]))
                })
            })
        }
}

/// What removing a member did: the named member is removed with the full
/// cascade and the whole room is told, or the exact lookup failure leaves
/// everything unchanged.
pub open spec fn post_remove_from_room(
    pre: ServerState,
    post: ServerState,
    sender: ConnId,
    code: RoomCode,
    id: ID,
    r: Result<Vec<(ServerMessage, Destination)>, MessageHandleError>,
) -> bool {
    {
            &&& (!has_room(pre.rooms@, code.chars@) ==> unchanged_state(pre, post) && (r
                matches Err(MessageHandleError::NonexistentRoom(c)) && c.chars@ == code.chars@))
            &&& (has_room(pre.rooms@, code.chars@) ==> {
                let room0 = room_with_code(pre.rooms@, code.chars@);
                &&& (!has_member_id(room0.members@, id) ==> unchanged_state(pre, post) && (r
                    matches Err(MessageHandleError::RoomMutationError(e))
                    && crate::errors::is_user_not_in_room(e, id, code.chars@)))
                &&& (has_member_id(room0.members@, id) ==> room_updated(pre, post, code.chars@)
                    && crate::room::member_removed(
                    room0,
                    room_with_code(post.rooms@, code.chars@),
                    id,
                ) && (r matches Ok(out) && out@ =~= seq![
                    (ServerMessage::UserRemoved { id }, Destination::PeersInclusive),
                ]))
            })
        }
}

/// What deleting a room did: the room under the code is gone and every
/// other room kept, with one RoomDeleted event for the room's members; an
/// unknown code is rejected unchanged.
pub open spec fn post_delete_room(
    pre: ServerState,
    post: ServerState,
    sender: ConnId,
    room_code: RoomCode,
    r: Result<Vec<(ServerMessage, Destination)>, MessageHandleError>,
) -> bool {
    {
            &&& (!has_room(pre.rooms@, room_code.chars@) ==> unchanged_state(pre, post) && (r
                matches Err(MessageHandleError::NonexistentRoom(c)) && c.chars@
                == room_code.chars@))
            &&& (has_room(pre.rooms@, room_code.chars@) ==> post.sessions@ == pre.sessions@
                && post.rooms@.len() == pre.rooms@.len() - 1 && !has_room(
                post.rooms@,
                room_code.chars@,
            ) && (forall|x: Seq<char>|
                x != room_code.chars@ ==> has_room(post.rooms@, x) == has_room(pre.rooms@, x) && (
                has_room(pre.rooms@, x) ==> room_with_code(post.rooms@, x) == room_with_code(
                    pre.rooms@,
                    x,
                ))) && (r matches Ok(out) && out@ =~= seq![
                (ServerMessage::RoomDeleted, Destination::PeersInclusive),
            ]))
        }
}

/// What an admin request did: rights granted exactly on a matching
/// password for a mapped connection that is not yet an admin, answered
/// with AdminGranted to the sender alone; every failure is exact and
/// leaves the room unchanged.
pub open spec fn post_request_admin(
    pre: ServerState,
    post: ServerState,
    sender: ConnId,
    room: RoomCode,
    password: String,
    r: Result<Vec<(ServerMessage, Destination)>, MessageHandleError>,
) -> bool {
    {
            &&& (!has_room(pre.rooms@, room.chars@) ==> unchanged_state(pre, post) && (r
                matches Err(MessageHandleError::NonexistentRoom(c)) && c.chars@ == room.chars@))
            &&& (has_room(pre.rooms@, room.chars@) ==> {
                let room0 = room_with_code(pre.rooms@, room.chars@);
                &&& (!has_conn(room0.address_map@, sender) ==> unchanged_state(pre, post) && (r
                    matches Err(MessageHandleError::RoomMutationError(e))
                    && crate::errors::is_addr_not_in_room(e, sender, room0.room_code.chars@)))
                &&& (has_conn(room0.address_map@, sender) ==> {
                    let room1 = room_with_code(post.rooms@, room.chars@);
                    &&& room_updated(pre, post, room.chars@)
                    &&& match r {
                        Ok(out) => crate::room::admin_granted(
                            room0,
                            room1,
                            sender,
                            password@,
                            Ok(()),
                        ) && out@ =~= seq![
                            (ServerMessage::AdminGranted, Destination::Myself),
                        ],
                        Err(MessageHandleError::RoomMutationError(
                            RoomMutationError::AdminRequestError(e),
                        )) => crate::room::admin_granted(room0, room1, sender, password@, Err(e))
                            && unchanged_state(pre, post),
                        _ => false,
                    }
                })
            })
        }
}

/// What creating a pot did: a fresh empty pot under the next id, with
/// one PotCreated event carrying a copy of it.
pub open spec fn post_create_pot(
    pre: ServerState,
    post: ServerState,
    sender: ConnId,
    room_code: RoomCode,
    score_requirement: i64,
    description: String,
    r: Result<Vec<(ServerMessage, Destination)>, MessageHandleError>,
) -> bool {
    {
            &&& (!has_room(pre.rooms@, room_code.chars@) ==> unchanged_state(pre, post) && (r
                matches Err(MessageHandleError::NonexistentRoom(c)) && c.chars@
                == room_code.chars@))
            &&& (has_room(pre.rooms@, room_code.chars@) ==> {
                let room0 = room_with_code(pre.rooms@, room_code.chars@);
                let room1 = room_with_code(post.rooms@, room_code.chars@);
                &&& room_updated(pre, post, room_code.chars@)
                &&& room1.pots@ == room0.pots@.push(room1.pots@.last())
                &&& room1.pots@.last().pot_id == room0.next_pot_id
                &&& room1.pots@.last().total_score == 0
                &&& room1.pots@.last().score_requirement == score_requirement
                &&& room1.pots@.last().participants@.len() == 0
                &&& room1.pots@.last().description == description
                &&& room1.next_pot_id == room0.next_pot_id + 1
                &&& room1 == (Room { pots: room1.pots, next_pot_id: room1.next_pot_id, ..room0 })
                &&& (r matches Ok(out) && out@.len() == 1 && (out@[0].0
                    matches ServerMessage::PotCreated { pot } && pot.eqv(room1.pots@.last()))
                    && out@[0].1 == Destination::PeersInclusive)
            })
        }
}

/// What joining a pot did: the sender's member pays the entry fee into
/// the pot in one step, answered with PotJoined and the member's new
/// score; every failure is exact and leaves everything unchanged.
pub open spec fn post_join_pot(
    pre: ServerState,
    post: ServerState,
    sender: ConnId,
    room_code: RoomCode,
    pot_id: ID,
    r: Result<Vec<(ServerMessage, Destination)>, MessageHandleError>,
) -> bool {
    {
            &&& (!has_room(pre.rooms@, room_code.chars@) ==> unchanged_state(pre, post) && (r
                matches Err(MessageHandleError::NonexistentRoom(c)) && c.chars@
                == room_code.chars@))
            &&& (has_room(pre.rooms@, room_code.chars@) ==> {
                let room0 = room_with_code(pre.rooms@, room_code.chars@);
                &&& (!has_conn(room0.address_map@, sender) ==> unchanged_state(pre, post) && (r
                    matches Err(MessageHandleError::RoomMutationError(e))
                    && crate::errors::is_addr_not_in_room(e, sender, room_code.chars@)))
                &&& (has_conn(room0.address_map@, sender) ==> {
                    let uid = member_of_conn(room0.address_map@, sender);
                    let room1 = room_with_code(post.rooms@, room_code.chars@);
                    &&& room_updated(pre, post, room_code.chars@)
                    &&& match r {
                        Ok(out) => exists|ns: i64|
                            #[trigger] crate::room::pot_joined(room0, room1, uid, pot_id, Ok(ns))
                                && out@ =~= seq![
                                (
                                    ServerMessage::PotJoined { pot_id, user_id: uid },
                                    Destination::PeersInclusive,
                                ),
                                (
                                    ServerMessage::ScoreChanged { user_id: uid, new_amount: ns },
                                    Destination::PeersInclusive,
                                ),
                            ],
                        Err(e) => exists|se: StateMutationError|
                            #[trigger] crate::room::pot_joined(room0, room1, uid, pot_id, Err(se))
                                && e == crate::errors::spec_wrap_state_error(se)
                                && unchanged_state(pre, post),
                        _ => false,
                    }
                })
            })
        }
}

/// What resolving a pot did: the whole total paid to the winner, the pot
/// dissolved and references scrubbed, answered with PotResolved and the
/// winner's new score; every failure is exact and leaves everything
/// unchanged.
pub open spec fn post_resolve_pot(
    pre: ServerState,
    post: ServerState,
    sender: ConnId,
    room_id: RoomCode,
    pot_id: ID,
    winner: ID,
    r: Result<Vec<(ServerMessage, Destination)>, MessageHandleError>,
) -> bool {
    {
            &&& (!has_room(pre.rooms@, room_id.chars@) ==> unchanged_state(pre, post) && (r
                matches Err(MessageHandleError::NonexistentRoom(c)) && c.chars@
                == room_id.chars@))
            &&& (has_room(pre.rooms@, room_id.chars@) ==> {
                let room0 = room_with_code(pre.rooms@, room_id.chars@);
                let room1 = room_with_code(post.rooms@, room_id.chars@);
                &&& room_updated(pre, post, room_id.chars@)
                &&& match r {
                    Ok(out) => exists|p: (ID, i64)|
                        #[trigger] crate::room::pot_resolved(room0, room1, pot_id, winner, Ok(p))
                            && out@ =~= seq![
                            (
                                ServerMessage::PotResolved { id: pot_id },
                                Destination::PeersInclusive,
                            ),
                            (
                                ServerMessage::ScoreChanged { user_id: p.0, new_amount: p.1 },
                                Destination::PeersInclusive,
                            ),
                        ],
                    Err(e) => exists|se: StateMutationError|
                        #[trigger] crate::room::pot_resolved(room0, room1, pot_id, winner, Err(se))
                            && e == crate::errors::spec_wrap_state_error(se) && unchanged_state(
                            pre,
                            post,
                        ),
                    _ => false,
                }
            })
        }
}

/// What creating a wager did: a fresh wager over the given outcome table
/// under the next id, with one WagerCreated event carrying a copy of it.
pub open spec fn post_create_wager(
    pre: ServerState,
    post: ServerState,
    sender: ConnId,
    room_id: RoomCode,
    name: String,
    outcomes: Vec<WagerOutcome>,
    r: Result<Vec<(ServerMessage, Destination)>, MessageHandleError>,
) -> bool {
    {
            &&& (!has_room(pre.rooms@, room_id.chars@) ==> unchanged_state(pre, post) && (r
                matches Err(MessageHandleError::NonexistentRoom(c)) && c.chars@
                == room_id.chars@))
            &&& (has_room(pre.rooms@, room_id.chars@) ==> {
                let room0 = room_with_code(pre.rooms@, room_id.chars@);
                let room1 = room_with_code(post.rooms@, room_id.chars@);
                &&& room_updated(pre, post, room_id.chars@)
                &&& room1.wagers@ == room0.wagers@.push(room1.wagers@.last())
                &&& room1.wagers@.last().id == room0.next_wager_id
                &&& room1.wagers@.last().name == name
                &&& room1.wagers@.last().participant_bets@.len() == 0
                &&& room1.wagers@.last().participant_choices@.len() == 0
                &&& crate::wager::unique_outcome_ids(room1.wagers@.last().outcomes@)
                &&& forall|x: ID|
                    crate::wager::has_outcome(room1.wagers@.last().outcomes@, x)
                        == crate::wager::has_outcome(outcomes@, x)
                &&& forall|k: int|
                    0 <= k < room1.wagers@.last().outcomes@.len()
                        ==> crate::wager::last_entry_with_id(
                        outcomes@,
                        0,
                        #[trigger] room1.wagers@.last().outcomes@[k],
                    )
                &&& (crate::wager::unique_outcome_ids(outcomes@) ==> room1.wagers@.last().outcomes@
                    == outcomes@)
                &&& room1.next_wager_id == room0.next_wager_id + 1
                &&& room1 == (Room {
                    wagers: room1.wagers,
                    next_wager_id: room1.next_wager_id,
                    ..room0
                })
                &&& (r matches Ok(out) && out@.len() == 1 && (out@[0].0
                    matches ServerMessage::WagerCreated { wager } && wager.eqv(
                    room1.wagers@.last(),
                )) && out@[0].1 == Destination::PeersInclusive)
            })
        }
}

/// What staking on a wager did: the sender's member stakes once on one
/// outcome and is debited in the same step, answered with WagerJoined and
/// the new score; a negative stake and every lookup failure are exact and
/// leave everything unchanged.
pub open spec fn post_join_wager(
    pre: ServerState,
    post: ServerState,
    sender: ConnId,
    room_id: RoomCode,
    wager_id: ID,
    outcome_id: ID,
    amount: i64,
    r: Result<Vec<(ServerMessage, Destination)>, MessageHandleError>,
) -> bool {
    {
            &&& (amount < 0 ==> unchanged_state(pre, post) && r == Err::<
                Vec<(ServerMessage, Destination)>,
                MessageHandleError,
            >(MessageHandleError::RoomMutationError(RoomMutationError::NegativeScore)))
            &&& (amount >= 0 ==> {
                &&& (!has_room(pre.rooms@, room_id.chars@) ==> unchanged_state(pre, post) && (r
                    matches Err(MessageHandleError::NonexistentRoom(c)) && c.chars@
                    == room_id.chars@))
                &&& (has_room(pre.rooms@, room_id.chars@) ==> {
                    let room0 = room_with_code(pre.rooms@, room_id.chars@);
                    &&& (!has_conn(room0.address_map@, sender) ==> unchanged_state(pre, post) && (
                    r matches Err(MessageHandleError::RoomMutationError(e))
                        && crate::errors::is_addr_not_in_room(e, sender, room_id.chars@)))
                    &&& (has_conn(room0.address_map@, sender) ==> {
                        let uid = member_of_conn(room0.address_map@, sender);
                        let room1 = room_with_code(post.rooms@, room_id.chars@);
                        &&& room_updated(pre, post, room_id.chars@)
                        &&& match r {
                            Ok(out) => exists|ns: i64|
                                #[trigger] crate::room::wager_joined(
                                    room0,
                                    room1,
                                    wager_id,
                                    uid,
                                    outcome_id,
                                    amount,
                                    Ok(ns),
                                ) && out@ =~= seq![
                                    (
                                        ServerMessage::WagerJoined {
                                            wager_id,
                                            user_id: uid,
                                            outcome_id,
                                            amount,
                                        },
                                        Destination::PeersInclusive,
                                    ),
                                    (
                                        ServerMessage::ScoreChanged {
                                            user_id: uid,
                                            new_amount: ns,
                                        },
                                        Destination::PeersInclusive,
                                    ),
                                ],
                            Err(e) => exists|se: StateMutationError|
                                #[trigger] crate::room::wager_joined(
                                    room0,
                                    room1,
                                    wager_id,
                                    uid,
                                    outcome_id,
                                    amount,
                                    Err(se),
                                ) && e == crate::errors::spec_wrap_state_error(se)
                                    && unchanged_state(pre, post),
                            _ => false,
                        }
                    })
                })
            })
        }
}

/// What settling a wager did: each backer of the winning outcome paid by
/// the payout formula, the wager dissolved, one ScoreChanged per winner in
/// payout order and a closing WagerResolved; every failure is exact and
/// leaves everything unchanged.
pub open spec fn post_resolve_wager(
    pre: ServerState,
    post: ServerState,
    sender: ConnId,
    room_id: RoomCode,
    wager_id: ID,
    outcome_id: ID,
    r: Result<Vec<(ServerMessage, Destination)>, MessageHandleError>,
) -> bool {
    {
            &&& (!has_room(pre.rooms@, room_id.chars@) ==> unchanged_state(pre, post) && (r
                matches Err(MessageHandleError::NonexistentRoom(c)) && c.chars@
                == room_id.chars@))
            &&& (has_room(pre.rooms@, room_id.chars@) ==> {
                let room0 = room_with_code(pre.rooms@, room_id.chars@);
                let room1 = room_with_code(post.rooms@, room_id.chars@);
                &&& room_updated(pre, post, room_id.chars@)
                &&& match r {
                    Ok(msgs) => exists|out: Vec<(ID, i64)>|
                        #[trigger] crate::room::wager_resolved(
                            room0,
                            room1,
                            wager_id,
                            outcome_id,
                            Ok(out),
                        ) && msgs@.len() == out@.len() + 1 && (forall|k: int|
                            0 <= k < out@.len() ==> #[trigger] msgs@[k] == (
                                ServerMessage::ScoreChanged {
                                    user_id: out@[k].0,
                                    new_amount: out@[k].1,
                                },
                                Destination::PeersInclusive,
                            )) && msgs@.last() == (
                            ServerMessage::WagerResolved { id: wager_id },
                            Destination::PeersInclusive,
                        ),
                    Err(e) => exists|se: StateMutationError|
                        #[trigger] crate::room::wager_resolved(
                            room0,
                            room1,
                            wager_id,
                            outcome_id,
                            Err(se),
                        ) && e == crate::errors::spec_wrap_state_error(se) && unchanged_state(
                            pre,
                            post,
                        ),
                    _ => false,
                }
            })
        }
}

/// The room-side effect of one member joining: the new member record and
/// connection mapping, as the room-level join commits them.
pub open spec fn joined_room(room0: Room, room1: Room, user: ConnId, name: String) -> bool {
    &&& room1.members@ == room0.members@.push(room1.members@.last())
    &&& room1.members@.last().id == room0.next_member_id
    &&& room1.members@.last().name == name
    &&& room1.members@.last().score == 0
    &&& room1.members@.last().current_wagers@.len() == 0
    &&& room1.members@.last().current_pots@.len() == 0
    &&& room1.address_map@ == room0.address_map@.push(
        crate::room::AddressEntry { conn: user, member: room0.next_member_id },
    )
    &&& room1.next_member_id == room0.next_member_id + 1
    &&& room1 == (Room {
        members: room1.members,
        address_map: room1.address_map,
        next_member_id: room1.next_member_id,
        ..room0
    })
}

/// Like `room_updated`, but about the room table alone; the sessions are
/// constrained separately.
pub open spec fn room_updated_rooms(pre: ServerState, post: ServerState, code: Seq<char>) -> bool {
    &&& post.rooms@.len() == pre.rooms@.len()
    &&& forall|i: int|
        0 <= i < pre.rooms@.len() ==> (#[trigger] post.rooms@[i]).room_code == pre.rooms@[i].room_code
    &&& forall|i: int|
        0 <= i < pre.rooms@.len() && pre.rooms@[i].room_code.chars@ != code
            ==> #[trigger] post.rooms@[i] == pre.rooms@[i]
}

/// A score grant or removal routed through the sender's current room,
/// reported as one ScoreChanged event to the whole room.
pub open spec fn routed_score_change(
    pre: ServerState,
    post: ServerState,
    sender: ConnId,
    r: Result<Vec<(ServerMessage, Destination)>, MessageHandleError>,
    to: ID,
    amount: i64,
) -> bool {
    &&& (!has_session(pre.sessions@, sender) ==> unchanged_state(pre, post) && r == Err::<
        Vec<(ServerMessage, Destination)>,
        MessageHandleError,
    >(MessageHandleError::NonexistentSession(sender)))
    &&& (has_session(pre.sessions@, sender) ==> match session_room_of(pre.sessions@, sender) {
        None => unchanged_state(pre, post) && r == Err::<
            Vec<(ServerMessage, Destination)>,
            MessageHandleError,
        >(MessageHandleError::UserNotInAnyRoom(sender)),
        Some(rc) => {
            &&& (!has_room(pre.rooms@, rc) ==> unchanged_state(pre, post) && (r matches Err(
                MessageHandleError::NonexistentRoom(c),
            ) && c.chars@ == rc))
            &&& (has_room(pre.rooms@, rc) ==> {
                let room0 = room_with_code(pre.rooms@, rc);
                let room1 = room_with_code(post.rooms@, rc);
                &&& room_updated(pre, post, rc)
                &&& match r {
                    Ok(out) => exists|p: (ID, i64)|
                        #[trigger] crate::room::blessed(room0, room1, to, amount, Ok(p)) && out@
                            =~= seq![
                            (
                                ServerMessage::ScoreChanged { user_id: p.0, new_amount: p.1 },
                                Destination::PeersInclusive,
                            ),
                        ],
                    Err(MessageHandleError::RoomMutationError(e)) => crate::room::blessed(
                        room0,
                        room1,
                        to,
                        amount,
                        Err(e),
                    ) && unchanged_state(pre, post),
                    _ => false,
                }
            })
        },
    })
}

/// A transfer routed through the sender's current room — from the sender's
/// own member when no source is named — reported as two ScoreChanged events
/// to the whole room.
pub open spec fn routed_transfer(
    pre: ServerState,
    post: ServerState,
    sender: ConnId,
    r: Result<Vec<(ServerMessage, Destination)>, MessageHandleError>,
    from: Option<ID>,
    to_opt: Option<ID>,
    amount: i64,
) -> bool {
    &&& (!has_session(pre.sessions@, sender) ==> unchanged_state(pre, post) && r == Err::<
        Vec<(ServerMessage, Destination)>,
        MessageHandleError,
    >(MessageHandleError::NonexistentSession(sender)))
    &&& (has_session(pre.sessions@, sender) ==> match session_room_of(pre.sessions@, sender) {
        None => unchanged_state(pre, post) && r == Err::<
            Vec<(ServerMessage, Destination)>,
            MessageHandleError,
        >(MessageHandleError::UserNotInAnyRoom(sender)),
        Some(rc) => {
            &&& (!has_room(pre.rooms@, rc) ==> unchanged_state(pre, post) && (r matches Err(
                MessageHandleError::NonexistentRoom(c),
            ) && c.chars@ == rc))
            &&& (has_room(pre.rooms@, rc) ==> {
                let room0 = room_with_code(pre.rooms@, rc);
                let room1 = room_with_code(post.rooms@, rc);
                &&& (from is None && !has_conn(room0.address_map@, sender) ==> unchanged_state(
                    pre,
                    post,
                ) && (r matches Err(MessageHandleError::RoomMutationError(e))
                    && crate::errors::is_addr_not_in_room(e, sender, rc)))
                &&& ((from is Some || has_conn(room0.address_map@, sender)) ==> {
                    let f = match from {
                        Some(f) => f,
                        None => member_of_conn(room0.address_map@, sender),
                    };
                    let t = to_opt->0;
                    &&& room_updated(pre, post, rc)
                    &&& match r {
                        Ok(out) => out@.len() == 2 && (out@[0].0
                            matches ServerMessage::ScoreChanged { user_id: fu, new_amount: fa }
                            && (out@[1].0 matches ServerMessage::ScoreChanged {
                            user_id: tu,
                            new_amount: ta,
                        } && crate::room::transferred(
                            room0,
                            room1,
                            f,
                            t,
                            amount,
                            Ok(((fu, fa), (tu, ta))),
                        ))) && out@[0].1 == Destination::PeersInclusive && out@[1].1
                            == Destination::PeersInclusive,
                        Err(MessageHandleError::RoomMutationError(e)) => crate::room::transferred(
                            room0,
                            room1,
                            f,
                            t,
                            amount,
                            Err(e),
                        ) && unchanged_state(pre, post),
                        _ => false,
                    }
                })
            })
        },
    })
}

/// The outcome of a command behind the admin check: an admin sender's
/// command ran and `handle_post` holds of it; anyone else is rejected with
/// AuthorizationError before the command reaches any room, unchanged.
pub open spec fn gated(
    pre: ServerState,
    post: ServerState,
    message: ClientMessage,
    sender: ConnId,
    r: Result<Vec<(ServerMessage, Destination)>, MessageHandleError>,
    is_admin: bool,
) -> bool {
    if is_admin {
        handle_post(pre, post, message, sender, r)
    } else {
        unchanged_state(pre, post) && r == Err::<
            Vec<(ServerMessage, Destination)>,
            MessageHandleError,
        >(MessageHandleError::AuthorizationError)
    }
}

/// What dispatching one command did: an open command is handled directly;
/// a command that declares an admin requirement first has its sender
/// checked against the admin set of the declared room — the named one, or
/// the sender's current room — and is rejected before it reaches any room
/// when the sender is no admin there or the lookup itself fails.
pub open spec fn dispatch_post(
    pre: ServerState,
    post: ServerState,
    message: ClientMessage,
    sender: ConnId,
    r: Result<Vec<(ServerMessage, Destination)>, MessageHandleError>,
) -> bool {
    match message.spec_requires_admin() {
        None => handle_post(pre, post, message, sender, r),
        Some(target) => match target {
            Some(c) => {
                &&& (!has_room(pre.rooms@, c.chars@) ==> unchanged_state(pre, post) && (r
                    matches Err(MessageHandleError::NonexistentRoom(cc)) && cc.chars@
                    == c.chars@))
                &&& (has_room(pre.rooms@, c.chars@) ==> gated(
                    pre,
                    post,
                    message,
                    sender,
                    r,
                    room_with_code(pre.rooms@, c.chars@).admins@.contains(sender),
                ))
            },
            None => {
                &&& (!has_session(pre.sessions@, sender) ==> unchanged_state(pre, post) && r
                    == Err::<Vec<(ServerMessage, Destination)>, MessageHandleError>(
                    MessageHandleError::NonexistentSession(sender),
                ))
                &&& (has_session(pre.sessions@, sender) ==> match session_room_of(
                    pre.sessions@,
                    sender,
                ) {
                    None => unchanged_state(pre, post) && r == Err::<
                        Vec<(ServerMessage, Destination)>,
                        MessageHandleError,
                    >(MessageHandleError::UserNotInAnyRoom(sender)),
                    Some(rc) => {
                        &&& (!has_room(pre.rooms@, rc) ==> unchanged_state(pre, post) && (r
                            matches Err(MessageHandleError::NonexistentRoom(cc)) && cc.chars@
                            == rc))
                        &&& (has_room(pre.rooms@, rc) ==> gated(
                            pre,
                            post,
                            message,
                            sender,
                            r,
                            room_with_code(pre.rooms@, rc).admins@.contains(sender),
                        ))
                    },
                })
            },
        },
    }
}

impl ServerState {
    /// The dispatcher's verified entry point: applies the authorization
    /// check a command declares, then routes it. An admin-only command from
    /// a sender without admin rights in the declared room is rejected with
    /// AuthorizationError before it reaches any room.
    pub fn dispatch(&mut self, message: ClientMessage, sender: ConnId) -> (r: Result<
        Vec<(ServerMessage, Destination)>,
        MessageHandleError,
    >)
        requires
            old(self).wf(),
            old(self).counters_ok(),
            message matches ClientMessage::CreateRoom { code, .. } ==> code.wf(),
            message.spec_password_fits(),
        ensures
            final(self).wf(),
            dispatch_post(*old(self), *final(self), message, sender, r),
    {
        match message.requires_admin() {
            None => self.handle_message(message, sender),
            Some(target) => {
                let verdict = match &target {
                    Some(c) => self.is_user_admin(sender, Some(c)),
                    None => self.is_user_admin(sender, None),
                };
                let is_admin = match verdict {
                    Ok(b) => b,
                    Err(e) => {
                        return Err(e);
                    },
                };
                if !is_admin {
                    return Err(MessageHandleError::AuthorizationError);
                }
                self.handle_message(message, sender)
            },
        }
    }

    /// Routes one inbound command: resolves the rooms and sessions it
    /// names, applies the mutation, and turns the result into the ordered
    /// list of events to deliver, each with its destination. A command
    /// fully succeeds or fully fails with one error.
    #[verifier::rlimit(100)]
    pub fn handle_message(&mut self, message: ClientMessage, sender: ConnId) -> (r: Result<
        Vec<(ServerMessage, Destination)>,
        MessageHandleError,
    >)
        requires
            old(self).wf(),
            old(self).counters_ok(),
            message matches ClientMessage::CreateRoom { code, .. } ==> code.wf(),
            message.spec_password_fits(),
        ensures
            final(self).wf(),
            handle_post(*old(self), *final(self), message, sender, r),
    {
        match message {
            ClientMessage::CreateRoom { code, admin_pass } => self.cmd_create_room(
                sender,
                code,
                admin_pass,
            ),
            ClientMessage::JoinRoom { code, name } => self.cmd_join_room(sender, code, name),
            ClientMessage::LeaveRoom { room_code } => self.cmd_leave_room(sender, room_code),
            ClientMessage::RemoveFromRoom { code, id } => self.cmd_remove_from_room(
                sender,
                code,
                id,
            ),
            ClientMessage::DeleteRoom { room_code } => self.cmd_delete_room(sender, room_code),
            ClientMessage::RequestAdmin { room, password } => self.cmd_request_admin(
                sender,
                room,
                password,
            ),
            ClientMessage::BlessScore { to, amount } => self.routed_bless(sender, to, amount),
            ClientMessage::RemoveScore { from, amount } => {
                if amount == i64::MIN {
                    return Err(
                        MessageHandleError::RoomMutationError(RoomMutationError::ScoreOutOfRange),
                    );
                }
                self.routed_bless(sender, from, -amount)
            },
            ClientMessage::GiveScore { to, amount } => {
                if amount < 0 {
                    return Err(
                        MessageHandleError::RoomMutationError(RoomMutationError::NegativeScore),
                    );
                }
                self.routed_transfer_exec(sender, None, to, amount)
            },
            ClientMessage::TransferScore { from, to, amount } => self.routed_transfer_exec(
                sender,
                Some(from),
                to,
                amount,
            ),
            ClientMessage::CreatePot { room_code, score_requirement, description } => self
                .cmd_create_pot(sender, room_code, score_requirement, description),
            ClientMessage::JoinPot { room_code, pot_id } => self.cmd_join_pot(
                sender,
                room_code,
                pot_id,
            ),
            ClientMessage::ResolvePot { room_id, pot_id, winner } => self.cmd_resolve_pot(
                sender,
                room_id,
                pot_id,
                winner,
            ),
            ClientMessage::CreateWager { room_id, name, outcomes } => self.cmd_create_wager(
                sender,
                room_id,
                name,
                outcomes,
            ),
            ClientMessage::JoinWager { room_id, wager_id, outcome_id, amount } => self
                .cmd_join_wager(sender, room_id, wager_id, outcome_id, amount),
            ClientMessage::ResolveWager { room_id, wager_id, outcome_id } => self
                .cmd_resolve_wager(sender, room_id, wager_id, outcome_id),
        }
    }

    #[verifier::rlimit(100)]
    fn cmd_create_room(&mut self, sender: ConnId, code: RoomCode, admin_pass: String) -> (r: Result<
        Vec<(ServerMessage, Destination)>,
        MessageHandleError,
    >)
        requires
            old(self).wf(),
            code.wf(),
            crate::auth::pass_len_ok(admin_pass@),
        ensures
            final(self).wf(),
            post_create_room(*old(self), *final(self), sender, code, admin_pass, r),
    {
                match self.add_room(code, admin_pass) {
                    Ok(()) => Ok(Vec::new()),
                    Err(e) => Err(e),
                }
            }

    #[verifier::rlimit(100)]
    fn cmd_join_room(&mut self, sender: ConnId, room_code: RoomCode, name: String) -> (r: Result<
        Vec<(ServerMessage, Destination)>,
        MessageHandleError,
    >)
        requires
            old(self).wf(),
            old(self).counters_ok(),
        ensures
            final(self).wf(),
            post_join_room(*old(self), *final(self), sender, room_code, name, r),
    {
                let id = match self.add_user_to_room(&room_code, sender, name.clone()) {
                    Ok(id) => id,
                    Err(e) => {
                        return Err(e);
                    },
                };
                let ri = match self.room_index(&room_code) {
                    Some(i) => i,
                    None => {
                        proof {
                            let j = choose|j: int|
                                0 <= j < old(self).rooms@.len() && old(
                                    self,
                                ).rooms@[j].room_code.chars@ == room_code.chars@;
                            assert(self.rooms@[j].room_code.chars@ == room_code.chars@);
                            assert(false);
                        }
                        unreached()
                    },
                };
                proof {
                    let c2 = choose|k: int|
                        0 <= k < self.rooms@.len() && self.rooms@[k].room_code.chars@
                            == room_code.chars@;
                    assert(self.rooms@[ri as int].room_code.chars@ == room_code.chars@);
                    assert(c2 == ri as int);
                }
                let (members, pots, wager) = self.rooms[ri].get_sync_data();
                let mut out: Vec<(ServerMessage, Destination)> = Vec::new();
                out.push((ServerMessage::UserJoined { name, id }, Destination::PeersInclusive));
                out.push(
                    (
                        ServerMessage::SynchronizeRoom { members, pots, wager, requester_id: id },
                        Destination::Myself,
                    ),
                );
                Ok(out)
            }

    #[verifier::rlimit(100)]
    fn cmd_leave_room(&mut self, sender: ConnId, room_code: RoomCode) -> (r: Result<
        Vec<(ServerMessage, Destination)>,
        MessageHandleError,
    >)
        requires
            old(self).wf(),
        ensures
            final(self).wf(),
            post_leave_room(*old(self), *final(self), sender, room_code, r),
    {
                let ri = match self.room_index(&room_code) {
                    Some(i) => i,
                    None => {
                        return Err(MessageHandleError::NonexistentRoom(room_code));
                    },
                };
                proof {
                    let c = choose|k: int|
                        0 <= k < old(self).rooms@.len() && old(self).rooms@[k].room_code.chars@
                            == room_code.chars@;
                    assert(c == ri as int);
                }
                let id = match self.rooms[ri].id_lookup(sender) {
                    Some(id) => id,
                    None => {
                        return Err(
                            MessageHandleError::RoomMutationError(
                                RoomMutationError::AddressNotInRoom(sender, room_code),
                            ),
                        );
                    },
                };
                match self.rooms[ri].remove_user(id) {
                    Ok(()) => {
                        proof {
                            let c2 = choose|k: int|
                                0 <= k < self.rooms@.len() && self.rooms@[k].room_code.chars@
                                    == room_code.chars@;
                            assert(self.rooms@[ri as int].room_code.chars@ == room_code.chars@);
                            assert(c2 == ri as int);
                        }
                        let mut out: Vec<(ServerMessage, Destination)> = Vec::new();
                        out.push(
                            (ServerMessage::UserRemoved { id }, Destination::PeersExclusive),
                        );
                        proof {
                            assert(out@ =~= seq![
                                (
                                    ServerMessage::UserRemoved { id },
                                    Destination::PeersExclusive,
                                ),
                            ]);
                        }
                        Ok(out)
                    },
                    Err(e) => {
                        proof {
                            assert(self.rooms@ =~= old(self).rooms@);
                        }
                        Err(MessageHandleError::RoomMutationError(e))
                    },
                }
            }

    #[verifier::rlimit(100)]
    fn cmd_remove_from_room(&mut self, sender: ConnId, room_code: RoomCode, removed_id: ID) -> (r: Result<
        Vec<(ServerMessage, Destination)>,
        MessageHandleError,
    >)
        requires
            old(self).wf(),
        ensures
            final(self).wf(),
            post_remove_from_room(*old(self), *final(self), sender, room_code, removed_id, r),
    {
                let ri = match self.room_index(&room_code) {
                    Some(i) => i,
                    None => {
                        return Err(MessageHandleError::NonexistentRoom(room_code));
                    },
                };
                proof {
                    let c = choose|k: int|
                        0 <= k < old(self).rooms@.len() && old(self).rooms@[k].room_code.chars@
                            == room_code.chars@;
                    assert(c == ri as int);
                }
                match self.rooms[ri].remove_user(removed_id) {
                    Ok(()) => {
                        proof {
                            let c2 = choose|k: int|
                                0 <= k < self.rooms@.len() && self.rooms@[k].room_code.chars@
                                    == room_code.chars@;
                            assert(self.rooms@[ri as int].room_code.chars@ == room_code.chars@);
                            assert(c2 == ri as int);
                        }
                        let mut out: Vec<(ServerMessage, Destination)> = Vec::new();
                        out.push(
                            (
                                ServerMessage::UserRemoved { id: removed_id },
                                Destination::PeersInclusive,
                            ),
                        );
                        proof {
                            assert(out@ =~= seq![
                                (
                                    ServerMessage::UserRemoved { id: removed_id },
                                    Destination::PeersInclusive,
                                ),
                            ]);
                        }
                        Ok(out)
                    },
                    Err(e) => {
                        proof {
                            assert(self.rooms@ =~= old(self).rooms@);
                        }
                        Err(MessageHandleError::RoomMutationError(e))
                    },
                }
            }

    #[verifier::rlimit(100)]
    fn cmd_delete_room(&mut self, sender: ConnId, room_code: RoomCode) -> (r: Result<
        Vec<(ServerMessage, Destination)>,
        MessageHandleError,
    >)
        requires
            old(self).wf(),
        ensures
            final(self).wf(),
            post_delete_room(*old(self), *final(self), sender, room_code, r),
    {
                match self.delete_room(&room_code) {
                    Ok(()) => {
                        let mut out: Vec<(ServerMessage, Destination)> = Vec::new();
                        out.push((ServerMessage::RoomDeleted, Destination::PeersInclusive));
                        proof {
                            assert(out@ =~= seq![
                                (ServerMessage::RoomDeleted, Destination::PeersInclusive),
                            ]);
                        }
                        Ok(out)
                    },
                    Err(e) => Err(e),
                }
            }

    #[verifier::rlimit(100)]
    fn cmd_request_admin(&mut self, sender: ConnId, room: RoomCode, password: String) -> (r: Result<
        Vec<(ServerMessage, Destination)>,
        MessageHandleError,
    >)
        requires
            old(self).wf(),
            crate::auth::pass_len_ok(password@),
        ensures
            final(self).wf(),
            post_request_admin(*old(self), *final(self), sender, room, password, r),
    {
                let ri = match self.room_index(&room) {
                    Some(i) => i,
                    None => {
                        return Err(MessageHandleError::NonexistentRoom(room));
                    },
                };
                proof {
                    let c = choose|k: int|
                        0 <= k < old(self).rooms@.len() && old(self).rooms@[k].room_code.chars@
                            == room.chars@;
                    assert(c == ri as int);
                }
                if let None = self.rooms[ri].id_lookup(sender) {
                    let code = self.rooms[ri].code();
                    return Err(
                        MessageHandleError::RoomMutationError(
                            RoomMutationError::AddressNotInRoom(sender, code),
                        ),
                    );
                }
                let ares = self.rooms[ri].add_admin(sender, password.as_str());
                match ares {
                    Ok(u) => {
                        proof {
                            assert(ares == Ok::<(), crate::errors::AdminRequestError>(u));
                            assert(ares == Ok::<(), crate::errors::AdminRequestError>(()));
                            assert(crate::room::admin_granted(
                                old(self).rooms@[ri as int],
                                self.rooms@[ri as int],
                                sender,
                                password@,
                                ares,
                            ));
                            assert(self.rooms@[ri as int].room_code.chars@ == room.chars@);
                            let c2 = choose|k: int|
                                0 <= k < self.rooms@.len() && self.rooms@[k].room_code.chars@
                                    == room.chars@;
                            assert(c2 == ri as int);
                            let room0 = room_with_code(old(self).rooms@, room.chars@);
                            let room1 = room_with_code(self.rooms@, room.chars@);
                            assert(room0 == old(self).rooms@[ri as int]);
                            assert(room1 == self.rooms@[ri as int]);
                            assert(crate::room::admin_granted(
                                room0,
                                room1,
                                sender,
                                password@,
                                Ok::<(), crate::errors::AdminRequestError>(()),
                            ));
                        }
                        let mut out: Vec<(ServerMessage, Destination)> = Vec::new();
                        out.push((ServerMessage::AdminGranted, Destination::Myself));
                        proof {
                            assert(out@ =~= seq![
                                (ServerMessage::AdminGranted, Destination::Myself),
                            ]);
                        }
                        Ok(out)
                    },
                    Err(e) => {
                        proof {
                            assert(self.rooms@ =~= old(self).rooms@);
                            let room0 = room_with_code(old(self).rooms@, room.chars@);
                            let room1 = room_with_code(self.rooms@, room.chars@);
                            assert(room0 == old(self).rooms@[ri as int]);
                            assert(room1 == self.rooms@[ri as int]);
                            assert(crate::room::admin_granted(
                                room0,
                                room1,
                                sender,
                                password@,
                                Err::<(), crate::errors::AdminRequestError>(e),
                            ));
                        }
                        Err(
                            MessageHandleError::RoomMutationError(
                                RoomMutationError::AdminRequestError(e),
                            ),
                        )
                    },
                }
            }

    #[verifier::rlimit(100)]
    fn cmd_create_pot(&mut self, sender: ConnId, room_code: RoomCode, score_requirement: i64, description: String) -> (r: Result<
        Vec<(ServerMessage, Destination)>,
        MessageHandleError,
    >)
        requires
            old(self).wf(),
            old(self).counters_ok(),
        ensures
            final(self).wf(),
            post_create_pot(*old(self), *final(self), sender, room_code, score_requirement, description, r),
    {
                let ri = match self.room_index(&room_code) {
                    Some(i) => i,
                    None => {
                        return Err(MessageHandleError::NonexistentRoom(room_code));
                    },
                };
                proof {
                    let c = choose|k: int|
                        0 <= k < old(self).rooms@.len() && old(self).rooms@[k].room_code.chars@
                            == room_code.chars@;
                    assert(c == ri as int);
                }
                let pot = self.rooms[ri].create_pot(score_requirement, description);
                proof {
                    let c2 = choose|k: int|
                        0 <= k < self.rooms@.len() && self.rooms@[k].room_code.chars@
                            == room_code.chars@;
                    assert(self.rooms@[ri as int].room_code.chars@ == room_code.chars@);
                    assert(c2 == ri as int);
                }
                let mut out: Vec<(ServerMessage, Destination)> = Vec::new();
                out.push((ServerMessage::PotCreated { pot }, Destination::PeersInclusive));
                Ok(out)
            }

    #[verifier::rlimit(100)]
    fn cmd_join_pot(&mut self, sender: ConnId, room_code: RoomCode, pot_id: ID) -> (r: Result<
        Vec<(ServerMessage, Destination)>,
        MessageHandleError,
    >)
        requires
            old(self).wf(),
        ensures
            final(self).wf(),
            post_join_pot(*old(self), *final(self), sender, room_code, pot_id, r),
    {
                let ri = match self.room_index(&room_code) {
                    Some(i) => i,
                    None => {
                        return Err(MessageHandleError::NonexistentRoom(room_code));
                    },
                };
                proof {
                    let c = choose|k: int|
                        0 <= k < old(self).rooms@.len() && old(self).rooms@[k].room_code.chars@
                            == room_code.chars@;
                    assert(c == ri as int);
                }
                let user_id = match self.rooms[ri].id_lookup(sender) {
                    Some(id) => id,
                    None => {
                        return Err(
                            MessageHandleError::RoomMutationError(
                                RoomMutationError::AddressNotInRoom(sender, room_code),
                            ),
                        );
                    },
                };
                match self.rooms[ri].add_user_to_pot(user_id, pot_id) {
                    Ok(new_amount) => {
                        proof {
                            let c2 = choose|k: int|
                                0 <= k < self.rooms@.len() && self.rooms@[k].room_code.chars@
                                    == room_code.chars@;
                            assert(self.rooms@[ri as int].room_code.chars@ == room_code.chars@);
                            assert(c2 == ri as int);
                            let room0 = room_with_code(old(self).rooms@, room_code.chars@);
                            let room1 = room_with_code(self.rooms@, room_code.chars@);
                            assert(room0 == old(self).rooms@[ri as int]);
                            assert(room1 == self.rooms@[ri as int]);
                            assert(crate::room::pot_joined(
                                room0,
                                room1,
                                user_id,
                                pot_id,
                                Ok::<i64, StateMutationError>(new_amount),
                            ));
                        }
                        let mut out: Vec<(ServerMessage, Destination)> = Vec::new();
                        out.push(
                            (
                                ServerMessage::PotJoined { pot_id, user_id },
                                Destination::PeersInclusive,
                            ),
                        );
                        out.push(
                            (
                                ServerMessage::ScoreChanged { user_id, new_amount },
                                Destination::PeersInclusive,
                            ),
                        );
                        proof {
                            assert(out@ =~= seq![
                                (
                                    ServerMessage::PotJoined { pot_id, user_id },
                                    Destination::PeersInclusive,
                                ),
                                (
                                    ServerMessage::ScoreChanged { user_id, new_amount },
                                    Destination::PeersInclusive,
                                ),
                            ]);
                        }
                        Ok(out)
                    },
                    Err(e) => {
                        proof {
                            assert(self.rooms@ =~= old(self).rooms@);
                            let room0 = room_with_code(old(self).rooms@, room_code.chars@);
                            let room1 = room_with_code(self.rooms@, room_code.chars@);
                            assert(room0 == old(self).rooms@[ri as int]);
                            assert(room1 == self.rooms@[ri as int]);
                            assert(crate::room::pot_joined(
                                room0,
                                room1,
                                user_id,
                                pot_id,
                                Err::<i64, StateMutationError>(e),
                            ));
                        }
                        Err(wrap_state_error(e))
                    },
                }
            }

    #[verifier::rlimit(100)]
    fn cmd_resolve_pot(&mut self, sender: ConnId, room_id: RoomCode, pot_id: ID, winner: ID) -> (r: Result<
        Vec<(ServerMessage, Destination)>,
        MessageHandleError,
    >)
        requires
            old(self).wf(),
        ensures
            final(self).wf(),
            post_resolve_pot(*old(self), *final(self), sender, room_id, pot_id, winner, r),
    {
                let ri = match self.room_index(&room_id) {
                    Some(i) => i,
                    None => {
                        return Err(MessageHandleError::NonexistentRoom(room_id));
                    },
                };
                proof {
                    let c = choose|k: int|
                        0 <= k < old(self).rooms@.len() && old(self).rooms@[k].room_code.chars@
                            == room_id.chars@;
                    assert(c == ri as int);
                }
                match self.rooms[ri].resolve_pot(pot_id, winner) {
                    Ok((winner_id, new_score)) => {
                        proof {
                            let c2 = choose|k: int|
                                0 <= k < self.rooms@.len() && self.rooms@[k].room_code.chars@
                                    == room_id.chars@;
                            assert(self.rooms@[ri as int].room_code.chars@ == room_id.chars@);
                            assert(c2 == ri as int);
                            let room0 = room_with_code(old(self).rooms@, room_id.chars@);
                            let room1 = room_with_code(self.rooms@, room_id.chars@);
                            assert(room0 == old(self).rooms@[ri as int]);
                            assert(room1 == self.rooms@[ri as int]);
                            assert(crate::room::pot_resolved(
                                room0,
                                room1,
                                pot_id,
                                winner,
                                Ok::<(ID, i64), StateMutationError>((winner_id, new_score)),
                            ));
                        }
                        let mut out: Vec<(ServerMessage, Destination)> = Vec::new();
                        out.push(
                            (
                                ServerMessage::PotResolved { id: pot_id },
                                Destination::PeersInclusive,
                            ),
                        );
                        out.push(
                            (
                                ServerMessage::ScoreChanged {
                                    user_id: winner_id,
                                    new_amount: new_score,
                                },
                                Destination::PeersInclusive,
                            ),
                        );
                        proof {
                            assert(out@ =~= seq![
                                (
                                    ServerMessage::PotResolved { id: pot_id },
                                    Destination::PeersInclusive,
                                ),
                                (
                                    ServerMessage::ScoreChanged {
                                        user_id: winner_id,
                                        new_amount: new_score,
                                    },
                                    Destination::PeersInclusive,
                                ),
                            ]);
                        }
                        Ok(out)
                    },
                    Err(e) => {
                        proof {
                            assert(self.rooms@ =~= old(self).rooms@);
                            let room0 = room_with_code(old(self).rooms@, room_id.chars@);
                            let room1 = room_with_code(self.rooms@, room_id.chars@);
                            assert(room0 == old(self).rooms@[ri as int]);
                            assert(room1 == self.rooms@[ri as int]);
                            assert(crate::room::pot_resolved(
                                room0,
                                room1,
                                pot_id,
                                winner,
                                Err::<(ID, i64), StateMutationError>(e),
                            ));
                        }
                        Err(wrap_state_error(e))
                    },
                }
            }

    #[verifier::rlimit(100)]
    fn cmd_create_wager(&mut self, sender: ConnId, room_id: RoomCode, name: String, outcomes: Vec<WagerOutcome>) -> (r: Result<
        Vec<(ServerMessage, Destination)>,
        MessageHandleError,
    >)
        requires
            old(self).wf(),
            old(self).counters_ok(),
        ensures
            final(self).wf(),
            post_create_wager(*old(self), *final(self), sender, room_id, name, outcomes, r),
    {
                let ri = match self.room_index(&room_id) {
                    Some(i) => i,
                    None => {
                        return Err(MessageHandleError::NonexistentRoom(room_id));
                    },
                };
                proof {
                    let c = choose|k: int|
                        0 <= k < old(self).rooms@.len() && old(self).rooms@[k].room_code.chars@
                            == room_id.chars@;
                    assert(c == ri as int);
                }
                let wager = self.rooms[ri].create_wager(name, outcomes);
                proof {
                    let c2 = choose|k: int|
                        0 <= k < self.rooms@.len() && self.rooms@[k].room_code.chars@
                            == room_id.chars@;
                    assert(self.rooms@[ri as int].room_code.chars@ == room_id.chars@);
                    assert(c2 == ri as int);
                }
                let mut out: Vec<(ServerMessage, Destination)> = Vec::new();
                out.push((ServerMessage::WagerCreated { wager }, Destination::PeersInclusive));
                Ok(out)
            }

    #[verifier::rlimit(100)]
    fn cmd_join_wager(&mut self, sender: ConnId, room_id: RoomCode, wager_id: ID, outcome_id: ID, amount: i64) -> (r: Result<
        Vec<(ServerMessage, Destination)>,
        MessageHandleError,
    >)
        requires
            old(self).wf(),
        ensures
            final(self).wf(),
            post_join_wager(*old(self), *final(self), sender, room_id, wager_id, outcome_id, amount, r),
    {
                if amount < 0 {
                    return Err(
                        MessageHandleError::RoomMutationError(RoomMutationError::NegativeScore),
                    );
                }
                let ri = match self.room_index(&room_id) {
                    Some(i) => i,
                    None => {
                        return Err(MessageHandleError::NonexistentRoom(room_id));
                    },
                };
                proof {
                    let c = choose|k: int|
                        0 <= k < old(self).rooms@.len() && old(self).rooms@[k].room_code.chars@
                            == room_id.chars@;
                    assert(c == ri as int);
                }
                let user_id = match self.rooms[ri].id_lookup(sender) {
                    Some(id) => id,
                    None => {
                        return Err(
                            MessageHandleError::RoomMutationError(
                                RoomMutationError::AddressNotInRoom(sender, room_id),
                            ),
                        );
                    },
                };
                match self.rooms[ri].add_user_to_wager(wager_id, user_id, outcome_id, amount) {
                    Ok(new_score) => {
                        proof {
                            let c2 = choose|k: int|
                                0 <= k < self.rooms@.len() && self.rooms@[k].room_code.chars@
                                    == room_id.chars@;
                            assert(self.rooms@[ri as int].room_code.chars@ == room_id.chars@);
                            assert(c2 == ri as int);
                            let room0 = room_with_code(old(self).rooms@, room_id.chars@);
                            let room1 = room_with_code(self.rooms@, room_id.chars@);
                            assert(room0 == old(self).rooms@[ri as int]);
                            assert(room1 == self.rooms@[ri as int]);
                            assert(crate::room::wager_joined(
                                room0,
                                room1,
                                wager_id,
                                user_id,
                                outcome_id,
                                amount,
                                Ok::<i64, StateMutationError>(new_score),
                            ));
                        }
                        let mut out: Vec<(ServerMessage, Destination)> = Vec::new();
                        out.push(
                            (
                                ServerMessage::WagerJoined {
                                    wager_id,
                                    user_id,
                                    outcome_id,
                                    amount,
                                },
                                Destination::PeersInclusive,
                            ),
                        );
                        out.push(
                            (
                                ServerMessage::ScoreChanged { user_id, new_amount: new_score },
                                Destination::PeersInclusive,
                            ),
                        );
                        proof {
                            assert(out@ =~= seq![
                                (
                                    ServerMessage::WagerJoined {
                                        wager_id,
                                        user_id,
                                        outcome_id,
                                        amount,
                                    },
                                    Destination::PeersInclusive,
                                ),
                                (
                                    ServerMessage::ScoreChanged {
                                        user_id,
                                        new_amount: new_score,
                                    },
                                    Destination::PeersInclusive,
                                ),
                            ]);
                        }
                        Ok(out)
                    },
                    Err(e) => {
                        proof {
                            assert(self.rooms@ =~= old(self).rooms@);
                            let room0 = room_with_code(old(self).rooms@, room_id.chars@);
                            let room1 = room_with_code(self.rooms@, room_id.chars@);
                            assert(room0 == old(self).rooms@[ri as int]);
                            assert(room1 == self.rooms@[ri as int]);
                            assert(crate::room::wager_joined(
                                room0,
                                room1,
                                wager_id,
                                user_id,
                                outcome_id,
                                amount,
                                Err::<i64, StateMutationError>(e),
                            ));
                        }
                        Err(wrap_state_error(e))
                    },
                }
            }

    #[verifier::rlimit(100)]
    fn cmd_resolve_wager(&mut self, sender: ConnId, room_id: RoomCode, wager_id: ID, outcome_id: ID) -> (r: Result<
        Vec<(ServerMessage, Destination)>,
        MessageHandleError,
    >)
        requires
            old(self).wf(),
        ensures
            final(self).wf(),
            post_resolve_wager(*old(self), *final(self), sender, room_id, wager_id, outcome_id, r),
    {
                let ri = match self.room_index(&room_id) {
                    Some(i) => i,
                    None => {
                        return Err(MessageHandleError::NonexistentRoom(room_id));
                    },
                };
                proof {
                    let c = choose|k: int|
                        0 <= k < old(self).rooms@.len() && old(self).rooms@[k].room_code.chars@
                            == room_id.chars@;
                    assert(c == ri as int);
                }
                match self.rooms[ri].resolve_wager(wager_id, outcome_id) {
                    Ok(pairs) => {
                        proof {
                            let c2 = choose|k: int|
                                0 <= k < self.rooms@.len() && self.rooms@[k].room_code.chars@
                                    == room_id.chars@;
                            assert(self.rooms@[ri as int].room_code.chars@ == room_id.chars@);
                            assert(c2 == ri as int);
                            let room0 = room_with_code(old(self).rooms@, room_id.chars@);
                            let room1 = room_with_code(self.rooms@, room_id.chars@);
                            assert(room0 == old(self).rooms@[ri as int]);
                            assert(room1 == self.rooms@[ri as int]);
                            assert(crate::room::wager_resolved(
                                room0,
                                room1,
                                wager_id,
                                outcome_id,
                                Ok::<Vec<(ID, i64)>, StateMutationError>(pairs),
                            ));
                        }
                        let mut out: Vec<(ServerMessage, Destination)> = Vec::new();
                        let mut k: usize = 0;
                        while k < pairs.len()
                            invariant
                                k <= pairs@.len(),
                                out@.len() == k,
                                forall|j: int|
                                    0 <= j < k ==> #[trigger] out@[j] == (
                                        ServerMessage::ScoreChanged {
                                            user_id: pairs@[j].0,
                                            new_amount: pairs@[j].1,
                                        },
                                        Destination::PeersInclusive,
                                    ),
                            decreases pairs@.len() - k,
                        {
                            let (user_id, new_amount) = pairs[k];
                            out.push(
                                (
                                    ServerMessage::ScoreChanged { user_id, new_amount },
                                    Destination::PeersInclusive,
                                ),
                            );
                            k += 1;
                        }
                        out.push(
                            (
                                ServerMessage::WagerResolved { id: wager_id },
                                Destination::PeersInclusive,
                            ),
                        );
                        Ok(out)
                    },
                    Err(e) => {
                        proof {
                            assert(self.rooms@ =~= old(self).rooms@);
                            let room0 = room_with_code(old(self).rooms@, room_id.chars@);
                            let room1 = room_with_code(self.rooms@, room_id.chars@);
                            assert(room0 == old(self).rooms@[ri as int]);
                            assert(room1 == self.rooms@[ri as int]);
                            assert(crate::room::wager_resolved(
                                room0,
                                room1,
                                wager_id,
                                outcome_id,
                                Err::<Vec<(ID, i64)>, StateMutationError>(e),
                            ));
                        }
                        Err(wrap_state_error(e))
                    },
                }
            }

    /// Applies one score grant through the sender's current room and
    /// reports the change to the whole room.
    #[verifier::rlimit(100)]
    fn routed_bless(&mut self, sender: ConnId, to: ID, amount: i64) -> (r: Result<
        Vec<(ServerMessage, Destination)>,
        MessageHandleError,
    >)
        requires
            old(self).wf(),
        ensures
            final(self).wf(),
            routed_score_change(*old(self), *final(self), sender, r, to, amount),
    {
        let code = match self.get_users_room(sender) {
            Ok(c) => c,
            Err(e) => {
                return Err(e);
            },
        };
        let ri = match self.room_index(&code) {
            Some(i) => i,
            None => {
                return Err(MessageHandleError::NonexistentRoom(code));
            },
        };
        proof {
            let c = choose|k: int|
                0 <= k < old(self).rooms@.len() && old(self).rooms@[k].room_code.chars@
                    == code.chars@;
            assert(c == ri as int);
        }
        match self.rooms[ri].bless_score(&to, amount) {
            Ok((user_id, new_amount)) => {
                proof {
                    let c2 = choose|k: int|
                        0 <= k < self.rooms@.len() && self.rooms@[k].room_code.chars@
                            == code.chars@;
                    assert(self.rooms@[ri as int].room_code.chars@ == code.chars@);
                    assert(c2 == ri as int);
                }
                let mut out: Vec<(ServerMessage, Destination)> = Vec::new();
                out.push(
                    (
                        ServerMessage::ScoreChanged { user_id, new_amount },
                        Destination::PeersInclusive,
                    ),
                );
                proof {
                    assert(out@ =~= seq![
                        (
                            ServerMessage::ScoreChanged { user_id, new_amount },
                            Destination::PeersInclusive,
                        ),
                    ]);
                }
                proof {
                    let rc = session_room_of(old(self).sessions@, sender)->0;
                    let room0 = room_with_code(old(self).rooms@, rc);
                    let room1 = room_with_code(self.rooms@, rc);
                    assert(room0 == old(self).rooms@[ri as int]);
                    assert(room1 == self.rooms@[ri as int]);
                    assert(crate::room::blessed(
                        room0,
                        room1,
                        to,
                        amount,
                        Ok::<(ID, i64), RoomMutationError>((user_id, new_amount)),
                    ));
                }
                Ok(out)
            },
            Err(e) => {
                proof {
                    assert(self.rooms@ =~= old(self).rooms@);
                    let rc = session_room_of(old(self).sessions@, sender)->0;
                    let room0 = room_with_code(old(self).rooms@, rc);
                    let room1 = room_with_code(self.rooms@, rc);
                    assert(room0 == old(self).rooms@[ri as int]);
                    assert(room1 == self.rooms@[ri as int]);
                    assert(crate::room::blessed(
                        room0,
                        room1,
                        to,
                        amount,
                        Err::<(ID, i64), RoomMutationError>(e),
                    ));
                }
                Err(MessageHandleError::RoomMutationError(e))
            },
        }
    }

    /// Applies one transfer through the sender's current room — from the
    /// sender's own member when no source is named — and reports both
    /// changes to the whole room.
    #[verifier::rlimit(100)]
    fn routed_transfer_exec(&mut self, sender: ConnId, from: Option<ID>, to: ID, amount: i64) -> (r: Result<Vec<(ServerMessage, Destination)>, MessageHandleError>)
        requires
            old(self).wf(),
        ensures
            final(self).wf(),
            routed_transfer(*old(self), *final(self), sender, r, from, Some(to), amount),
    {
        let code = match self.get_users_room(sender) {
            Ok(c) => c,
            Err(e) => {
                return Err(e);
            },
        };
        let ri = match self.room_index(&code) {
            Some(i) => i,
            None => {
                return Err(MessageHandleError::NonexistentRoom(code));
            },
        };
        proof {
            let c = choose|k: int|
                0 <= k < old(self).rooms@.len() && old(self).rooms@[k].room_code.chars@
                    == code.chars@;
            assert(c == ri as int);
        }
        let from_id = match from {
            Some(f) => f,
            None => {
                match self.rooms[ri].id_lookup(sender) {
                    Some(id) => {
                        proof {
                            assert(id == member_of_conn(
                                room_with_code(old(self).rooms@, code.chars@).address_map@,
                                sender,
                            ));
                        }
                        id
                    },
                    None => {
                        return Err(
                            MessageHandleError::RoomMutationError(
                                RoomMutationError::AddressNotInRoom(sender, code),
                            ),
                        );
                    },
                }
            },
        };
        proof {
            let rc0 = session_room_of(old(self).sessions@, sender)->0;
            assert(rc0 == code.chars@);
            assert(from_id == (match from {
                Some(f) => f,
                None => member_of_conn(
                    room_with_code(old(self).rooms@, rc0).address_map@,
                    sender,
                ),
            }));
        }
        match self.rooms[ri].transfer_score(&from_id, &to, amount) {
            Ok((from_info, to_info)) => {
                proof {
                    let c2 = choose|k: int|
                        0 <= k < self.rooms@.len() && self.rooms@[k].room_code.chars@
                            == code.chars@;
                    assert(self.rooms@[ri as int].room_code.chars@ == code.chars@);
                    assert(c2 == ri as int);
                    let rc = session_room_of(old(self).sessions@, sender)->0;
                    let room0 = room_with_code(old(self).rooms@, rc);
                    let room1 = room_with_code(self.rooms@, rc);
                    assert(room0 == old(self).rooms@[ri as int]);
                    assert(room1 == self.rooms@[ri as int]);
                    assert(crate::room::transferred(
                        room0,
                        room1,
                        from_id,
                        to,
                        amount,
                        Ok::<((ID, i64), (ID, i64)), RoomMutationError>((from_info, to_info)),
                    ));
                }
                let mut out: Vec<(ServerMessage, Destination)> = Vec::new();
                out.push(
                    (
                        ServerMessage::ScoreChanged {
                            user_id: from_info.0,
                            new_amount: from_info.1,
                        },
                        Destination::PeersInclusive,
                    ),
                );
                out.push(
                    (
                        ServerMessage::ScoreChanged { user_id: to_info.0, new_amount: to_info.1 },
                        Destination::PeersInclusive,
                    ),
                );
                proof {
                    assert(out@ =~= seq![
                        (
                            ServerMessage::ScoreChanged {
                                user_id: from_info.0,
                                new_amount: from_info.1,
                            },
                            Destination::PeersInclusive,
                        ),
                        (
                            ServerMessage::ScoreChanged {
                                user_id: to_info.0,
                                new_amount: to_info.1,
                            },
                            Destination::PeersInclusive,
                        ),
                    ]);
                }
                let res: Result<Vec<(ServerMessage, Destination)>, MessageHandleError> = Ok(out);
                proof {
                    let rc = session_room_of(old(self).sessions@, sender)->0;
                    let room0 = room_with_code(old(self).rooms@, rc);
                    let room1 = room_with_code(self.rooms@, rc);
                    let f = match from {
                        Some(f) => f,
                        None => member_of_conn(room0.address_map@, sender),
                    };
                    assert(room_updated(*old(self), *self, rc));
                    assert(crate::room::transferred(
                        room0,
                        room1,
                        f,
                        to,
                        amount,
                        Ok::<((ID, i64), (ID, i64)), RoomMutationError>((from_info, to_info)),
                    ));
                    assert(res matches Ok(out2) && out2@ =~= seq![
                        (
                            ServerMessage::ScoreChanged {
                                user_id: from_info.0,
                                new_amount: from_info.1,
                            },
                            Destination::PeersInclusive,
                        ),
                        (
                            ServerMessage::ScoreChanged {
                                user_id: to_info.0,
                                new_amount: to_info.1,
                            },
                            Destination::PeersInclusive,
                        ),
                    ]);
                    assert(routed_transfer(*old(self), *self, sender, res, from, Some(to), amount));
                }
                res
            },
            Err(e) => {
                proof {
                    assert(self.rooms@ =~= old(self).rooms@);
                    let rc = session_room_of(old(self).sessions@, sender)->0;
                    let room0 = room_with_code(old(self).rooms@, rc);
                    let room1 = room_with_code(self.rooms@, rc);
                    assert(room0 == old(self).rooms@[ri as int]);
                    assert(room1 == self.rooms@[ri as int]);
                    assert(crate::room::transferred(
                        room0,
                        room1,
                        from_id,
                        to,
                        amount,
                        Err::<((ID, i64), (ID, i64)), RoomMutationError>(e),
                    ));
                }
                let res: Result<Vec<(ServerMessage, Destination)>, MessageHandleError> = Err(
                    MessageHandleError::RoomMutationError(e),
                );
                proof {
                    assert(routed_transfer(*old(self), *self, sender, res, from, Some(to), amount));
                }
                res
            },
        }
    }

/// The ledger law: in a well-formed registry every member of every room
/// has a non-negative score, and every operation of this library keeps the
/// registry well-formed, so a negative balance is never visible.
pub proof fn lemma_scores_never_negative(s: ServerState)
    requires
        s.wf(),
    ensures
        forall|i: int, j: int|
            0 <= i < s.rooms@.len() && 0 <= j < s.rooms@[i].members@.len() ==> (
            #[trigger] s.rooms@[i].members@[j]).score >= 0,
{
    assert forall|i: int, j: int|
        0 <= i < s.rooms@.len() && 0 <= j < s.rooms@[i].members@.len() implies (
    #[trigger] s.rooms@[i].members@[j]).score >= 0 by {
        assert(s.rooms@[i].wf());
        assert(s.rooms@[i].members@[j].wf());
    }
}
}

} // verus!
