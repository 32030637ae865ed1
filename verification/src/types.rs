//! Core data types of the chat engine: sessions, stored messages, envelopes
//! in both directions, and the server state with its well-formedness.
use vstd::prelude::*;
use crate::text::fold_seq;

verus! {

/// Number of messages a room or private log retains; past it the oldest
/// entry is evicted first.
pub const ROOM_CAPACITY: usize = 200;

/// One reaction symbol on a message, with the names that have it toggled on.
pub struct ReactionEntry {
    pub emoji: String,
    pub users: Vec<String>,
}

/// Mathematical shape of a reaction entry.
#[verifier::ext_equal]
pub struct ReactionEntryV {
    pub emoji: Seq<char>,
    pub users: Seq<Seq<char>>,
}

impl DeepView for ReactionEntry {
    type V = ReactionEntryV;

    open spec fn deep_view(&self) -> ReactionEntryV {
        ReactionEntryV { emoji: self.emoji@, users: self.users.deep_view() }
    }
}

/// No reactor is recorded twice under one symbol.
pub open spec fn reaction_entry_wf(r: ReactionEntryV) -> bool {
    forall|i: int, j: int| 0 <= i < j < r.users.len() ==> r.users[i] != r.users[j]
}

/// Symbols are distinct and every entry is well-formed.
pub open spec fn reactions_wf(rs: Seq<ReactionEntryV>) -> bool {
    &&& forall|i: int, j: int| 0 <= i < j < rs.len() ==> rs[i].emoji != rs[j].emoji
    &&& forall|i: int| 0 <= i < rs.len() ==> reaction_entry_wf(#[trigger] rs[i])
}

/// A stored message of a room or private log.
pub struct HistoryItem {
    pub id: u64,
    pub from: String,
    pub text: String,
    pub ts: u64,
    pub reactions: Vec<ReactionEntry>,
    pub edited: bool,
    pub deleted: bool,
}

/// Mathematical shape of a stored message.
#[verifier::ext_equal]
pub struct HistoryItemV {
    pub id: u64,
    pub from: Seq<char>,
    pub text: Seq<char>,
    pub ts: u64,
    pub reactions: Seq<ReactionEntryV>,
    pub edited: bool,
    pub deleted: bool,
}

impl DeepView for HistoryItem {
    type V = HistoryItemV;

    open spec fn deep_view(&self) -> HistoryItemV {
        HistoryItemV {
            id: self.id,
            from: self.from@,
            text: self.text@,
            ts: self.ts,
            reactions: self.reactions.deep_view(),
            edited: self.edited,
            deleted: self.deleted,
        }
    }
}

pub open spec fn item_wf(m: HistoryItemV) -> bool {
    reactions_wf(m.reactions)
}

/// A bounded log: capacity respected, identifiers strictly increasing (hence
/// unique), every entry well-formed.
pub open spec fn log_wf(log: Seq<HistoryItemV>) -> bool {
    &&& log.len() <= ROOM_CAPACITY
    &&& forall|i: int, j: int| 0 <= i < j < log.len() ==> log[i].id < log[j].id
    &&& forall|i: int| 0 <= i < log.len() ==> item_wf(#[trigger] log[i])
}

/// All identifiers of a log lie below the server's next fresh identifier.
pub open spec fn log_ids_below(log: Seq<HistoryItemV>, next: u64) -> bool {
    forall|i: int| 0 <= i < log.len() ==> (#[trigger] log[i].id) < next
}

/// Server-side state of one live connection.
pub struct Client {
    pub id: u64,
    pub name: String,
    pub logged_in: bool,
    pub room: String,
    pub last_message_times: Vec<u64>,
    pub is_typing: bool,
    pub last_read_msg_id: Option<u64>,
    pub last_active: u64,
}

/// Mathematical shape of a session.
#[verifier::ext_equal]
pub struct ClientV {
    pub id: u64,
    pub name: Seq<char>,
    pub logged_in: bool,
    pub room: Seq<char>,
    pub last_message_times: Seq<u64>,
    pub is_typing: bool,
    pub last_read_msg_id: Option<u64>,
    pub last_active: u64,
}

impl DeepView for Client {
    type V = ClientV;

    open spec fn deep_view(&self) -> ClientV {
        ClientV {
            id: self.id,
            name: self.name@,
            logged_in: self.logged_in,
            room: self.room@,
            last_message_times: self.last_message_times@,
            is_typing: self.is_typing,
            last_read_msg_id: self.last_read_msg_id,
            last_active: self.last_active,
        }
    }
}

/// Live sessions: connection identifiers unique, and no two sessions hold
/// the same display name under case-insensitive comparison.
pub open spec fn clients_wf(cs: Seq<ClientV>) -> bool {
    &&& forall|i: int, j: int| 0 <= i < j < cs.len() ==> cs[i].id != cs[j].id
    &&& forall|i: int, j: int| 0 <= i < j < cs.len() ==> fold_seq(cs[i].name) != fold_seq(cs[j].name)
}

/// A named room owning a bounded message log.
pub struct Room {
    pub name: String,
    pub log: Vec<HistoryItem>,
}

/// Mathematical shape of a room.
#[verifier::ext_equal]
pub struct RoomV {
    pub name: Seq<char>,
    pub log: Seq<HistoryItemV>,
}

impl DeepView for Room {
    type V = RoomV;

    open spec fn deep_view(&self) -> RoomV {
        RoomV { name: self.name@, log: self.log.deep_view() }
    }
}

pub open spec fn rooms_wf(rs: Seq<RoomV>, next: u64) -> bool {
    &&& forall|i: int, j: int| 0 <= i < j < rs.len() ==> rs[i].name != rs[j].name
    &&& forall|i: int| 0 <= i < rs.len() ==> log_wf((#[trigger] rs[i]).log)
    &&& forall|i: int| 0 <= i < rs.len() ==> log_ids_below((#[trigger] rs[i]).log, next)
}

/// A private conversation, addressed by an unordered pair of folded names.
pub struct PrivateConvo {
    pub user_a: String,
    pub user_b: String,
    pub log: Vec<HistoryItem>,
}

/// Mathematical shape of a private conversation.
#[verifier::ext_equal]
pub struct PrivateConvoV {
    pub user_a: Seq<char>,
    pub user_b: Seq<char>,
    pub log: Seq<HistoryItemV>,
}

impl DeepView for PrivateConvo {
    type V = PrivateConvoV;

    open spec fn deep_view(&self) -> PrivateConvoV {
        PrivateConvoV { user_a: self.user_a@, user_b: self.user_b@, log: self.log.deep_view() }
    }
}

/// Two conversations address the same unordered pair of participants,
/// case-insensitively.
pub open spec fn same_pair(p: PrivateConvoV, a: Seq<char>, b: Seq<char>) -> bool {
    (fold_seq(p.user_a) == fold_seq(a) && fold_seq(p.user_b) == fold_seq(b)) || (fold_seq(
        p.user_a,
    ) == fold_seq(b) && fold_seq(p.user_b) == fold_seq(a))
}

pub open spec fn privates_wf(ps: Seq<PrivateConvoV>, next: u64) -> bool {
    &&& forall|i: int, j: int|
        0 <= i < j < ps.len() ==> !same_pair(ps[i], ps[j].user_a, ps[j].user_b)
    &&& forall|i: int| 0 <= i < ps.len() ==> log_wf((#[trigger] ps[i]).log)
    &&& forall|i: int| 0 <= i < ps.len() ==> log_ids_below((#[trigger] ps[i]).log, next)
}

/// One registered account: username and its password hash.
pub struct UserEntry {
    pub username: String,
    pub password_hash: String,
}

/// Mathematical shape of an account entry.
#[verifier::ext_equal]
pub struct UserEntryV {
    pub username: Seq<char>,
    pub password_hash: Seq<char>,
}

impl DeepView for UserEntry {
    type V = UserEntryV;

    open spec fn deep_view(&self) -> UserEntryV {
        UserEntryV { username: self.username@, password_hash: self.password_hash@ }
    }
}

pub open spec fn users_wf(us: Seq<UserEntryV>) -> bool {
    forall|i: int, j: int| 0 <= i < j < us.len() ==> us[i].username != us[j].username
}

/// Room name and live member count, for the room listing.
pub struct RoomInfo {
    pub name: String,
    pub members: usize,
}

/// Envelopes sent from server to client.
pub enum Outgoing {
    System { text: String },
    Msg {
        id: u64,
        from: String,
        text: String,
        ts: u64,
        reactions: Vec<ReactionEntry>,
        edited: bool,
    },
    List { users: Vec<String> },
    History { items: Vec<HistoryItem> },
    Typing { users: Vec<String> },
    Reaction { msg_id: u64, emoji: String, user: String, added: bool },
    Edit { msg_id: u64, new_text: String },
    Delete { msg_id: u64 },
    ReadReceipt { user: String, last_msg_id: u64 },
    Mention { from: String, text: String, mentioned: String },
    RoomList { rooms: Vec<RoomInfo> },
    Status { user: String, status: String },
    Nudge { from: String },
    LinkPreview { msg_id: u64, title: String, description: String, image: String, url: String },
}

/// Envelopes received from a client.
pub enum Incoming {
    Cmd { cmd: String },
    Msg { text: String },
    Typing { is_typing: bool },
    React { msg_id: u64, emoji: String },
    Edit { msg_id: u64, new_text: String },
    Delete { msg_id: u64 },
    MarkRead { last_msg_id: u64 },
}

/// One delivery the engine asks the transport layer to make.
pub enum Effect {
    /// Deliver to the one session with this identifier.
    ToSession { sid: u64, msg: Outgoing },
    /// Deliver to every session whose current room has this name.
    ToRoom { room: String, msg: Outgoing },
    /// Deliver to every live session.
    ToAll { msg: Outgoing },
    /// Close the connection of this session.
    CloseSession { sid: u64 },
}

/// The whole server-held state that the dispatch engine reads and mutates.
pub struct ServerState {
    pub clients: Vec<Client>,
    pub rooms: Vec<Room>,
    pub privates: Vec<PrivateConvo>,
    pub users: Vec<UserEntry>,
    pub next_msg_id: u64,
}

/// Mathematical shape of the server state.
#[verifier::ext_equal]
pub struct ServerStateV {
    pub clients: Seq<ClientV>,
    pub rooms: Seq<RoomV>,
    pub privates: Seq<PrivateConvoV>,
    pub users: Seq<UserEntryV>,
    pub next_msg_id: u64,
}

impl DeepView for ServerState {
    type V = ServerStateV;

    open spec fn deep_view(&self) -> ServerStateV {
        ServerStateV {
            clients: self.clients.deep_view(),
            rooms: self.rooms.deep_view(),
            privates: self.privates.deep_view(),
            users: self.users.deep_view(),
            next_msg_id: self.next_msg_id,
        }
    }
}

pub open spec fn state_wf(s: ServerStateV) -> bool {
    &&& clients_wf(s.clients)
    &&& rooms_wf(s.rooms, s.next_msg_id)
    &&& privates_wf(s.privates, s.next_msg_id)
    &&& users_wf(s.users)
}

impl ServerState {
    /// Well-formedness of the whole state.
    pub open spec fn wf(&self) -> bool {
        state_wf(self.deep_view())
    }

    /// A server with no sessions, no rooms, no conversations and no accounts.
    pub fn new() -> (s: ServerState)
        ensures
            s.wf(),
            s.deep_view().clients.len() == 0,
            s.deep_view().rooms.len() == 0,
            s.deep_view().privates.len() == 0,
            s.deep_view().users.len() == 0,
            s.deep_view().next_msg_id == 1,
    {
        ServerState {
            clients: Vec::new(),
            rooms: Vec::new(),
            privates: Vec::new(),
            users: Vec::new(),
            next_msg_id: 1,
        }
    }
}

impl ReactionEntry {
    /// A fresh entry equal in content to this one.
    pub fn duplicate(&self) -> (r: ReactionEntry)
        ensures
            r.deep_view() == self.deep_view(),
    {
        let r = ReactionEntry { emoji: self.emoji.clone(), users: self.users.clone() };
        proof {
            assert(r.users.deep_view() =~~= self.users.deep_view());
            assert(r.deep_view() =~~= self.deep_view());
        }
        r
    }
}

/// A fresh copy of a reaction list, equal in content.
pub fn duplicate_reactions(rs: &Vec<ReactionEntry>) -> (r: Vec<ReactionEntry>)
    ensures
        r.deep_view() == rs.deep_view(),
{
    let mut out: Vec<ReactionEntry> = Vec::new();
    let mut i: usize = 0;
    while i < rs.len()
        invariant
            0 <= i <= rs@.len(),
            out@.len() == i,
            forall|j: int| 0 <= j < i ==> out.deep_view()[j] == rs.deep_view()[j],
        decreases rs@.len() - i,
    {
        out.push(rs[i].duplicate());
        i = i + 1;
    }
    proof {
        assert(out.deep_view() =~~= rs.deep_view());
    }
    out
}

impl HistoryItem {
    /// A fresh message equal in content to this one.
    pub fn duplicate(&self) -> (r: HistoryItem)
        ensures
            r.deep_view() == self.deep_view(),
    {
        let r = HistoryItem {
            id: self.id,
            from: self.from.clone(),
            text: self.text.clone(),
            ts: self.ts,
            reactions: duplicate_reactions(&self.reactions),
            edited: self.edited,
            deleted: self.deleted,
        };
        proof {
            assert(r.deep_view() =~~= self.deep_view());
        }
        r
    }
}


/// Mathematical shape of a room-listing entry.
#[verifier::ext_equal]
pub struct RoomInfoV {
    pub name: Seq<char>,
    pub members: usize,
}

impl DeepView for RoomInfo {
    type V = RoomInfoV;

    open spec fn deep_view(&self) -> RoomInfoV {
        RoomInfoV { name: self.name@, members: self.members }
    }
}

/// Mathematical shape of an outbound envelope.
#[verifier::ext_equal]
pub enum OutgoingV {
    System { text: Seq<char> },
    Msg {
        id: u64,
        from: Seq<char>,
        text: Seq<char>,
        ts: u64,
        reactions: Seq<ReactionEntryV>,
        edited: bool,
    },
    List { users: Seq<Seq<char>> },
    History { items: Seq<HistoryItemV> },
    Typing { users: Seq<Seq<char>> },
    Reaction { msg_id: u64, emoji: Seq<char>, user: Seq<char>, added: bool },
    Edit { msg_id: u64, new_text: Seq<char> },
    Delete { msg_id: u64 },
    ReadReceipt { user: Seq<char>, last_msg_id: u64 },
    Mention { from: Seq<char>, text: Seq<char>, mentioned: Seq<char> },
    RoomList { rooms: Seq<RoomInfoV> },
    Status { user: Seq<char>, status: Seq<char> },
    Nudge { from: Seq<char> },
    LinkPreview {
        msg_id: u64,
        title: Seq<char>,
        description: Seq<char>,
        image: Seq<char>,
        url: Seq<char>,
    },
}

impl DeepView for Outgoing {
    type V = OutgoingV;

    open spec fn deep_view(&self) -> OutgoingV {
        match self {
            Outgoing::System { text } => OutgoingV::System { text: text@ },
            Outgoing::Msg { id, from, text, ts, reactions, edited } => OutgoingV::Msg {
                id: *id,
                from: from@,
                text: text@,
                ts: *ts,
                reactions: reactions.deep_view(),
                edited: *edited,
            },
            Outgoing::List { users } => OutgoingV::List { users: users.deep_view() },
            Outgoing::History { items } => OutgoingV::History { items: items.deep_view() },
            Outgoing::Typing { users } => OutgoingV::Typing { users: users.deep_view() },
            Outgoing::Reaction { msg_id, emoji, user, added } => OutgoingV::Reaction {
                msg_id: *msg_id,
                emoji: emoji@,
                user: user@,
                added: *added,
            },
            Outgoing::Edit { msg_id, new_text } => OutgoingV::Edit {
                msg_id: *msg_id,
                new_text: new_text@,
            },
            Outgoing::Delete { msg_id } => OutgoingV::Delete { msg_id: *msg_id },
            Outgoing::ReadReceipt { user, last_msg_id } => OutgoingV::ReadReceipt {
                user: user@,
                last_msg_id: *last_msg_id,
            },
            Outgoing::Mention { from, text, mentioned } => OutgoingV::Mention {
                from: from@,
                text: text@,
                mentioned: mentioned@,
            },
            Outgoing::RoomList { rooms } => OutgoingV::RoomList { rooms: rooms.deep_view() },
            Outgoing::Status { user, status } => OutgoingV::Status {
                user: user@,
                status: status@,
            },
            Outgoing::Nudge { from } => OutgoingV::Nudge { from: from@ },
            Outgoing::LinkPreview { msg_id, title, description, image, url } => {
                OutgoingV::LinkPreview {
                    msg_id: *msg_id,
                    title: title@,
                    description: description@,
                    image: image@,
                    url: url@,
                }
            },
        }
    }
}

/// Mathematical shape of one delivery.
#[verifier::ext_equal]
pub enum EffectV {
    ToSession { sid: u64, msg: OutgoingV },
    ToRoom { room: Seq<char>, msg: OutgoingV },
    ToAll { msg: OutgoingV },
    CloseSession { sid: u64 },
}

impl DeepView for Effect {
    type V = EffectV;

    open spec fn deep_view(&self) -> EffectV {
        match self {
            Effect::ToSession { sid, msg } => EffectV::ToSession {
                sid: *sid,
                msg: msg.deep_view(),
            },
            Effect::ToRoom { room, msg } => EffectV::ToRoom {
                room: room@,
                msg: msg.deep_view(),
            },
            Effect::ToAll { msg } => EffectV::ToAll { msg: msg.deep_view() },
            Effect::CloseSession { sid } => EffectV::CloseSession { sid: *sid },
        }
    }
}


/// The sessions one delivery reaches: the addressed session, every session
/// whose current room carries the named room, every live session, or none
/// for a close order.
pub open spec fn effect_recipients(e: EffectV, cs: Seq<ClientV>) -> Set<u64> {
    match e {
        EffectV::ToSession { sid, .. } => Set::empty().insert(sid),
        EffectV::ToRoom { room, .. } => Set::new(
            |sid: u64|
                exists|i: int|
                    0 <= i < cs.len() && (#[trigger] cs[i]).id == sid && cs[i].room == room,
        ),
        EffectV::ToAll { .. } => Set::new(
            |sid: u64| exists|i: int| 0 <= i < cs.len() && (#[trigger] cs[i]).id == sid,
        ),
        EffectV::CloseSession { .. } => Set::empty(),
    }
}

/// A room-addressed delivery reaches exactly the sessions of that room:
/// every member receives it and no session of another room does.
pub proof fn lemma_room_delivery(cs: Seq<ClientV>, room: Seq<char>, msg: OutgoingV, i: int)
    requires
        clients_wf(cs),
        0 <= i < cs.len(),
    ensures
        effect_recipients(EffectV::ToRoom { room, msg }, cs).contains(cs[i].id) <==> cs[i].room
            == room,
{
    if cs[i].room == room {
        assert(effect_recipients(EffectV::ToRoom { room, msg }, cs).contains(cs[i].id));
    } else {
        if effect_recipients(EffectV::ToRoom { room, msg }, cs).contains(cs[i].id) {
            let j = choose|j: int|
                0 <= j < cs.len() && (#[trigger] cs[j]).id == cs[i].id && cs[j].room == room;
            assert(j == i) by {
                if j < i {
                    assert(cs[j].id != cs[i].id);
                } else if j > i {
                    assert(cs[i].id != cs[j].id);
                }
            }
        }
    }
}

} // verus!
