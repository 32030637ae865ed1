//! The dispatch engine for directives: one closed sum type of directives,
//! an exact parser, and the handler that turns a directive into state
//! mutations and addressed envelopes.
use vstd::prelude::*;
use crate::auth::{has_user, register_user, verify_login, RegisterError};
use crate::helpers::{client_by_id, client_name_by_id, find_client, free_name, get_client_room,
    has_client, make_unique_name, remove_client, sel_names, set_client_identity};
use crate::room::{append_private, broadcast_to_room_and_store, chat_item_spec, convo_log,
    generate_msg_id, join_room, privates_upserted, push_evict_spec, send_history_to_client_room,
    send_system_to_room, send_user_list_to_room, sys_item_spec, room_log, upsert_spec,
    lemma_upsert_deterministic};
use crate::text::{concat3, concat5, dec_rep, eq_str, eq_str_fold, fold_seq, has_tok2, has_tok3,
    split3, tok1, tok2, tok3, trim_spec, trim_str, u64_to_string};
use crate::types::{clients_wf, Client, ClientV, Effect, EffectV, HistoryItem, Outgoing, OutgoingV,
    RoomV, ServerState};

verus! {

/// One inbound directive, decoded from a slash-command line.
pub enum Directive {
    Join { room: Option<String> },
    Rooms,
    Leave,
    CurrentRoom,
    Name { name: Option<String> },
    List,
    Register { user: Option<String>, pass: Option<String> },
    Login { user: Option<String>, pass: Option<String> },
    History,
    Msg { to: Option<String>, text: Option<String> },
    Help,
    Who,
    Kick { target: Option<String> },
    Nudge,
    Stats,
    Unknown,
}

/// Mathematical shape of a directive.
#[verifier::ext_equal]
pub enum DirectiveV {
    Join { room: Option<Seq<char>> },
    Rooms,
    Leave,
    CurrentRoom,
    Name { name: Option<Seq<char>> },
    List,
    Register { user: Option<Seq<char>>, pass: Option<Seq<char>> },
    Login { user: Option<Seq<char>>, pass: Option<Seq<char>> },
    History,
    Msg { to: Option<Seq<char>>, text: Option<Seq<char>> },
    Help,
    Who,
    Kick { target: Option<Seq<char>> },
    Nudge,
    Stats,
    Unknown,
}

impl DeepView for Directive {
    type V = DirectiveV;

    open spec fn deep_view(&self) -> DirectiveV {
        match self {
            Directive::Join { room } => DirectiveV::Join { room: room.deep_view() },
            Directive::Rooms => DirectiveV::Rooms,
            Directive::Leave => DirectiveV::Leave,
            Directive::CurrentRoom => DirectiveV::CurrentRoom,
            Directive::Name { name } => DirectiveV::Name { name: name.deep_view() },
            Directive::List => DirectiveV::List,
            Directive::Register { user, pass } => DirectiveV::Register {
                user: user.deep_view(),
                pass: pass.deep_view(),
            },
            Directive::Login { user, pass } => DirectiveV::Login {
                user: user.deep_view(),
                pass: pass.deep_view(),
            },
            Directive::History => DirectiveV::History,
            Directive::Msg { to, text } => DirectiveV::Msg {
                to: to.deep_view(),
                text: text.deep_view(),
            },
            Directive::Help => DirectiveV::Help,
            Directive::Who => DirectiveV::Who,
            Directive::Kick { target } => DirectiveV::Kick { target: target.deep_view() },
            Directive::Nudge => DirectiveV::Nudge,
            Directive::Stats => DirectiveV::Stats,
            Directive::Unknown => DirectiveV::Unknown,
        }
    }
}

/// The second token, where present.
pub open spec fn arg1_of(c: Seq<char>) -> Option<Seq<char>> {
    if has_tok2(c) {
        Some(tok2(c))
    } else {
        None
    }
}

/// The remainder after the second token, where present.
pub open spec fn arg2_of(c: Seq<char>) -> Option<Seq<char>> {
    if has_tok3(c) {
        Some(tok3(c))
    } else {
        None
    }
}

/// What a directive line decodes to: the leading token selects the
/// directive, the rest splits into at most one token and a raw remainder.
pub open spec fn parse_spec(c: Seq<char>) -> DirectiveV {
    let h = tok1(c);
    if h == "/join"@ {
        DirectiveV::Join { room: arg1_of(c) }
    } else if h == "/rooms"@ {
        DirectiveV::Rooms
    } else if h == "/leave"@ {
        DirectiveV::Leave
    } else if h == "/room"@ {
        DirectiveV::CurrentRoom
    } else if h == "/name"@ {
        DirectiveV::Name { name: arg1_of(c) }
    } else if h == "/list"@ {
        DirectiveV::List
    } else if h == "/register"@ {
        DirectiveV::Register { user: arg1_of(c), pass: arg2_of(c) }
    } else if h == "/login"@ {
        DirectiveV::Login { user: arg1_of(c), pass: arg2_of(c) }
    } else if h == "/history"@ {
        DirectiveV::History
    } else if h == "/msg"@ {
        DirectiveV::Msg { to: arg1_of(c), text: arg2_of(c) }
    } else if h == "/help"@ {
        DirectiveV::Help
    } else if h == "/who"@ {
        DirectiveV::Who
    } else if h == "/kick"@ {
        DirectiveV::Kick { target: arg1_of(c) }
    } else if h == "/nudge"@ {
        DirectiveV::Nudge
    } else if h == "/stats"@ {
        DirectiveV::Stats
    } else {
        DirectiveV::Unknown
    }
}

/// Decodes a directive line.
pub fn parse_directive(line: &str) -> (d: Directive)
    ensures
        d.deep_view() == parse_spec(line@),
{
    let (head, arg1, arg2) = split3(line);
    let h = head.as_str();
    if eq_str(h, "/join") {
        Directive::Join { room: arg1 }
    } else if eq_str(h, "/rooms") {
        Directive::Rooms
    } else if eq_str(h, "/leave") {
        Directive::Leave
    } else if eq_str(h, "/room") {
        Directive::CurrentRoom
    } else if eq_str(h, "/name") {
        Directive::Name { name: arg1 }
    } else if eq_str(h, "/list") {
        Directive::List
    } else if eq_str(h, "/register") {
        Directive::Register { user: arg1, pass: arg2 }
    } else if eq_str(h, "/login") {
        Directive::Login { user: arg1, pass: arg2 }
    } else if eq_str(h, "/history") {
        Directive::History
    } else if eq_str(h, "/msg") {
        Directive::Msg { to: arg1, text: arg2 }
    } else if eq_str(h, "/help") {
        Directive::Help
    } else if eq_str(h, "/who") {
        Directive::Who
    } else if eq_str(h, "/kick") {
        Directive::Kick { target: arg1 }
    } else if eq_str(h, "/nudge") {
        Directive::Nudge
    } else if eq_str(h, "/stats") {
        Directive::Stats
    } else {
        Directive::Unknown
    }
}

/// A private system notice to one session.
pub fn send_to_client(client_id: u64, text: &str) -> (r: Vec<Effect>)
    ensures
        r.deep_view() =~~= seq![
            EffectV::ToSession { sid: client_id, msg: OutgoingV::System { text: text@ } },
        ],
{
    let mut fx: Vec<Effect> = Vec::new();
    fx.push(Effect::ToSession { sid: client_id, msg: Outgoing::System { text: text.to_owned() } });
    fx
}


/// Stores and broadcasts one chat message from a session into its current
/// room; an unknown session posts to the default room under its identifier.
pub fn handle_message_with_rooms(state: &mut ServerState, client_id: u64, text: &str, now: u64)
    -> (r: Vec<Effect>)
    requires
        old(state).wf(),
        old(state).next_msg_id < u64::MAX,
    ensures
        final(state).wf(),
        final(state).deep_view().clients == old(state).deep_view().clients,
        final(state).deep_view().privates == old(state).deep_view().privates,
        final(state).deep_view().users == old(state).deep_view().users,
        final(state).deep_view().next_msg_id == old(state).deep_view().next_msg_id + 1,
        ({
            let cs = old(state).deep_view().clients;
            let frm = if has_client(cs, client_id) {
                client_by_id(cs, client_id).name
            } else {
                dec_rep(client_id as nat)
            };
            let rm = if has_client(cs, client_id) {
                client_by_id(cs, client_id).room
            } else {
                "lobby"@
            };
            let item = chat_item_spec(old(state).next_msg_id, frm, text@, now);
            &&& final(state).deep_view().rooms == upsert_spec(
                old(state).deep_view().rooms,
                rm,
                push_evict_spec(room_log(old(state).deep_view().rooms, rm), item),
            )
            &&& r.deep_view() =~~= seq![
                EffectV::ToRoom {
                    room: rm,
                    msg: OutgoingV::Msg {
                        id: old(state).next_msg_id,
                        from: frm,
                        text: text@,
                        ts: now,
                        reactions: Seq::empty(),
                        edited: false,
                    },
                },
            ] + crate::room::mention_fx(cs, crate::text::mentions_of(text@), rm, frm, text@)
        }),
{
    let ghost oldv = old(state).deep_view();
    let from = client_name_by_id(&state.clients, client_id);
    let room = get_client_room(&state.clients, client_id);
    let id = generate_msg_id(state);
    let item = HistoryItem {
        id,
        from,
        text: text.to_owned(),
        ts: now,
        reactions: Vec::new(),
        edited: false,
        deleted: false,
    };
    proof {
        assert(item.deep_view() =~~= chat_item_spec(oldv.next_msg_id, item.from@, text@, now));
    }
    let r = broadcast_to_room_and_store(state, room.as_str(), item);
    proof {
        lemma_upsert_deterministic(
            oldv.rooms,
            state.deep_view().rooms,
            room@,
            push_evict_spec(
                room_log(oldv.rooms, room@),
                chat_item_spec(oldv.next_msg_id, item.from@, text@, now),
            ),
        );
    }
    r
}

/// One annotated member line of the `/who` listing.
pub open spec fn who_entry(c: ClientV) -> Seq<char> {
    c.name + " ("@ + (if c.logged_in {
        "auth"@
    } else {
        "guest"@
    }) + ")"@
}

/// The annotated member lines of a room, in registry order.
pub open spec fn sel_who(cs: Seq<ClientV>, room: Seq<char>) -> Seq<Seq<char>>
    decreases cs.len(),
{
    if cs.len() == 0 {
        Seq::empty()
    } else {
        let rest = sel_who(cs.drop_last(), room);
        if cs.last().room == room {
            rest.push(who_entry(cs.last()))
        } else {
            rest
        }
    }
}

/// A comma-separated joining of text items.
pub open spec fn join_commas(xs: Seq<Seq<char>>) -> Seq<char>
    decreases xs.len(),
{
    if xs.len() == 0 {
        Seq::empty()
    } else if xs.len() == 1 {
        xs[0]
    } else {
        join_commas(xs.drop_last()) + ", "@ + xs.last()
    }
}

/// Joins text items with commas, executably.
fn join_commas_exec(items: &Vec<String>) -> (r: String)
    ensures
        r@ == join_commas(items.deep_view()),
{
    let ghost xs = items.deep_view();
    let mut s = String::new();
    let mut i: usize = 0;
    while i < items.len()
        invariant
            0 <= i <= items@.len(),
            xs == items.deep_view(),
            s@ =~= join_commas(xs.subrange(0, i as int)),
        decreases items@.len() - i,
    {
        if i > 0 {
            s.append(", ");
        }
        s.append(items[i].as_str());
        i = i + 1;
        proof {
            let cur = xs.subrange(0, i as int);
            assert(cur.drop_last() =~= xs.subrange(0, i - 1));
            assert(cur.last() == xs[i - 1]);
            assert(s@ =~= join_commas(cur));
        }
    }
    proof {
        assert(xs.subrange(0, items@.len() as int) =~= xs);
    }
    s
}

/// The room listing: every room's name with its live member count, in
/// store order.
pub open spec fn room_infos(rs: Seq<RoomV>, cs: Seq<ClientV>) -> Seq<crate::types::RoomInfoV> {
    Seq::new(
        rs.len(),
        |i: int|
            crate::types::RoomInfoV {
                name: rs[i].name,
                members: sel_names(cs, rs[i].name).len() as usize,
            },
    )
}

/// Collects the room listing with live member counts.
fn collect_room_infos(state: &ServerState) -> (r: Vec<crate::types::RoomInfo>)
    ensures
        r.deep_view() == room_infos(state.deep_view().rooms, state.deep_view().clients),
{
    let ghost rs = state.deep_view().rooms;
    let ghost cs = state.deep_view().clients;
    let mut out: Vec<crate::types::RoomInfo> = Vec::new();
    let mut i: usize = 0;
    while i < state.rooms.len()
        invariant
            0 <= i <= state.rooms@.len(),
            rs == state.deep_view().rooms,
            cs == state.deep_view().clients,
            out@.len() == i,
            forall|j: int| 0 <= j < i ==> out.deep_view()[j] == room_infos(rs, cs)[j],
        decreases state.rooms@.len() - i,
    {
        let ghost outd0 = out.deep_view();
        let members = crate::helpers::count_in_room(&state.clients, state.rooms[i].name.as_str());
        let info = crate::types::RoomInfo { name: state.rooms[i].name.clone(), members };
        let ghost iv = info.deep_view();
        proof {
            assert(iv =~~= room_infos(rs, cs)[i as int]);
            assert(iv == room_infos(rs, cs)[i as int]);
        }
        out.push(info);
        i = i + 1;
        proof {
            assert forall|j: int| 0 <= j < i implies out.deep_view()[j] == room_infos(rs, cs)[j] by {
                if j < i - 1 {
                    assert(out.deep_view()[j] == outd0[j]);
                } else {
                    assert(out@[i - 1].deep_view() == iv);
                }
            }
        }
    }
    proof {
        assert(out.deep_view() =~= room_infos(rs, cs));
    }
    out
}

/// Collects the annotated member lines of a room.
fn collect_who(clients: &Vec<Client>, room: &str) -> (r: Vec<String>)
    ensures
        r.deep_view() == sel_who(clients.deep_view(), room@),
{
    let ghost cs = clients.deep_view();
    let mut out: Vec<String> = Vec::new();
    let mut i: usize = 0;
    while i < clients.len()
        invariant
            0 <= i <= clients@.len(),
            cs == clients.deep_view(),
            out.deep_view() =~= sel_who(cs.subrange(0, i as int), room@),
        decreases clients@.len() - i,
    {
        let ghost out0 = out.deep_view();
        if eq_str(clients[i].room.as_str(), room) {
            let mut e = clients[i].name.clone();
            e.append(" (");
            if clients[i].logged_in {
                e.append("auth");
            } else {
                e.append("guest");
            }
            e.append(")");
            proof {
                assert(e@ =~= who_entry(cs[i as int]));
            }
            out.push(e);
            proof {
                assert(out.deep_view() =~= out0.push(who_entry(cs[i as int])));
            }
        }
        i = i + 1;
        proof {
            let cur = cs.subrange(0, i as int);
            assert(cur.drop_last() =~= cs.subrange(0, i - 1));
            assert(cur.last() == cs[i - 1]);
            assert(out.deep_view() =~= sel_who(cur, room@));
        }
    }
    proof {
        assert(cs.subrange(0, clients@.len() as int) =~= cs);
    }
    out
}

/// Whether some session of a room carries this display name,
/// case-insensitively.
pub open spec fn room_member_named(cs: Seq<ClientV>, room: Seq<char>, name: Seq<char>) -> bool {
    exists|i: int|
        0 <= i < cs.len() && (#[trigger] cs[i]).room == room && fold_seq(cs[i].name) == fold_seq(
            name,
        )
}

/// The session of a room carrying this display name.
pub open spec fn room_member_of(cs: Seq<ClientV>, room: Seq<char>, name: Seq<char>) -> ClientV {
    cs[choose|i: int|
        0 <= i < cs.len() && (#[trigger] cs[i]).room == room && fold_seq(cs[i].name) == fold_seq(
            name,
        )]
}

/// Locates the session of a room with this name, case-insensitively.
fn find_in_room_by_name(clients: &Vec<Client>, room: &str, name: &str) -> (r: Option<usize>)
    ensures
        match r {
            Some(i) => i < clients@.len() && clients.deep_view()[i as int].room == room@
                && fold_seq(clients.deep_view()[i as int].name) == fold_seq(name@),
            None => !room_member_named(clients.deep_view(), room@, name@),
        },
{
    let mut i: usize = 0;
    while i < clients.len()
        invariant
            0 <= i <= clients@.len(),
            forall|j: int|
                0 <= j < i ==> !((#[trigger] clients.deep_view()[j]).room == room@ && fold_seq(
                    clients.deep_view()[j].name,
                ) == fold_seq(name@)),
        decreases clients@.len() - i,
    {
        if eq_str(clients[i].room.as_str(), room) {
            if eq_str_fold(clients[i].name.as_str(), name) {
                return Some(i);
            }
        }
        i = i + 1;
    }
    proof {
        if room_member_named(clients.deep_view(), room@, name@) {
            let j = choose|j: int|
                0 <= j < clients.deep_view().len() && (#[trigger] clients.deep_view()[j]).room
                    == room@ && fold_seq(clients.deep_view()[j].name) == fold_seq(name@);
            assert(false);
        }
    }
    None
}


/// The `/help` reply.
pub open spec fn help_text() -> Seq<char> {
    "Available commands: /name <name>, /register <u> <p>, /login <u> <p>, /msg <user> <text>, /join <room>, /leave, /rooms, /room, /list, /who, /history, /kick <user>, /nudge, /stats, /help"@
}

/// Interprets one directive line against the server state: the leading
/// token selects the operation, which mutates the state and yields the
/// envelopes to deliver.
#[verifier::rlimit(60)]
pub fn handle_cmd_with_rooms(state: &mut ServerState, client_id: u64, cmd_line: &str, now: u64)
    -> (r: Vec<Effect>)
    requires
        old(state).wf(),
        old(state).next_msg_id + 2 <= u64::MAX,
        old(state).deep_view().clients.len() + 2 <= u64::MAX,
    ensures
        final(state).wf(),
        ({
            let c = cmd_line@;
            let oldv = old(state).deep_view();
            let cs = oldv.clients;
            let me_room = if has_client(cs, client_id) {
                client_by_id(cs, client_id).room
            } else {
                "lobby"@
            };
            let me_name = if has_client(cs, client_id) {
                client_by_id(cs, client_id).name
            } else {
                dec_rep(client_id as nat)
            };
            &&& (parse_spec(c) is Rooms ==> final(state).deep_view() == oldv && r.deep_view()
                =~~= seq![
                EffectV::ToSession {
                    sid: client_id,
                    msg: OutgoingV::RoomList { rooms: room_infos(oldv.rooms, cs) },
                },
            ])
            &&& (parse_spec(c) is CurrentRoom ==> final(state).deep_view() == oldv && r.deep_view()
                =~~= seq![
                EffectV::ToSession {
                    sid: client_id,
                    msg: OutgoingV::System { text: "Current room: "@ + me_room },
                },
            ])
            &&& (parse_spec(c) is List ==> final(state).deep_view() == oldv && r.deep_view() =~~= seq![
                EffectV::ToRoom {
                    room: me_room,
                    msg: OutgoingV::List { users: sel_names(cs, me_room) },
                },
            ])
            &&& (parse_spec(c) is History ==> final(state).deep_view() == oldv && (has_client(
                cs,
                client_id,
            ) ==> r.deep_view() =~~= seq![
                EffectV::ToSession {
                    sid: client_id,
                    msg: OutgoingV::History {
                        items: crate::room::sel_visible(room_log(oldv.rooms, me_room)),
                    },
                },
            ]) && (!has_client(cs, client_id) ==> r@.len() == 0))
            &&& (parse_spec(c) is Help ==> final(state).deep_view() == oldv && r.deep_view() =~~= seq![
                EffectV::ToSession { sid: client_id, msg: OutgoingV::System { text: help_text() } },
            ])
            &&& (parse_spec(c) is Who ==> final(state).deep_view() == oldv && r.deep_view() =~~= seq![
                EffectV::ToSession {
                    sid: client_id,
                    msg: OutgoingV::System {
                        text: "Users in '"@ + me_room + "': "@ + join_commas(sel_who(cs, me_room)),
                    },
                },
            ])
            &&& (parse_spec(c) is Stats ==> final(state).deep_view() == oldv && r.deep_view()
                =~~= seq![
                EffectV::ToSession {
                    sid: client_id,
                    msg: OutgoingV::System {
                        text: "Clients: "@ + dec_rep(cs.len()) + ", Rooms: "@ + dec_rep(
                            oldv.rooms.len(),
                        ),
                    },
                },
            ])
            &&& (parse_spec(c) is Unknown ==> final(state).deep_view() == oldv && r.deep_view()
                =~~= seq![
                EffectV::ToSession {
                    sid: client_id,
                    msg: OutgoingV::System {
                        text: "Unknown command. Type /help for available commands."@,
                    },
                },
            ])
            &&& (parse_spec(c) matches DirectiveV::Join { room: None } ==> final(state).deep_view() == oldv && r.deep_view() =~~= seq![
                EffectV::ToSession {
                    sid: client_id,
                    msg: OutgoingV::System { text: "Usage: /join <room>"@ },
                },
            ])
            &&& (parse_spec(c) matches DirectiveV::Join { room: Some(t) } ==> {
                &&& final(state).deep_view().users == oldv.users
                &&& final(state).deep_view().privates == oldv.privates
                &&& (!(trim_spec(t).len() > 0 && has_client(cs, client_id)) ==> final(state).deep_view() == oldv && r@.len() == 0)
                &&& ((trim_spec(t).len() > 0 && has_client(cs, client_id))
                    ==> crate::room::join_room_post(
                    oldv,
                    final(state).deep_view(),
                    r.deep_view(),
                    client_id,
                    trim_spec(t),
                    now,
                ))
            })
            &&& (parse_spec(c) is Leave ==> {
                &&& final(state).deep_view().users == oldv.users
                &&& final(state).deep_view().privates == oldv.privates
                &&& (!has_client(cs, client_id) ==> final(state).deep_view() == oldv && r@.len()
                    == 0)
                &&& (has_client(cs, client_id) ==> crate::room::join_room_post(
                    oldv,
                    final(state).deep_view(),
                    r.deep_view(),
                    client_id,
                    "lobby"@,
                    now,
                ))
            })
            &&& (parse_spec(c) matches DirectiveV::Name { name: None } ==> final(state).deep_view() == oldv && r@.len() == 0)
            &&& (parse_spec(c) matches DirectiveV::Name { name: Some(n) } && trim_spec(n).len()
                == 0 ==> final(state).deep_view() == oldv && r.deep_view() =~~= seq![
                EffectV::ToSession {
                    sid: client_id,
                    msg: OutgoingV::System { text: "Usage: /name <new_name>"@ },
                },
            ])
            &&& (parse_spec(c) matches DirectiveV::Name { name: Some(n) } && trim_spec(n).len()
                > 0 && !has_client(cs, client_id) ==> final(state).deep_view() == oldv && r@.len()
                == 0)
            &&& (parse_spec(c) matches DirectiveV::Name { name: Some(n) } ==> ((trim_spec(
                n,
            ).len() > 0 && has_client(cs, client_id)) ==> {
                &&& final(state).deep_view().users == oldv.users
                &&& final(state).deep_view().privates == oldv.privates
                &&& final(state).deep_view().next_msg_id == oldv.next_msg_id + 1
                &&& (exists|nm: Seq<char>|
                    #![trigger fold_seq(nm)]
                    {
                        &&& crate::helpers::chosen_unique_name(cs, trim_spec(n), nm)
                        &&& (exists|i: int|
                            #![trigger cs[i]]
                            0 <= i < cs.len() && cs[i].id == client_id && final(state).deep_view().clients == cs.update(i, ClientV { name: nm, ..cs[i] }))
                        &&& r.deep_view() =~~= seq![
                            EffectV::ToRoom {
                                room: me_room,
                                msg: OutgoingV::System {
                                    text: "-- "@ + nm + " is now known as "@ + nm + " --"@,
                                },
                            },
                            EffectV::ToRoom {
                                room: me_room,
                                msg: OutgoingV::List {
                                    users: sel_names(final(state).deep_view().clients, me_room),
                                },
                            },
                            EffectV::ToSession {
                                sid: client_id,
                                msg: OutgoingV::System {
                                    text: "Your name is now '"@ + nm + "'"@,
                                },
                            },
                        ]
                    })
            }))
            &&& (parse_spec(c) matches DirectiveV::Register { user: u, pass: p } && (u is None
                || p is None) ==> final(state).deep_view() == oldv && r@.len() == 0)
            &&& (parse_spec(c) matches DirectiveV::Register { user: Some(u), pass: Some(p) }
                ==> {
                &&& final(state).deep_view().clients == oldv.clients
                &&& final(state).deep_view().rooms == oldv.rooms
                &&& final(state).deep_view().privates == oldv.privates
                &&& final(state).deep_view().next_msg_id == oldv.next_msg_id
                &&& (has_user(oldv.users, trim_spec(u)) ==> final(state).deep_view().users
                    == oldv.users && r.deep_view() =~~= seq![
                    EffectV::ToSession {
                        sid: client_id,
                        msg: OutgoingV::System {
                            text: "Register failed: "@ + "username already exists"@,
                        },
                    },
                ])
                &&& (!has_user(oldv.users, trim_spec(u)) ==> ((exists|h: Seq<char>|
                    h.len() == 60 && final(state).deep_view().users == oldv.users.push(
                        crate::types::UserEntryV { username: trim_spec(u), password_hash: h },
                    )) && r.deep_view() =~~= seq![
                    EffectV::ToSession {
                        sid: client_id,
                        msg: OutgoingV::System {
                            text: "Registered '"@ + trim_spec(u)
                                + "'. Use /login to authenticate."@,
                        },
                    },
                ]) || (final(state).deep_view().users == oldv.users && r.deep_view() =~~= seq![
                    EffectV::ToSession {
                        sid: client_id,
                        msg: OutgoingV::System { text: "Register failed: "@ + "hash error"@ },
                    },
                ]))
            })
            &&& (parse_spec(c) matches DirectiveV::Login { user: u, pass: p } && (u is None
                || p is None) ==> final(state).deep_view() == oldv && r@.len() == 0)
            &&& (parse_spec(c) matches DirectiveV::Login { user: Some(u), pass: Some(p) }
                && !(crate::auth::has_user(oldv.users, trim_spec(u)) && crate::auth::bcrypt_check(
                trim_spec(p),
                crate::auth::user_hash(oldv.users, trim_spec(u)),
            ) == Some(true)) ==> final(state).deep_view() == oldv && r.deep_view() =~~= seq![
                EffectV::ToSession {
                    sid: client_id,
                    msg: OutgoingV::System { text: "Login failed: invalid credentials"@ },
                },
            ])
            &&& (parse_spec(c) matches DirectiveV::Login { user: Some(u), pass: Some(p) } ==> ((
            crate::auth::has_user(oldv.users, trim_spec(u)) && crate::auth::bcrypt_check(
                trim_spec(p),
                crate::auth::user_hash(oldv.users, trim_spec(u)),
            ) == Some(true)) ==> {
                &&& (!has_client(cs, client_id) ==> final(state).deep_view() == oldv && r@.len()
                    == 0)
                &&& (has_client(cs, client_id) ==> {
                    &&& final(state).deep_view().users == oldv.users
                    &&& final(state).deep_view().privates == oldv.privates
                    &&& final(state).deep_view().next_msg_id == oldv.next_msg_id + 1
                    &&& (exists|nm: Seq<char>|
                        #![trigger fold_seq(nm)]
                        {
                            &&& crate::helpers::chosen_unique_name(cs, trim_spec(u), nm)
                            &&& (exists|i: int|
                                #![trigger cs[i]]
                                0 <= i < cs.len() && cs[i].id == client_id && final(state).deep_view().clients == cs.update(
                                    i,
                                    ClientV { name: nm, logged_in: true, ..cs[i] },
                                ))
                            &&& r.deep_view() =~~= seq![
                                EffectV::ToRoom {
                                    room: me_room,
                                    msg: OutgoingV::System {
                                        text: "-- "@ + nm + " logged in --"@,
                                    },
                                },
                                EffectV::ToRoom {
                                    room: me_room,
                                    msg: OutgoingV::List {
                                        users: sel_names(
                                            final(state).deep_view().clients,
                                            me_room,
                                        ),
                                    },
                                },
                                EffectV::ToSession {
                                    sid: client_id,
                                    msg: OutgoingV::System {
                                        text: "Logged in as '"@ + nm + "'"@,
                                    },
                                },
                            ]
                        })
                })
            }))
            &&& (parse_spec(c) matches DirectiveV::Msg { to: u, text: x } && (u is None || x
                is None) ==> final(state).deep_view() == oldv && r@.len() == 0)
            &&& (parse_spec(c) matches DirectiveV::Msg { to: Some(u), text: Some(x) } ==> (
            !has_client(cs, client_id) ==> final(state).deep_view() == oldv && r@.len() == 0))
            &&& (parse_spec(c) matches DirectiveV::Msg { to: Some(u), text: Some(x) } ==> ((
            has_client(cs, client_id) && !room_member_named(cs, me_room, trim_spec(u)))
                ==> final(state).deep_view() == oldv && r.deep_view() =~~= seq![
                EffectV::ToSession {
                    sid: client_id,
                    msg: OutgoingV::System {
                        text: "User '"@ + trim_spec(u) + "' not found in your room"@,
                    },
                },
            ]))
            &&& (parse_spec(c) matches DirectiveV::Msg { to: Some(u), text: Some(x) } ==> ((
            has_client(cs, client_id) && room_member_named(cs, me_room, trim_spec(u)))
                ==> {
                let target = room_member_of(cs, me_room, trim_spec(u));
                &&& final(state).deep_view().clients == oldv.clients
                &&& final(state).deep_view().rooms == oldv.rooms
                &&& final(state).deep_view().users == oldv.users
                &&& final(state).deep_view().next_msg_id == oldv.next_msg_id + 1
                &&& privates_upserted(
                    oldv.privates,
                    final(state).deep_view().privates,
                    me_name,
                    target.name,
                    push_evict_spec(
                        convo_log(oldv.privates, me_name, target.name),
                        chat_item_spec(oldv.next_msg_id, me_name, x, now),
                    ),
                )
                &&& r.deep_view() =~~= seq![
                    EffectV::ToSession {
                        sid: target.id,
                        msg: OutgoingV::Msg {
                            id: oldv.next_msg_id,
                            from: me_name,
                            text: x,
                            ts: now,
                            reactions: Seq::empty(),
                            edited: false,
                        },
                    },
                ]
            }))
            &&& (parse_spec(c) matches DirectiveV::Kick { target: None } ==> final(state).deep_view() == oldv && r.deep_view() =~~= seq![
                EffectV::ToSession {
                    sid: client_id,
                    msg: OutgoingV::System { text: "Usage: /kick <user>"@ },
                },
            ])
            &&& (parse_spec(c) matches DirectiveV::Kick { target: Some(t) } ==> (!has_client(
                cs,
                client_id,
            ) ==> final(state).deep_view() == oldv && r@.len() == 0))
            &&& (parse_spec(c) matches DirectiveV::Kick { target: Some(t) } ==> ((has_client(
                cs,
                client_id,
            ) && !client_by_id(cs, client_id).logged_in) ==> final(state).deep_view() == oldv
                && r.deep_view() =~~= seq![
                EffectV::ToSession {
                    sid: client_id,
                    msg: OutgoingV::System { text: "Only authenticated users can kick"@ },
                },
            ]))
            &&& (parse_spec(c) matches DirectiveV::Kick { target: Some(t) } ==> ((has_client(
                cs,
                client_id,
            ) && client_by_id(cs, client_id).logged_in && fold_seq(trim_spec(t)) == fold_seq(
                me_name,
            )) ==> final(state).deep_view() == oldv && r.deep_view() =~~= seq![
                EffectV::ToSession {
                    sid: client_id,
                    msg: OutgoingV::System { text: "You cannot kick yourself"@ },
                },
            ]))
            &&& (parse_spec(c) matches DirectiveV::Kick { target: Some(t) } ==> ((has_client(
                cs,
                client_id,
            ) && client_by_id(cs, client_id).logged_in && fold_seq(trim_spec(t)) != fold_seq(
                me_name,
            ) && !room_member_named(cs, me_room, trim_spec(t))) ==> final(state).deep_view()
                == oldv && r.deep_view() =~~= seq![
                EffectV::ToSession {
                    sid: client_id,
                    msg: OutgoingV::System {
                        text: "User '"@ + trim_spec(t) + "' not found in your room"@,
                    },
                },
            ]))
            &&& (parse_spec(c) matches DirectiveV::Kick { target: Some(t) } ==> ((has_client(
                cs,
                client_id,
            ) && client_by_id(cs, client_id).logged_in && fold_seq(trim_spec(t)) != fold_seq(
                me_name,
            ) && room_member_named(cs, me_room, trim_spec(t))) ==> {
                let target = room_member_of(cs, me_room, trim_spec(t));
                &&& final(state).deep_view().users == oldv.users
                &&& final(state).deep_view().privates == oldv.privates
                &&& final(state).deep_view().next_msg_id == oldv.next_msg_id + 1
                &&& (exists|ti: int|
                    #![trigger cs[ti]]
                    0 <= ti < cs.len() && cs[ti].id == target.id && final(state).deep_view().clients == cs.remove(ti))
                &&& r.deep_view() =~~= seq![
                    EffectV::ToRoom {
                        room: me_room,
                        msg: OutgoingV::System {
                            text: "-- "@ + target.name + " was kicked by "@ + me_name + " --"@,
                        },
                    },
                    EffectV::ToRoom {
                        room: me_room,
                        msg: OutgoingV::List {
                            users: sel_names(final(state).deep_view().clients, me_room),
                        },
                    },
                    EffectV::CloseSession { sid: target.id },
                ]
            }))
            &&& (parse_spec(c) is Nudge ==> {
                &&& (!has_client(cs, client_id) ==> final(state).deep_view() == oldv && r@.len()
                    == 0)
                &&& (has_client(cs, client_id) ==> {
                    &&& final(state).deep_view().clients == oldv.clients
                    &&& final(state).deep_view().users == oldv.users
                    &&& final(state).deep_view().privates == oldv.privates
                    &&& final(state).deep_view().next_msg_id == oldv.next_msg_id + 1
                    &&& final(state).deep_view().rooms == upsert_spec(
                        oldv.rooms,
                        me_room,
                        push_evict_spec(
                            room_log(oldv.rooms, me_room),
                            sys_item_spec(
                                oldv.next_msg_id,
                                "-- "@ + me_name + " sent a nudge --"@,
                                now,
                            ),
                        ),
                    )
                    &&& r.deep_view() =~~= seq![
                        EffectV::ToRoom {
                            room: me_room,
                            msg: OutgoingV::System {
                                text: "-- "@ + me_name + " sent a nudge --"@,
                            },
                        },
                        EffectV::ToRoom { room: me_room, msg: OutgoingV::Nudge { from: me_name } },
                    ]
                })
            })
        }),
{
    let ghost oldv = old(state).deep_view();
    let d = parse_directive(cmd_line);
    match d {
        Directive::Join { room } => {
            match room {
                Some(rm) => join_room(state, client_id, rm.as_str(), now),
                None => send_to_client(client_id, "Usage: /join <room>"),
            }
        },
        Directive::Rooms => {
            let infos = collect_room_infos(state);
            let mut fx: Vec<Effect> = Vec::new();
            fx.push(
                Effect::ToSession { sid: client_id, msg: Outgoing::RoomList { rooms: infos } },
            );
            proof {
                assert(fx.deep_view() =~~= seq![
                    EffectV::ToSession {
                        sid: client_id,
                        msg: OutgoingV::RoomList { rooms: room_infos(oldv.rooms, oldv.clients) },
                    },
                ]);
            }
            fx
        },
        Directive::Leave => {
            proof {
                reveal_strlit("lobby");
                crate::text::lemma_trim_noop("lobby"@);
            }
            join_room(state, client_id, "lobby", now)
        },
        Directive::CurrentRoom => {
            let room = get_client_room(&state.clients, client_id);
            let text = "Current room: ".to_owned().concat(room.as_str());
            send_to_client(client_id, text.as_str())
        },
        Directive::Name { name } => {
            match name {
                None => Vec::new(),
                Some(n) => {
                    let t = trim_str(n.as_str());
                    if t.unicode_len() == 0 {
                        return send_to_client(client_id, "Usage: /name <new_name>");
                    }
                    if find_client(&state.clients, client_id).is_none() {
                        return Vec::new();
                    }
                    let room = get_client_room(&state.clients, client_id);
                    let unique = make_unique_name(&state.clients, t);
                    set_client_identity(&mut state.clients, client_id, unique.clone(), false);
                    let announce = concat5(
                        "-- ",
                        unique.as_str(),
                        " is now known as ",
                        unique.as_str(),
                        " --",
                    );
                    let mut fx = send_system_to_room(state, room.as_str(), announce.as_str(), now);
                    let ghost g1 = fx.deep_view();
                    let mut fx2 = send_user_list_to_room(state, room.as_str());
                    let ghost g2 = fx2.deep_view();
                    fx.append(&mut fx2);
                    proof {
                        assert(fx.deep_view() =~~= g1 + g2);
                    }
                    let reply = concat3("Your name is now '", unique.as_str(), "'");
                    let ghost g12 = fx.deep_view();
                    let mut fx3 = send_to_client(client_id, reply.as_str());
                    let ghost g3 = fx3.deep_view();
                    fx.append(&mut fx3);
                    proof {
                        assert(fx.deep_view() =~~= g12 + g3);
                        assert(fold_seq(unique@) == fold_seq(unique@));
                    }
                    fx
                },
            }
        },
        Directive::List => {
            let room = get_client_room(&state.clients, client_id);
            send_user_list_to_room(state, room.as_str())
        },
        Directive::Register { user, pass } => {
            match (user, pass) {
                (Some(u), Some(p)) => {
                    let ut = trim_str(u.as_str());
                    let pt = trim_str(p.as_str());
                    match register_user(&mut state.users, ut, pt) {
                        Ok(()) => {
                            let text = concat3(
                                "Registered '",
                                ut,
                                "'. Use /login to authenticate.",
                            );
                            send_to_client(client_id, text.as_str())
                        },
                        Err(e) => {
                            let m = e.message();
                            let text = "Register failed: ".to_owned().concat(m.as_str());
                            proof {
                                assert(state.deep_view() =~~= oldv);
                            }
                            send_to_client(client_id, text.as_str())
                        },
                    }
                },
                _ => Vec::new(),
            }
        },
        Directive::Login { user, pass } => {
            match (user, pass) {
                (Some(u), Some(p)) => {
                    let ut = trim_str(u.as_str());
                    let pt = trim_str(p.as_str());
                    if verify_login(&state.users, ut, pt) {
                        if find_client(&state.clients, client_id).is_none() {
                            return Vec::new();
                        }
                        let room = get_client_room(&state.clients, client_id);
                        let unique = make_unique_name(&state.clients, ut);
                        set_client_identity(&mut state.clients, client_id, unique.clone(), true);
                        let announce = concat3("-- ", unique.as_str(), " logged in --");
                        let mut fx = send_system_to_room(
                            state,
                            room.as_str(),
                            announce.as_str(),
                            now,
                        );
                        let ghost g1 = fx.deep_view();
                        let mut fx2 = send_user_list_to_room(state, room.as_str());
                        let ghost g2 = fx2.deep_view();
                        fx.append(&mut fx2);
                        proof {
                            assert(fx.deep_view() =~~= g1 + g2);
                        }
                        let reply = concat3("Logged in as '", unique.as_str(), "'");
                        let ghost g12 = fx.deep_view();
                        let mut fx3 = send_to_client(client_id, reply.as_str());
                        let ghost g3 = fx3.deep_view();
                        fx.append(&mut fx3);
                        proof {
                            assert(fx.deep_view() =~~= g12 + g3);
                        }
                        fx
                    } else {
                        send_to_client(client_id, "Login failed: invalid credentials")
                    }
                },
                _ => Vec::new(),
            }
        },
        Directive::History => {
            if find_client(&state.clients, client_id).is_none() {
                return Vec::new();
            }
            let room = get_client_room(&state.clients, client_id);
            send_history_to_client_room(state, client_id, room.as_str())
        },
        Directive::Msg { to, text } => {
            match (to, text) {
                (Some(u), Some(x)) => {
                    if find_client(&state.clients, client_id).is_none() {
                        return Vec::new();
                    }
                    let room = get_client_room(&state.clients, client_id);
                    let tt = trim_str(u.as_str());
                    match find_in_room_by_name(&state.clients, room.as_str(), tt) {
                        None => {
                            let text2 = concat3("User '", tt, "' not found in your room");
                            send_to_client(client_id, text2.as_str())
                        },
                        Some(ti) => {
                            proof {
                                let cs = oldv.clients;
                                assert(room_member_named(cs, room@, tt@));
                                let k = choose|k: int|
                                    0 <= k < cs.len() && (#[trigger] cs[k]).room == room@
                                        && fold_seq(cs[k].name) == fold_seq(tt@);
                                assert(k == ti) by {
                                    if k < ti {
                                        assert(fold_seq(cs[k].name) != fold_seq(
                                            cs[ti as int].name,
                                        ));
                                    } else if k > ti {
                                        assert(fold_seq(cs[ti as int].name) != fold_seq(
                                            cs[k].name,
                                        ));
                                    }
                                }
                            }
                            let target_id = state.clients[ti].id;
                            let target_name = state.clients[ti].name.clone();
                            let from = client_name_by_id(&state.clients, client_id);
                            let id = generate_msg_id(state);
                            let item = HistoryItem {
                                id,
                                from: from.clone(),
                                text: x.clone(),
                                ts: now,
                                reactions: Vec::new(),
                                edited: false,
                                deleted: false,
                            };
                            proof {
                                assert(item.deep_view() =~~= chat_item_spec(
                                    oldv.next_msg_id,
                                    from@,
                                    x@,
                                    now,
                                ));
                            }
                            append_private(state, from.as_str(), target_name.as_str(), item);
                            let mut fx: Vec<Effect> = Vec::new();
                            fx.push(
                                Effect::ToSession {
                                    sid: target_id,
                                    msg: Outgoing::Msg {
                                        id,
                                        from,
                                        text: x,
                                        ts: now,
                                        reactions: Vec::new(),
                                        edited: false,
                                    },
                                },
                            );
                            fx
                        },
                    }
                },
                _ => Vec::new(),
            }
        },
        Directive::Help => send_to_client(
            client_id,
            "Available commands: /name <name>, /register <u> <p>, /login <u> <p>, /msg <user> <text>, /join <room>, /leave, /rooms, /room, /list, /who, /history, /kick <user>, /nudge, /stats, /help",
        ),
        Directive::Who => {
            let room = get_client_room(&state.clients, client_id);
            let entries = collect_who(&state.clients, room.as_str());
            let joined = join_commas_exec(&entries);
            let head = concat3("Users in '", room.as_str(), "': ");
            let text = head.concat(joined.as_str());
            send_to_client(client_id, text.as_str())
        },
        Directive::Kick { target } => {
            match target {
                None => send_to_client(client_id, "Usage: /kick <user>"),
                Some(t) => {
                    let fi = find_client(&state.clients, client_id);
                    if fi.is_none() {
                        return Vec::new();
                    }
                    let me = fi.unwrap();
                    proof {
                        let cs = oldv.clients;
                        let j = choose|j: int| 0 <= j < cs.len() && cs[j].id == client_id;
                        assert(j == me) by {
                            if j < me {
                                assert(cs[j].id != cs[me as int].id);
                            } else if j > me {
                                assert(cs[me as int].id != cs[j].id);
                            }
                        }
                    }
                    if !state.clients[me].logged_in {
                        return send_to_client(client_id, "Only authenticated users can kick");
                    }
                    let tt = trim_str(t.as_str());
                    let my_name = state.clients[me].name.clone();
                    let my_room = state.clients[me].room.clone();
                    if eq_str_fold(tt, my_name.as_str()) {
                        return send_to_client(client_id, "You cannot kick yourself");
                    }
                    match find_in_room_by_name(&state.clients, my_room.as_str(), tt) {
                        None => {
                            let text2 = concat3("User '", tt, "' not found in your room");
                            send_to_client(client_id, text2.as_str())
                        },
                        Some(ti) => {
                            proof {
                                let cs = oldv.clients;
                                assert(room_member_named(cs, my_room@, tt@));
                                let k = choose|k: int|
                                    0 <= k < cs.len() && (#[trigger] cs[k]).room == my_room@
                                        && fold_seq(cs[k].name) == fold_seq(tt@);
                                assert(k == ti) by {
                                    if k < ti {
                                        assert(fold_seq(cs[k].name) != fold_seq(
                                            cs[ti as int].name,
                                        ));
                                    } else if k > ti {
                                        assert(fold_seq(cs[ti as int].name) != fold_seq(
                                            cs[k].name,
                                        ));
                                    }
                                }
                            }
                            let target_id = state.clients[ti].id;
                            let target_name = state.clients[ti].name.clone();
                            let removed = remove_client(&mut state.clients, target_id);
                            proof {
                                assert(removed is Some);
                            }
                            let announce = concat5(
                                "-- ",
                                target_name.as_str(),
                                " was kicked by ",
                                my_name.as_str(),
                                " --",
                            );
                            let mut fx = send_system_to_room(
                                state,
                                my_room.as_str(),
                                announce.as_str(),
                                now,
                            );
                            let ghost g1 = fx.deep_view();
                            let mut fx2 = send_user_list_to_room(state, my_room.as_str());
                            let ghost g2 = fx2.deep_view();
                            fx.append(&mut fx2);
                            proof {
                                assert(fx.deep_view() =~~= g1 + g2);
                            }
                            let ghost g12 = fx.deep_view();
                            let mut fx3: Vec<Effect> = Vec::new();
                            fx3.push(Effect::CloseSession { sid: target_id });
                            let ghost g3 = fx3.deep_view();
                            fx.append(&mut fx3);
                            proof {
                                assert(fx.deep_view() =~~= g12 + g3);
                            }
                            fx
                        },
                    }
                },
            }
        },
        Directive::Nudge => {
            if find_client(&state.clients, client_id).is_none() {
                return Vec::new();
            }
            let name = client_name_by_id(&state.clients, client_id);
            let room = get_client_room(&state.clients, client_id);
            let text = concat3("-- ", name.as_str(), " sent a nudge --");
            let mut fx = send_system_to_room(state, room.as_str(), text.as_str(), now);
            proof {
                lemma_upsert_deterministic(
                    oldv.rooms,
                    state.deep_view().rooms,
                    room@,
                    push_evict_spec(
                        room_log(oldv.rooms, room@),
                        sys_item_spec(oldv.next_msg_id, text@, now),
                    ),
                );
            }
            let ghost g1 = fx.deep_view();
            let mut fx2: Vec<Effect> = Vec::new();
            fx2.push(Effect::ToRoom { room: room.clone(), msg: Outgoing::Nudge { from: name } });
            let ghost g2 = fx2.deep_view();
            fx.append(&mut fx2);
            proof {
                assert(fx.deep_view() =~~= g1 + g2);
            }
            fx
        },
        Directive::Stats => {
            let nc = u64_to_string(state.clients.len() as u64);
            let nr = u64_to_string(state.rooms.len() as u64);
            let text = concat3("Clients: ", nc.as_str(), ", Rooms: ").concat(nr.as_str());
            send_to_client(client_id, text.as_str())
        },
        Directive::Unknown => send_to_client(
            client_id,
            "Unknown command. Type /help for available commands.",
        ),
    }
}

} // verus!
