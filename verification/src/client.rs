//! Connection lifecycle: the phase machine, the unauthenticated phase, the
//! activation of a session into the registry, the per-event handlers of the
//! active phase, and teardown.
use vstd::prelude::*;
use crate::auth::{register_user, verify_login, RegisterError};
use crate::commands::{handle_cmd_with_rooms, handle_message_with_rooms, send_to_client};
use crate::helpers::{client_by_id, client_name_by_id, find_client, free_name, get_client_room,
    has_client, make_unique_name, remove_client, sel_names};
use crate::rate_limit::{check_rate_limit, rate_allowed, rate_next};
use crate::room::{add_reaction, delete_message, edit_message, join_text, leave_text,
    lemma_upsert_deterministic, push_evict_spec, room_log, broadcast_read_receipt,
    send_history_to_client_room, send_system_to_room, send_user_list_to_room, sel_visible,
    sys_item_spec, upsert_spec};
use crate::text::{concat3, dec_rep, eq_str, fold_seq, has_tok2, has_tok3, split3, tok1, tok2,
    tok3, trim_spec, trim_str};
use crate::typing::{broadcast_typing_status, set_typing_status};
use crate::types::{clients_wf, Client, ClientV, Effect, EffectV, Incoming, Outgoing, OutgoingV,
    ServerState};

verus! {

/// The phases one connection passes through.
pub enum ConnPhase {
    Connecting,
    Unauthenticated,
    Active,
    Closed,
}

/// The events that drive a connection between phases.
pub enum ConnEvent {
    /// The socket finished its upgrade.
    SocketUpgraded,
    /// A name was chosen or credentials accepted.
    AuthSucceeded,
    /// The peer closed the connection in an orderly way.
    SocketClosed,
    /// The transport failed.
    SocketError,
    /// Another session forced this one out.
    Kicked,
}

/// The connection phase machine: upgrade leads into the unauthenticated
/// phase, successful authentication into the active phase, and closure,
/// error or a kick into the terminal phase, from which nothing leads out.
pub fn lifecycle_transition(p: ConnPhase, ev: ConnEvent) -> (q: ConnPhase)
    ensures
        p is Connecting && ev is SocketUpgraded ==> q is Unauthenticated,
        p is Unauthenticated && ev is AuthSucceeded ==> q is Active,
        p is Unauthenticated && (ev is SocketClosed || ev is SocketError) ==> q is Closed,
        p is Active && (ev is SocketClosed || ev is SocketError || ev is Kicked) ==> q is Closed,
        p is Closed ==> q is Closed,
        p is Connecting && !(ev is SocketUpgraded) ==> q is Connecting,
        p is Unauthenticated && (ev is SocketUpgraded || ev is Kicked) ==> q is Unauthenticated,
        p is Active && (ev is SocketUpgraded || ev is AuthSucceeded) ==> q is Active,
{
    match (p, ev) {
        (ConnPhase::Connecting, ConnEvent::SocketUpgraded) => ConnPhase::Unauthenticated,
        (ConnPhase::Connecting, _) => ConnPhase::Connecting,
        (ConnPhase::Unauthenticated, ConnEvent::AuthSucceeded) => ConnPhase::Active,
        (ConnPhase::Unauthenticated, ConnEvent::SocketClosed) => ConnPhase::Closed,
        (ConnPhase::Unauthenticated, ConnEvent::SocketError) => ConnPhase::Closed,
        (ConnPhase::Unauthenticated, _) => ConnPhase::Unauthenticated,
        (ConnPhase::Active, ConnEvent::SocketClosed) => ConnPhase::Closed,
        (ConnPhase::Active, ConnEvent::SocketError) => ConnPhase::Closed,
        (ConnPhase::Active, ConnEvent::Kicked) => ConnPhase::Closed,
        (ConnPhase::Active, _) => ConnPhase::Active,
        (ConnPhase::Closed, _) => ConnPhase::Closed,
    }
}

/// The terminal phase is terminal: no event leads out of it.
pub proof fn lemma_closed_is_terminal(ev: ConnEvent)
    ensures
        forall|q: ConnPhase|
            call_ensures(lifecycle_transition, (ConnPhase::Closed, ev), q) ==> q is Closed,
{
}

/// What one inbound envelope does during the unauthenticated phase.
pub enum AuthStep {
    /// The connection stays unauthenticated.
    Stay,
    /// The connection may activate a session under this name.
    Proceed { name: String, logged_in: bool },
}

/// Drives the unauthenticated phase one step: only a successful `/name`,
/// `/register` or `/login` directive leads onward; everything else draws a
/// reminder or usage reply and stays. Only `/register` can change state, and
/// only the account store.
pub fn auth_phase_step(state: &mut ServerState, conn_id: u64, msg: &Incoming) -> (r: (
    AuthStep,
    Vec<Effect>,
))
    requires
        old(state).wf(),
        old(state).deep_view().clients.len() + 2 <= u64::MAX,
    ensures
        final(state).wf(),
        final(state).deep_view().clients == old(state).deep_view().clients,
        final(state).deep_view().rooms == old(state).deep_view().rooms,
        final(state).deep_view().privates == old(state).deep_view().privates,
        final(state).deep_view().next_msg_id == old(state).deep_view().next_msg_id,
        !(msg matches Incoming::Cmd { cmd: _ }) ==> final(state).deep_view() == old(state).deep_view() && r.0 is Stay,
        msg matches Incoming::Msg { text: _ } ==> r.1.deep_view() =~~= seq![
            EffectV::ToSession {
                sid: conn_id,
                msg: OutgoingV::System {
                    text: "Please choose a name or login/register before sending messages."@,
                },
            },
        ],
        (msg matches Incoming::Typing { is_typing: _ } || msg matches Incoming::React {
            msg_id: _,
            emoji: _,
        } || msg matches Incoming::Edit { msg_id: _, new_text: _ } || msg
            matches Incoming::Delete { msg_id: _ } || msg matches Incoming::MarkRead {
            last_msg_id: _,
        }) ==> r.1@.len() == 0,
        r.0 matches AuthStep::Proceed { name, logged_in: _ } ==> free_name(
            old(state).deep_view().clients,
            name@,
        ),
        // only /name, /register and /login lead onward
        msg matches Incoming::Cmd { cmd } ==> (r.0 is Proceed ==> (tok1(cmd@) == "/name"@
            || tok1(cmd@) == "/register"@ || tok1(cmd@) == "/login"@)),
        // a plain name choice proceeds unauthenticated
        msg matches Incoming::Cmd { cmd } ==> ((tok1(cmd@) == "/name"@ && has_tok2(cmd@)
            && trim_spec(tok2(cmd@)).len() > 0) ==> (r.0 matches AuthStep::Proceed {
            name: _,
            logged_in,
        } && !logged_in)),
        // accepted credentials proceed authenticated
        msg matches Incoming::Cmd { cmd } ==> ((tok1(cmd@) == "/login"@ && has_tok3(cmd@)
            && crate::auth::has_user(old(state).deep_view().users, trim_spec(tok2(cmd@)))
            && crate::auth::bcrypt_check(
            trim_spec(tok3(cmd@)),
            crate::auth::user_hash(old(state).deep_view().users, trim_spec(tok2(cmd@))),
        ) == Some(true)) ==> (r.0 matches AuthStep::Proceed { name: _, logged_in } && logged_in)),
        // rejected credentials stay, with the refusal alone
        msg matches Incoming::Cmd { cmd } ==> ((tok1(cmd@) == "/login"@ && has_tok3(cmd@)
            && !(crate::auth::has_user(old(state).deep_view().users, trim_spec(tok2(cmd@)))
            && crate::auth::bcrypt_check(
            trim_spec(tok3(cmd@)),
            crate::auth::user_hash(old(state).deep_view().users, trim_spec(tok2(cmd@))),
        ) == Some(true))) ==> (r.0 is Stay && r.1.deep_view() =~~= seq![
            EffectV::ToSession {
                sid: conn_id,
                msg: OutgoingV::System {
                    text: "Login failed: invalid username or password"@,
                },
            },
        ])),
        // a taken username cannot register and nothing changes
        msg matches Incoming::Cmd { cmd } ==> ((tok1(cmd@) == "/register"@ && has_tok3(cmd@)
            && crate::auth::has_user(old(state).deep_view().users, trim_spec(tok2(cmd@)))) ==> (
        r.0 is Stay && final(state).deep_view() == old(state).deep_view())),
        // only /register can touch the account store
        msg matches Incoming::Cmd { cmd } ==> (tok1(cmd@) != "/register"@ ==> final(state).deep_view() == old(state).deep_view()),
        // an incomplete /register draws only the usage reply
        msg matches Incoming::Cmd { cmd } ==> ((tok1(cmd@) == "/register"@ && !has_tok3(cmd@))
            ==> r.0 is Stay && final(state).deep_view() == old(state).deep_view()),
        // a fresh username either registers, proceeding authenticated with
        // the salted hash stored, or the hasher fails and nothing changes
        msg matches Incoming::Cmd { cmd } ==> ((tok1(cmd@) == "/register"@ && has_tok3(cmd@)
            && !crate::auth::has_user(old(state).deep_view().users, trim_spec(tok2(cmd@)))) ==> (
        (r.0 matches AuthStep::Proceed { name: _, logged_in } && logged_in && (exists|
            h: Seq<char>,
        |
            h.len() == 60 && final(state).deep_view().users == old(state).deep_view().users.push(
                crate::types::UserEntryV {
                    username: trim_spec(tok2(cmd@)),
                    password_hash: h,
                },
            ))) || (r.0 is Stay && final(state).deep_view() == old(state).deep_view()
            && r.1.deep_view() =~~= seq![
            EffectV::ToSession {
                sid: conn_id,
                msg: OutgoingV::System { text: "Register failed: "@ + "hash error"@ },
            },
        ]))),
        // any other directive draws the reminder and stays
        msg matches Incoming::Cmd { cmd } ==> ((tok1(cmd@) != "/name"@ && tok1(cmd@)
            != "/register"@ && tok1(cmd@) != "/login"@) ==> (r.0 is Stay && final(state).deep_view() == old(state).deep_view() && r.1.deep_view() =~~= seq![
            EffectV::ToSession {
                sid: conn_id,
                msg: OutgoingV::System {
                    text: "Please choose a name or login/register first."@,
                },
            },
        ])),
{
    proof {
        reveal_strlit("/name");
        reveal_strlit("/register");
        reveal_strlit("/login");
    }
    match msg {
        Incoming::Cmd { cmd } => {
            let (head, arg1, arg2) = split3(cmd.as_str());
            if eq_str(head.as_str(), "/name") {
                match arg1 {
                    Some(n) => {
                        let t = trim_str(n.as_str());
                        if t.unicode_len() == 0 {
                            proof {
                                assert(head@ == "/name"@);
                                assert("/name"@ !~= "/login"@);
                                assert("/name"@ !~= "/register"@);
                            }
                            return (AuthStep::Stay, send_to_client(conn_id, "Usage: /name <username>"));
                        }
                        let unique = make_unique_name(&state.clients, t);
                        let reply = concat3(
                            "Your name is '",
                            unique.as_str(),
                            "'. You are not authenticated.",
                        );
                        let fx = send_to_client(conn_id, reply.as_str());
                        (AuthStep::Proceed { name: unique, logged_in: false }, fx)
                    },
                    None => (AuthStep::Stay, send_to_client(conn_id, "Usage: /name <username>")),
                }
            } else if eq_str(head.as_str(), "/register") {
                match (arg1, arg2) {
                    (Some(u), Some(p)) => {
                        let ut = trim_str(u.as_str());
                        let pt = trim_str(p.as_str());
                        match register_user(&mut state.users, ut, pt) {
                            Ok(()) => {
                                let unique = make_unique_name(&state.clients, ut);
                                let reply = concat3(
                                    "Registered and logged in as '",
                                    unique.as_str(),
                                    "'",
                                );
                                let fx = send_to_client(conn_id, reply.as_str());
                                (AuthStep::Proceed { name: unique, logged_in: true }, fx)
                            },
                            Err(e) => {
                                let m = e.message();
                                let reply = "Register failed: ".to_owned().concat(m.as_str());
                                (AuthStep::Stay, send_to_client(conn_id, reply.as_str()))
                            },
                        }
                    },
                    _ => (
                        AuthStep::Stay,
                        send_to_client(conn_id, "Usage: /register <username> <password>"),
                    ),
                }
            } else if eq_str(head.as_str(), "/login") {
                match (arg1, arg2) {
                    (Some(u), Some(p)) => {
                        let ut = trim_str(u.as_str());
                        let pt = trim_str(p.as_str());
                        if verify_login(&state.users, ut, pt) {
                            let unique = make_unique_name(&state.clients, ut);
                            let reply = concat3("Logged in as '", unique.as_str(), "'");
                            let fx = send_to_client(conn_id, reply.as_str());
                            (AuthStep::Proceed { name: unique, logged_in: true }, fx)
                        } else {
                            (
                                AuthStep::Stay,
                                send_to_client(
                                    conn_id,
                                    "Login failed: invalid username or password",
                                ),
                            )
                        }
                    },
                    _ => (
                        AuthStep::Stay,
                        send_to_client(conn_id, "Usage: /login <username> <password>"),
                    ),
                }
            } else {
                (
                    AuthStep::Stay,
                    send_to_client(
                        conn_id,
                        "Please choose a name or login/register first.",
                    ),
                )
            }
        },
        Incoming::Msg { text: _ } => (
            AuthStep::Stay,
            send_to_client(
                conn_id,
                "Please choose a name or login/register before sending messages.",
            ),
        ),
        _ => (AuthStep::Stay, Vec::new()),
    }
}

/// Activates a session: the chosen name is made unique against the live
/// sessions, the session is registered under the default room, the join is
/// announced there, and the newcomer receives the room history and the
/// fresh user list.
pub fn activate_session(
    state: &mut ServerState,
    conn_id: u64,
    desired_name: &str,
    logged_in: bool,
    now: u64,
) -> (r: Vec<Effect>)
    requires
        old(state).wf(),
        !has_client(old(state).deep_view().clients, conn_id),
        old(state).next_msg_id < u64::MAX,
        old(state).deep_view().clients.len() + 2 <= u64::MAX,
    ensures
        final(state).wf(),
        final(state).deep_view().privates == old(state).deep_view().privates,
        final(state).deep_view().users == old(state).deep_view().users,
        final(state).deep_view().next_msg_id == old(state).deep_view().next_msg_id + 1,
        exists|nm: Seq<char>|
            #![trigger fold_seq(nm)]
            {
                &&& free_name(old(state).deep_view().clients, nm)
                &&& (fold_seq(nm) == fold_seq(desired_name@) || (exists|k: nat|
                    fold_seq(nm) == crate::helpers::cand_fold(desired_name@, k)))
                &&& final(state).deep_view().clients == old(state).deep_view().clients.push(
                    ClientV {
                        id: conn_id,
                        name: nm,
                        logged_in,
                        room: "lobby"@,
                        last_message_times: Seq::empty(),
                        is_typing: false,
                        last_read_msg_id: None,
                        last_active: now,
                    },
                )
                &&& final(state).deep_view().rooms == upsert_spec(
                    old(state).deep_view().rooms,
                    "lobby"@,
                    push_evict_spec(
                        room_log(old(state).deep_view().rooms, "lobby"@),
                        sys_item_spec(old(state).next_msg_id, join_text(nm), now),
                    ),
                )
                &&& r.deep_view() =~~= seq![
                    EffectV::ToRoom {
                        room: "lobby"@,
                        msg: OutgoingV::System { text: join_text(nm) },
                    },
                    EffectV::ToSession {
                        sid: conn_id,
                        msg: OutgoingV::History {
                            items: sel_visible(
                                room_log(final(state).deep_view().rooms, "lobby"@),
                            ),
                        },
                    },
                    EffectV::ToRoom {
                        room: "lobby"@,
                        msg: OutgoingV::List {
                            users: sel_names(final(state).deep_view().clients, "lobby"@),
                        },
                    },
                ]
            },
{
    let ghost oldv = old(state).deep_view();
    let unique = make_unique_name(&state.clients, desired_name);
    let client = Client {
        id: conn_id,
        name: unique.clone(),
        logged_in,
        room: "lobby".to_owned(),
        last_message_times: Vec::new(),
        is_typing: false,
        last_read_msg_id: None,
        last_active: now,
    };
    state.clients.push(client);
    proof {
        let cs2 = state.deep_view().clients;
        assert(cs2 =~~= oldv.clients.push(
            ClientV {
                id: conn_id,
                name: unique@,
                logged_in,
                room: "lobby"@,
                last_message_times: Seq::empty(),
                is_typing: false,
                last_read_msg_id: None,
                last_active: now,
            },
        ));
        assert(forall|k: int|
            0 <= k < oldv.clients.len() ==> cs2[k] == (#[trigger] oldv.clients[k]));
        assert forall|k: int, l: int| 0 <= k < l < cs2.len() implies cs2[k].id != cs2[l].id by {
            if l == cs2.len() - 1 {
                if cs2[k].id == conn_id {
                    assert(has_client(oldv.clients, conn_id));
                }
            }
        }
        assert forall|k: int, l: int| 0 <= k < l < cs2.len() implies fold_seq(cs2[k].name)
            != fold_seq(cs2[l].name) by {
            if l == cs2.len() - 1 {
                assert(fold_seq(oldv.clients[k].name) != fold_seq(unique@));
            }
        }
        assert(state.deep_view().rooms =~~= oldv.rooms);
        assert(state.deep_view().privates =~~= oldv.privates);
        assert(state.deep_view().users =~~= oldv.users);
    }
    let ghost mid = state.deep_view();
    let announce = concat3("-- ", unique.as_str(), " joined the room --");
    let mut fx = send_system_to_room(state, "lobby", announce.as_str(), now);
    proof {
        lemma_upsert_deterministic(
            mid.rooms,
            state.deep_view().rooms,
            "lobby"@,
            push_evict_spec(
                room_log(mid.rooms, "lobby"@),
                sys_item_spec(oldv.next_msg_id, announce@, now),
            ),
        );
    }
    let ghost g1 = fx.deep_view();
    let mut fx2 = send_history_to_client_room(state, conn_id, "lobby");
    let ghost g2 = fx2.deep_view();
    fx.append(&mut fx2);
    proof {
        assert(fx.deep_view() =~~= g1 + g2);
    }
    let ghost g12 = fx.deep_view();
    let mut fx3 = send_user_list_to_room(state, "lobby");
    let ghost g3 = fx3.deep_view();
    fx.append(&mut fx3);
    proof {
        assert(fx.deep_view() =~~= g12 + g3);
        assert(fold_seq(unique@) == fold_seq(unique@));
    }
    fx
}

/// Tears a session down: it leaves the registry, and its last room hears
/// the leave announcement and sees the refreshed user list.
pub fn disconnect(state: &mut ServerState, client_id: u64, now: u64) -> (r: Vec<Effect>)
    requires
        old(state).wf(),
        old(state).next_msg_id < u64::MAX,
    ensures
        final(state).wf(),
        final(state).deep_view().privates == old(state).deep_view().privates,
        final(state).deep_view().users == old(state).deep_view().users,
        !has_client(old(state).deep_view().clients, client_id) ==> final(state).deep_view()
            == old(state).deep_view() && r@.len() == 0,
        has_client(old(state).deep_view().clients, client_id) ==> ({
            let cs = old(state).deep_view().clients;
            let name = client_by_id(cs, client_id).name;
            let room = client_by_id(cs, client_id).room;
            &&& final(state).deep_view().next_msg_id == old(state).deep_view().next_msg_id + 1
            &&& (exists|i: int|
                #![trigger cs[i]]
                0 <= i < cs.len() && cs[i].id == client_id && final(state).deep_view().clients
                    == cs.remove(i))
            &&& final(state).deep_view().rooms == upsert_spec(
                old(state).deep_view().rooms,
                room,
                push_evict_spec(
                    room_log(old(state).deep_view().rooms, room),
                    sys_item_spec(old(state).next_msg_id, leave_text(name), now),
                ),
            )
            &&& r.deep_view() =~~= seq![
                EffectV::ToRoom { room: room, msg: OutgoingV::System { text: leave_text(name) } },
                EffectV::ToRoom {
                    room: room,
                    msg: OutgoingV::List {
                        users: sel_names(final(state).deep_view().clients, room),
                    },
                },
            ]
        }),
{
    let ghost oldv = old(state).deep_view();
    let fi = find_client(&state.clients, client_id);
    if fi.is_none() {
        proof {
            assert(state.deep_view() =~~= oldv);
        }
        return Vec::new();
    }
    let i = fi.unwrap();
    proof {
        let j = choose|j: int| 0 <= j < oldv.clients.len() && oldv.clients[j].id == client_id;
        assert(j == i) by {
            if j < i {
                assert(oldv.clients[j].id != oldv.clients[i as int].id);
            } else if j > i {
                assert(oldv.clients[i as int].id != oldv.clients[j].id);
            }
        }
    }
    let name = state.clients[i].name.clone();
    let room = state.clients[i].room.clone();
    let removed = remove_client(&mut state.clients, client_id);
    let ghost mid = state.deep_view();
    let announce = concat3("-- ", name.as_str(), " left the room --");
    let mut fx = send_system_to_room(state, room.as_str(), announce.as_str(), now);
    proof {
        lemma_upsert_deterministic(
            mid.rooms,
            state.deep_view().rooms,
            room@,
            push_evict_spec(
                room_log(mid.rooms, room@),
                sys_item_spec(oldv.next_msg_id, announce@, now),
            ),
        );
    }
    let ghost g1 = fx.deep_view();
    let mut fx2 = send_user_list_to_room(state, room.as_str());
    let ghost g2 = fx2.deep_view();
    fx.append(&mut fx2);
    proof {
        assert(fx.deep_view() =~~= g1 + g2);
    }
    fx
}

/// The warning handed to a rate-limited sender.
pub open spec fn rate_limited_text() -> Seq<char> {
    "Rate limited: slow down! Max 5 messages per 10 seconds."@
}

/// One chat message in the active phase: the sliding window admits or drops
/// it; an admitted message clears the sender's typing flag and is stored
/// and broadcast; a dropped one draws only the private warning.
pub fn handle_chat_message(state: &mut ServerState, client_id: u64, text: &str, now: u64) -> (r:
    Vec<Effect>)
    requires
        old(state).wf(),
        old(state).next_msg_id < u64::MAX,
    ensures
        final(state).wf(),
        final(state).deep_view().privates == old(state).deep_view().privates,
        final(state).deep_view().users == old(state).deep_view().users,
        !has_client(old(state).deep_view().clients, client_id) ==> final(state).deep_view()
            == old(state).deep_view() && r@.len() == 0,
        has_client(old(state).deep_view().clients, client_id) ==> ({
            let cs = old(state).deep_view().clients;
            let me = client_by_id(cs, client_id);
            &&& (!rate_allowed(me.last_message_times, now) ==> {
                &&& final(state).deep_view().rooms == old(state).deep_view().rooms
                &&& final(state).deep_view().next_msg_id == old(state).deep_view().next_msg_id
                &&& (exists|i: int|
                    #![trigger cs[i]]
                    0 <= i < cs.len() && cs[i].id == client_id && final(state).deep_view().clients == cs.update(
                        i,
                        ClientV { last_message_times: rate_next(me.last_message_times, now), ..cs[i] },
                    ))
                &&& r.deep_view() =~~= seq![
                    EffectV::ToSession {
                        sid: client_id,
                        msg: OutgoingV::System { text: rate_limited_text() },
                    },
                ]
            })
            &&& (rate_allowed(me.last_message_times, now) ==> {
                &&& final(state).deep_view().next_msg_id == old(state).deep_view().next_msg_id
                    + 1
                &&& final(state).deep_view().rooms == upsert_spec(
                    old(state).deep_view().rooms,
                    me.room,
                    push_evict_spec(
                        room_log(old(state).deep_view().rooms, me.room),
                        crate::room::chat_item_spec(old(state).next_msg_id, me.name, text@, now),
                    ),
                )
                &&& (exists|i: int|
                    #![trigger cs[i]]
                    0 <= i < cs.len() && cs[i].id == client_id && final(state).deep_view().clients == cs.update(
                        i,
                        ClientV {
                            last_message_times: rate_next(me.last_message_times, now),
                            is_typing: false,
                            ..cs[i]
                        },
                    ))
                &&& r.deep_view() =~~= seq![
                    EffectV::ToRoom {
                        room: me.room,
                        msg: OutgoingV::Msg {
                            id: old(state).next_msg_id,
                            from: me.name,
                            text: text@,
                            ts: now,
                            reactions: Seq::empty(),
                            edited: false,
                        },
                    },
                ] + crate::room::mention_fx(
                    final(state).deep_view().clients,
                    crate::text::mentions_of(text@),
                    me.room,
                    me.name,
                    text@,
                )
            })
        }),
{
    let ghost oldv = old(state).deep_view();
    let fi = find_client(&state.clients, client_id);
    if fi.is_none() {
        proof {
            assert(state.deep_view() =~~= oldv);
        }
        return Vec::new();
    }
    let i = fi.unwrap();
    proof {
        let j = choose|j: int| 0 <= j < oldv.clients.len() && oldv.clients[j].id == client_id;
        assert(j == i) by {
            if j < i {
                assert(oldv.clients[j].id != oldv.clients[i as int].id);
            } else if j > i {
                assert(oldv.clients[i as int].id != oldv.clients[j].id);
            }
        }
    }
    let mut c = state.clients.remove(i);
    let allowed = check_rate_limit(&mut c, now);
    if !allowed {
        state.clients.insert(i, c);
        proof {
            let cs2 = state.deep_view().clients;
            assert(cs2 =~~= oldv.clients.update(
                i as int,
                ClientV {
                    last_message_times: rate_next(
                        client_by_id(oldv.clients, client_id).last_message_times,
                        now,
                    ),
                    ..oldv.clients[i as int]
                },
            ));
            assert(forall|k: int|
                0 <= k < cs2.len() ==> (#[trigger] cs2[k]).id == oldv.clients[k].id);
            assert(forall|k: int|
                0 <= k < cs2.len() ==> (#[trigger] cs2[k]).name == oldv.clients[k].name);
            assert(state.deep_view().rooms =~~= oldv.rooms);
            assert(state.deep_view().privates =~~= oldv.privates);
            assert(state.deep_view().users =~~= oldv.users);
        }
        return send_to_client(client_id, "Rate limited: slow down! Max 5 messages per 10 seconds.");
    }
    c.is_typing = false;
    state.clients.insert(i, c);
    proof {
        let cs2 = state.deep_view().clients;
        assert(cs2 =~~= oldv.clients.update(
            i as int,
            ClientV {
                last_message_times: rate_next(
                    client_by_id(oldv.clients, client_id).last_message_times,
                    now,
                ),
                is_typing: false,
                ..oldv.clients[i as int]
            },
        ));
        assert(forall|k: int|
            0 <= k < cs2.len() ==> (#[trigger] cs2[k]).id == oldv.clients[k].id);
        assert(forall|k: int|
            0 <= k < cs2.len() ==> (#[trigger] cs2[k]).name == oldv.clients[k].name);
        assert(has_client(cs2, client_id)) by {
            assert(cs2[i as int].id == client_id);
        }
        assert(client_by_id(cs2, client_id) == cs2[i as int]) by {
            let j = choose|j: int| 0 <= j < cs2.len() && cs2[j].id == client_id;
            if j < i {
                assert(cs2[j].id != cs2[i as int].id);
            } else if j > i {
                assert(cs2[i as int].id != cs2[j].id);
            }
        }
        assert(state.deep_view().rooms =~~= oldv.rooms);
        assert(state.deep_view().privates =~~= oldv.privates);
        assert(state.deep_view().users =~~= oldv.users);
    }
    let fx = handle_message_with_rooms(state, client_id, text, now);
    proof {
        let me = client_by_id(oldv.clients, client_id);
        assert(fx.deep_view() =~~= seq![
            EffectV::ToRoom {
                room: me.room,
                msg: OutgoingV::Msg {
                    id: oldv.next_msg_id,
                    from: me.name,
                    text: text@,
                    ts: now,
                    reactions: Seq::empty(),
                    edited: false,
                },
            },
        ] + crate::room::mention_fx(
            state.deep_view().clients,
            crate::text::mentions_of(text@),
            me.room,
            me.name,
            text@,
        ));
    }
    fx
}

/// A typing-state change: the session's flag is set and the room's list of
/// typers is recomputed and broadcast.
pub fn handle_typing(state: &mut ServerState, client_id: u64, is_typing: bool) -> (r: Vec<Effect>)
    requires
        old(state).wf(),
    ensures
        final(state).wf(),
        final(state).deep_view().rooms == old(state).deep_view().rooms,
        final(state).deep_view().privates == old(state).deep_view().privates,
        final(state).deep_view().users == old(state).deep_view().users,
        final(state).deep_view().next_msg_id == old(state).deep_view().next_msg_id,
        !has_client(old(state).deep_view().clients, client_id) ==> final(state).deep_view().clients == old(state).deep_view().clients,
        has_client(old(state).deep_view().clients, client_id) ==> (exists|i: int|
            #![trigger old(state).deep_view().clients[i]]
            {
                let cs = old(state).deep_view().clients;
                &&& 0 <= i < cs.len()
                &&& cs[i].id == client_id
                &&& final(state).deep_view().clients == cs.update(
                    i,
                    ClientV { is_typing, ..cs[i] },
                )
            }),
        r@.len() == 1,
        ({
            let cs2 = final(state).deep_view().clients;
            let room = if has_client(cs2, client_id) {
                client_by_id(cs2, client_id).room
            } else {
                Seq::<char>::empty()
            };
            r@[0] matches Effect::ToRoom { room: rn, msg: Outgoing::Typing { users } } && rn@
                == room && users.deep_view() == crate::typing::sel_typing_names(cs2, room)
        }),
{
    set_typing_status(&mut state.clients, client_id, is_typing);
    proof {
        assert(state.deep_view().rooms =~~= old(state).deep_view().rooms);
        assert(state.deep_view().privates =~~= old(state).deep_view().privates);
        assert(state.deep_view().users =~~= old(state).deep_view().users);
    }
    broadcast_typing_status(&state.clients, client_id)
}

/// A reaction toggle from the active phase, resolved against the sender's
/// current room: with an identifier unknown there, nothing changes and the
/// requester alone is told; otherwise the toggled entry and the broadcast
/// follow the toggle's exact semantics.
pub fn handle_reaction(state: &mut ServerState, client_id: u64, msg_id: u64, emoji: &str) -> (r:
    Vec<Effect>)
    requires
        old(state).wf(),
    ensures
        final(state).wf(),
        final(state).deep_view().clients == old(state).deep_view().clients,
        final(state).deep_view().privates == old(state).deep_view().privates,
        final(state).deep_view().users == old(state).deep_view().users,
        final(state).deep_view().next_msg_id == old(state).deep_view().next_msg_id,
        ({
            let cs = old(state).deep_view().clients;
            let me_room = if has_client(cs, client_id) {
                client_by_id(cs, client_id).room
            } else {
                "lobby"@
            };
            !crate::room::log_has_msg(
                room_log(old(state).deep_view().rooms, me_room),
                msg_id,
            ) ==> final(state).deep_view() == old(state).deep_view() && r.deep_view() =~~= seq![
                EffectV::ToSession {
                    sid: client_id,
                    msg: OutgoingV::System { text: "Cannot react to this message"@ },
                },
            ]
        }),
        ({
            let cs = old(state).deep_view().clients;
            let me_room = if has_client(cs, client_id) {
                client_by_id(cs, client_id).room
            } else {
                "lobby"@
            };
            let me_name = if has_client(cs, client_id) {
                client_by_id(cs, client_id).name
            } else {
                dec_rep(client_id as nat)
            };
            crate::room::log_has_msg(
                room_log(old(state).deep_view().rooms, me_room),
                msg_id,
            ) ==> (exists|ri: int, j: int|
                #![trigger old(state).deep_view().rooms[ri].log[j]]
                {
                    let rooms = old(state).deep_view().rooms;
                    &&& 0 <= ri < rooms.len()
                    &&& rooms[ri].name == me_room
                    &&& 0 <= j < rooms[ri].log.len()
                    &&& rooms[ri].log[j].id == msg_id
                    &&& final(state).deep_view().rooms == rooms.update(
                        ri,
                        crate::types::RoomV {
                            name: rooms[ri].name,
                            log: rooms[ri].log.update(
                                j,
                                crate::room::toggle_spec(rooms[ri].log[j], emoji@, me_name),
                            ),
                        },
                    )
                    &&& r@.len() == 1
                    &&& (r@[0] matches Effect::ToRoom { room: rn, msg: m } && rn@ == me_room && (
                    m matches Outgoing::Reaction { msg_id: mid, emoji: e, user: u, added } && mid
                        == msg_id && e@ == emoji@ && u@ == me_name && added
                        == crate::room::toggle_added(rooms[ri].log[j], emoji@, me_name)))
                })
        }),
{
    let room = get_client_room(&state.clients, client_id);
    let name = client_name_by_id(&state.clients, client_id);
    let fx = add_reaction(state, room.as_str(), msg_id, emoji, name.as_str());
    if fx.is_empty() {
        // per the error taxonomy, an unknown identifier draws a private
        // not-found notice
        return send_to_client(client_id, "Cannot react to this message");
    }
    fx
}

/// An edit request from the active phase: it succeeds exactly when the
/// sender's current room holds the identifier under the sender's own name;
/// otherwise the state is unchanged and the requester alone is told.
pub fn handle_edit(state: &mut ServerState, client_id: u64, msg_id: u64, new_text: &str) -> (r:
    Vec<Effect>)
    requires
        old(state).wf(),
    ensures
        final(state).wf(),
        final(state).deep_view().clients == old(state).deep_view().clients,
        final(state).deep_view().privates == old(state).deep_view().privates,
        final(state).deep_view().users == old(state).deep_view().users,
        final(state).deep_view().next_msg_id == old(state).deep_view().next_msg_id,
        ({
            let cs = old(state).deep_view().clients;
            let me_room = if has_client(cs, client_id) {
                client_by_id(cs, client_id).room
            } else {
                "lobby"@
            };
            let me_name = if has_client(cs, client_id) {
                client_by_id(cs, client_id).name
            } else {
                dec_rep(client_id as nat)
            };
            let ok = crate::room::log_has_own_msg(
                room_log(old(state).deep_view().rooms, me_room),
                msg_id,
                me_name,
            );
            &&& (!ok ==> final(state).deep_view() == old(state).deep_view() && r.deep_view()
                =~~= seq![
                EffectV::ToSession {
                    sid: client_id,
                    msg: OutgoingV::System { text: "Cannot edit this message"@ },
                },
            ])
            &&& (ok ==> r.deep_view() =~~= seq![
                EffectV::ToRoom {
                    room: me_room,
                    msg: OutgoingV::Edit { msg_id, new_text: new_text@ },
                },
            ])
        }),
{
    let room = get_client_room(&state.clients, client_id);
    let name = client_name_by_id(&state.clients, client_id);
    let (edited, fx) = edit_message(state, room.as_str(), msg_id, new_text, name.as_str());
    if edited {
        fx
    } else {
        send_to_client(client_id, "Cannot edit this message")
    }
}

/// A deletion request from the active phase: it succeeds exactly when the
/// sender's current room holds the identifier under the sender's own name;
/// otherwise the state is unchanged and the requester alone is told.
pub fn handle_delete(state: &mut ServerState, client_id: u64, msg_id: u64) -> (r: Vec<Effect>)
    requires
        old(state).wf(),
    ensures
        final(state).wf(),
        final(state).deep_view().clients == old(state).deep_view().clients,
        final(state).deep_view().privates == old(state).deep_view().privates,
        final(state).deep_view().users == old(state).deep_view().users,
        final(state).deep_view().next_msg_id == old(state).deep_view().next_msg_id,
        ({
            let cs = old(state).deep_view().clients;
            let me_room = if has_client(cs, client_id) {
                client_by_id(cs, client_id).room
            } else {
                "lobby"@
            };
            let me_name = if has_client(cs, client_id) {
                client_by_id(cs, client_id).name
            } else {
                dec_rep(client_id as nat)
            };
            let ok = crate::room::log_has_own_msg(
                room_log(old(state).deep_view().rooms, me_room),
                msg_id,
                me_name,
            );
            &&& (!ok ==> final(state).deep_view() == old(state).deep_view() && r.deep_view()
                =~~= seq![
                EffectV::ToSession {
                    sid: client_id,
                    msg: OutgoingV::System { text: "Cannot delete this message"@ },
                },
            ])
            &&& (ok ==> r.deep_view() =~~= seq![
                EffectV::ToRoom { room: me_room, msg: OutgoingV::Delete { msg_id } },
            ])
        }),
{
    let room = get_client_room(&state.clients, client_id);
    let name = client_name_by_id(&state.clients, client_id);
    let (deleted, fx) = delete_message(state, room.as_str(), msg_id, name.as_str());
    if deleted {
        fx
    } else {
        send_to_client(client_id, "Cannot delete this message")
    }
}

/// A read marker: the session's last-read identifier is recorded and a read
/// receipt goes to its room.
pub fn handle_mark_read(state: &mut ServerState, client_id: u64, last_msg_id: u64) -> (r: Vec<
    Effect,
>)
    requires
        old(state).wf(),
    ensures
        final(state).wf(),
        final(state).deep_view().rooms == old(state).deep_view().rooms,
        final(state).deep_view().privates == old(state).deep_view().privates,
        final(state).deep_view().users == old(state).deep_view().users,
        final(state).deep_view().next_msg_id == old(state).deep_view().next_msg_id,
        !has_client(old(state).deep_view().clients, client_id) ==> final(state).deep_view()
            == old(state).deep_view() && r@.len() == 0,
        has_client(old(state).deep_view().clients, client_id) ==> ({
            let cs = old(state).deep_view().clients;
            let me = client_by_id(cs, client_id);
            &&& (exists|i: int|
                #![trigger cs[i]]
                0 <= i < cs.len() && cs[i].id == client_id && final(state).deep_view().clients
                    == cs.update(i, ClientV { last_read_msg_id: Some(last_msg_id), ..cs[i] }))
            &&& r.deep_view() =~~= seq![
                EffectV::ToRoom {
                    room: me.room,
                    msg: OutgoingV::ReadReceipt { user: me.name, last_msg_id },
                },
            ]
        }),
{
    let ghost oldv = old(state).deep_view();
    let fi = find_client(&state.clients, client_id);
    if fi.is_none() {
        proof {
            assert(state.deep_view() =~~= oldv);
        }
        return Vec::new();
    }
    let i = fi.unwrap();
    proof {
        let j = choose|j: int| 0 <= j < oldv.clients.len() && oldv.clients[j].id == client_id;
        assert(j == i) by {
            if j < i {
                assert(oldv.clients[j].id != oldv.clients[i as int].id);
            } else if j > i {
                assert(oldv.clients[i as int].id != oldv.clients[j].id);
            }
        }
    }
    let name = state.clients[i].name.clone();
    let room = state.clients[i].room.clone();
    let mut c = state.clients.remove(i);
    c.last_read_msg_id = Some(last_msg_id);
    state.clients.insert(i, c);
    proof {
        let cs2 = state.deep_view().clients;
        assert(cs2 =~~= oldv.clients.update(
            i as int,
            ClientV { last_read_msg_id: Some(last_msg_id), ..oldv.clients[i as int] },
        ));
        assert(forall|k: int|
            0 <= k < cs2.len() ==> (#[trigger] cs2[k]).id == oldv.clients[k].id);
        assert(forall|k: int|
            0 <= k < cs2.len() ==> (#[trigger] cs2[k]).name == oldv.clients[k].name);
        assert(state.deep_view().rooms =~~= oldv.rooms);
        assert(state.deep_view().privates =~~= oldv.privates);
        assert(state.deep_view().users =~~= oldv.users);
    }
    broadcast_read_receipt(room.as_str(), name.as_str(), last_msg_id)
}

} // verus!
