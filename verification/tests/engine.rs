//! End-to-end engine scenarios: joining, broadcasting, mentions, private
//! messages, reactions, edits, deletion, eviction, kicks and snapshots.
use chat_core::client::{activate_session, auth_phase_step, disconnect, handle_chat_message,
    handle_delete, handle_edit, handle_mark_read, handle_reaction, handle_typing, AuthStep};
use chat_core::commands::handle_cmd_with_rooms;
use chat_core::room::{load_history, save_history};
use chat_core::types::{Effect, Incoming, Outgoing, Room, ServerState};

/// The texts of the chat events a session in the given room would receive.
fn room_msgs<'a>(fx: &'a [Effect], room: &str) -> Vec<&'a Outgoing> {
    fx.iter()
        .filter_map(|e| match e {
            Effect::ToRoom { room: r, msg } if r == room => Some(msg),
            _ => None,
        })
        .collect()
}

fn session_msgs<'a>(fx: &'a [Effect], sid: u64) -> Vec<&'a Outgoing> {
    fx.iter()
        .filter_map(|e| match e {
            Effect::ToSession { sid: s, msg } if *s == sid => Some(msg),
            _ => None,
        })
        .collect()
}

fn log_of<'a>(state: &'a ServerState, room: &str) -> &'a Room {
    state.rooms.iter().find(|r| r.name == room).expect("room missing")
}

#[test]
fn broadcast_scenario() {
    // Client A joins the default room and greets it; every session of that
    // room is addressed, and A's message lands in the log with a fresh id.
    let mut st = ServerState::new();
    let fx_a = activate_session(&mut st, 1, "alice", false, 10);
    assert!(matches!(fx_a[0], Effect::ToRoom { ref room, msg: Outgoing::System { .. } } if room == "lobby"));
    let fx_hello = handle_chat_message(&mut st, 1, "hello", 11);
    let to_lobby = room_msgs(&fx_hello, "lobby");
    assert_eq!(to_lobby.len(), 1);
    let (hello_id, author, body) = match to_lobby[0] {
        Outgoing::Msg { id, from, text, .. } => (*id, from.clone(), text.clone()),
        _ => panic!("expected a chat event"),
    };
    assert_eq!(author, "alice");
    assert_eq!(body, "hello");

    // B joins the same room and receives the history holding that message.
    let fx_b = activate_session(&mut st, 2, "bob", false, 12);
    let hist = session_msgs(&fx_b, 2);
    let items = match hist[0] {
        Outgoing::History { items } => items,
        _ => panic!("expected history"),
    };
    assert!(items.iter().any(|m| m.id == hello_id && m.text == "hello"));

    // A edits the message: an edit event with the unchanged id and the new
    // body goes to the room, and the stored entry now carries it.
    let fx_edit = handle_edit(&mut st, 1, hello_id, "hello, world");
    assert!(matches!(fx_edit[0],
        Effect::ToRoom { ref room, msg: Outgoing::Edit { msg_id, ref new_text } }
            if room == "lobby" && msg_id == hello_id && new_text == "hello, world"));
    let entry = log_of(&st, "lobby").log.iter().find(|m| m.id == hello_id).unwrap();
    assert_eq!(entry.text, "hello, world");
    assert!(entry.edited);

    // C sits in a different room: none of those deliveries can reach it,
    // because each was addressed to the lobby or to A or B.
    let mut st2 = ServerState::new();
    activate_session(&mut st2, 3, "carol", false, 13);
    let fx_c = handle_cmd_with_rooms(&mut st2, 3, "/join den", 14);
    assert!(!fx_c.is_empty());
    for e in fx_hello.iter().chain(fx_edit.iter()) {
        match e {
            Effect::ToRoom { room, .. } => assert_ne!(room, "den"),
            Effect::ToSession { sid, .. } => assert!(*sid == 1 || *sid == 2),
            _ => panic!("unexpected delivery kind"),
        }
    }
}

#[test]
fn mention_notice() {
    let mut st = ServerState::new();
    activate_session(&mut st, 1, "alice", false, 1);
    activate_session(&mut st, 2, "bob", false, 2);
    let fx = handle_chat_message(&mut st, 1, "ping @Bob", 3);
    let to_bob = session_msgs(&fx, 2);
    assert!(matches!(to_bob[0],
        Outgoing::Mention { from, text, mentioned }
            if from == "alice" && text == "ping @Bob" && mentioned == "Bob"));
}

#[test]
fn private_message_scenario() {
    // A sends `/msg bob secret` while sharing the lobby with B: B receives a
    // private chat event, the public log never holds the body, and the
    // private store keyed by the pair does.
    let mut st = ServerState::new();
    activate_session(&mut st, 1, "alice", false, 1);
    activate_session(&mut st, 2, "bob", false, 2);
    let fx = handle_cmd_with_rooms(&mut st, 1, "/msg bob secret", 3);
    assert_eq!(fx.len(), 1);
    assert!(matches!(fx[0],
        Effect::ToSession { sid: 2, msg: Outgoing::Msg { ref from, ref text, .. } }
            if from == "alice" && text == "secret"));
    assert!(log_of(&st, "lobby").log.iter().all(|m| m.text != "secret"));
    assert_eq!(st.privates.len(), 1);
    let convo = &st.privates[0];
    let pair = (convo.user_a.as_str(), convo.user_b.as_str());
    assert!(pair == ("alice", "bob") || pair == ("bob", "alice"));
    assert!(convo.log.iter().any(|m| m.text == "secret" && m.from == "alice"));
}

#[test]
fn private_message_unknown_recipient() {
    let mut st = ServerState::new();
    activate_session(&mut st, 1, "alice", false, 1);
    let fx = handle_cmd_with_rooms(&mut st, 1, "/msg ghost hello", 2);
    assert!(matches!(fx[0],
        Effect::ToSession { sid: 1, msg: Outgoing::System { ref text } }
            if text == "User 'ghost' not found in your room"));
    assert!(st.privates.is_empty());
}

#[test]
fn eviction_at_capacity() {
    // Appending the 201st message evicts exactly the oldest entry and the
    // survivors keep their order.
    let mut st = ServerState::new();
    activate_session(&mut st, 1, "alice", false, 0);
    for i in 0..200u64 {
        // spaced past the rate window so every send is accepted
        handle_chat_message(&mut st, 1, &format!("m{}", i), 1000 + 10 * i);
    }
    // the join announcement plus 199 chat messages fill the log to 200
    let ids: Vec<u64> = log_of(&st, "lobby").log.iter().map(|m| m.id).collect();
    assert_eq!(ids.len(), 200);
    let first_before = ids[0];
    let fx = handle_chat_message(&mut st, 1, "overflow", 4000);
    assert!(!fx.is_empty());
    let log = &log_of(&st, "lobby").log;
    assert_eq!(log.len(), 200);
    // exactly the oldest fell out, the rest moved up in order
    assert!(log.iter().all(|m| m.id != first_before));
    for w in log.windows(2) {
        assert!(w[0].id < w[1].id);
    }
    assert_eq!(log.last().unwrap().text, "overflow");
}

#[test]
fn reaction_toggle_roundtrip() {
    // Toggling on then off by the same user and symbol returns the reactor
    // set to what it was.
    let mut st = ServerState::new();
    activate_session(&mut st, 1, "alice", false, 1);
    handle_chat_message(&mut st, 1, "react to me", 2);
    let mid = log_of(&st, "lobby").log.last().unwrap().id;
    let fx_on = handle_reaction(&mut st, 1, mid, "star");
    assert!(matches!(fx_on[0],
        Effect::ToRoom { msg: Outgoing::Reaction { added: true, .. }, .. }));
    {
        let entry = log_of(&st, "lobby").log.iter().find(|m| m.id == mid).unwrap();
        let re = entry.reactions.iter().find(|r| r.emoji == "star").unwrap();
        assert_eq!(re.users, vec!["alice".to_string()]);
    }
    let fx_off = handle_reaction(&mut st, 1, mid, "star");
    assert!(matches!(fx_off[0],
        Effect::ToRoom { msg: Outgoing::Reaction { added: false, .. }, .. }));
    let entry = log_of(&st, "lobby").log.iter().find(|m| m.id == mid).unwrap();
    let re = entry.reactions.iter().find(|r| r.emoji == "star").unwrap();
    assert!(re.users.is_empty());
    // an unknown id changes nothing; the requester alone is told
    let fx_none = handle_reaction(&mut st, 1, 999_999, "star");
    assert!(matches!(fx_none[0],
        Effect::ToSession { sid: 1, msg: Outgoing::System { ref text } }
            if text == "Cannot react to this message"));
}

#[test]
fn edit_delete_authorization() {
    // Edit and delete succeed only for the stored author; otherwise the
    // state is unchanged and the requester alone is told.
    let mut st = ServerState::new();
    activate_session(&mut st, 1, "alice", false, 1);
    activate_session(&mut st, 2, "bob", false, 2);
    handle_chat_message(&mut st, 1, "mine", 3);
    let mid = log_of(&st, "lobby").log.last().unwrap().id;
    let before: Vec<(u64, String, bool, bool)> = log_of(&st, "lobby")
        .log
        .iter()
        .map(|m| (m.id, m.text.clone(), m.edited, m.deleted))
        .collect();

    let fx = handle_edit(&mut st, 2, mid, "hijacked");
    assert!(matches!(fx[0],
        Effect::ToSession { sid: 2, msg: Outgoing::System { ref text } }
            if text == "Cannot edit this message"));
    let after: Vec<(u64, String, bool, bool)> = log_of(&st, "lobby")
        .log
        .iter()
        .map(|m| (m.id, m.text.clone(), m.edited, m.deleted))
        .collect();
    assert_eq!(before, after);

    let fxd = handle_delete(&mut st, 2, mid);
    assert!(matches!(fxd[0],
        Effect::ToSession { sid: 2, msg: Outgoing::System { ref text } }
            if text == "Cannot delete this message"));

    // the author may delete: the entry is kept but flagged
    let fxd2 = handle_delete(&mut st, 1, mid);
    assert!(matches!(fxd2[0],
        Effect::ToRoom { msg: Outgoing::Delete { msg_id }, .. } if msg_id == mid));
    let entry = log_of(&st, "lobby").log.iter().find(|m| m.id == mid).unwrap();
    assert!(entry.deleted);
    // a second delete by the author still finds the entry
    let fxd3 = handle_delete(&mut st, 1, mid);
    assert!(matches!(fxd3[0],
        Effect::ToRoom { msg: Outgoing::Delete { .. }, .. }));
}

#[test]
fn unique_names_on_join() {
    let mut st = ServerState::new();
    activate_session(&mut st, 1, "Bob", false, 1);
    activate_session(&mut st, 2, "bob", false, 2);
    activate_session(&mut st, 3, "BOB", false, 3);
    let names: Vec<String> = st.clients.iter().map(|c| c.name.clone()).collect();
    assert_eq!(names, vec!["Bob".to_string(), "bob-1".to_string(), "BOB-2".to_string()]);
}

#[test]
fn rename_keeps_uniqueness() {
    let mut st = ServerState::new();
    activate_session(&mut st, 1, "alice", false, 1);
    activate_session(&mut st, 2, "bob", false, 2);
    let fx = handle_cmd_with_rooms(&mut st, 2, "/name ALICE", 3);
    assert!(!fx.is_empty());
    let bob = st.clients.iter().find(|c| c.id == 2).unwrap();
    assert_eq!(bob.name, "ALICE-1");
}

#[test]
fn snapshot_roundtrip() {
    // Reloading a saved snapshot reproduces the same rooms, messages and
    // deletion flags, so the same set of non-deleted messages per room.
    let mut st = ServerState::new();
    activate_session(&mut st, 1, "alice", false, 1);
    handle_cmd_with_rooms(&mut st, 1, "/join den", 2);
    handle_chat_message(&mut st, 1, "one", 3);
    handle_chat_message(&mut st, 1, "two", 4);
    let mid = log_of(&st, "den").log.last().unwrap().id;
    handle_reaction(&mut st, 1, mid, "up");
    handle_delete(&mut st, 1, mid);

    let snap = save_history(&st);
    let mut st2 = ServerState::new();
    load_history(&mut st2, &snap);

    assert_eq!(st.rooms.len(), st2.rooms.len());
    for (a, b) in st.rooms.iter().zip(st2.rooms.iter()) {
        assert_eq!(a.name, b.name);
        assert_eq!(a.log.len(), b.log.len());
        for (x, y) in a.log.iter().zip(b.log.iter()) {
            assert_eq!(x.id, y.id);
            assert_eq!(x.from, y.from);
            assert_eq!(x.text, y.text);
            assert_eq!(x.ts, y.ts);
            assert_eq!(x.edited, y.edited);
            assert_eq!(x.deleted, y.deleted);
            assert_eq!(x.reactions.len(), y.reactions.len());
            for (p, q) in x.reactions.iter().zip(y.reactions.iter()) {
                assert_eq!(p.emoji, q.emoji);
                assert_eq!(p.users, q.users);
            }
        }
    }
    // fresh identifiers stay above everything reloaded
    let maxid = st2.rooms.iter().flat_map(|r| r.log.iter()).map(|m| m.id).max().unwrap();
    assert!(st2.next_msg_id > maxid);
}

#[test]
fn snapshot_rejects_malformed_rooms() {
    // A room with non-increasing identifiers is dropped; a duplicate name
    // keeps only its first occurrence.
    let mut st = ServerState::new();
    activate_session(&mut st, 1, "alice", false, 1);
    let mut snap = save_history(&st);
    let mut broken = save_history(&st);
    let mut bad_log = broken.remove(0);
    bad_log.name = "bad".to_string();
    let dup_items: Vec<chat_core::types::HistoryItem> =
        bad_log.log.iter().map(|m| m.duplicate()).collect();
    bad_log.log.extend(dup_items); // ids repeat: not increasing
    snap.push(bad_log);
    let dup = Room { name: "lobby".to_string(), log: Vec::new() };
    snap.push(dup);

    let mut st2 = ServerState::new();
    load_history(&mut st2, &snap);
    assert_eq!(st2.rooms.len(), 1);
    assert_eq!(st2.rooms[0].name, "lobby");
    assert!(!st2.rooms[0].log.is_empty());
}

#[test]
fn rate_limited_chat_draws_warning() {
    let mut st = ServerState::new();
    activate_session(&mut st, 1, "alice", false, 1);
    for i in 0..5 {
        let fx = handle_chat_message(&mut st, 1, "spam", 100 + i);
        assert!(matches!(fx[0], Effect::ToRoom { .. }));
    }
    let len_before = log_of(&st, "lobby").log.len();
    let fx6 = handle_chat_message(&mut st, 1, "spam again", 106);
    assert_eq!(fx6.len(), 1);
    assert!(matches!(fx6[0],
        Effect::ToSession { sid: 1, msg: Outgoing::System { ref text } }
            if text == "Rate limited: slow down! Max 5 messages per 10 seconds."));
    assert_eq!(log_of(&st, "lobby").log.len(), len_before);
}

#[test]
fn kick_flow() {
    let mut st = ServerState::new();
    activate_session(&mut st, 1, "alice", true, 1);
    activate_session(&mut st, 2, "bob", false, 2);

    // guests may not kick
    let fx = handle_cmd_with_rooms(&mut st, 2, "/kick alice", 3);
    assert!(matches!(fx[0],
        Effect::ToSession { sid: 2, msg: Outgoing::System { ref text } }
            if text == "Only authenticated users can kick"));

    // no self-kick
    let fx2 = handle_cmd_with_rooms(&mut st, 1, "/kick Alice", 4);
    assert!(matches!(fx2[0],
        Effect::ToSession { sid: 1, msg: Outgoing::System { ref text } }
            if text == "You cannot kick yourself"));

    // a successful kick removes the target and closes its connection
    let fx3 = handle_cmd_with_rooms(&mut st, 1, "/kick bob", 5);
    assert!(st.clients.iter().all(|c| c.id != 2));
    assert!(fx3.iter().any(|e| matches!(e, Effect::CloseSession { sid: 2 })));
}

#[test]
fn typing_and_read_receipts() {
    let mut st = ServerState::new();
    activate_session(&mut st, 1, "alice", false, 1);
    let fx = handle_typing(&mut st, 1, true);
    assert!(matches!(fx[0],
        Effect::ToRoom { ref room, msg: Outgoing::Typing { ref users } }
            if room == "lobby" && users == &vec!["alice".to_string()]));
    // sending a message clears the typing flag
    handle_chat_message(&mut st, 1, "done typing", 2);
    assert!(!st.clients[0].is_typing);

    let fx2 = handle_mark_read(&mut st, 1, 7);
    assert!(matches!(fx2[0],
        Effect::ToRoom { msg: Outgoing::ReadReceipt { ref user, last_msg_id: 7 }, .. }
            if user == "alice"));
    assert_eq!(st.clients[0].last_read_msg_id, Some(7));
}

#[test]
fn directory_commands() {
    let mut st = ServerState::new();
    activate_session(&mut st, 1, "alice", true, 1);
    activate_session(&mut st, 2, "bob", false, 2);

    let fx = handle_cmd_with_rooms(&mut st, 1, "/who", 3);
    assert!(matches!(fx[0],
        Effect::ToSession { sid: 1, msg: Outgoing::System { ref text } }
            if text == "Users in 'lobby': alice (auth), bob (guest)"));

    let fx2 = handle_cmd_with_rooms(&mut st, 1, "/rooms", 4);
    let infos = match &fx2[0] {
        Effect::ToSession { sid: 1, msg: Outgoing::RoomList { rooms } } => rooms,
        _ => panic!("expected a room listing"),
    };
    assert_eq!(infos.len(), 1);
    assert_eq!(infos[0].name, "lobby");
    assert_eq!(infos[0].members, 2);

    let fx3 = handle_cmd_with_rooms(&mut st, 1, "/room", 5);
    assert!(matches!(fx3[0],
        Effect::ToSession { sid: 1, msg: Outgoing::System { ref text } }
            if text == "Current room: lobby"));

    let fx4 = handle_cmd_with_rooms(&mut st, 1, "/stats", 6);
    assert!(matches!(fx4[0],
        Effect::ToSession { sid: 1, msg: Outgoing::System { ref text } }
            if text == "Clients: 2, Rooms: 1"));

    let fx5 = handle_cmd_with_rooms(&mut st, 1, "/bogus", 7);
    assert!(matches!(fx5[0],
        Effect::ToSession { sid: 1, msg: Outgoing::System { ref text } }
            if text == "Unknown command. Type /help for available commands."));
}

#[test]
fn join_and_leave_rooms() {
    let mut st = ServerState::new();
    activate_session(&mut st, 1, "alice", false, 1);
    let fx = handle_cmd_with_rooms(&mut st, 1, "/join den", 2);
    assert_eq!(st.clients[0].room, "den");
    // the mover is told, and the lobby heard the leave announcement
    assert!(fx.iter().any(|e| matches!(e,
        Effect::ToSession { sid: 1, msg: Outgoing::System { text } } if text == "You joined room 'den'")));
    assert!(fx.iter().any(|e| matches!(e,
        Effect::ToRoom { room, msg: Outgoing::System { text } }
            if room == "lobby" && text == "-- alice left the room --")));
    let fx2 = handle_cmd_with_rooms(&mut st, 1, "/leave", 3);
    assert_eq!(st.clients[0].room, "lobby");
    assert!(!fx2.is_empty());
}

#[test]
fn nudge_is_broadcast_and_logged() {
    let mut st = ServerState::new();
    activate_session(&mut st, 1, "alice", false, 1);
    let fx = handle_cmd_with_rooms(&mut st, 1, "/nudge", 2);
    assert!(matches!(fx[0],
        Effect::ToRoom { ref room, msg: Outgoing::System { ref text } }
            if room == "lobby" && text == "-- alice sent a nudge --"));
    assert!(matches!(fx[1],
        Effect::ToRoom { ref room, msg: Outgoing::Nudge { ref from } }
            if room == "lobby" && from == "alice"));
    assert!(log_of(&st, "lobby").log.iter().any(|m| m.text == "-- alice sent a nudge --"));
}

#[test]
fn auth_phase_and_teardown() {
    let mut st = ServerState::new();
    // chat before choosing a name draws only the reminder
    let (step, fx) = auth_phase_step(&mut st, 9, &Incoming::Msg { text: "hi".to_string() });
    assert!(matches!(step, AuthStep::Stay));
    assert!(matches!(fx[0],
        Effect::ToSession { sid: 9, msg: Outgoing::System { ref text } }
            if text == "Please choose a name or login/register before sending messages."));

    // a name directive leads onward
    let (step2, _fx2) = auth_phase_step(
        &mut st,
        9,
        &Incoming::Cmd { cmd: "/name carol".to_string() },
    );
    let name = match step2 {
        AuthStep::Proceed { name, logged_in } => {
            assert!(!logged_in);
            name
        },
        _ => panic!("expected to proceed"),
    };
    assert_eq!(name, "carol");
    activate_session(&mut st, 9, &name, false, 5);
    assert_eq!(st.clients.len(), 1);

    // an orderly teardown announces the leave in the last room
    let fx3 = disconnect(&mut st, 9, 6);
    assert!(st.clients.is_empty());
    assert!(fx3.iter().any(|e| matches!(e,
        Effect::ToRoom { room, msg: Outgoing::System { text } }
            if room == "lobby" && text == "-- carol left the room --")));
}

#[test]
fn register_and_login_through_dispatcher() {
    let mut st = ServerState::new();
    activate_session(&mut st, 1, "guest-1", false, 1);
    let fx = handle_cmd_with_rooms(&mut st, 1, "/register carol pw", 2);
    assert!(matches!(fx[0],
        Effect::ToSession { sid: 1, msg: Outgoing::System { ref text } }
            if text == "Registered 'carol'. Use /login to authenticate."));
    assert_eq!(st.users.len(), 1);

    // a second registration under the same name is refused
    let fx2 = handle_cmd_with_rooms(&mut st, 1, "/register carol other", 3);
    assert!(matches!(fx2[0],
        Effect::ToSession { sid: 1, msg: Outgoing::System { ref text } }
            if text == "Register failed: username already exists"));

    // wrong credentials are refused; right ones rename and authenticate
    let fx3 = handle_cmd_with_rooms(&mut st, 1, "/login carol wrong", 4);
    assert!(matches!(fx3[0],
        Effect::ToSession { sid: 1, msg: Outgoing::System { ref text } }
            if text == "Login failed: invalid credentials"));
    let fx4 = handle_cmd_with_rooms(&mut st, 1, "/login carol pw", 5);
    assert!(!fx4.is_empty());
    let me = &st.clients[0];
    assert_eq!(me.name, "carol");
    assert!(me.logged_in);
}

#[test]
fn history_and_list_commands() {
    let mut st = ServerState::new();
    activate_session(&mut st, 1, "alice", false, 1);
    handle_chat_message(&mut st, 1, "logged line", 2);
    let fx = handle_cmd_with_rooms(&mut st, 1, "/history", 3);
    let items = match &fx[0] {
        Effect::ToSession { sid: 1, msg: Outgoing::History { items } } => items,
        _ => panic!("expected a history envelope"),
    };
    assert!(items.iter().any(|m| m.text == "logged line"));

    // deleted entries are excluded from the read path
    let mid = log_of(&st, "lobby").log.last().unwrap().id;
    handle_delete(&mut st, 1, mid);
    let fx2 = handle_cmd_with_rooms(&mut st, 1, "/history", 4);
    let items2 = match &fx2[0] {
        Effect::ToSession { sid: 1, msg: Outgoing::History { items } } => items,
        _ => panic!("expected a history envelope"),
    };
    assert!(items2.iter().all(|m| m.id != mid));

    let fx3 = handle_cmd_with_rooms(&mut st, 1, "/list", 5);
    assert!(matches!(fx3[0],
        Effect::ToRoom { ref room, msg: Outgoing::List { ref users } }
            if room == "lobby" && users == &vec!["alice".to_string()]));

    let fx4 = handle_cmd_with_rooms(&mut st, 1, "/help", 6);
    assert!(matches!(fx4[0],
        Effect::ToSession { sid: 1, msg: Outgoing::System { ref text } }
            if text.starts_with("Available commands:")));
}

#[test]
fn join_usage_and_blank_target() {
    let mut st = ServerState::new();
    activate_session(&mut st, 1, "alice", false, 1);
    let fx = handle_cmd_with_rooms(&mut st, 1, "/join", 2);
    assert!(matches!(fx[0],
        Effect::ToSession { sid: 1, msg: Outgoing::System { ref text } }
            if text == "Usage: /join <room>"));
    // a blank room name moves nobody
    let fx2 = handle_cmd_with_rooms(&mut st, 1, "/join   ", 3);
    assert!(fx2.is_empty());
    assert_eq!(st.clients[0].room, "lobby");
}

#[test]
fn link_preview_attachment() {
    let fx = chat_core::room::link_preview_effects(
        "lobby",
        42,
        "A title",
        "a description",
        "http://img",
        "http://example.com",
    );
    assert!(matches!(fx[0],
        Effect::ToRoom { ref room, msg: Outgoing::LinkPreview { msg_id: 42, ref title, ref url, .. } }
            if room == "lobby" && title == "A title" && url == "http://example.com"));
}

#[test]
fn room_listing_counts_members_per_room() {
    let mut st = ServerState::new();
    activate_session(&mut st, 1, "alice", false, 1);
    activate_session(&mut st, 2, "bob", false, 2);
    handle_cmd_with_rooms(&mut st, 2, "/join den", 3);
    let fx = handle_cmd_with_rooms(&mut st, 1, "/rooms", 4);
    let infos = match &fx[0] {
        Effect::ToSession { sid: 1, msg: Outgoing::RoomList { rooms } } => rooms,
        _ => panic!("expected a room listing"),
    };
    let lobby = infos.iter().find(|r| r.name == "lobby").unwrap();
    let den = infos.iter().find(|r| r.name == "den").unwrap();
    assert_eq!(lobby.members, 1);
    assert_eq!(den.members, 1);
}

#[test]
fn register_during_auth_phase_proceeds_authenticated() {
    let mut st = ServerState::new();
    let (step, fx) = auth_phase_step(
        &mut st,
        5,
        &Incoming::Cmd { cmd: "/register dora pw9".to_string() },
    );
    match step {
        AuthStep::Proceed { name, logged_in } => {
            assert_eq!(name, "dora");
            assert!(logged_in);
        },
        _ => panic!("expected registration to proceed"),
    }
    assert!(!fx.is_empty());
    assert_eq!(st.users.len(), 1);
    assert_eq!(st.users[0].username, "dora");
    // the unrecognized-directive reminder
    let (step2, fx2) = auth_phase_step(&mut st, 6, &Incoming::Cmd { cmd: "/stats".to_string() });
    assert!(matches!(step2, AuthStep::Stay));
    assert!(matches!(fx2[0],
        Effect::ToSession { sid: 6, msg: Outgoing::System { ref text } }
            if text == "Please choose a name or login/register first."));
}

#[test]
fn unique_name_minimal_suffix() {
    let mut st = ServerState::new();
    activate_session(&mut st, 1, "eve", false, 1);
    activate_session(&mut st, 2, "eve", false, 2);
    activate_session(&mut st, 3, "eve", false, 3);
    // eve-1 left; eve-2 stays; a fresh eve takes the least free suffix
    handle_cmd_with_rooms(&mut st, 2, "/name fred", 4);
    activate_session(&mut st, 4, "eve", false, 5);
    let names: Vec<String> = st.clients.iter().map(|c| c.name.clone()).collect();
    assert_eq!(
        names,
        vec!["eve".to_string(), "fred".to_string(), "eve-2".to_string(), "eve-1".to_string()]
    );
}
