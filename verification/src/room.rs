//! Room store operations: bounded logs with oldest-first eviction, message
//! lookup, reactions, edits, soft deletion, and the room-level broadcasts.
use vstd::prelude::*;
use crate::helpers::has_client;
use crate::text::{concat3, eq_str, eq_str_fold, extract_mentions, fold_seq, mentions_of, trim_spec, trim_str};
use crate::types::{duplicate_reactions, same_pair, state_wf, ClientV, Effect, EffectV, OutgoingV, PrivateConvo, PrivateConvoV, HistoryItem, HistoryItemV, Outgoing, ReactionEntry, ReactionEntryV, Room, RoomV, ServerState, ServerStateV, ROOM_CAPACITY, item_wf, log_ids_below, log_wf, reaction_entry_wf, reactions_wf, rooms_wf};

verus! {

/// Whether some room carries this name.
pub open spec fn has_room(rooms: Seq<RoomV>, name: Seq<char>) -> bool {
    exists|i: int| 0 <= i < rooms.len() && rooms[i].name == name
}

/// The log of the room with this name, or the empty log if there is none.
pub open spec fn room_log(rooms: Seq<RoomV>, name: Seq<char>) -> Seq<HistoryItemV> {
    if has_room(rooms, name) {
        rooms[choose|i: int| 0 <= i < rooms.len() && rooms[i].name == name].log
    } else {
        Seq::empty()
    }
}

/// Room names are pairwise distinct.
pub open spec fn room_names_unique(rooms: Seq<RoomV>) -> bool {
    forall|i: int, j: int| 0 <= i < j < rooms.len() ==> rooms[i].name != rooms[j].name
}

pub proof fn lemma_room_log_at(rooms: Seq<RoomV>, i: int)
    requires
        room_names_unique(rooms),
        0 <= i < rooms.len(),
    ensures
        room_log(rooms, rooms[i].name) == rooms[i].log,
{
    assert(has_room(rooms, rooms[i].name));
}

/// Locates the room with the given name.
pub fn find_room(rooms: &Vec<Room>, name: &str) -> (r: Option<usize>)
    ensures
        match r {
            Some(i) => i < rooms@.len() && rooms.deep_view()[i as int].name == name@,
            None => !has_room(rooms.deep_view(), name@),
        },
{
    let mut i: usize = 0;
    while i < rooms.len()
        invariant
            0 <= i <= rooms@.len(),
            forall|j: int| 0 <= j < i ==> rooms.deep_view()[j].name != name@,
        decreases rooms@.len() - i,
    {
        if eq_str(rooms[i].name.as_str(), name) {
            return Some(i);
        }
        i = i + 1;
    }
    None
}

/// What a bounded append leaves behind: the new entry at the back, and the
/// oldest entry evicted exactly when the log was already full.
pub open spec fn push_evict_spec(log: Seq<HistoryItemV>, m: HistoryItemV) -> Seq<HistoryItemV> {
    if log.len() < ROOM_CAPACITY {
        log.push(m)
    } else {
        log.skip(1).push(m)
    }
}

/// Bounded append: the log never exceeds the capacity, and appending to a
/// full log evicts exactly the oldest entry, keeping the survivors in order.
pub fn push_evict(log: &mut Vec<HistoryItem>, item: HistoryItem)
    requires
        log_wf(old(log).deep_view()),
        log_ids_below(old(log).deep_view(), item.deep_view().id),
        item_wf(item.deep_view()),
    ensures
        final(log).deep_view() == push_evict_spec(old(log).deep_view(), item.deep_view()),
        log_wf(final(log).deep_view()),
        forall|i: int|
            0 <= i < final(log).deep_view().len() ==> (#[trigger] final(log).deep_view()[i]).id
                <= item.deep_view().id,
{
    let ghost oldv = log.deep_view();
    let ghost itemv = item.deep_view();
    proof {
        assert(item.deep_view().id < item.deep_view().id + 1);
    }
    log.push(item);
    proof {
        assert(log.deep_view() =~~= oldv.push(itemv));
    }
    if log.len() > ROOM_CAPACITY {
        log.remove(0);
        proof {
            assert(log.deep_view() =~~= oldv.skip(1).push(itemv));
            assert(log.deep_view() =~~= push_evict_spec(oldv, itemv));
        }
    } else {
        proof {
            assert(log.deep_view() =~~= push_evict_spec(oldv, itemv));
        }
    }
}

/// Locates a message by identifier within one log.
pub fn find_msg(log: &Vec<HistoryItem>, msg_id: u64) -> (r: Option<usize>)
    ensures
        match r {
            Some(i) => i < log@.len() && log.deep_view()[i as int].id == msg_id,
            None => forall|j: int| 0 <= j < log@.len() ==> log.deep_view()[j].id != msg_id,
        },
{
    let mut i: usize = 0;
    while i < log.len()
        invariant
            0 <= i <= log@.len(),
            forall|j: int| 0 <= j < i ==> log.deep_view()[j].id != msg_id,
        decreases log@.len() - i,
    {
        if log[i].id == msg_id {
            return Some(i);
        }
        i = i + 1;
    }
    None
}

/// Hands out a fresh message identifier, larger than every identifier stored
/// anywhere in the server.
pub fn generate_msg_id(state: &mut ServerState) -> (id: u64)
    requires
        old(state).wf(),
        old(state).next_msg_id < u64::MAX,
    ensures
        final(state).wf(),
        id == old(state).next_msg_id,
        final(state).deep_view() == (ServerStateV {
            next_msg_id: (old(state).next_msg_id + 1) as u64,
            ..old(state).deep_view()
        }),
        forall|i: int|
            0 <= i < final(state).deep_view().rooms.len() ==> log_ids_below(
                (#[trigger] final(state).deep_view().rooms[i]).log,
                id,
            ),
        forall|i: int|
            0 <= i < final(state).deep_view().privates.len() ==> log_ids_below(
                (#[trigger] final(state).deep_view().privates[i]).log,
                id,
            ),
{
    let id = state.next_msg_id;
    state.next_msg_id = state.next_msg_id + 1;
    proof {
        assert(state.deep_view() =~~= ServerStateV {
            next_msg_id: (old(state).next_msg_id + 1) as u64,
            ..old(state).deep_view()
        });
    }
    id
}


/// The reactor list recorded under one symbol, empty when the symbol is
/// absent.
pub open spec fn reactors_of(rs: Seq<ReactionEntryV>, emoji: Seq<char>) -> Seq<Seq<char>>
    decreases rs.len(),
{
    if rs.len() == 0 {
        Seq::empty()
    } else if rs[0].emoji == emoji {
        rs[0].users
    } else {
        reactors_of(rs.drop_first(), emoji)
    }
}

/// A reactor list with every occurrence of one name removed.
pub open spec fn remove_user(us: Seq<Seq<char>>, user: Seq<char>) -> Seq<Seq<char>>
    decreases us.len(),
{
    if us.len() == 0 {
        Seq::empty()
    } else if us[0] == user {
        remove_user(us.drop_first(), user)
    } else {
        seq![us[0]] + remove_user(us.drop_first(), user)
    }
}

/// What one toggle does to a reactor list: a recorded reactor is removed,
/// an unrecorded one is appended.
pub open spec fn toggle_users(us: Seq<Seq<char>>, user: Seq<char>) -> Seq<Seq<char>> {
    if us.contains(user) {
        remove_user(us, user)
    } else {
        us.push(user)
    }
}

/// What one toggle does to the whole reaction list of a message.
pub open spec fn upd_reactions(rs: Seq<ReactionEntryV>, emoji: Seq<char>, user: Seq<char>) -> Seq<
    ReactionEntryV,
>
    decreases rs.len(),
{
    if rs.len() == 0 {
        seq![ReactionEntryV { emoji: emoji, users: seq![user] }]
    } else if rs[0].emoji == emoji {
        seq![ReactionEntryV { emoji: emoji, users: toggle_users(rs[0].users, user) }]
            + rs.drop_first()
    } else {
        seq![rs[0]] + upd_reactions(rs.drop_first(), emoji, user)
    }
}

/// Whether this toggle turns the reaction on (true) or off (false).
pub open spec fn toggle_added(m: HistoryItemV, emoji: Seq<char>, user: Seq<char>) -> bool {
    !reactors_of(m.reactions, emoji).contains(user)
}

/// The message after one reaction toggle; nothing but the reactions changes.
pub open spec fn toggle_spec(m: HistoryItemV, emoji: Seq<char>, user: Seq<char>) -> HistoryItemV {
    HistoryItemV { reactions: upd_reactions(m.reactions, emoji, user), ..m }
}

pub proof fn lemma_reactors_at(rs: Seq<ReactionEntryV>, k: int, emoji: Seq<char>)
    requires
        0 <= k < rs.len(),
        rs[k].emoji == emoji,
        forall|j: int| 0 <= j < k ==> rs[j].emoji != emoji,
    ensures
        reactors_of(rs, emoji) == rs[k].users,
    decreases rs.len(),
{
    if k == 0 {
    } else {
        lemma_reactors_at(rs.drop_first(), k - 1, emoji);
    }
}

pub proof fn lemma_reactors_none(rs: Seq<ReactionEntryV>, emoji: Seq<char>)
    requires
        forall|j: int| 0 <= j < rs.len() ==> rs[j].emoji != emoji,
    ensures
        reactors_of(rs, emoji) == Seq::<Seq<char>>::empty(),
    decreases rs.len(),
{
    if rs.len() == 0 {
    } else {
        lemma_reactors_none(rs.drop_first(), emoji);
    }
}

pub proof fn lemma_upd_at(rs: Seq<ReactionEntryV>, k: int, emoji: Seq<char>, user: Seq<char>)
    requires
        0 <= k < rs.len(),
        rs[k].emoji == emoji,
        forall|j: int| 0 <= j < k ==> rs[j].emoji != emoji,
    ensures
        upd_reactions(rs, emoji, user) == rs.update(
            k,
            ReactionEntryV { emoji: emoji, users: toggle_users(rs[k].users, user) },
        ),
    decreases rs.len(),
{
    if k == 0 {
        assert(upd_reactions(rs, emoji, user) =~= rs.update(
            0,
            ReactionEntryV { emoji: emoji, users: toggle_users(rs[0].users, user) },
        ));
    } else {
        lemma_upd_at(rs.drop_first(), k - 1, emoji, user);
        assert(upd_reactions(rs, emoji, user) =~= rs.update(
            k,
            ReactionEntryV { emoji: emoji, users: toggle_users(rs[k].users, user) },
        ));
    }
}

pub proof fn lemma_upd_none(rs: Seq<ReactionEntryV>, emoji: Seq<char>, user: Seq<char>)
    requires
        forall|j: int| 0 <= j < rs.len() ==> rs[j].emoji != emoji,
    ensures
        upd_reactions(rs, emoji, user) == rs.push(
            ReactionEntryV { emoji: emoji, users: seq![user] },
        ),
    decreases rs.len(),
{
    if rs.len() == 0 {
        assert(upd_reactions(rs, emoji, user) =~= rs.push(
            ReactionEntryV { emoji: emoji, users: seq![user] },
        ));
    } else {
        lemma_upd_none(rs.drop_first(), emoji, user);
        assert(upd_reactions(rs, emoji, user) =~= rs.push(
            ReactionEntryV { emoji: emoji, users: seq![user] },
        ));
    }
}

/// Membership after a removal: exactly the other names survive.
pub proof fn lemma_remove_user_contains(us: Seq<Seq<char>>, user: Seq<char>, x: Seq<char>)
    ensures
        remove_user(us, user).contains(x) <==> (us.contains(x) && x != user),
    decreases us.len(),
{
    if us.len() == 0 {
    } else {
        lemma_remove_user_contains(us.drop_first(), user, x);
        let r = remove_user(us, user);
        let rr = remove_user(us.drop_first(), user);
        if us[0] == user {
            assert(us.contains(x) && x != user ==> us.drop_first().contains(x)) by {
                if us.contains(x) && x != user {
                    let i = choose|i: int| 0 <= i < us.len() && us[i] == x;
                    assert(us.drop_first()[i - 1] == x);
                }
            }
        } else {
            assert(r =~= seq![us[0]] + rr);
            if r.contains(x) {
                let i = choose|i: int| 0 <= i < r.len() && r[i] == x;
                if i == 0 {
                    assert(us[0] == x);
                } else {
                    assert(rr[i - 1] == x);
                    assert(rr.contains(x));
                }
                assert(us.contains(x) && x != user);
            }
            if us.contains(x) && x != user {
                let i = choose|i: int| 0 <= i < us.len() && us[i] == x;
                if i == 0 {
                    assert(r[0] == x);
                } else {
                    assert(us.drop_first()[i - 1] == x);
                    assert(us.drop_first().contains(x));
                    assert(rr.contains(x));
                    let j = choose|j: int| 0 <= j < rr.len() && rr[j] == x;
                    assert(r[j + 1] == x);
                }
                assert(r.contains(x));
            }
        }
    }
}

pub proof fn lemma_remove_user_distinct(us: Seq<Seq<char>>, user: Seq<char>)
    requires
        forall|i: int, j: int| 0 <= i < j < us.len() ==> us[i] != us[j],
    ensures
        forall|i: int, j: int|
            0 <= i < j < remove_user(us, user).len() ==> remove_user(us, user)[i] != remove_user(
                us,
                user,
            )[j],
    decreases us.len(),
{
    if us.len() == 0 {
    } else {
        assert(forall|i: int, j: int|
            0 <= i < j < us.drop_first().len() ==> us.drop_first()[i] != us.drop_first()[j]);
        lemma_remove_user_distinct(us.drop_first(), user);
        let r = remove_user(us, user);
        let rr = remove_user(us.drop_first(), user);
        if us[0] == user {
        } else {
            assert(r =~= seq![us[0]] + rr);
            assert forall|i: int, j: int| 0 <= i < j < r.len() implies r[i] != r[j] by {
                if i == 0 {
                    assert(r[j] == rr[j - 1]);
                    assert(rr.contains(rr[j - 1]));
                    lemma_remove_user_contains(us.drop_first(), user, rr[j - 1]);
                    let k = choose|k: int|
                        0 <= k < us.drop_first().len() && us.drop_first()[k] == rr[j - 1];
                    assert(us[k + 1] == rr[j - 1]);
                    assert(us[0] != us[k + 1]);
                } else {
                    assert(r[i] == rr[i - 1]);
                    assert(r[j] == rr[j - 1]);
                }
            }
        }
    }
}

/// Removing a name just appended to a list that never held it restores the
/// list.
pub proof fn lemma_remove_user_push(us: Seq<Seq<char>>, user: Seq<char>)
    requires
        !us.contains(user),
    ensures
        remove_user(us.push(user), user) == us,
    decreases us.len(),
{
    if us.len() == 0 {
        let p = us.push(user);
        assert(p[0] == user);
        assert(p.drop_first() =~= Seq::<Seq<char>>::empty());
        assert(p.drop_first() == Seq::<Seq<char>>::empty());
        assert(remove_user(p, user) == remove_user(Seq::<Seq<char>>::empty(), user));
        assert(remove_user(Seq::<Seq<char>>::empty(), user) == Seq::<Seq<char>>::empty());
        assert(remove_user(us.push(user), user) =~= us);
    } else {
        assert(us[0] != user);
        assert(!us.drop_first().contains(user)) by {
            if us.drop_first().contains(user) {
                let i = choose|i: int|
                    0 <= i < us.drop_first().len() && us.drop_first()[i] == user;
                assert(us[i + 1] == user);
            }
        }
        lemma_remove_user_push(us.drop_first(), user);
        let p = us.push(user);
        assert(p[0] == us[0]);
        assert(p.drop_first() =~= us.drop_first().push(user));
        assert(remove_user(p, user) == seq![us[0]] + remove_user(p.drop_first(), user));
        assert(remove_user(p.drop_first(), user) == us.drop_first());
        assert(seq![us[0]] + us.drop_first() =~= us);
    }
}

/// A toggle changes the reactor list of the toggled symbol alone.
pub proof fn lemma_reactors_of_upd(rs: Seq<ReactionEntryV>, emoji: Seq<char>, user: Seq<char>)
    ensures
        reactors_of(upd_reactions(rs, emoji, user), emoji) == toggle_users(
            reactors_of(rs, emoji),
            user,
        ),
        forall|e: Seq<char>|
            e != emoji ==> reactors_of(upd_reactions(rs, emoji, user), e) == reactors_of(rs, e),
    decreases rs.len(),
{
    if rs.len() == 0 {
        assert(reactors_of(rs, emoji) =~= Seq::<Seq<char>>::empty());
        let upd = upd_reactions(rs, emoji, user);
        assert(upd[0].emoji == emoji);
        assert(!reactors_of(rs, emoji).contains(user));
        assert(upd[0].users =~= toggle_users(reactors_of(rs, emoji), user));
        assert forall|e: Seq<char>| e != emoji implies reactors_of(upd, e) == reactors_of(
            rs,
            e,
        ) by {
            assert(upd.drop_first() =~= rs);
        }
    } else if rs[0].emoji == emoji {
        let upd = upd_reactions(rs, emoji, user);
        assert(upd.drop_first() =~= rs.drop_first());
        assert forall|e: Seq<char>| e != emoji implies reactors_of(upd, e) == reactors_of(
            rs,
            e,
        ) by {
            assert(reactors_of(upd, e) == reactors_of(upd.drop_first(), e));
            assert(reactors_of(rs, e) == reactors_of(rs.drop_first(), e));
        }
    } else {
        lemma_reactors_of_upd(rs.drop_first(), emoji, user);
        let upd = upd_reactions(rs, emoji, user);
        assert(upd.drop_first() =~= upd_reactions(rs.drop_first(), emoji, user));
        assert(upd[0] == rs[0]);
        assert forall|e: Seq<char>| e != emoji implies reactors_of(upd, e) == reactors_of(
            rs,
            e,
        ) by {
            if e == rs[0].emoji {
            } else {
                assert(reactors_of(upd, e) == reactors_of(upd.drop_first(), e));
                assert(reactors_of(rs, e) == reactors_of(rs.drop_first(), e));
            }
        }
    }
}

/// Every symbol of the updated list is an old symbol or the toggled one.
proof fn lemma_upd_emojis(rs: Seq<ReactionEntryV>, emoji: Seq<char>, user: Seq<char>, k: int)
    requires
        0 <= k < upd_reactions(rs, emoji, user).len(),
    ensures
        upd_reactions(rs, emoji, user)[k].emoji == emoji || exists|i: int|
            0 <= i < rs.len() && (#[trigger] rs[i].emoji) == upd_reactions(rs, emoji, user)[k].emoji,
    decreases rs.len(),
{
    if rs.len() == 0 {
    } else if rs[0].emoji == emoji {
        if k > 0 {
            assert(upd_reactions(rs, emoji, user)[k] == rs.drop_first()[k - 1]);
            assert(rs[k].emoji == upd_reactions(rs, emoji, user)[k].emoji);
        }
    } else {
        if k == 0 {
            assert(upd_reactions(rs, emoji, user)[0] == rs[0]);
            assert(rs[0].emoji == upd_reactions(rs, emoji, user)[0].emoji);
        } else {
            lemma_upd_emojis(rs.drop_first(), emoji, user, k - 1);
            let upd = upd_reactions(rs, emoji, user);
            let updr = upd_reactions(rs.drop_first(), emoji, user);
            assert(upd[k] == updr[k - 1]);
            if updr[k - 1].emoji != emoji {
                let i = choose|i: int|
                    0 <= i < rs.drop_first().len() && (#[trigger] rs.drop_first()[i].emoji)
                        == updr[k - 1].emoji;
                assert(rs[i + 1].emoji == updr[k - 1].emoji);
            }
        }
    }
}

/// A toggle keeps the reaction list well-formed.
pub proof fn lemma_upd_reactions_wf(rs: Seq<ReactionEntryV>, emoji: Seq<char>, user: Seq<char>)
    requires
        reactions_wf(rs),
    ensures
        reactions_wf(upd_reactions(rs, emoji, user)),
    decreases rs.len(),
{
    let upd = upd_reactions(rs, emoji, user);
    if rs.len() == 0 {
        assert(reaction_entry_wf(upd[0]));
    } else if rs[0].emoji == emoji {
        let tu = toggle_users(rs[0].users, user);
        assert(reaction_entry_wf(rs[0]));
        assert(reaction_entry_wf(upd[0])) by {
            if rs[0].users.contains(user) {
                lemma_remove_user_distinct(rs[0].users, user);
            }
        }
        assert(forall|k: int| 1 <= k < upd.len() ==> (#[trigger] upd[k]) == rs[k]);
        assert(forall|i: int| 0 <= i < upd.len() ==> reaction_entry_wf(#[trigger] upd[i]));
        assert(forall|i: int, j: int| 0 <= i < j < upd.len() ==> upd[i].emoji != upd[j].emoji);
    } else {
        assert(forall|i: int, j: int|
            0 <= i < j < rs.drop_first().len() ==> rs.drop_first()[i].emoji != rs.drop_first()[j].emoji);
        assert(forall|i: int|
            0 <= i < rs.drop_first().len() ==> reaction_entry_wf(#[trigger] rs.drop_first()[i]));
        lemma_upd_reactions_wf(rs.drop_first(), emoji, user);
        let updr = upd_reactions(rs.drop_first(), emoji, user);
        assert(upd[0] == rs[0]);
        assert(forall|k: int| 1 <= k < upd.len() ==> (#[trigger] upd[k]) == updr[k - 1]);
        assert forall|k: int| 1 <= k < upd.len() implies (#[trigger] upd[k]).emoji
            != upd[0].emoji by {
            lemma_upd_emojis(rs.drop_first(), emoji, user, k - 1);
            if updr[k - 1].emoji != emoji {
                let i = choose|i: int|
                    0 <= i < rs.drop_first().len() && (#[trigger] rs.drop_first()[i].emoji)
                        == updr[k - 1].emoji;
                assert(rs[i + 1].emoji == updr[k - 1].emoji);
            }
        }
        assert(forall|i: int, j: int| 0 <= i < j < upd.len() ==> upd[i].emoji != upd[j].emoji);
        assert(forall|i: int| 0 <= i < upd.len() ==> reaction_entry_wf(#[trigger] upd[i]));
    }
}

/// Toggling a reaction on and off again returns every reactor list of the
/// message to what it was.
pub proof fn lemma_reaction_toggle_roundtrip(m: HistoryItemV, emoji: Seq<char>, user: Seq<char>)
    requires
        item_wf(m),
        !reactors_of(m.reactions, emoji).contains(user),
    ensures
        toggle_added(m, emoji, user),
        !toggle_added(toggle_spec(m, emoji, user), emoji, user),
        forall|e: Seq<char>|
            reactors_of(toggle_spec(toggle_spec(m, emoji, user), emoji, user).reactions, e)
                == reactors_of(m.reactions, e),
{
    let r0 = reactors_of(m.reactions, emoji);
    let m1 = toggle_spec(m, emoji, user);
    let m2 = toggle_spec(m1, emoji, user);
    lemma_reactors_of_upd(m.reactions, emoji, user);
    assert(reactors_of(m1.reactions, emoji) == r0.push(user));
    assert(reactors_of(m1.reactions, emoji).contains(user)) by {
        assert(r0.push(user)[r0.len() as int] == user);
    }
    lemma_reactors_of_upd(m1.reactions, emoji, user);
    lemma_remove_user_push(r0, user);
    assert(reactors_of(m2.reactions, emoji) == r0);
    assert forall|e: Seq<char>|
        reactors_of(m2.reactions, e) == reactors_of(m.reactions, e) by {
        if e != emoji {
            assert(reactors_of(m1.reactions, e) == reactors_of(m.reactions, e));
            assert(reactors_of(m2.reactions, e) == reactors_of(m1.reactions, e));
        }
    }
}

/// Removal commutes with appending one element at the back.
proof fn lemma_remove_user_snoc(us: Seq<Seq<char>>, e: Seq<char>, user: Seq<char>)
    ensures
        remove_user(us.push(e), user) == if e == user {
            remove_user(us, user)
        } else {
            remove_user(us, user).push(e)
        },
    decreases us.len(),
{
    if us.len() == 0 {
        let p = us.push(e);
        assert(p[0] == e);
        assert(p.drop_first() =~= Seq::<Seq<char>>::empty());
        assert(p.drop_first() == Seq::<Seq<char>>::empty());
        assert(remove_user(Seq::<Seq<char>>::empty(), user) == Seq::<Seq<char>>::empty());
        if e == user {
            assert(remove_user(p, user) =~= remove_user(us, user));
        } else {
            assert(remove_user(p, user) =~= remove_user(us, user).push(e));
        }
    } else {
        lemma_remove_user_snoc(us.drop_first(), e, user);
        let p = us.push(e);
        assert(p[0] == us[0]);
        assert(p.drop_first() =~= us.drop_first().push(e));
        assert(p.drop_first() == us.drop_first().push(e));
        if us[0] == user {
            assert(remove_user(p, user) == remove_user(us.drop_first().push(e), user));
            if e == user {
                assert(remove_user(p, user) =~= remove_user(us, user));
            } else {
                assert(remove_user(p, user) =~= remove_user(us, user).push(e));
            }
        } else {
            assert(remove_user(p, user) == seq![us[0]] + remove_user(
                us.drop_first().push(e),
                user,
            ));
            if e == user {
                assert(remove_user(p, user) =~= remove_user(us, user));
            } else {
                assert(remove_user(p, user) =~= remove_user(us, user).push(e));
            }
        }
    }
}

/// Whether a reactor list records this name.
fn contains_name(users: &Vec<String>, who: &str) -> (r: bool)
    ensures
        r == users.deep_view().contains(who@),
{
    let mut i: usize = 0;
    while i < users.len()
        invariant
            0 <= i <= users@.len(),
            forall|j: int| 0 <= j < i ==> users.deep_view()[j] != who@,
        decreases users@.len() - i,
    {
        if eq_str(users[i].as_str(), who) {
            proof {
                assert(users.deep_view()[i as int] == who@);
            }
            return true;
        }
        i = i + 1;
    }
    proof {
        if users.deep_view().contains(who@) {
            let j = choose|j: int|
                0 <= j < users.deep_view().len() && users.deep_view()[j] == who@;
            assert(false);
        }
    }
    false
}


/// Locates the entry of one reaction symbol, scanning from the front.
fn find_emoji(rs: &Vec<ReactionEntry>, emoji: &str) -> (r: Option<usize>)
    ensures
        match r {
            Some(i) => i < rs@.len() && rs.deep_view()[i as int].emoji == emoji@ && forall|j: int|
                0 <= j < i ==> rs.deep_view()[j].emoji != emoji@,
            None => forall|j: int| 0 <= j < rs@.len() ==> rs.deep_view()[j].emoji != emoji@,
        },
{
    let mut i: usize = 0;
    while i < rs.len()
        invariant
            0 <= i <= rs@.len(),
            forall|j: int| 0 <= j < i ==> rs.deep_view()[j].emoji != emoji@,
        decreases rs@.len() - i,
    {
        if eq_str(rs[i].emoji.as_str(), emoji) {
            return Some(i);
        }
        i = i + 1;
    }
    None
}

/// One reaction toggle on a stored message: a recorded reactor/symbol pair is
/// removed, an unrecorded one added; nothing else of the message changes.
pub fn toggle_reaction(item: &mut HistoryItem, emoji: &str, user: &str) -> (added: bool)
    requires
        item_wf(old(item).deep_view()),
    ensures
        final(item).deep_view() == toggle_spec(old(item).deep_view(), emoji@, user@),
        added == toggle_added(old(item).deep_view(), emoji@, user@),
        item_wf(final(item).deep_view()),
{
    let ghost rsv = old(item).reactions.deep_view();
    proof {
        lemma_upd_reactions_wf(rsv, emoji@, user@);
    }
    let fr = find_emoji(&item.reactions, emoji);
    if fr.is_none() {

        proof {
            lemma_reactors_none(rsv, emoji@);
            lemma_upd_none(rsv, emoji@, user@);
        }
        let mut users: Vec<String> = Vec::new();
        users.push(user.to_owned());
        item.reactions.push(ReactionEntry { emoji: emoji.to_owned(), users });
        proof {
            assert(item.deep_view() =~~= toggle_spec(old(item).deep_view(), emoji@, user@));
        }
        return true;
    }
    let k = fr.unwrap();
    proof {
        lemma_reactors_at(rsv, k as int, emoji@);
        lemma_upd_at(rsv, k as int, emoji@, user@);
    }
    let present = contains_name(&item.reactions[k].users, user);
    if present {
        let mut nu: Vec<String> = Vec::new();
        let m = item.reactions[k].users.len();
        let mut i: usize = 0;
        while i < m
            invariant
                0 <= i <= m,
                k < item.reactions@.len(),
                m == item.reactions[k as int].users@.len(),
                *item == *old(item),
                nu.deep_view() =~= remove_user(
                    item.reactions[k as int].users.deep_view().subrange(0, i as int),
                    user@,
                ),
            decreases m - i,
        {
            let ghost usv = item.reactions[k as int].users.deep_view();
            if !eq_str(item.reactions[k].users[i].as_str(), user) {
                nu.push(item.reactions[k].users[i].clone());
            }
            i = i + 1;
            proof {
                lemma_remove_user_snoc(usv.subrange(0, i - 1), usv[i - 1], user@);
                assert(usv.subrange(0, i as int) =~= usv.subrange(0, i - 1).push(usv[i - 1]));
            }
        }
        proof {
            let usv = item.reactions[k as int].users.deep_view();
            assert(usv.subrange(0, m as int) =~= usv);
        }
        let entry = ReactionEntry { emoji: item.reactions[k].emoji.clone(), users: nu };
        item.reactions.set(k, entry);
        proof {
            assert(item.deep_view() =~~= toggle_spec(old(item).deep_view(), emoji@, user@));
        }
        false
    } else {
        let mut nu = item.reactions[k].users.clone();
        proof {
            assert(nu.deep_view() =~~= item.reactions[k as int].users.deep_view());
        }
        nu.push(user.to_owned());
        let entry = ReactionEntry { emoji: item.reactions[k].emoji.clone(), users: nu };
        item.reactions.set(k, entry);
        proof {
            assert(item.deep_view() =~~= toggle_spec(old(item).deep_view(), emoji@, user@));
        }
        true
    }
}


/// Whether the log holds a message with this identifier whose stored author
/// is the requester.
pub open spec fn log_has_own_msg(log: Seq<HistoryItemV>, msg_id: u64, requester: Seq<char>) -> bool {
    exists|j: int| 0 <= j < log.len() && log[j].id == msg_id && log[j].from == requester
}

/// Whether the log holds a message with this identifier.
pub open spec fn log_has_msg(log: Seq<HistoryItemV>, msg_id: u64) -> bool {
    exists|j: int| 0 <= j < log.len() && log[j].id == msg_id
}

/// The message after an edit: new body, edited flag set, all else kept.
pub open spec fn edited_item_spec(m: HistoryItemV, new_text: Seq<char>) -> HistoryItemV {
    HistoryItemV { text: new_text, edited: true, ..m }
}

/// The message after a soft deletion: only the deleted flag changes.
pub open spec fn deleted_item_spec(m: HistoryItemV) -> HistoryItemV {
    HistoryItemV { deleted: true, ..m }
}

/// Replacing one message by another with the same identifier keeps a log
/// well-formed.
pub proof fn lemma_log_update_same_id(log: Seq<HistoryItemV>, j: int, m: HistoryItemV, next: u64)
    requires
        log_wf(log),
        log_ids_below(log, next),
        0 <= j < log.len(),
        m.id == log[j].id,
        item_wf(m),
    ensures
        log_wf(log.update(j, m)),
        log_ids_below(log.update(j, m), next),
{
    let l2 = log.update(j, m);
    assert(forall|i: int| 0 <= i < l2.len() ==> (#[trigger] l2[i]).id == log[i].id);
    assert(forall|i: int| 0 <= i < l2.len() ==> item_wf(#[trigger] l2[i]));
}

/// Swapping in a new log for one room keeps the room store well-formed.
pub proof fn lemma_rooms_update_one(
    rooms: Seq<RoomV>,
    ri: int,
    newlog: Seq<HistoryItemV>,
    next: u64,
)
    requires
        rooms_wf(rooms, next),
        0 <= ri < rooms.len(),
        log_wf(newlog),
        log_ids_below(newlog, next),
    ensures
        rooms_wf(rooms.update(ri, RoomV { name: rooms[ri].name, log: newlog }), next),
{
    let r2 = rooms.update(ri, RoomV { name: rooms[ri].name, log: newlog });
    assert(forall|i: int| 0 <= i < r2.len() ==> (#[trigger] r2[i]).name == rooms[i].name);
    assert(forall|i: int| 0 <= i < r2.len() ==> log_wf((#[trigger] r2[i]).log));
    assert(forall|i: int| 0 <= i < r2.len() ==> log_ids_below((#[trigger] r2[i]).log, next));
}

/// Locates a message by identifier and stored author.
fn find_own_msg(log: &Vec<HistoryItem>, msg_id: u64, requester: &str) -> (r: Option<usize>)
    ensures
        match r {
            Some(j) => j < log@.len() && log.deep_view()[j as int].id == msg_id
                && log.deep_view()[j as int].from == requester@,
            None => !log_has_own_msg(log.deep_view(), msg_id, requester@),
        },
{
    let mut i: usize = 0;
    while i < log.len()
        invariant
            0 <= i <= log@.len(),
            forall|j: int|
                0 <= j < i ==> !((#[trigger] log.deep_view()[j]).id == msg_id
                    && log.deep_view()[j].from == requester@),
        decreases log@.len() - i,
    {
        if log[i].id == msg_id {
            if eq_str(log[i].from.as_str(), requester) {
                return Some(i);
            }
        }
        i = i + 1;
    }
    None
}

/// Edits a message: succeeds exactly when the named room's log holds the
/// identifier under the requester's own name; then the body is replaced and
/// the edited flag set, and an edit event goes to the room. Otherwise the
/// state is unchanged and nothing is emitted.
pub fn edit_message(
    state: &mut ServerState,
    room: &str,
    msg_id: u64,
    new_text: &str,
    requester: &str,
) -> (r: (bool, Vec<Effect>))
    requires
        old(state).wf(),
    ensures
        final(state).wf(),
        r.0 == log_has_own_msg(room_log(old(state).deep_view().rooms, room@), msg_id, requester@),
        !r.0 ==> final(state).deep_view() == old(state).deep_view() && r.1@.len() == 0,
        final(state).deep_view().clients == old(state).deep_view().clients,
        final(state).deep_view().privates == old(state).deep_view().privates,
        final(state).deep_view().users == old(state).deep_view().users,
        final(state).deep_view().next_msg_id == old(state).deep_view().next_msg_id,
        r.0 ==> (exists|ri: int, j: int|
            #![trigger old(state).deep_view().rooms[ri].log[j]]
            {
                let rooms = old(state).deep_view().rooms;
                &&& 0 <= ri < rooms.len()
                &&& rooms[ri].name == room@
                &&& 0 <= j < rooms[ri].log.len()
                &&& rooms[ri].log[j].id == msg_id
                &&& rooms[ri].log[j].from == requester@
                &&& final(state).deep_view().rooms == rooms.update(
                    ri,
                    RoomV {
                        name: rooms[ri].name,
                        log: rooms[ri].log.update(
                            j,
                            edited_item_spec(rooms[ri].log[j], new_text@),
                        ),
                    },
                )
            }),
        r.0 ==> r.1@.len() == 1 && (r.1@[0] matches Effect::ToRoom { room: rn, msg: m } && rn@
            == room@ && (m matches Outgoing::Edit { msg_id: mid, new_text: t } && mid == msg_id
            && t@ == new_text@)),
{
    let ghost oldv = old(state).deep_view();
    let fr = find_room(&state.rooms, room);
    if fr.is_none() {
        proof {
            assert(!has_room(oldv.rooms, room@));
            assert(room_log(oldv.rooms, room@) =~= Seq::<HistoryItemV>::empty());
        }
        return (false, Vec::new());
    }
    let ri = fr.unwrap();
    proof {
        lemma_room_log_at(oldv.rooms, ri as int);
    }
    let mut rm = state.rooms.remove(ri);
    let fj = find_own_msg(&rm.log, msg_id, requester);
    if fj.is_none() {
        state.rooms.insert(ri, rm);
        proof {
            assert(state.deep_view().rooms =~~= oldv.rooms);
            assert(state.deep_view() =~~= oldv);
        }
        return (false, Vec::new());
    }
    let j = fj.unwrap();
    let ghost logv = oldv.rooms[ri as int].log;
    let item = HistoryItem {
        id: rm.log[j].id,
        from: rm.log[j].from.clone(),
        text: new_text.to_owned(),
        ts: rm.log[j].ts,
        reactions: duplicate_reactions(&rm.log[j].reactions),
        edited: true,
        deleted: rm.log[j].deleted,
    };
    proof {
        assert(item.deep_view() =~~= edited_item_spec(logv[j as int], new_text@));
    }
    rm.log.set(j, item);
    proof {
        assert(rm.log.deep_view() =~~= logv.update(
            j as int,
            edited_item_spec(logv[j as int], new_text@),
        ));
    }
    state.rooms.insert(ri, rm);
    proof {
        let newlog = logv.update(j as int, edited_item_spec(logv[j as int], new_text@));
        assert(state.deep_view().rooms =~~= oldv.rooms.update(
            ri as int,
            RoomV { name: oldv.rooms[ri as int].name, log: newlog },
        ));
        lemma_log_update_same_id(
            logv,
            j as int,
            edited_item_spec(logv[j as int], new_text@),
            oldv.next_msg_id,
        );
        lemma_rooms_update_one(oldv.rooms, ri as int, newlog, oldv.next_msg_id);
        assert(state.deep_view().clients =~~= oldv.clients);
        assert(state.deep_view().privates =~~= oldv.privates);
        assert(state.deep_view().users =~~= oldv.users);
    }
    let mut fx: Vec<Effect> = Vec::new();
    fx.push(
        Effect::ToRoom {
            room: room.to_owned(),
            msg: Outgoing::Edit { msg_id, new_text: new_text.to_owned() },
        },
    );
    (true, fx)
}

/// Soft-deletes a message: succeeds exactly when the named room's log holds
/// the identifier under the requester's own name; the entry is kept with its
/// deleted flag set, and a deletion event goes to the room. Otherwise the
/// state is unchanged and nothing is emitted.
pub fn delete_message(state: &mut ServerState, room: &str, msg_id: u64, requester: &str) -> (r: (
    bool,
    Vec<Effect>,
))
    requires
        old(state).wf(),
    ensures
        final(state).wf(),
        r.0 == log_has_own_msg(room_log(old(state).deep_view().rooms, room@), msg_id, requester@),
        !r.0 ==> final(state).deep_view() == old(state).deep_view() && r.1@.len() == 0,
        final(state).deep_view().clients == old(state).deep_view().clients,
        final(state).deep_view().privates == old(state).deep_view().privates,
        final(state).deep_view().users == old(state).deep_view().users,
        final(state).deep_view().next_msg_id == old(state).deep_view().next_msg_id,
        r.0 ==> (exists|ri: int, j: int|
            #![trigger old(state).deep_view().rooms[ri].log[j]]
            {
                let rooms = old(state).deep_view().rooms;
                &&& 0 <= ri < rooms.len()
                &&& rooms[ri].name == room@
                &&& 0 <= j < rooms[ri].log.len()
                &&& rooms[ri].log[j].id == msg_id
                &&& rooms[ri].log[j].from == requester@
                &&& final(state).deep_view().rooms == rooms.update(
                    ri,
                    RoomV {
                        name: rooms[ri].name,
                        log: rooms[ri].log.update(j, deleted_item_spec(rooms[ri].log[j])),
                    },
                )
            }),
        r.0 ==> r.1@.len() == 1 && (r.1@[0] matches Effect::ToRoom { room: rn, msg: m } && rn@
            == room@ && (m matches Outgoing::Delete { msg_id: mid } && mid == msg_id)),
{
    let ghost oldv = old(state).deep_view();
    let fr = find_room(&state.rooms, room);
    if fr.is_none() {
        proof {
            assert(!has_room(oldv.rooms, room@));
            assert(room_log(oldv.rooms, room@) =~= Seq::<HistoryItemV>::empty());
        }
        return (false, Vec::new());
    }
    let ri = fr.unwrap();
    proof {
        lemma_room_log_at(oldv.rooms, ri as int);
    }
    let mut rm = state.rooms.remove(ri);
    let fj = find_own_msg(&rm.log, msg_id, requester);
    if fj.is_none() {
        state.rooms.insert(ri, rm);
        proof {
            assert(state.deep_view().rooms =~~= oldv.rooms);
            assert(state.deep_view() =~~= oldv);
        }
        return (false, Vec::new());
    }
    let j = fj.unwrap();
    let ghost logv = oldv.rooms[ri as int].log;
    let item = HistoryItem {
        id: rm.log[j].id,
        from: rm.log[j].from.clone(),
        text: rm.log[j].text.clone(),
        ts: rm.log[j].ts,
        reactions: duplicate_reactions(&rm.log[j].reactions),
        edited: rm.log[j].edited,
        deleted: true,
    };
    proof {
        assert(item.deep_view() =~~= deleted_item_spec(logv[j as int]));
    }
    rm.log.set(j, item);
    proof {
        assert(rm.log.deep_view() =~~= logv.update(j as int, deleted_item_spec(logv[j as int])));
    }
    state.rooms.insert(ri, rm);
    proof {
        let newlog = logv.update(j as int, deleted_item_spec(logv[j as int]));
        assert(state.deep_view().rooms =~~= oldv.rooms.update(
            ri as int,
            RoomV { name: oldv.rooms[ri as int].name, log: newlog },
        ));
        lemma_log_update_same_id(
            logv,
            j as int,
            deleted_item_spec(logv[j as int]),
            oldv.next_msg_id,
        );
        lemma_rooms_update_one(oldv.rooms, ri as int, newlog, oldv.next_msg_id);
        assert(state.deep_view().clients =~~= oldv.clients);
        assert(state.deep_view().privates =~~= oldv.privates);
        assert(state.deep_view().users =~~= oldv.users);
    }
    let mut fx: Vec<Effect> = Vec::new();
    fx.push(Effect::ToRoom { room: room.to_owned(), msg: Outgoing::Delete { msg_id } });
    (true, fx)
}

/// Toggles a reaction on a message of the named room. When the identifier is
/// unknown there, nothing changes and nothing is emitted; otherwise the
/// toggle outcome is broadcast to the room.
pub fn add_reaction(state: &mut ServerState, room: &str, msg_id: u64, emoji: &str, user: &str) -> (
    r: Vec<Effect>)
    requires
        old(state).wf(),
    ensures
        final(state).wf(),
        final(state).deep_view().clients == old(state).deep_view().clients,
        final(state).deep_view().privates == old(state).deep_view().privates,
        final(state).deep_view().users == old(state).deep_view().users,
        final(state).deep_view().next_msg_id == old(state).deep_view().next_msg_id,
        !log_has_msg(room_log(old(state).deep_view().rooms, room@), msg_id)
            ==> final(state).deep_view() == old(state).deep_view() && r@.len() == 0,
        log_has_msg(room_log(old(state).deep_view().rooms, room@), msg_id) ==> (exists|
            ri: int,
            j: int,
        |
            #![trigger old(state).deep_view().rooms[ri].log[j]]
            {
                let rooms = old(state).deep_view().rooms;
                &&& 0 <= ri < rooms.len()
                &&& rooms[ri].name == room@
                &&& 0 <= j < rooms[ri].log.len()
                &&& rooms[ri].log[j].id == msg_id
                &&& final(state).deep_view().rooms == rooms.update(
                    ri,
                    RoomV {
                        name: rooms[ri].name,
                        log: rooms[ri].log.update(
                            j,
                            toggle_spec(rooms[ri].log[j], emoji@, user@),
                        ),
                    },
                )
                &&& r@.len() == 1
                &&& (r@[0] matches Effect::ToRoom { room: rn, msg: m } && rn@ == room@ && (
                m matches Outgoing::Reaction { msg_id: mid, emoji: e, user: u, added } && mid
                    == msg_id && e@ == emoji@ && u@ == user@ && added == toggle_added(
                    rooms[ri].log[j],
                    emoji@,
                    user@,
                )))
            }),
{
    let ghost oldv = old(state).deep_view();
    let fr = find_room(&state.rooms, room);
    if fr.is_none() {
        proof {
            assert(!has_room(oldv.rooms, room@));
            assert(room_log(oldv.rooms, room@) =~= Seq::<HistoryItemV>::empty());
        }
        return Vec::new();
    }
    let ri = fr.unwrap();
    proof {
        lemma_room_log_at(oldv.rooms, ri as int);
    }
    let mut rm = state.rooms.remove(ri);
    let fj = find_msg(&rm.log, msg_id);
    if fj.is_none() {
        state.rooms.insert(ri, rm);
        proof {
            assert(state.deep_view().rooms =~~= oldv.rooms);
            assert(state.deep_view() =~~= oldv);
        }
        return Vec::new();
    }
    let j = fj.unwrap();
    let ghost logv = oldv.rooms[ri as int].log;
    let mut item = rm.log.remove(j);
    let added = toggle_reaction(&mut item, emoji, user);
    rm.log.insert(j, item);
    proof {
        assert(rm.log.deep_view() =~~= logv.update(
            j as int,
            toggle_spec(logv[j as int], emoji@, user@),
        ));
    }
    state.rooms.insert(ri, rm);
    proof {
        let newlog = logv.update(j as int, toggle_spec(logv[j as int], emoji@, user@));
        assert(state.deep_view().rooms =~~= oldv.rooms.update(
            ri as int,
            RoomV { name: oldv.rooms[ri as int].name, log: newlog },
        ));
        lemma_log_update_same_id(
            logv,
            j as int,
            toggle_spec(logv[j as int], emoji@, user@),
            oldv.next_msg_id,
        );
        lemma_rooms_update_one(oldv.rooms, ri as int, newlog, oldv.next_msg_id);
        assert(state.deep_view().clients =~~= oldv.clients);
        assert(state.deep_view().privates =~~= oldv.privates);
        assert(state.deep_view().users =~~= oldv.users);
    }
    let mut fx: Vec<Effect> = Vec::new();
    fx.push(
        Effect::ToRoom {
            room: room.to_owned(),
            msg: Outgoing::Reaction {
                msg_id,
                emoji: emoji.to_owned(),
                user: user.to_owned(),
                added,
            },
        },
    );
    fx
}


/// How the room store changes when one room's log is replaced or the room
/// first created: the named room carries the new log, everything else stays.
pub open spec fn rooms_upserted(
    oldr: Seq<RoomV>,
    newr: Seq<RoomV>,
    name: Seq<char>,
    newlog: Seq<HistoryItemV>,
) -> bool {
    if has_room(oldr, name) {
        exists|i: int|
            #![trigger oldr[i]]
            0 <= i < oldr.len() && oldr[i].name == name && newr == oldr.update(
                i,
                RoomV { name: oldr[i].name, log: newlog },
            )
    } else {
        newr == oldr.push(RoomV { name: name, log: newlog })
    }
}

/// A room created on demand: present already, or appended with an empty log.
pub open spec fn rooms_ensured(oldr: Seq<RoomV>, newr: Seq<RoomV>, name: Seq<char>) -> bool {
    if has_room(oldr, name) {
        newr == oldr
    } else {
        newr == oldr.push(RoomV { name: name, log: Seq::empty() })
    }
}

/// The entry recorded for a plain chat or private message.
pub open spec fn chat_item_spec(id: u64, from: Seq<char>, text: Seq<char>, ts: u64) -> HistoryItemV {
    HistoryItemV {
        id,
        from,
        text,
        ts,
        reactions: Seq::empty(),
        edited: false,
        deleted: false,
    }
}

/// The system entry recorded for an announcement.
pub open spec fn sys_item_spec(id: u64, text: Seq<char>, ts: u64) -> HistoryItemV {
    HistoryItemV {
        id,
        from: "system"@,
        text,
        ts,
        reactions: Seq::empty(),
        edited: false,
        deleted: false,
    }
}

/// Appends a message to the named room's log, creating the room on first
/// use; past the capacity the oldest entry is evicted.
pub fn append_item(state: &mut ServerState, room: &str, item: HistoryItem)
    requires
        old(state).wf(),
        item_wf(item.deep_view()),
        item.deep_view().id < old(state).next_msg_id,
        forall|i: int|
            0 <= i < old(state).deep_view().rooms.len() ==> log_ids_below(
                (#[trigger] old(state).deep_view().rooms[i]).log,
                item.deep_view().id,
            ),
    ensures
        final(state).wf(),
        final(state).deep_view().clients == old(state).deep_view().clients,
        final(state).deep_view().privates == old(state).deep_view().privates,
        final(state).deep_view().users == old(state).deep_view().users,
        final(state).deep_view().next_msg_id == old(state).deep_view().next_msg_id,
        rooms_upserted(
            old(state).deep_view().rooms,
            final(state).deep_view().rooms,
            room@,
            push_evict_spec(room_log(old(state).deep_view().rooms, room@), item.deep_view()),
        ),
{
    let ghost oldv = old(state).deep_view();
    let ghost itemv = item.deep_view();
    let fr = find_room(&state.rooms, room);
    if fr.is_none() {
        let mut log: Vec<HistoryItem> = Vec::new();
        log.push(item);
        let newroom = Room { name: room.to_owned(), log };
        proof {
            assert(!has_room(oldv.rooms, room@));
            assert(room_log(oldv.rooms, room@) =~= Seq::<HistoryItemV>::empty());
            assert(newroom.deep_view().log =~~= push_evict_spec(
                room_log(oldv.rooms, room@),
                itemv,
            ));
        }
        state.rooms.push(newroom);
        proof {
            assert(state.deep_view().rooms =~~= oldv.rooms.push(
                RoomV { name: room@, log: push_evict_spec(room_log(oldv.rooms, room@), itemv) },
            ));
            assert(state.deep_view().clients =~~= oldv.clients);
            assert(state.deep_view().privates =~~= oldv.privates);
            assert(state.deep_view().users =~~= oldv.users);
            let r2 = state.deep_view().rooms;
            assert(forall|i: int| 0 <= i < oldv.rooms.len() ==> r2[i] == (#[trigger] oldv.rooms[i]));
            assert(log_wf(r2[r2.len() - 1].log));
            assert(rooms_wf(r2, oldv.next_msg_id));
        }
        return;
    }
    let ri = fr.unwrap();
    proof {
        lemma_room_log_at(oldv.rooms, ri as int);
    }
    let mut rm = state.rooms.remove(ri);
    push_evict(&mut rm.log, item);
    state.rooms.insert(ri, rm);
    proof {
        let newlog = push_evict_spec(room_log(oldv.rooms, room@), itemv);
        assert(state.deep_view().rooms =~~= oldv.rooms.update(
            ri as int,
            RoomV { name: oldv.rooms[ri as int].name, log: newlog },
        ));
        lemma_rooms_update_one(oldv.rooms, ri as int, newlog, oldv.next_msg_id);
        assert(state.deep_view().clients =~~= oldv.clients);
        assert(state.deep_view().privates =~~= oldv.privates);
        assert(state.deep_view().users =~~= oldv.users);
    }
}

/// Records a system announcement in the room's log and addresses it to the
/// room.
pub fn send_system_to_room(state: &mut ServerState, room: &str, text: &str, now: u64) -> (r: Vec<
    Effect,
>)
    requires
        old(state).wf(),
        old(state).next_msg_id < u64::MAX,
    ensures
        final(state).wf(),
        final(state).deep_view().clients == old(state).deep_view().clients,
        final(state).deep_view().privates == old(state).deep_view().privates,
        final(state).deep_view().users == old(state).deep_view().users,
        final(state).deep_view().next_msg_id == old(state).deep_view().next_msg_id + 1,
        rooms_upserted(
            old(state).deep_view().rooms,
            final(state).deep_view().rooms,
            room@,
            push_evict_spec(
                room_log(old(state).deep_view().rooms, room@),
                sys_item_spec(old(state).next_msg_id, text@, now),
            ),
        ),
        r.deep_view() =~= seq![
            EffectV::ToRoom { room: room@, msg: OutgoingV::System { text: text@ } },
        ],
{
    let id = generate_msg_id(state);
    let item = HistoryItem {
        id,
        from: "system".to_owned(),
        text: text.to_owned(),
        ts: now,
        reactions: Vec::new(),
        edited: false,
        deleted: false,
    };
    proof {
        assert(item.deep_view() =~~= sys_item_spec(old(state).next_msg_id, text@, now));
    }
    append_item(state, room, item);
    let mut fx: Vec<Effect> = Vec::new();
    fx.push(Effect::ToRoom { room: room.to_owned(), msg: Outgoing::System { text: text.to_owned() } });
    proof {
        assert(fx.deep_view() =~= seq![
            EffectV::ToRoom { room: room@, msg: OutgoingV::System { text: text@ } },
        ]);
    }
    fx
}

/// The entries of a log that a read path may show: the soft-deleted ones are
/// left out, order kept.
pub open spec fn sel_visible(log: Seq<HistoryItemV>) -> Seq<HistoryItemV>
    decreases log.len(),
{
    if log.len() == 0 {
        Seq::empty()
    } else {
        let rest = sel_visible(log.drop_last());
        if !log.last().deleted {
            rest.push(log.last())
        } else {
            rest
        }
    }
}

/// Copies the non-deleted entries of a log, in order.
pub fn visible_items(log: &Vec<HistoryItem>) -> (r: Vec<HistoryItem>)
    ensures
        r.deep_view() == sel_visible(log.deep_view()),
{
    let ghost lv = log.deep_view();
    let mut out: Vec<HistoryItem> = Vec::new();
    let mut i: usize = 0;
    while i < log.len()
        invariant
            0 <= i <= log@.len(),
            lv == log.deep_view(),
            out.deep_view() =~= sel_visible(lv.subrange(0, i as int)),
        decreases log@.len() - i,
    {
        let ghost out0 = out.deep_view();
        if !log[i].deleted {
            out.push(log[i].duplicate());
            proof {
                assert(out.deep_view() =~= out0.push(lv[i as int]));
            }
        }
        i = i + 1;
        proof {
            let prev = lv.subrange(0, i - 1);
            let cur = lv.subrange(0, i as int);
            assert(cur.drop_last() =~= prev);
            assert(cur.last() == lv[i - 1]);
            assert(out.deep_view() =~= sel_visible(cur));
        }
    }
    proof {
        assert(lv.subrange(0, log@.len() as int) =~= lv);
    }
    out
}

/// Hands one session the room's history: the non-deleted entries in order.
pub fn send_history_to_client_room(state: &ServerState, sid: u64, room: &str) -> (r: Vec<Effect>)
    requires
        state.wf(),
    ensures
        r.deep_view() =~~= seq![
            EffectV::ToSession {
                sid,
                msg: OutgoingV::History {
                    items: sel_visible(room_log(state.deep_view().rooms, room@)),
                },
            },
        ],
{
    let fr = find_room(&state.rooms, room);
    let items: Vec<HistoryItem> = match fr {
        Some(ri) => {
            proof {
                assert(has_room(state.deep_view().rooms, room@));
                lemma_room_log_at(state.deep_view().rooms, ri as int);
            }
            visible_items(&state.rooms[ri].log)
        },
        None => {
            proof {
                assert(room_log(state.deep_view().rooms, room@) =~= Seq::<HistoryItemV>::empty());
            }
            Vec::new()
        },
    };
    let ghost expected = sel_visible(room_log(state.deep_view().rooms, room@));
    let mut fx: Vec<Effect> = Vec::new();
    fx.push(Effect::ToSession { sid, msg: Outgoing::History { items } });
    proof {
        assert(fx.deep_view() =~~= seq![
            EffectV::ToSession { sid, msg: OutgoingV::History { items: expected } },
        ]);
    }
    fx
}

/// Addresses the room's member-name list to the room.
pub fn send_user_list_to_room(state: &ServerState, room: &str) -> (r: Vec<Effect>)
    ensures
        r.deep_view() =~= seq![
            EffectV::ToRoom {
                room: room@,
                msg: OutgoingV::List {
                    users: crate::helpers::sel_names(state.deep_view().clients, room@),
                },
            },
        ],
{
    let users = crate::helpers::names_in_room(&state.clients, room);
    let mut fx: Vec<Effect> = Vec::new();
    fx.push(Effect::ToRoom { room: room.to_owned(), msg: Outgoing::List { users } });
    fx
}

/// Addresses a read receipt to the room.
pub fn broadcast_read_receipt(room: &str, user: &str, last_msg_id: u64) -> (r: Vec<Effect>)
    ensures
        r.deep_view() =~= seq![
            EffectV::ToRoom {
                room: room@,
                msg: OutgoingV::ReadReceipt { user: user@, last_msg_id },
            },
        ],
{
    let mut fx: Vec<Effect> = Vec::new();
    fx.push(
        Effect::ToRoom {
            room: room.to_owned(),
            msg: Outgoing::ReadReceipt { user: user.to_owned(), last_msg_id },
        },
    );
    fx
}

/// Addresses a presence status update to every live session.
pub fn broadcast_status(user: &str, status: &str) -> (r: Vec<Effect>)
    ensures
        r.deep_view() =~= seq![
            EffectV::ToAll { msg: OutgoingV::Status { user: user@, status: status@ } },
        ],
{
    let mut fx: Vec<Effect> = Vec::new();
    fx.push(
        Effect::ToAll {
            msg: Outgoing::Status { user: user.to_owned(), status: status.to_owned() },
        },
    );
    fx
}


/// The mention notices one `@name` token produces: one per live session of
/// the room whose folded name matches, in registry order.
pub open spec fn mention_fx_for(
    cs: Seq<ClientV>,
    m: Seq<char>,
    room: Seq<char>,
    from: Seq<char>,
    text: Seq<char>,
) -> Seq<EffectV>
    decreases cs.len(),
{
    if cs.len() == 0 {
        Seq::empty()
    } else {
        let rest = mention_fx_for(cs.drop_last(), m, room, from, text);
        if cs.last().room == room && fold_seq(cs.last().name) == fold_seq(m) {
            rest.push(
                EffectV::ToSession {
                    sid: cs.last().id,
                    msg: OutgoingV::Mention { from, text, mentioned: m },
                },
            )
        } else {
            rest
        }
    }
}

/// The mention notices of a whole message, token by token.
pub open spec fn mention_fx(
    cs: Seq<ClientV>,
    ms: Seq<Seq<char>>,
    room: Seq<char>,
    from: Seq<char>,
    text: Seq<char>,
) -> Seq<EffectV>
    decreases ms.len(),
{
    if ms.len() == 0 {
        Seq::empty()
    } else {
        mention_fx(cs, ms.drop_last(), room, from, text) + mention_fx_for(
            cs,
            ms.last(),
            room,
            from,
            text,
        )
    }
}

/// Stores a chat message in the room's log and addresses it to the room,
/// followed by one private mention notice per `@name` token that names a
/// live session of that room.
pub fn broadcast_to_room_and_store(state: &mut ServerState, room: &str, item: HistoryItem) -> (r:
    Vec<Effect>)
    requires
        old(state).wf(),
        item_wf(item.deep_view()),
        item.deep_view().id < old(state).next_msg_id,
        forall|i: int|
            0 <= i < old(state).deep_view().rooms.len() ==> log_ids_below(
                (#[trigger] old(state).deep_view().rooms[i]).log,
                item.deep_view().id,
            ),
    ensures
        final(state).wf(),
        final(state).deep_view().clients == old(state).deep_view().clients,
        final(state).deep_view().privates == old(state).deep_view().privates,
        final(state).deep_view().users == old(state).deep_view().users,
        final(state).deep_view().next_msg_id == old(state).deep_view().next_msg_id,
        rooms_upserted(
            old(state).deep_view().rooms,
            final(state).deep_view().rooms,
            room@,
            push_evict_spec(room_log(old(state).deep_view().rooms, room@), item.deep_view()),
        ),
        r.deep_view() =~~= seq![
            EffectV::ToRoom {
                room: room@,
                msg: OutgoingV::Msg {
                    id: item.deep_view().id,
                    from: item.deep_view().from,
                    text: item.deep_view().text,
                    ts: item.deep_view().ts,
                    reactions: item.deep_view().reactions,
                    edited: item.deep_view().edited,
                },
            },
        ] + mention_fx(
            old(state).deep_view().clients,
            mentions_of(item.deep_view().text),
            room@,
            item.deep_view().from,
            item.deep_view().text,
        ),
{
    let ghost itemv = item.deep_view();
    let ghost cs = old(state).deep_view().clients;
    let from_s = item.from.clone();
    let text_s = item.text.clone();
    let out_msg = Outgoing::Msg {
        id: item.id,
        from: item.from.clone(),
        text: item.text.clone(),
        ts: item.ts,
        reactions: duplicate_reactions(&item.reactions),
        edited: item.edited,
    };
    let mentions = extract_mentions(item.text.as_str());
    let ghost msv = mentions_of(itemv.text);
    proof {
        assert(mentions.deep_view() =~= msv);
    }
    append_item(state, room, item);
    let mut fx: Vec<Effect> = Vec::new();
    fx.push(Effect::ToRoom { room: room.to_owned(), msg: out_msg });
    let ghost hdr = seq![
        EffectV::ToRoom {
            room: room@,
            msg: OutgoingV::Msg {
                id: itemv.id,
                from: itemv.from,
                text: itemv.text,
                ts: itemv.ts,
                reactions: itemv.reactions,
                edited: itemv.edited,
            },
        },
    ];
    proof {
        assert(fx.deep_view() =~~= hdr + mention_fx(cs, msv.subrange(0, 0), room@, itemv.from,
            itemv.text));
    }
    let mut i: usize = 0;
    while i < mentions.len()
        invariant
            0 <= i <= mentions@.len(),
            msv == mentions.deep_view(),
            cs == state.deep_view().clients,
            state.clients@.len() == cs.len(),
            from_s@ == itemv.from,
            text_s@ == itemv.text,
            fx.deep_view() =~~= hdr + mention_fx(
                cs,
                msv.subrange(0, i as int),
                room@,
                itemv.from,
                itemv.text,
            ),
        decreases mentions@.len() - i,
    {
        let ghost fx_outer = fx.deep_view();
        let mut j: usize = 0;
        while j < state.clients.len()
            invariant
                0 <= j <= state.clients@.len(),
                i < mentions@.len(),
                msv == mentions.deep_view(),
                cs == state.deep_view().clients,
                state.clients@.len() == cs.len(),
                from_s@ == itemv.from,
                text_s@ == itemv.text,
                fx.deep_view() =~~= fx_outer + mention_fx_for(
                    cs.subrange(0, j as int),
                    msv[i as int],
                    room@,
                    itemv.from,
                    itemv.text,
                ),
            decreases state.clients@.len() - j,
        {
            let ghost fx0 = fx.deep_view();
            if eq_str(state.clients[j].room.as_str(), room) {
                if eq_str_fold(state.clients[j].name.as_str(), mentions[i].as_str()) {
                    let f2 = from_s.clone();
                    let t2 = text_s.clone();
                    let m2 = mentions[i].clone();
                    proof {
                        assert(f2@ == itemv.from);
                        assert(t2@ == itemv.text);
                        assert(m2@ == msv[i as int]);
                    }
                    let eff = Effect::ToSession {
                        sid: state.clients[j].id,
                        msg: Outgoing::Mention { from: f2, text: t2, mentioned: m2 },
                    };
                    proof {
                        assert(eff.deep_view() =~~= EffectV::ToSession {
                            sid: cs[j as int].id,
                            msg: OutgoingV::Mention {
                                from: itemv.from,
                                text: itemv.text,
                                mentioned: msv[i as int],
                            },
                        });
                    }
                    fx.push(eff);
                    proof {
                        assert(fx.deep_view() =~~= fx0.push(
                            EffectV::ToSession {
                                sid: cs[j as int].id,
                                msg: OutgoingV::Mention {
                                    from: itemv.from,
                                    text: itemv.text,
                                    mentioned: msv[i as int],
                                },
                            },
                        ));
                    }
                }
            }
            j = j + 1;
            proof {
                let prev = cs.subrange(0, j - 1);
                let cur = cs.subrange(0, j as int);
                assert(cur.drop_last() =~= prev);
                assert(cur.last() == cs[j - 1]);
                assert(fx.deep_view() =~~= fx_outer + mention_fx_for(
                    cur,
                    msv[i as int],
                    room@,
                    itemv.from,
                    itemv.text,
                ));
            }
        }
        i = i + 1;
        proof {
            assert(cs.subrange(0, cs.len() as int) =~= cs);
            let prevm = msv.subrange(0, i - 1);
            let curm = msv.subrange(0, i as int);
            assert(curm.drop_last() =~= prevm);
            assert(curm.last() == msv[i - 1]);
            assert(fx.deep_view() =~~= hdr + mention_fx(cs, curm, room@, itemv.from, itemv.text));
        }
    }
    proof {
        assert(msv.subrange(0, mentions@.len() as int) =~= msv);
    }
    fx
}


/// The position of the room with this name.
pub open spec fn room_idx(rooms: Seq<RoomV>, name: Seq<char>) -> int {
    choose|i: int| 0 <= i < rooms.len() && rooms[i].name == name
}

/// The room store after one log replacement or room creation, as a function.
pub open spec fn upsert_spec(
    rooms: Seq<RoomV>,
    name: Seq<char>,
    newlog: Seq<HistoryItemV>,
) -> Seq<RoomV> {
    if has_room(rooms, name) {
        rooms.update(
            room_idx(rooms, name),
            RoomV { name: rooms[room_idx(rooms, name)].name, log: newlog },
        )
    } else {
        rooms.push(RoomV { name: name, log: newlog })
    }
}

/// The room store with the named room present, created empty if need be.
pub open spec fn ensure_spec(rooms: Seq<RoomV>, name: Seq<char>) -> Seq<RoomV> {
    if has_room(rooms, name) {
        rooms
    } else {
        rooms.push(RoomV { name: name, log: Seq::empty() })
    }
}

/// With distinct room names, an upsert lands on one determined room.
pub proof fn lemma_upsert_deterministic(
    oldr: Seq<RoomV>,
    newr: Seq<RoomV>,
    name: Seq<char>,
    newlog: Seq<HistoryItemV>,
)
    requires
        room_names_unique(oldr),
        rooms_upserted(oldr, newr, name, newlog),
    ensures
        newr == upsert_spec(oldr, name, newlog),
{
    if has_room(oldr, name) {
        let i = choose|i: int|
            #![trigger oldr[i]]
            0 <= i < oldr.len() && oldr[i].name == name && newr == oldr.update(
                i,
                RoomV { name: oldr[i].name, log: newlog },
            );
        let k = room_idx(oldr, name);
        assert(0 <= k < oldr.len() && oldr[k].name == name);
        assert(i == k) by {
            if i < k {
                assert(oldr[i].name != oldr[k].name);
            } else if k < i {
                assert(oldr[k].name != oldr[i].name);
            }
        }
    }
}

/// The announcement recorded when a session leaves a room.
pub open spec fn leave_text(name: Seq<char>) -> Seq<char> {
    "-- "@ + name + " left the room --"@
}

/// The announcement recorded when a session joins a room.
pub open spec fn join_text(name: Seq<char>) -> Seq<char> {
    "-- "@ + name + " joined the room --"@
}

/// The private confirmation handed to the mover.
pub open spec fn you_joined_text(room: Seq<char>) -> Seq<char> {
    "You joined room '"@ + room + "'"@
}

/// Everything a completed room move leaves behind: the mover's session
/// updated to the target, two announcements recorded (leave in the old
/// room, join in the target, which is created on first use), and the six
/// envelopes in order: leave announcement and refreshed list to the old
/// room, join announcement to the target, the target's history to the
/// mover, the target's list, and the mover's confirmation.
pub open spec fn join_room_post(
    pre: ServerStateV,
    post: ServerStateV,
    fx: Seq<EffectV>,
    client_id: u64,
    t: Seq<char>,
    now: u64,
) -> bool {
    let cs = pre.clients;
    let name = crate::helpers::client_by_id(cs, client_id).name;
    let oldroom = crate::helpers::client_by_id(cs, client_id).room;
    let r1 = ensure_spec(pre.rooms, t);
    let r2 = upsert_spec(
        r1,
        oldroom,
        push_evict_spec(
            room_log(r1, oldroom),
            sys_item_spec(pre.next_msg_id, leave_text(name), now),
        ),
    );
    let r3 = upsert_spec(
        r2,
        t,
        push_evict_spec(
            room_log(r2, t),
            sys_item_spec((pre.next_msg_id + 1) as u64, join_text(name), now),
        ),
    );
    &&& post.next_msg_id == pre.next_msg_id + 2
    &&& (exists|i: int|
        #![trigger cs[i]]
        0 <= i < cs.len() && cs[i].id == client_id && post.clients == cs.update(
            i,
            ClientV { room: t, ..cs[i] },
        ))
    &&& post.rooms == r3
    &&& fx =~~= seq![
        EffectV::ToRoom { room: oldroom, msg: OutgoingV::System { text: leave_text(name) } },
        EffectV::ToRoom {
            room: oldroom,
            msg: OutgoingV::List { users: crate::helpers::sel_names(post.clients, oldroom) },
        },
        EffectV::ToRoom { room: t, msg: OutgoingV::System { text: join_text(name) } },
        EffectV::ToSession {
            sid: client_id,
            msg: OutgoingV::History { items: sel_visible(room_log(r3, t)) },
        },
        EffectV::ToRoom {
            room: t,
            msg: OutgoingV::List { users: crate::helpers::sel_names(post.clients, t) },
        },
        EffectV::ToSession { sid: client_id, msg: OutgoingV::System { text: you_joined_text(t) } },
    ]
}

/// Moves a session to another room: the trimmed target is created on first
/// use, the leave is announced with a fresh user list in the old room, the
/// join in the new one, and the mover receives the room's history and a
/// confirmation. A blank target or an unknown session changes nothing.
pub fn join_room(state: &mut ServerState, client_id: u64, room: &str, now: u64) -> (r: Vec<Effect>)
    requires
        old(state).wf(),
        old(state).next_msg_id + 2 <= u64::MAX,
    ensures
        final(state).wf(),
        final(state).deep_view().users == old(state).deep_view().users,
        final(state).deep_view().privates == old(state).deep_view().privates,
        !(trim_spec(room@).len() > 0 && has_client(old(state).deep_view().clients, client_id))
            ==> final(state).deep_view() == old(state).deep_view() && r@.len() == 0,
        (trim_spec(room@).len() > 0 && has_client(old(state).deep_view().clients, client_id))
            ==> join_room_post(
            old(state).deep_view(),
            final(state).deep_view(),
            r.deep_view(),
            client_id,
            trim_spec(room@),
            now,
        ),
{
    let ghost oldv = old(state).deep_view();
    let t_str = trim_str(room);
    if t_str.unicode_len() == 0 {
        proof {
            assert(state.deep_view() =~~= oldv);
        }
        return Vec::new();
    }
    let fi = crate::helpers::find_client(&state.clients, client_id);
    if fi.is_none() {
        proof {
            assert(state.deep_view() =~~= oldv);
        }
        return Vec::new();
    }
    let i = fi.unwrap();
    proof {
        let j = choose|j: int| 0 <= j < oldv.clients.len() && oldv.clients[j].id == client_id;
        assert(j == i) by {
            if j < i {
                assert(oldv.clients[j].id != oldv.clients[i as int].id);
            } else if j > i {
                assert(oldv.clients[i as int].id != oldv.clients[j].id);
            }
        }
    }
    let name = state.clients[i].name.clone();
    let old_room = state.clients[i].room.clone();
    let mut c = state.clients.remove(i);
    c.room = t_str.to_owned();
    state.clients.insert(i, c);
    proof {
        assert(state.deep_view().clients =~~= oldv.clients.update(
            i as int,
            ClientV { room: trim_spec(room@), ..oldv.clients[i as int] },
        ));
        let cs2 = state.deep_view().clients;
        assert(forall|k: int| 0 <= k < cs2.len() ==> (#[trigger] cs2[k]).id == oldv.clients[k].id);
        assert(forall|k: int|
            0 <= k < cs2.len() ==> (#[trigger] cs2[k]).name == oldv.clients[k].name);
        assert(state.deep_view().rooms =~~= oldv.rooms);
        assert(state.deep_view().privates =~~= oldv.privates);
        assert(state.deep_view().users =~~= oldv.users);
    }
    if find_room(&state.rooms, t_str).is_none() {
        state.rooms.push(Room { name: t_str.to_owned(), log: Vec::new() });
        proof {
            let r2 = state.deep_view().rooms;
            assert(r2 =~~= oldv.rooms.push(RoomV { name: trim_spec(room@), log: Seq::empty() }));
            assert(forall|k: int| 0 <= k < oldv.rooms.len() ==> r2[k] == (#[trigger] oldv.rooms[k]));
            assert(log_wf(r2[r2.len() - 1].log));
        }
    }
    proof {
        assert(state.deep_view().rooms == ensure_spec(oldv.rooms, trim_spec(room@)));
    }
    let ghost mid = state.deep_view();
    let leave = concat3("-- ", name.as_str(), " left the room --");
    proof {
        assert(leave@ == leave_text(crate::helpers::client_by_id(oldv.clients, client_id).name));
    }
    let mut fx = send_system_to_room(state, old_room.as_str(), leave.as_str(), now);
    proof {
        lemma_upsert_deterministic(
            mid.rooms,
            state.deep_view().rooms,
            old_room@,
            push_evict_spec(
                room_log(mid.rooms, old_room@),
                sys_item_spec(oldv.next_msg_id, leave@, now),
            ),
        );
    }
    let ghost g1 = fx.deep_view();
    let mut fx2 = send_user_list_to_room(state, old_room.as_str());
    let ghost g2 = fx2.deep_view();
    fx.append(&mut fx2);
    proof {
        assert(fx.deep_view() =~~= g1 + g2);
    }
    let joinm = concat3("-- ", name.as_str(), " joined the room --");
    proof {
        assert(joinm@ == join_text(crate::helpers::client_by_id(oldv.clients, client_id).name));
    }
    let ghost mid2 = state.deep_view();
    let ghost g12 = fx.deep_view();
    let mut fx3 = send_system_to_room(state, t_str, joinm.as_str(), now);
    let ghost g3 = fx3.deep_view();
    fx.append(&mut fx3);
    proof {
        assert(fx.deep_view() =~~= g12 + g3);
    }
    proof {
        lemma_upsert_deterministic(
            mid2.rooms,
            state.deep_view().rooms,
            trim_spec(room@),
            push_evict_spec(
                room_log(mid2.rooms, trim_spec(room@)),
                sys_item_spec((oldv.next_msg_id + 1) as u64, joinm@, now),
            ),
        );
    }
    let ghost g123 = fx.deep_view();
    let mut fx4 = send_history_to_client_room(state, client_id, t_str);
    let ghost g4 = fx4.deep_view();
    fx.append(&mut fx4);
    proof {
        assert(fx.deep_view() =~~= g123 + g4);
    }
    let ghost g1234 = fx.deep_view();
    let mut fx5 = send_user_list_to_room(state, t_str);
    let ghost g5 = fx5.deep_view();
    fx.append(&mut fx5);
    proof {
        assert(fx.deep_view() =~~= g1234 + g5);
    }
    let notice = concat3("You joined room '", t_str, "'");
    let ghost g12345 = fx.deep_view();
    let mut fx6: Vec<Effect> = Vec::new();
    fx6.push(Effect::ToSession { sid: client_id, msg: Outgoing::System { text: notice } });
    let ghost g6 = fx6.deep_view();
    fx.append(&mut fx6);
    proof {
        assert(g6 =~~= seq![
            EffectV::ToSession {
                sid: client_id,
                msg: OutgoingV::System { text: you_joined_text(trim_spec(room@)) },
            },
        ]);
        assert(fx.deep_view() =~~= g12345 + g6);
    }
    proof {
        assert(fx.deep_view() =~~= seq![
            EffectV::ToRoom {
                room: old_room@,
                msg: OutgoingV::System { text: leave@ },
            },
            EffectV::ToRoom {
                room: old_room@,
                msg: OutgoingV::List {
                    users: crate::helpers::sel_names(state.deep_view().clients, old_room@),
                },
            },
            EffectV::ToRoom {
                room: trim_spec(room@),
                msg: OutgoingV::System { text: joinm@ },
            },
            EffectV::ToSession {
                sid: client_id,
                msg: OutgoingV::History {
                    items: sel_visible(room_log(state.deep_view().rooms, trim_spec(room@))),
                },
            },
            EffectV::ToRoom {
                room: trim_spec(room@),
                msg: OutgoingV::List {
                    users: crate::helpers::sel_names(state.deep_view().clients, trim_spec(room@)),
                },
            },
            EffectV::ToSession {
                sid: client_id,
                msg: OutgoingV::System { text: you_joined_text(trim_spec(room@)) },
            },
        ]);
    }
    fx
}


/// Whether a private conversation for this unordered pair exists.
pub open spec fn has_convo(ps: Seq<PrivateConvoV>, a: Seq<char>, b: Seq<char>) -> bool {
    exists|i: int| 0 <= i < ps.len() && same_pair(#[trigger] ps[i], a, b)
}

/// The log of the conversation between two participants, empty when none
/// exists yet.
pub open spec fn convo_log(ps: Seq<PrivateConvoV>, a: Seq<char>, b: Seq<char>) -> Seq<
    HistoryItemV,
> {
    if has_convo(ps, a, b) {
        ps[choose|i: int| 0 <= i < ps.len() && same_pair(#[trigger] ps[i], a, b)].log
    } else {
        Seq::empty()
    }
}

/// How the private store changes when one conversation's log is replaced or
/// first created.
pub open spec fn privates_upserted(
    oldp: Seq<PrivateConvoV>,
    newp: Seq<PrivateConvoV>,
    a: Seq<char>,
    b: Seq<char>,
    newlog: Seq<HistoryItemV>,
) -> bool {
    if has_convo(oldp, a, b) {
        exists|i: int|
            #![trigger oldp[i]]
            0 <= i < oldp.len() && same_pair(oldp[i], a, b) && newp == oldp.update(
                i,
                PrivateConvoV { user_a: oldp[i].user_a, user_b: oldp[i].user_b, log: newlog },
            )
    } else {
        newp == oldp.push(PrivateConvoV { user_a: a, user_b: b, log: newlog })
    }
}

/// Locates the conversation of an unordered, case-insensitive pair.
fn find_convo(privates: &Vec<PrivateConvo>, a: &str, b: &str) -> (r: Option<usize>)
    ensures
        match r {
            Some(i) => i < privates@.len() && same_pair(privates.deep_view()[i as int], a@, b@),
            None => !has_convo(privates.deep_view(), a@, b@),
        },
{
    let mut i: usize = 0;
    while i < privates.len()
        invariant
            0 <= i <= privates@.len(),
            forall|j: int| 0 <= j < i ==> !same_pair(#[trigger] privates.deep_view()[j], a@, b@),
        decreases privates@.len() - i,
    {
        let fwd = eq_str_fold(privates[i].user_a.as_str(), a) && eq_str_fold(
            privates[i].user_b.as_str(),
            b,
        );
        let bwd = eq_str_fold(privates[i].user_a.as_str(), b) && eq_str_fold(
            privates[i].user_b.as_str(),
            a,
        );
        if fwd || bwd {
            return Some(i);
        }
        i = i + 1;
    }
    proof {
        if has_convo(privates.deep_view(), a@, b@) {
            let j = choose|j: int|
                0 <= j < privates.deep_view().len() && same_pair(
                    #[trigger] privates.deep_view()[j],
                    a@,
                    b@,
                );
            assert(false);
        }
    }
    None
}

/// Records a message in the private conversation of two participants,
/// creating the conversation on first use; the bounded log evicts its
/// oldest entry past capacity. Rooms, sessions and accounts are untouched.
pub fn append_private(state: &mut ServerState, a: &str, b: &str, item: HistoryItem)
    requires
        old(state).wf(),
        item_wf(item.deep_view()),
        item.deep_view().id < old(state).next_msg_id,
        forall|i: int|
            0 <= i < old(state).deep_view().privates.len() ==> log_ids_below(
                (#[trigger] old(state).deep_view().privates[i]).log,
                item.deep_view().id,
            ),
    ensures
        final(state).wf(),
        final(state).deep_view().clients == old(state).deep_view().clients,
        final(state).deep_view().rooms == old(state).deep_view().rooms,
        final(state).deep_view().users == old(state).deep_view().users,
        final(state).deep_view().next_msg_id == old(state).deep_view().next_msg_id,
        privates_upserted(
            old(state).deep_view().privates,
            final(state).deep_view().privates,
            a@,
            b@,
            push_evict_spec(convo_log(old(state).deep_view().privates, a@, b@), item.deep_view()),
        ),
{
    let ghost oldv = old(state).deep_view();
    let fc = find_convo(&state.privates, a, b);
    if fc.is_none() {
        let mut log: Vec<HistoryItem> = Vec::new();
        log.push(item);
        let convo = PrivateConvo { user_a: a.to_owned(), user_b: b.to_owned(), log };
        proof {
            assert(!has_convo(oldv.privates, a@, b@));
            assert(convo_log(oldv.privates, a@, b@) =~= Seq::<HistoryItemV>::empty());
            assert(convo.deep_view().log =~~= push_evict_spec(
                convo_log(oldv.privates, a@, b@),
                item.deep_view(),
            ));
        }
        state.privates.push(convo);
        proof {
            let p2 = state.deep_view().privates;
            assert(p2 =~~= oldv.privates.push(
                PrivateConvoV {
                    user_a: a@,
                    user_b: b@,
                    log: push_evict_spec(convo_log(oldv.privates, a@, b@), item.deep_view()),
                },
            ));
            assert(forall|i: int|
                0 <= i < oldv.privates.len() ==> p2[i] == (#[trigger] oldv.privates[i]));
            assert(log_wf(p2[p2.len() - 1].log));
            assert(state.deep_view().clients =~~= oldv.clients);
            assert(state.deep_view().rooms =~~= oldv.rooms);
            assert(state.deep_view().users =~~= oldv.users);
        }
        return;
    }
    let ci = fc.unwrap();
    proof {
        assert(has_convo(oldv.privates, a@, b@));
        let k = choose|k: int|
            0 <= k < oldv.privates.len() && same_pair(#[trigger] oldv.privates[k], a@, b@);
        assert(k == ci) by {
            if k < ci {
                assert(!same_pair(oldv.privates[k], oldv.privates[ci as int].user_a,
                    oldv.privates[ci as int].user_b));
            } else if k > ci {
                assert(!same_pair(oldv.privates[ci as int], oldv.privates[k].user_a,
                    oldv.privates[k].user_b));
            }
        }
    }
    let mut cv = state.privates.remove(ci);
    push_evict(&mut cv.log, item);
    state.privates.insert(ci, cv);
    proof {
        let newlog = push_evict_spec(convo_log(oldv.privates, a@, b@), item.deep_view());
        let p2 = state.deep_view().privates;
        assert(p2 =~~= oldv.privates.update(
            ci as int,
            PrivateConvoV {
                user_a: oldv.privates[ci as int].user_a,
                user_b: oldv.privates[ci as int].user_b,
                log: newlog,
            },
        ));
        assert(forall|i: int|
            0 <= i < p2.len() ==> (#[trigger] p2[i]).user_a == oldv.privates[i].user_a);
        assert(forall|i: int|
            0 <= i < p2.len() ==> (#[trigger] p2[i]).user_b == oldv.privates[i].user_b);
        assert forall|i: int, j: int| 0 <= i < j < p2.len() implies !same_pair(
            p2[i],
            p2[j].user_a,
            p2[j].user_b,
        ) by {
            assert(!same_pair(oldv.privates[i], oldv.privates[j].user_a, oldv.privates[j].user_b));
        }
        assert(forall|i: int| 0 <= i < p2.len() ==> log_wf((#[trigger] p2[i]).log));
        assert(forall|i: int|
            0 <= i < p2.len() ==> log_ids_below((#[trigger] p2[i]).log, oldv.next_msg_id));
        assert(state.deep_view().clients =~~= oldv.clients);
        assert(state.deep_view().rooms =~~= oldv.rooms);
        assert(state.deep_view().users =~~= oldv.users);
    }
}


/// The attachment broadcast once a link preview for an embedded URL has
/// been fetched; it follows the original message independently.
pub fn link_preview_effects(
    room: &str,
    msg_id: u64,
    title: &str,
    description: &str,
    image: &str,
    url: &str,
) -> (r: Vec<Effect>)
    ensures
        r.deep_view() =~~= seq![
            EffectV::ToRoom {
                room: room@,
                msg: OutgoingV::LinkPreview {
                    msg_id,
                    title: title@,
                    description: description@,
                    image: image@,
                    url: url@,
                },
            },
        ],
{
    let mut fx: Vec<Effect> = Vec::new();
    fx.push(
        Effect::ToRoom {
            room: room.to_owned(),
            msg: Outgoing::LinkPreview {
                msg_id,
                title: title.to_owned(),
                description: description.to_owned(),
                image: image.to_owned(),
                url: url.to_owned(),
            },
        },
    );
    fx
}

/// Copies a log, entry by entry.
fn duplicate_log(log: &Vec<HistoryItem>) -> (r: Vec<HistoryItem>)
    ensures
        r.deep_view() == log.deep_view(),
{
    let mut out: Vec<HistoryItem> = Vec::new();
    let mut i: usize = 0;
    while i < log.len()
        invariant
            0 <= i <= log@.len(),
            out@.len() == i,
            forall|j: int| 0 <= j < i ==> out.deep_view()[j] == log.deep_view()[j],
        decreases log@.len() - i,
    {
        out.push(log[i].duplicate());
        i = i + 1;
    }
    proof {
        assert(out.deep_view() =~~= log.deep_view());
    }
    out
}

/// Serializes the room store: a snapshot equal in content to every room and
/// log, ready for the persistence layer.
pub fn save_history(state: &ServerState) -> (r: Vec<Room>)
    ensures
        r.deep_view() == state.deep_view().rooms,
{
    let mut out: Vec<Room> = Vec::new();
    let mut i: usize = 0;
    while i < state.rooms.len()
        invariant
            0 <= i <= state.rooms@.len(),
            out@.len() == i,
            forall|j: int| 0 <= j < i ==> out.deep_view()[j] == state.deep_view().rooms[j],
        decreases state.rooms@.len() - i,
    {
        let ghost outd0 = out.deep_view();
        let rm = Room {
            name: state.rooms[i].name.clone(),
            log: duplicate_log(&state.rooms[i].log),
        };
        let ghost rv = rm.deep_view();
        proof {
            assert(rv =~~= state.deep_view().rooms[i as int]);
            assert(rv == state.deep_view().rooms[i as int]);
        }
        out.push(rm);
        i = i + 1;
        proof {
            assert forall|j: int| 0 <= j < i implies out.deep_view()[j] == state.deep_view().rooms[j] by {
                if j < i - 1 {
                    assert(out.deep_view()[j] == outd0[j]);
                } else {
                    assert(out@[i - 1].deep_view() == rv);
                }
            }
        }
    }
    proof {
        assert(out.deep_view() =~~= state.deep_view().rooms);
    }
    out
}

/// Whether a reaction list is well-formed, decided executably.
fn reactions_wf_check(rs: &Vec<ReactionEntry>) -> (r: bool)
    ensures
        r == reactions_wf(rs.deep_view()),
{
    let ghost rsv = rs.deep_view();
    let mut k: usize = 0;
    while k < rs.len()
        invariant
            0 <= k <= rs@.len(),
            rsv == rs.deep_view(),
            forall|i: int, j: int| 0 <= i < j < k ==> rsv[i].emoji != rsv[j].emoji,
            forall|i: int| 0 <= i < k ==> reaction_entry_wf(#[trigger] rsv[i]),
        decreases rs@.len() - k,
    {
        let mut p: usize = 0;
        while p < k
            invariant
                0 <= p <= k < rs@.len(),
                rsv == rs.deep_view(),
                forall|i: int| 0 <= i < p ==> rsv[i].emoji != rsv[k as int].emoji,
            decreases k - p,
        {
            if eq_str(rs[p].emoji.as_str(), rs[k].emoji.as_str()) {
                proof {
                    assert(rsv[p as int].emoji == rsv[k as int].emoji);
                }
                return false;
            }
            p = p + 1;
        }
        let users = &rs[k].users;
        let mut u: usize = 0;
        while u < users.len()
            invariant
                0 <= u <= users@.len(),
                k < rs@.len(),
                rsv == rs.deep_view(),
                users.deep_view() == rsv[k as int].users,
                forall|i: int, j: int|
                    0 <= i < j < u ==> rsv[k as int].users[i] != rsv[k as int].users[j],
            decreases users@.len() - u,
        {
            let mut q: usize = 0;
            while q < u
                invariant
                    0 <= q <= u < users@.len(),
                    k < rs@.len(),
                    rsv == rs.deep_view(),
                    users.deep_view() == rsv[k as int].users,
                    forall|i: int|
                        0 <= i < q ==> rsv[k as int].users[i] != rsv[k as int].users[u as int],
                decreases u - q,
            {
                if eq_str(users[q].as_str(), users[u].as_str()) {
                    proof {
                        assert(rsv[k as int].users[q as int] == rsv[k as int].users[u as int]);
                        assert(!reaction_entry_wf(rsv[k as int]));
                    }
                    return false;
                }
                q = q + 1;
            }
            u = u + 1;
        }
        proof {
            assert(reaction_entry_wf(rsv[k as int]));
        }
        k = k + 1;
    }
    true
}

/// Identifiers that increase between neighbours increase across the log.
proof fn lemma_adjacent_increasing(log: Seq<HistoryItemV>, i: int, j: int)
    requires
        forall|k: int| 0 <= k < log.len() - 1 ==> (#[trigger] log[k].id) < log[k + 1].id,
        0 <= i < j < log.len(),
    ensures
        log[i].id < log[j].id,
    decreases j - i,
{
    if j == i + 1 {
        assert(log[i].id < log[i + 1].id);
    } else {
        lemma_adjacent_increasing(log, i, j - 1);
        assert(log[j - 1].id < log[j].id);
    }
}

/// Whether a log is well-formed, decided executably.
fn log_wf_check(log: &Vec<HistoryItem>) -> (r: bool)
    ensures
        r == log_wf(log.deep_view()),
{
    let ghost lv = log.deep_view();
    if log.len() > ROOM_CAPACITY {
        return false;
    }
    let mut i: usize = 0;
    while i < log.len()
        invariant
            0 <= i <= log@.len(),
            lv == log.deep_view(),
            forall|k: int|
                0 <= k < i && k + 1 < lv.len() ==> (#[trigger] lv[k].id) < lv[k + 1].id,
            forall|k: int| 0 <= k < i ==> item_wf(#[trigger] lv[k]),
        decreases log@.len() - i,
    {
        if i + 1 < log.len() {
            if log[i].id >= log[i + 1].id {
                proof {
                    assert(lv[i as int].id >= lv[i + 1].id);
                }
                return false;
            }
            proof {
                assert(lv[i as int].id < lv[i + 1].id);
            }
        }
        if !reactions_wf_check(&log[i].reactions) {
            return false;
        }
        i = i + 1;
    }
    proof {
        assert forall|a: int, b: int| 0 <= a < b < lv.len() implies lv[a].id < lv[b].id by {
            assert(forall|k: int|
                0 <= k < lv.len() - 1 ==> (#[trigger] lv[k].id) < lv[k + 1].id);
            lemma_adjacent_increasing(lv, a, b);
        }
    }
    true
}

/// What a reload accepts wholesale: distinct room names, well-formed logs,
/// and identifiers below the counter's limit.
pub open spec fn snapshot_ok(rs: Seq<RoomV>) -> bool {
    &&& room_names_unique(rs)
    &&& forall|i: int| 0 <= i < rs.len() ==> log_wf((#[trigger] rs[i]).log)
    &&& forall|i: int| 0 <= i < rs.len() ==> log_ids_below((#[trigger] rs[i]).log, u64::MAX)
}

/// A well-formed store always makes a snapshot a reload accepts wholesale:
/// reloading what was saved reproduces every room and so, in particular, the
/// same set of non-deleted messages per room.
pub proof fn lemma_snapshot_roundtrip(s: ServerStateV)
    requires
        state_wf(s),
    ensures
        snapshot_ok(s.rooms),
{
    assert forall|i: int| 0 <= i < s.rooms.len() implies log_ids_below(
        (#[trigger] s.rooms[i]).log,
        u64::MAX,
    ) by {
        assert(log_ids_below(s.rooms[i].log, s.next_msg_id));
        assert forall|k: int| 0 <= k < s.rooms[i].log.len() implies (#[trigger] s.rooms[i].log[k].id)
            < u64::MAX by {
            assert(s.rooms[i].log[k].id < s.next_msg_id);
        }
    }
}

/// Replaces the room store from a snapshot. A room is taken only when its
/// log is well-formed, its identifiers lie below the counter's limit and
/// its name is fresh; a snapshot that passes `snapshot_ok` is reproduced in
/// full. The fresh-identifier counter moves past every loaded identifier.
pub fn load_history(state: &mut ServerState, snapshot: &Vec<Room>)
    requires
        old(state).wf(),
    ensures
        final(state).wf(),
        final(state).deep_view().clients == old(state).deep_view().clients,
        final(state).deep_view().privates == old(state).deep_view().privates,
        final(state).deep_view().users == old(state).deep_view().users,
        final(state).deep_view().next_msg_id >= old(state).deep_view().next_msg_id,
        snapshot_ok(snapshot.deep_view()) ==> final(state).deep_view().rooms
            == snapshot.deep_view(),
{
    let ghost snapv = snapshot.deep_view();
    let ghost oldv = old(state).deep_view();
    let mut out: Vec<Room> = Vec::new();
    let mut maxid: u64 = 0;
    let mut any = false;
    let mut i: usize = 0;
    while i < snapshot.len()
        invariant
            0 <= i <= snapshot@.len(),
            snapv == snapshot.deep_view(),
            room_names_unique(out.deep_view()),
            forall|j: int| 0 <= j < out.deep_view().len() ==> log_wf((#[trigger] out.deep_view()[j]).log),
            maxid < u64::MAX,
            !any ==> forall|j: int|
                0 <= j < out.deep_view().len() ==> (#[trigger] out.deep_view()[j]).log.len() == 0,
            forall|j: int|
                0 <= j < out.deep_view().len() ==> log_ids_below(
                    (#[trigger] out.deep_view()[j]).log,
                    (maxid + 1) as u64,
                ),
            snapshot_ok(snapv) ==> out.deep_view() =~~= snapv.subrange(0, i as int),
        decreases snapshot@.len() - i,
    {
        let ghost out0 = out.deep_view();
        let ok_log = log_wf_check(&snapshot[i].log);
        let mut take = ok_log;
        if take && snapshot[i].log.len() > 0 {
            let last = snapshot[i].log.len() - 1;
            if snapshot[i].log[last].id == u64::MAX {
                take = false;
            }
        }
        if take {
            if find_room(&out, snapshot[i].name.as_str()).is_some() {
                take = false;
            }
        }
        if take {
            let rm = Room {
                name: snapshot[i].name.clone(),
                log: duplicate_log(&snapshot[i].log),
            };
            proof {
                assert(rm.deep_view() =~~= snapv[i as int]);
            }
            if rm.log.len() > 0 {
                any = true;
                let lid = rm.log[rm.log.len() - 1].id;
                proof {
                    assert(lid == snapv[i as int].log.last().id);
                    assert(lid < u64::MAX);
                }
                if lid > maxid {
                    maxid = lid;
                }
            }
            out.push(rm);
            proof {
                let o2 = out.deep_view();
                assert(o2 =~~= out0.push(snapv[i as int]));
                assert(forall|j: int| 0 <= j < out0.len() ==> o2[j] == (#[trigger] out0[j]));
                assert(log_wf(o2[o2.len() - 1].log));
                assert forall|j: int| 0 <= j < o2.len() implies log_ids_below(
                    (#[trigger] o2[j]).log,
                    (maxid + 1) as u64,
                ) by {
                    if j < o2.len() - 1 {
                        assert(log_ids_below(out0[j].log, (maxid + 1) as u64)) by {
                            assert forall|k: int| 0 <= k < out0[j].log.len() implies (
                            #[trigger] out0[j].log[k].id) < (maxid + 1) as u64 by {}
                        }
                    } else {
                        let lg = o2[j].log;
                        assert forall|k: int| 0 <= k < lg.len() implies (#[trigger] lg[k].id) < (
                        maxid + 1) as u64 by {
                            if k < lg.len() - 1 {
                                lemma_adjacent_ids(lg, k);
                            }
                        }
                    }
                }
            }
        } else {
            proof {
                if snapshot_ok(snapv) {
                    assert(log_wf(snapv[i as int].log));
                    assert(log_ids_below(snapv[i as int].log, u64::MAX));
                    if snapv[i as int].log.len() > 0 {
                        assert(snapv[i as int].log.last().id < u64::MAX);
                    }
                    assert(!has_room(out0, snapv[i as int].name)) by {
                        if has_room(out0, snapv[i as int].name) {
                            let j = choose|j: int|
                                0 <= j < out0.len() && out0[j].name == snapv[i as int].name;
                            assert(out0[j] == snapv[j]);
                        }
                    }
                    assert(false);
                }
            }
        }
        i = i + 1;
        proof {
            if snapshot_ok(snapv) {
                assert(out.deep_view() =~~= snapv.subrange(0, i as int));
            }
        }
    }
    state.rooms = out;
    if any {
        if state.next_msg_id <= maxid {
            state.next_msg_id = maxid + 1;
        }
    }
    proof {
        assert(state.deep_view().clients =~~= oldv.clients);
        assert(state.deep_view().privates =~~= oldv.privates);
        assert(state.deep_view().users =~~= oldv.users);
        let ns = state.deep_view();
        assert(rooms_wf(ns.rooms, ns.next_msg_id)) by {
            assert forall|j: int| 0 <= j < ns.rooms.len() implies log_ids_below(
                (#[trigger] ns.rooms[j]).log,
                ns.next_msg_id,
            ) by {
                assert(log_ids_below(ns.rooms[j].log, (maxid + 1) as u64));
                assert forall|k: int| 0 <= k < ns.rooms[j].log.len() implies (
                #[trigger] ns.rooms[j].log[k].id) < ns.next_msg_id by {
                    assert(ns.rooms[j].log[k].id < maxid + 1);
                    if !any {
                        assert(ns.rooms[j].log.len() == 0);
                    } else {
                        assert(ns.next_msg_id > maxid);
                    }
                }
            }
        }
        assert forall|j: int|
            0 <= j < ns.privates.len() implies log_ids_below(
            (#[trigger] ns.privates[j]).log,
            ns.next_msg_id,
        ) by {
            assert(log_ids_below(oldv.privates[j].log, oldv.next_msg_id));
            assert forall|k: int| 0 <= k < ns.privates[j].log.len() implies (
            #[trigger] ns.privates[j].log[k].id) < ns.next_msg_id by {
                assert(ns.privates[j].log[k].id < oldv.next_msg_id);
            }
        }
        if snapshot_ok(snapv) {
            assert(snapv.subrange(0, snapshot@.len() as int) =~~= snapv);
        }
    }
}

/// In a well-formed log the last identifier bounds every other.
proof fn lemma_adjacent_ids(log: Seq<HistoryItemV>, k: int)
    requires
        forall|a: int, b: int| 0 <= a < b < log.len() ==> log[a].id < log[b].id,
        0 <= k < log.len() - 1,
    ensures
        log[k].id < log[log.len() - 1].id,
{
}


/// A room log never exceeds the capacity; appending the entry past capacity
/// evicts exactly the oldest one, preserving the insertion order of the
/// survivors.
pub proof fn lemma_bounded_log(log: Seq<HistoryItemV>, m: HistoryItemV)
    requires
        log.len() <= ROOM_CAPACITY,
    ensures
        push_evict_spec(log, m).len() <= ROOM_CAPACITY,
        log.len() < ROOM_CAPACITY ==> push_evict_spec(log, m) == log.push(m),
        log.len() == ROOM_CAPACITY ==> push_evict_spec(log, m) == log.skip(1).push(m),
        log.len() == ROOM_CAPACITY ==> forall|k: int|
            0 <= k < log.len() - 1 ==> push_evict_spec(log, m)[k] == log[k + 1],
{
}

} // verus!
