//! Session lookup helpers and display-name uniqueness.
use vstd::prelude::*;
use crate::text::{concat3, dec_rep, eq_str_fold, fold_seq, lemma_dec_rep_injective,
    lemma_fold_concat, lemma_fold_fixes_dec, u64_to_string};
use crate::types::{clients_wf, Client, ClientV};

verus! {

/// Seconds since the Unix epoch, 0 if the clock reads before it.
///
/// Relies on std::time::SystemTime: `now` followed by `duration_since` the
/// epoch, taken as whole seconds.
#[verifier::external_body]
pub fn now_ts() -> u64 {
    std::time::SystemTime::now()
        .duration_since(std::time::SystemTime::UNIX_EPOCH)
        .map(|d| d.as_secs())
        .unwrap_or(0)
}

/// Whether some live session carries this connection identifier.
pub open spec fn has_client(cs: Seq<ClientV>, id: u64) -> bool {
    exists|i: int| 0 <= i < cs.len() && cs[i].id == id
}

/// The session with this connection identifier.
pub open spec fn client_by_id(cs: Seq<ClientV>, id: u64) -> ClientV {
    cs[choose|i: int| 0 <= i < cs.len() && cs[i].id == id]
}

/// No live session holds this display name, case-insensitively.
pub open spec fn free_name(cs: Seq<ClientV>, name: Seq<char>) -> bool {
    forall|i: int| 0 <= i < cs.len() ==> fold_seq((#[trigger] cs[i]).name) != fold_seq(name)
}

/// Locates the session with this connection identifier.
pub fn find_client(clients: &Vec<Client>, id: u64) -> (r: Option<usize>)
    ensures
        match r {
            Some(i) => i < clients@.len() && clients.deep_view()[i as int].id == id,
            None => !has_client(clients.deep_view(), id),
        },
{
    let mut i: usize = 0;
    while i < clients.len()
        invariant
            0 <= i <= clients@.len(),
            forall|j: int| 0 <= j < i ==> clients.deep_view()[j].id != id,
        decreases clients@.len() - i,
    {
        if clients[i].id == id {
            return Some(i);
        }
        i = i + 1;
    }
    proof {
        if has_client(clients.deep_view(), id) {
            let j = choose|j: int|
                0 <= j < clients.deep_view().len() && clients.deep_view()[j].id == id;
            assert(false);
        }
    }
    None
}

/// The display name of a session, or the identifier rendered in decimal when
/// no session carries it.
pub fn client_name_by_id(clients: &Vec<Client>, id: u64) -> (r: String)
    requires
        clients_wf(clients.deep_view()),
    ensures
        has_client(clients.deep_view(), id) ==> r@ == client_by_id(clients.deep_view(), id).name,
        !has_client(clients.deep_view(), id) ==> r@ == dec_rep(id as nat),
{
    match find_client(clients, id) {
        Some(i) => {
            let ghost cs = clients.deep_view();
            proof {
                let j = choose|j: int| 0 <= j < cs.len() && cs[j].id == id;
                assert(j == i) by {
                    if j < i {
                        assert(cs[j].id != cs[i as int].id);
                    } else if j > i {
                        assert(cs[i as int].id != cs[j].id);
                    }
                }
            }
            clients[i].name.clone()
        },
        None => u64_to_string(id),
    }
}

/// The current room of a session, the default room when it is unknown.
pub fn get_client_room(clients: &Vec<Client>, id: u64) -> (r: String)
    requires
        clients_wf(clients.deep_view()),
    ensures
        has_client(clients.deep_view(), id) ==> r@ == client_by_id(clients.deep_view(), id).room,
        !has_client(clients.deep_view(), id) ==> r@ == "lobby"@,
{
    match find_client(clients, id) {
        Some(i) => {
            let ghost cs = clients.deep_view();
            proof {
                let j = choose|j: int| 0 <= j < cs.len() && cs[j].id == id;
                assert(j == i) by {
                    if j < i {
                        assert(cs[j].id != cs[i as int].id);
                    } else if j > i {
                        assert(cs[i as int].id != cs[j].id);
                    }
                }
            }
            clients[i].room.clone()
        },
        None => "lobby".to_owned(),
    }
}

/// Whether the candidate name collides case-insensitively with a live one.
fn name_collides(clients: &Vec<Client>, cand: &str) -> (r: bool)
    ensures
        r == !free_name(clients.deep_view(), cand@),
{
    let mut i: usize = 0;
    while i < clients.len()
        invariant
            0 <= i <= clients@.len(),
            forall|j: int|
                0 <= j < i ==> fold_seq((#[trigger] clients.deep_view()[j]).name) != fold_seq(
                    cand@,
                ),
        decreases clients@.len() - i,
    {
        if eq_str_fold(clients[i].name.as_str(), cand) {
            proof {
                assert(fold_seq(clients.deep_view()[i as int].name) == fold_seq(cand@));
            }
            return true;
        }
        i = i + 1;
    }
    false
}

/// The folded display names of the live sessions, as a set.
pub open spec fn folded_names(cs: Seq<ClientV>) -> Set<Seq<char>> {
    cs.map_values(|c: ClientV| fold_seq(c.name)).to_set()
}

/// What the uniqueness retry returns for a desired name: the name itself
/// when it is free, else the name with `-k` appended for the least free
/// suffix k, every smaller suffix having collided.
pub open spec fn chosen_unique_name(cs: Seq<ClientV>, desired: Seq<char>, nm: Seq<char>) -> bool {
    &&& free_name(cs, nm)
    &&& (free_name(cs, desired) ==> nm == desired)
    &&& (!free_name(cs, desired) ==> (exists|k: nat|
        #![trigger dec_rep(k)]
        {
            &&& 1 <= k
            &&& nm == desired + seq!['-'] + dec_rep(k)
            &&& (forall|j: nat|
                1 <= j < k ==> !free_name(cs, desired + seq!['-'] + #[trigger] dec_rep(j)))
        }))
}

/// The folded form of the k-th fallback candidate for a desired name.
pub open spec fn cand_fold(desired: Seq<char>, k: nat) -> Seq<char> {
    fold_seq(desired) + seq!['-'] + dec_rep(k)
}

proof fn lemma_cand_fold_injective(desired: Seq<char>, i: nat, j: nat)
    requires
        cand_fold(desired, i) == cand_fold(desired, j),
    ensures
        i == j,
{
    let d = fold_seq(desired);
    let a = cand_fold(desired, i);
    let b = cand_fold(desired, j);
    assert(a.len() == d.len() + 1 + dec_rep(i).len());
    assert(b.len() == d.len() + 1 + dec_rep(j).len());
    assert(dec_rep(i) =~= a.subrange(d.len() as int + 1, a.len() as int));
    assert(dec_rep(j) =~= b.subrange(d.len() as int + 1, b.len() as int));
    lemma_dec_rep_injective(i, j);
}

proof fn lemma_cand_fold_ne_base(desired: Seq<char>, i: nat)
    ensures
        cand_fold(desired, i) != fold_seq(desired),
{
    assert(dec_rep(i).len() >= 1) by {
        if i < 10 {
        } else {
        }
    }
    assert(cand_fold(desired, i).len() > fold_seq(desired).len());
}

/// Makes a display name unique among the live sessions: the desired name
/// itself when free, else the name with `-1`, `-2`, ... appended, at the
/// first free suffix.
pub fn make_unique_name(clients: &Vec<Client>, desired: &str) -> (r: String)
    requires
        clients@.len() + 2 <= u64::MAX,
    ensures
        free_name(clients.deep_view(), r@),
        fold_seq(r@) == fold_seq(desired@) || exists|k: nat| fold_seq(r@) == cand_fold(desired@, k),
        chosen_unique_name(clients.deep_view(), desired@, r@),
{
    if !name_collides(clients, desired) {
        return desired.to_owned();
    }
    let ghost cs = clients.deep_view();
    let ghost names = folded_names(cs);
    proof {
        broadcast use vstd::seq_lib::seq_to_set_is_finite;

        cs.map_values(|c: ClientV| fold_seq(c.name)).lemma_cardinality_of_set();
        assert(names.len() <= cs.len());
        assert(names.finite());
    }
    let n: u64 = clients.len() as u64;
    let mut k: u64 = 1;
    let ghost mut tried: Set<Seq<char>> = Set::empty().insert(fold_seq(desired@));
    proof {
        // the desired name itself collided
        let i = choose|i: int|
            0 <= i < cs.len() && fold_seq((#[trigger] cs[i]).name) == fold_seq(desired@);
        assert(cs.map_values(|c: ClientV| fold_seq(c.name))[i] == fold_seq(desired@));
        assert(cs.map_values(|c: ClientV| fold_seq(c.name)).contains(fold_seq(desired@)));
        assert(names.contains(fold_seq(desired@)));
        assert(tried.len() == 1);
    }
    while k <= n + 1
        invariant
            1 <= k <= n + 2,
            n + 2 <= u64::MAX,
            n == cs.len(),
            cs == clients.deep_view(),
            names == folded_names(cs),
            names.finite(),
            names.len() <= n,
            tried.finite(),
            tried.len() == k,
            tried.subset_of(names),
            !free_name(cs, desired@),
            forall|x: Seq<char>|
                tried.contains(x) ==> x == fold_seq(desired@) || exists|i: nat|
                    i < k && x == cand_fold(desired@, i),
            forall|j: nat|
                1 <= j < k ==> !free_name(cs, desired@ + seq!['-'] + #[trigger] dec_rep(j)),
        decreases n + 2 - k,
    {
        let num = u64_to_string(k);
        let cand = concat3(desired, "-", num.as_str());
        proof {
            reveal_strlit("-");
            assert("-"@ =~= seq!['-']);
            lemma_fold_concat(desired@ + "-"@, num@);
            lemma_fold_concat(desired@, "-"@);
            lemma_fold_fixes_dec(k as nat);
            assert(fold_seq("-"@) =~= seq!['-']);
            assert(fold_seq(cand@) =~= cand_fold(desired@, k as nat));
        }
        if !name_collides(clients, cand.as_str()) {
            proof {
                assert(exists|kk: nat| fold_seq(cand@) == cand_fold(desired@, kk));
                assert(cand@ =~= desired@ + seq!['-'] + dec_rep(k as nat));
                assert(chosen_unique_name(cs, desired@, cand@)) by {
                    assert(dec_rep(k as nat) == dec_rep(k as nat));
                }
            }
            return cand;
        }
        proof {
            // the candidate collided, so its folded form is a live folded name
            let i = choose|i: int|
                0 <= i < cs.len() && fold_seq((#[trigger] cs[i]).name) == fold_seq(cand@);
            assert(cs.map_values(|c: ClientV| fold_seq(c.name))[i] == fold_seq(cand@));
            assert(cs.map_values(|c: ClientV| fold_seq(c.name)).contains(fold_seq(cand@)));
            assert(names.contains(fold_seq(cand@)));
            // and it is new: distinct from the base and from earlier suffixes
            assert(!tried.contains(fold_seq(cand@))) by {
                if tried.contains(fold_seq(cand@)) {
                    if fold_seq(cand@) == fold_seq(desired@) {
                        lemma_cand_fold_ne_base(desired@, k as nat);
                    } else {
                        let i2 = choose|i2: nat|
                            i2 < k && fold_seq(cand@) == cand_fold(desired@, i2);
                        lemma_cand_fold_injective(desired@, i2, k as nat);
                    }
                }
            }
            tried = tried.insert(fold_seq(cand@));
            assert(tried.len() == k + 1);
            // this suffix collided too
            assert(cand@ =~= desired@ + seq!['-'] + dec_rep(k as nat));
            assert(!free_name(cs, desired@ + seq!['-'] + dec_rep(k as nat)));
        }
        k = k + 1;
    }
    proof {
        // k candidates tried, all colliding: more distinct folded names than
        // sessions, which cannot be
        vstd::set_lib::lemma_len_subset(tried, names);
        assert(false);
    }
    desired.to_owned()
}


/// The display names of the sessions of a room, in registry order.
pub open spec fn sel_names(cs: Seq<ClientV>, room: Seq<char>) -> Seq<Seq<char>>
    decreases cs.len(),
{
    if cs.len() == 0 {
        Seq::empty()
    } else {
        let rest = sel_names(cs.drop_last(), room);
        if cs.last().room == room {
            rest.push(cs.last().name)
        } else {
            rest
        }
    }
}

/// The display names of the sessions in a room, in registry order.
pub fn names_in_room(clients: &Vec<Client>, room: &str) -> (r: Vec<String>)
    ensures
        r.deep_view() == sel_names(clients.deep_view(), room@),
{
    let ghost cs = clients.deep_view();
    let mut out: Vec<String> = Vec::new();
    let mut i: usize = 0;
    while i < clients.len()
        invariant
            0 <= i <= clients@.len(),
            cs == clients.deep_view(),
            out.deep_view() =~= sel_names(cs.subrange(0, i as int), room@),
        decreases clients@.len() - i,
    {
        let ghost out0 = out.deep_view();
        if crate::text::eq_str(clients[i].room.as_str(), room) {
            out.push(clients[i].name.clone());
            proof {
                assert(out.deep_view() =~= out0.push(cs[i as int].name));
            }
        }
        i = i + 1;
        proof {
            let prev = cs.subrange(0, i - 1);
            let cur = cs.subrange(0, i as int);
            assert(cur.drop_last() =~= prev);
            assert(cur.last() == cs[i - 1]);
            assert(out.deep_view() =~= sel_names(cur, room@));
        }
    }
    proof {
        assert(cs.subrange(0, clients@.len() as int) =~= cs);
    }
    out
}

/// The count of sessions in a room.
pub fn count_in_room(clients: &Vec<Client>, room: &str) -> (r: usize)
    ensures
        r == sel_names(clients.deep_view(), room@).len(),
{
    let names = names_in_room(clients, room);
    proof {
        assert(names.deep_view().len() == names@.len());
    }
    names.len()
}


/// Renames one session, optionally marking it authenticated; the new name
/// must be free among all live sessions. An unknown identifier changes
/// nothing.
pub fn set_client_identity(
    clients: &mut Vec<Client>,
    client_id: u64,
    new_name: String,
    mark_logged_in: bool,
)
    requires
        clients_wf(old(clients).deep_view()),
        free_name(old(clients).deep_view(), new_name@),
    ensures
        clients_wf(final(clients).deep_view()),
        !has_client(old(clients).deep_view(), client_id) ==> final(clients).deep_view() == old(
            clients,
        ).deep_view(),
        has_client(old(clients).deep_view(), client_id) ==> (exists|i: int|
            #![trigger old(clients).deep_view()[i]]
            {
                let cs = old(clients).deep_view();
                &&& 0 <= i < cs.len()
                &&& cs[i].id == client_id
                &&& final(clients).deep_view() == cs.update(
                    i,
                    ClientV {
                        name: new_name@,
                        logged_in: mark_logged_in || cs[i].logged_in,
                        ..cs[i]
                    },
                )
            }),
{
    let ghost cs = old(clients).deep_view();
    let fi = find_client(clients, client_id);
    if fi.is_none() {
        proof {
            assert(clients.deep_view() =~~= cs);
        }
        return;
    }
    let i = fi.unwrap();
    let mut c = clients.remove(i);
    c.name = new_name;
    if mark_logged_in {
        c.logged_in = true;
    }
    clients.insert(i, c);
    proof {
        let cs2 = clients.deep_view();
        assert(cs2 =~~= cs.update(
            i as int,
            ClientV {
                name: new_name@,
                logged_in: mark_logged_in || cs[i as int].logged_in,
                ..cs[i as int]
            },
        ));
        assert(forall|k: int| 0 <= k < cs2.len() ==> (#[trigger] cs2[k]).id == cs[k].id);
        assert forall|k: int, l: int| 0 <= k < l < cs2.len() implies fold_seq(cs2[k].name)
            != fold_seq(cs2[l].name) by {
            if k != i && l != i {
                assert(cs2[k].name == cs[k].name);
                assert(cs2[l].name == cs[l].name);
            } else if k == i {
                assert(cs2[l].name == cs[l].name);
                assert(fold_seq(cs[l].name) != fold_seq(new_name@));
            } else {
                assert(cs2[k].name == cs[k].name);
                assert(fold_seq(cs[k].name) != fold_seq(new_name@));
            }
        }
    }
}

/// Removes one session from the registry and hands it back; an unknown
/// identifier changes nothing.
pub fn remove_client(clients: &mut Vec<Client>, client_id: u64) -> (r: Option<Client>)
    requires
        clients_wf(old(clients).deep_view()),
    ensures
        clients_wf(final(clients).deep_view()),
        !has_client(old(clients).deep_view(), client_id) ==> final(clients).deep_view() == old(
            clients,
        ).deep_view() && r is None,
        has_client(old(clients).deep_view(), client_id) ==> (exists|i: int|
            #![trigger old(clients).deep_view()[i]]
            {
                let cs = old(clients).deep_view();
                &&& 0 <= i < cs.len()
                &&& cs[i].id == client_id
                &&& final(clients).deep_view() == cs.remove(i)
                &&& r matches Some(c) && c.deep_view() == cs[i]
            }),
{
    let ghost cs = old(clients).deep_view();
    let fi = find_client(clients, client_id);
    if fi.is_none() {
        proof {
            assert(clients.deep_view() =~~= cs);
        }
        return None;
    }
    let i = fi.unwrap();
    let c = clients.remove(i);
    proof {
        let cs2 = clients.deep_view();
        assert(cs2 =~~= cs.remove(i as int));
        assert(forall|k: int|
            0 <= k < i ==> (#[trigger] cs2[k]) == cs[k]);
        assert(forall|k: int|
            i <= k < cs2.len() ==> (#[trigger] cs2[k]) == cs[k + 1]);
        assert forall|k: int, l: int| 0 <= k < l < cs2.len() implies cs2[k].id != cs2[l].id by {
            if k < i && l < i {
            } else if k < i {
                assert(cs2[l] == cs[l + 1]);
            } else {
                assert(cs2[k] == cs[k + 1]);
                assert(cs2[l] == cs[l + 1]);
            }
        }
        assert forall|k: int, l: int| 0 <= k < l < cs2.len() implies fold_seq(cs2[k].name)
            != fold_seq(cs2[l].name) by {
            if k < i && l < i {
            } else if k < i {
                assert(cs2[l] == cs[l + 1]);
            } else {
                assert(cs2[k] == cs[k + 1]);
                assert(cs2[l] == cs[l + 1]);
            }
        }
    }
    Some(c)
}


/// For every sequence of joins and renames the engine admits, no two live
/// sessions simultaneously hold the same display name under
/// case-insensitive comparison: well-formedness carries this, and every
/// mutating operation of the engine ensures well-formedness is kept.
pub proof fn lemma_display_names_unique(s: crate::types::ServerStateV, i: int, j: int)
    requires
        crate::types::state_wf(s),
        0 <= i < s.clients.len(),
        0 <= j < s.clients.len(),
        i != j,
    ensures
        fold_seq(s.clients[i].name) != fold_seq(s.clients[j].name),
{
}


/// Seconds of inactivity after which a session counts as idle.
pub const IDLE_AFTER_SECS: u64 = 300;

/// Whether a session with this last-activity time counts as idle at `now`.
pub fn presence_is_idle(last_active: u64, now: u64) -> (r: bool)
    ensures
        r == (now - last_active > IDLE_AFTER_SECS),
{
    if now <= last_active {
        false
    } else {
        now - last_active > IDLE_AFTER_SECS
    }
}

} // verus!
