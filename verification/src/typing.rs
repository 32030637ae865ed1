//! Typing indicators: per-session flag and the per-room list of typers.
use vstd::prelude::*;
use crate::helpers::{find_client, has_client};
use crate::text::eq_str;
use crate::types::{clients_wf, Client, ClientV, Effect, Outgoing};

verus! {

/// Sets the typing flag of one session; everything else is untouched. With
/// an unknown identifier nothing changes.
pub fn set_typing_status(clients: &mut Vec<Client>, client_id: u64, is_typing: bool)
    ensures
        !has_client(old(clients).deep_view(), client_id) ==> final(clients).deep_view() == old(
            clients,
        ).deep_view(),
        has_client(old(clients).deep_view(), client_id) ==> (exists|i: int|
            #![trigger old(clients).deep_view()[i]]
            {
                let cs = old(clients).deep_view();
                &&& 0 <= i < cs.len()
                &&& cs[i].id == client_id
                &&& final(clients).deep_view() == cs.update(
                    i,
                    ClientV { is_typing, ..cs[i] },
                )
            }),
        clients_wf(old(clients).deep_view()) ==> clients_wf(final(clients).deep_view()),
{
    let ghost cs = old(clients).deep_view();
    let fi = find_client(clients, client_id);
    if fi.is_none() {
        proof {
            assert(clients.deep_view() =~~= cs);
        }
        return;
    }
    let i = fi.unwrap();
    let mut c = clients.remove(i);
    c.is_typing = is_typing;
    clients.insert(i, c);
    proof {
        assert(clients.deep_view() =~~= cs.update(i as int, ClientV { is_typing, ..cs[i as int] }));
        if clients_wf(cs) {
            let cs2 = clients.deep_view();
            assert(forall|j: int| 0 <= j < cs2.len() ==> (#[trigger] cs2[j]).id == cs[j].id);
            assert(forall|j: int| 0 <= j < cs2.len() ==> (#[trigger] cs2[j]).name == cs[j].name);
        }
    }
}

/// The names of the sessions of a room that are currently typing, in
/// registry order.
pub open spec fn sel_typing_names(cs: Seq<ClientV>, room: Seq<char>) -> Seq<Seq<char>>
    decreases cs.len(),
{
    if cs.len() == 0 {
        Seq::empty()
    } else {
        let rest = sel_typing_names(cs.drop_last(), room);
        if cs.last().room == room && cs.last().is_typing {
            rest.push(cs.last().name)
        } else {
            rest
        }
    }
}

/// Recomputes who is typing in the sender's room and addresses the list to
/// that room.
pub fn broadcast_typing_status(clients: &Vec<Client>, client_id: u64) -> (r: Vec<Effect>)
    requires
        clients_wf(clients.deep_view()),
    ensures
        r@.len() == 1,
        ({
            let cs = clients.deep_view();
            let room = if has_client(cs, client_id) {
                crate::helpers::client_by_id(cs, client_id).room
            } else {
                Seq::<char>::empty()
            };
            r@[0] matches Effect::ToRoom { room: rn, msg: Outgoing::Typing { users } } && rn@
                == room && users.deep_view() == sel_typing_names(cs, room)
        }),
{
    let ghost cs = clients.deep_view();
    let room: String = match find_client(clients, client_id) {
        Some(i) => {
            proof {
                let j = choose|j: int| 0 <= j < cs.len() && cs[j].id == client_id;
                assert(j == i) by {
                    if j < i {
                        assert(cs[j].id != cs[i as int].id);
                    } else if j > i {
                        assert(cs[i as int].id != cs[j].id);
                    }
                }
            }
            clients[i].room.clone()
        },
        None => String::new(),
    };
    let mut users: Vec<String> = Vec::new();
    let mut i: usize = 0;
    while i < clients.len()
        invariant
            0 <= i <= clients@.len(),
            cs == clients.deep_view(),
            users.deep_view() =~= sel_typing_names(cs.subrange(0, i as int), room@),
        decreases clients@.len() - i,
    {
        let ghost out0 = users.deep_view();
        if clients[i].is_typing {
            if eq_str(clients[i].room.as_str(), room.as_str()) {
                users.push(clients[i].name.clone());
                proof {
                    assert(users.deep_view() =~= out0.push(cs[i as int].name));
                }
            }
        }
        i = i + 1;
        proof {
            let prev = cs.subrange(0, i - 1);
            let cur = cs.subrange(0, i as int);
            assert(cur.drop_last() =~= prev);
            assert(cur.last() == cs[i - 1]);
            assert(users.deep_view() =~= sel_typing_names(cur, room@));
        }
    }
    proof {
        assert(cs.subrange(0, clients@.len() as int) =~= cs);
    }
    let mut fx: Vec<Effect> = Vec::new();
    fx.push(Effect::ToRoom { room, msg: Outgoing::Typing { users } });
    fx
}

} // verus!
