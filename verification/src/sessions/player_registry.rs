use vstd::prelude::*;

use std::collections::HashMap;

use crate::{PlayerHandle, PlayerType};
use vstd::std_specs::iter::IteratorSpec;

verus! {

broadcast use vstd::std_specs::hash::group_hash_axioms;

/// Whether a registered player is a local one.
pub open spec fn is_local<A>(t: PlayerType<A>) -> bool {
    t is Local
}

/// Whether a registered player is a remote one.
pub open spec fn is_remote<A>(t: PlayerType<A>) -> bool {
    t is Remote
}

/// Whether a registered player is a spectator.
pub open spec fn is_spectator<A>(t: PlayerType<A>) -> bool {
    t is Spectator
}

/// Whether a registered player takes part in the game (a local or a remote player).
pub open spec fn is_player<A>(t: PlayerType<A>) -> bool {
    t is Local || t is Remote
}

/// Whether `t` is among the selected kinds of players.
pub open spec fn selected<A>(t: PlayerType<A>, local: bool, remote: bool, spectator: bool) -> bool {
    (local && t is Local) || (remote && t is Remote) || (spectator && t is Spectator)
}

/// The handles registered with a type that satisfies `pred`.
pub open spec fn handles_where<A>(
    m: Map<PlayerHandle, PlayerType<A>>,
    pred: spec_fn(PlayerType<A>) -> bool,
) -> Set<PlayerHandle> {
    m.dom().filter(|h: PlayerHandle| pred(m[h]))
}

/// Every registered handle is either a player's or a spectator's: the two counts add up to
/// the number of registered handles.
pub proof fn lemma_players_and_spectators_partition<A>(m: Map<PlayerHandle, PlayerType<A>>)
    requires
        m.dom().finite(),
    ensures
        handles_where(m, |t: PlayerType<A>| is_player(t)).len() + handles_where(
            m,
            |t: PlayerType<A>| is_spectator(t),
        ).len() == m.dom().len(),
{
    let p = handles_where(m, |t: PlayerType<A>| is_player(t));
    let q = handles_where(m, |t: PlayerType<A>| is_spectator(t));
    m.dom().lemma_len_filter(|h: PlayerHandle| is_player(m[h]));
    m.dom().lemma_len_filter(|h: PlayerHandle| is_spectator(m[h]));
    assert(p.disjoint(q));
    vstd::set_lib::lemma_set_disjoint_lens(p, q);
    assert(p + q =~= m.dom());
}

/// The players and spectators of a session, by handle.
pub struct PlayerRegistry<A> {
    pub handles: HashMap<PlayerHandle, PlayerType<A>>,
}

impl<A> PlayerRegistry<A> {
    /// A registry without players.
    pub fn new() -> (r: Self)
        ensures
            r.handles@ == Map::<PlayerHandle, PlayerType<A>>::empty(),
    {
        PlayerRegistry { handles: HashMap::new() }
    }

    /// The handles whose registered type satisfies `pred`, each once, in no particular order.
    fn handles_matching(&self, local: bool, remote: bool, spectator: bool) -> (r: Vec<PlayerHandle>)
        ensures
            r@.no_duplicates(),
            r@.to_set() == handles_where(
                self.handles@,
                |t: PlayerType<A>| selected(t, local, remote, spectator),
            ),
    {
        let ghost m = self.handles@;
        let mut r: Vec<PlayerHandle> = Vec::new();
        let iter = self.handles.iter();
        let ghost s = iter.remaining();
        proof {
            vstd::std_specs::hash::axiom_spec_hash_map_iter(&self.handles);
        }
        for (k, v) in it: iter
            invariant
                m == self.handles@,
                it.seq() == s,
                s.no_duplicates(),
                forall|i: int|
                    0 <= i < s.len() ==> m.contains_key(*(#[trigger] s[i]).0) && m[*s[i].0]
                        == *s[i].1,
                forall|h: PlayerHandle| #[trigger] m.contains_key(h) ==> s.contains((&h, &m[h])),
                r@.no_duplicates(),
                forall|h: PlayerHandle|
                    r@.contains(h) <==> exists|i: int|
                        0 <= i < it.index() && *(#[trigger] s[i]).0 == h && selected(*s[i].1, local, remote, spectator),
        {
            let keep = match v {
                PlayerType::Local => local,
                PlayerType::Remote(_) => remote,
                PlayerType::Spectator(_) => spectator,
            };
            let ghost j = it.index() as int;
            let ghost r0 = r@;
            proof {
                assert(s[j] == (k, v));
                assert(keep == selected(*v, local, remote, spectator));
            }
            if keep {
                proof {
                    assert(!r@.contains(*k)) by {
                        if r@.contains(*k) {
                            let i = choose|i: int|
                                0 <= i < it.index() && *(#[trigger] s[i]).0 == *k && selected(*s[i].1, local, remote, spectator);
                            assert(s[i] == s[it.index() as int]);
                        }
                    }
                }
                r.push(*k);
            }
            proof {
                assert(keep ==> r@ == r0.push(*k));
                assert(!keep ==> r@ == r0);
                assert(keep ==> r@[r0.len() as int] == *k);
                assert forall|h: PlayerHandle| #[trigger] r@.contains(h) <==> exists|i: int|
                    0 <= i < j + 1 && *(#[trigger] s[i]).0 == h && selected(*s[i].1, local, remote, spectator) by {
                    if r@.contains(h) {
                        if keep && h == *k {
                            assert(*s[j].0 == h && selected(*s[j].1, local, remote, spectator));
                        } else {
                            let x = choose|x: int| 0 <= x < r@.len() && r@[x] == h;
                            assert(r0[x] == h);
                            assert(r0.contains(h));
                        }
                    }
                    if exists|i: int| 0 <= i < j + 1 && *(#[trigger] s[i]).0 == h && selected(*s[i].1, local, remote, spectator) {
                        let i = choose|i: int|
                            0 <= i < j + 1 && *(#[trigger] s[i]).0 == h && selected(*s[i].1, local, remote, spectator);
                        if i == j {
                            assert(r@[r0.len() as int] == h);
                            assert(r@.contains(h));
                        } else {
                            assert(r0.contains(h));
                            let x = choose|x: int| 0 <= x < r0.len() && r0[x] == h;
                            assert(r@[x] == h);
                        }
                    }
                }
            }
        }
        proof {
            assert(r@.to_set() =~= handles_where(
                m,
                |t: PlayerType<A>| selected(t, local, remote, spectator),
            ));
        }
        r
    }

    /// The handles of the local players.
    pub fn local_player_handles(&self) -> (r: Vec<PlayerHandle>)
        ensures
            r@.no_duplicates(),
            r@.to_set() == handles_where(self.handles@, |t: PlayerType<A>| is_local(t)),
    {
        let r = self.handles_matching(true, false, false);
        proof {
            assert(r@.to_set() =~= handles_where(self.handles@, |t: PlayerType<A>| is_local(t)));
        }
        r
    }

    /// The handles of the remote players.
    pub fn remote_player_handles(&self) -> (r: Vec<PlayerHandle>)
        ensures
            r@.no_duplicates(),
            r@.to_set() == handles_where(self.handles@, |t: PlayerType<A>| is_remote(t)),
    {
        let r = self.handles_matching(false, true, false);
        proof {
            assert(r@.to_set() =~= handles_where(self.handles@, |t: PlayerType<A>| is_remote(t)));
        }
        r
    }

    /// The handles of the spectators.
    pub fn spectator_handles(&self) -> (r: Vec<PlayerHandle>)
        ensures
            r@.no_duplicates(),
            r@.to_set() == handles_where(self.handles@, |t: PlayerType<A>| is_spectator(t)),
    {
        let r = self.handles_matching(false, false, true);
        proof {
            assert(r@.to_set() =~= handles_where(
                self.handles@,
                |t: PlayerType<A>| is_spectator(t),
            ));
        }
        r
    }

    /// The number of registered players (local and remote).
    pub fn num_players(&self) -> (r: usize)
        ensures
            r == handles_where(self.handles@, |t: PlayerType<A>| is_player(t)).len(),
    {
        let v = self.handles_matching(true, true, false);
        proof {
            assert(v@.to_set() =~= handles_where(self.handles@, |t: PlayerType<A>| is_player(t)));
            v@.unique_seq_to_set();
        }
        v.len()
    }

    /// The number of registered spectators.
    pub fn num_spectators(&self) -> (r: usize)
        ensures
            r == handles_where(self.handles@, |t: PlayerType<A>| is_spectator(t)).len(),
    {
        let v = self.handles_matching(false, false, true);
        proof {
            assert(v@.to_set() =~= handles_where(
                self.handles@,
                |t: PlayerType<A>| is_spectator(t),
            ));
            v@.unique_seq_to_set();
        }
        v.len()
    }

    /// The type a handle was registered with, if any.
    pub fn player_type(&self, handle: PlayerHandle) -> (r: Option<&PlayerType<A>>)
        ensures
            match r {
                Some(t) => self.handles@.contains_key(handle) && self.handles@[handle] == *t,
                None => !self.handles@.contains_key(handle),
            },
    {
        self.handles.get(&handle)
    }
}

} // verus!
