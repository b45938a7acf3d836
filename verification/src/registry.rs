//! The shared client registry: the table of currently active sessions,
//! keyed by connection identity.
//!
//! Its view is a map from identity to that session's user info.  The server
//! holds one registry behind a lock; an entry exists exactly while the
//! session can receive broadcasts, and the send handles themselves are
//! paired with these identities outside the library.

use vstd::prelude::*;
use crate::model::{UserInfo, UserInfoView};

verus! {

/// Folds an entry list into a map; a later entry with the same key wins.
pub open spec fn as_map(s: Seq<(u64, UserInfoView)>) -> Map<u64, UserInfoView>
    decreases s.len(),
{
    if s.len() == 0 {
        Map::empty()
    } else {
        as_map(s.drop_last()).insert(s.last().0, s.last().1)
    }
}

/// Whether some entry of the list carries this key.
pub open spec fn seq_has_key(s: Seq<(u64, UserInfoView)>, k: u64) -> bool {
    exists|i: int| 0 <= i < s.len() && s[i].0 == k
}

proof fn lemma_as_map_dom(s: Seq<(u64, UserInfoView)>)
    ensures
        forall|k: u64| #[trigger] as_map(s).dom().contains(k) <==> seq_has_key(s, k),
    decreases s.len(),
{
    if s.len() == 0 {
    } else {
        lemma_as_map_dom(s.drop_last());
        assert forall|k: u64| #[trigger] as_map(s).dom().contains(k) <==> seq_has_key(s, k) by {
            if as_map(s).dom().contains(k) {
                if k == s.last().0 {
                    assert(s[s.len() - 1].0 == k);
                    assert(seq_has_key(s, k));
                } else {
                    assert(as_map(s.drop_last()).dom().contains(k));
                    assert(seq_has_key(s.drop_last(), k));
                    let i = choose|i: int|
                        0 <= i < s.drop_last().len() && s.drop_last()[i].0 == k;
                    assert(s.drop_last()[i] == s[i]);
                    assert(seq_has_key(s, k));
                }
            }
            if seq_has_key(s, k) {
                let i = choose|i: int| 0 <= i < s.len() && s[i].0 == k;
                if i < s.len() - 1 {
                    assert(s.drop_last()[i] == s[i]);
                    assert(seq_has_key(s.drop_last(), k));
                    assert(as_map(s.drop_last()).dom().contains(k));
                }
                assert(as_map(s).dom().contains(k));
            }
        }
    }
}

proof fn lemma_as_map_index(s: Seq<(u64, UserInfoView)>, i: int)
    requires
        s.map_values(|e: (u64, UserInfoView)| e.0).no_duplicates(),
        0 <= i < s.len(),
    ensures
        as_map(s).dom().contains(s[i].0),
        as_map(s)[s[i].0] == s[i].1,
    decreases s.len(),
{
    lemma_as_map_dom(s);
    if i == s.len() - 1 {
    } else {
        let keys = s.map_values(|e: (u64, UserInfoView)| e.0);
        assert(keys[i] == s[i].0 && keys[s.len() - 1] == s.last().0);
        assert(s[i].0 != s.last().0);
        assert(s.drop_last().map_values(|e: (u64, UserInfoView)| e.0) =~= keys.drop_last());
        lemma_as_map_index(s.drop_last(), i);
        assert(s.drop_last()[i] == s[i]);
    }
}

proof fn lemma_as_map_remove(s: Seq<(u64, UserInfoView)>, i: int)
    requires
        s.map_values(|e: (u64, UserInfoView)| e.0).no_duplicates(),
        0 <= i < s.len(),
    ensures
        as_map(s.remove(i)) == as_map(s).remove(s[i].0),
    decreases s.len(),
{
    let keys = s.map_values(|e: (u64, UserInfoView)| e.0);
    assert(s.drop_last().map_values(|e: (u64, UserInfoView)| e.0) =~= keys.drop_last());
    if i == s.len() - 1 {
        assert(s.remove(i) =~= s.drop_last());
        lemma_as_map_dom(s.drop_last());
        assert(!seq_has_key(s.drop_last(), s[i].0)) by {
            if seq_has_key(s.drop_last(), s[i].0) {
                let j = choose|j: int|
                    0 <= j < s.drop_last().len() && s.drop_last()[j].0 == s[i].0;
                assert(keys[j] == s[i].0 && keys[i] == s[i].0);
            }
        }
        assert(as_map(s.drop_last()) =~= as_map(s).remove(s[i].0));
    } else {
        lemma_as_map_remove(s.drop_last(), i);
        assert(s.remove(i).drop_last() =~= s.drop_last().remove(i));
        assert(s.remove(i).last() == s.last());
        assert(s.remove(i).len() == s.len() - 1);
        assert(keys[i] == s[i].0 && keys[s.len() - 1] == s.last().0);
        assert(s[i].0 != s.last().0);
        assert(as_map(s.remove(i)) == as_map(s.drop_last().remove(i)).insert(
            s.last().0,
            s.last().1,
        ));
        assert(as_map(s.drop_last()).remove(s[i].0).insert(s.last().0, s.last().1) =~= as_map(
            s.drop_last(),
        ).insert(s.last().0, s.last().1).remove(s[i].0));
    }
}

proof fn lemma_as_map_card(s: Seq<(u64, UserInfoView)>)
    requires
        s.map_values(|e: (u64, UserInfoView)| e.0).no_duplicates(),
    ensures
        as_map(s).dom().finite(),
        as_map(s).dom().len() == s.len(),
    decreases s.len(),
{
    if s.len() == 0 {
    } else {
        let keys = s.map_values(|e: (u64, UserInfoView)| e.0);
        assert(s.drop_last().map_values(|e: (u64, UserInfoView)| e.0) =~= keys.drop_last());
        lemma_as_map_card(s.drop_last());
        lemma_as_map_dom(s.drop_last());
        assert(!seq_has_key(s.drop_last(), s.last().0)) by {
            if seq_has_key(s.drop_last(), s.last().0) {
                let j = choose|j: int|
                    0 <= j < s.drop_last().len() && s.drop_last()[j].0 == s.last().0;
                assert(keys[j] == s.last().0 && keys[s.len() - 1] == s.last().0);
            }
        }
    }
}

/// The table of active sessions.
pub struct Registry {
    entries: Vec<(u64, UserInfo)>,
}

impl View for Registry {
    type V = Map<u64, UserInfoView>;

    closed spec fn view(&self) -> Map<u64, UserInfoView> {
        as_map(self.entry_views())
    }
}

impl Registry {
    /// The entries at the view level, in table order.
    pub closed spec fn entry_views(&self) -> Seq<(u64, UserInfoView)> {
        self.entries@.map_values(|e: (u64, UserInfo)| (e.0, e.1@))
    }

    /// Well-formed: no identity occurs twice.
    pub closed spec fn wf(&self) -> bool {
        self.entry_views().map_values(|e: (u64, UserInfoView)| e.0).no_duplicates()
    }

    /// An empty table.
    pub fn new() -> (r: Registry)
        ensures
            r.wf(),
            r@ == Map::<u64, UserInfoView>::empty(),
    {
        let r = Registry { entries: Vec::new() };
        proof {
            assert(r.entry_views() =~= Seq::<(u64, UserInfoView)>::empty());
            assert(r.entry_views().map_values(|e: (u64, UserInfoView)| e.0)
                =~= Seq::<u64>::empty());
        }
        r
    }

    /// The index of this identity's entry, if it has one.
    fn index_of(&self, id: u64) -> (r: Option<usize>)
        ensures
            match r {
                Some(i) => i < self.entry_views().len() && self.entry_views()[i as int].0 == id,
                None => !seq_has_key(self.entry_views(), id),
            },
    {
        let mut i: usize = 0;
        while i < self.entries.len()
            invariant
                i <= self.entries@.len(),
                self.entry_views().len() == self.entries@.len(),
                forall|j: int| 0 <= j < i ==> #[trigger] self.entry_views()[j].0 != id,
            decreases self.entries@.len() - i,
        {
            if self.entries[i].0 == id {
                return Some(i);
            }
            i = i + 1;
        }
        proof {
            if seq_has_key(self.entry_views(), id) {
                let j = choose|j: int|
                    0 <= j < self.entry_views().len() && self.entry_views()[j].0 == id;
                assert(self.entry_views()[j].0 != id);
            }
        }
        None
    }

    /// Whether this identity is registered.
    pub fn contains(&self, id: u64) -> (r: bool)
        ensures
            r == self@.dom().contains(id),
    {
        proof {
            lemma_as_map_dom(self.entry_views());
        }
        match self.index_of(id) {
            Some(_) => true,
            None => false,
        }
    }

    /// Removes this identity's entry; without one, the table is unchanged.
    pub fn remove(&mut self, id: u64)
        requires
            old(self).wf(),
        ensures
            final(self).wf(),
            final(self)@ == old(self)@.remove(id),
    {
        proof {
            lemma_as_map_dom(self.entry_views());
        }
        match self.index_of(id) {
            Some(i) => {
                let ghost before = self.entry_views();
                let ghost keys = before.map_values(|e: (u64, UserInfoView)| e.0);
                self.entries.remove(i);
                proof {
                    assert(self.entry_views() =~= before.remove(i as int));
                    assert(self.entry_views().map_values(|e: (u64, UserInfoView)| e.0)
                        =~= keys.remove(i as int));
                    keys.remove_ensures(i as int);
                    assert(keys.remove(i as int).no_duplicates()) by {
                        lemma_no_dup_remove(keys, i as int);
                    }
                    lemma_as_map_remove(before, i as int);
                }
            },
            None => {
                proof {
                    assert(!self@.dom().contains(id));
                    assert(self@.remove(id) =~= self@);
                }
            },
        }
    }

    /// Registers this identity with this user info, replacing any prior
    /// entry for it.
    pub fn insert(&mut self, id: u64, info: UserInfo)
        requires
            old(self).wf(),
        ensures
            final(self).wf(),
            final(self)@ == old(self)@.insert(id, info@),
    {
        self.remove(id);
        let ghost mid = self.entry_views();
        let ghost keys = mid.map_values(|e: (u64, UserInfoView)| e.0);
        proof {
            lemma_as_map_dom(mid);
        }
        self.entries.push((id, info));
        proof {
            assert(self.entry_views() =~= mid.push((id, info@)));
            assert(self.entry_views().drop_last() =~= mid);
            assert(self.entry_views().map_values(|e: (u64, UserInfoView)| e.0) =~= keys.push(id));
            assert(!keys.contains(id)) by {
                if keys.contains(id) {
                    let j = choose|j: int| 0 <= j < keys.len() && keys[j] == id;
                    assert(mid[j].0 == id);
                    assert(seq_has_key(mid, id));
                    assert(as_map(mid).dom().contains(id));
                    assert(!old(self)@.remove(id).dom().contains(id));
                }
            }
            assert(keys.push(id).drop_last() =~= keys);
            assert(keys.push(id).no_duplicates()) by {
                lemma_no_dup_push(keys, id);
            }
            assert(final(self)@ =~= old(self)@.insert(id, info@)) by {
                assert(as_map(mid.push((id, info@))) == as_map(mid).insert(id, info@));
                assert(as_map(mid) == old(self)@.remove(id));
                assert(old(self)@.remove(id).insert(id, info@) =~= old(self)@.insert(id, info@));
            }
        }
    }

    /// The registered info of this identity.
    pub fn get(&self, id: u64) -> (r: Option<UserInfo>)
        requires
            self.wf(),
        ensures
            match r {
                Some(info) => self@.dom().contains(id) && info@ == self@[id],
                None => !self@.dom().contains(id),
            },
    {
        proof {
            lemma_as_map_dom(self.entry_views());
        }
        match self.index_of(id) {
            Some(i) => {
                proof {
                    lemma_as_map_index(self.entry_views(), i as int);
                }
                Some(self.entries[i].1.clone())
            },
            None => None,
        }
    }

    /// How many sessions are registered.
    pub fn len(&self) -> (r: usize)
        requires
            self.wf(),
        ensures
            r == self@.dom().len(),
            self@.dom().finite(),
    {
        proof {
            lemma_as_map_card(self.entry_views());
        }
        self.entries.len()
    }

    /// Whether no session is registered.
    pub fn is_empty(&self) -> (r: bool)
        requires
            self.wf(),
        ensures
            r == (self@.dom() =~= Set::<u64>::empty()),
    {
        proof {
            lemma_as_map_card(self.entry_views());
            lemma_as_map_dom(self.entry_views());
            if self.entry_views().len() == 0 {
                assert(self@.dom() =~= Set::<u64>::empty());
            } else {
                assert(self@.dom().contains(self.entry_views()[0].0));
            }
        }
        self.entries.len() == 0
    }

    /// Drops every entry.
    pub fn clear(&mut self)
        ensures
            final(self).wf(),
            final(self)@ == Map::<u64, UserInfoView>::empty(),
    {
        self.entries.clear();
        proof {
            assert(self.entry_views() =~= Seq::<(u64, UserInfoView)>::empty());
            assert(self.entry_views().map_values(|e: (u64, UserInfoView)| e.0)
                =~= Seq::<u64>::empty());
        }
    }

    /// A defensive copy of the registered identities, to iterate without
    /// holding the table: each appears once, and exactly the registered ones
    /// appear.
    pub fn snapshot_ids(&self) -> (r: Vec<u64>)
        requires
            self.wf(),
        ensures
            r@.no_duplicates(),
            forall|id: u64| #[trigger] r@.contains(id) <==> self@.dom().contains(id),
            r@.len() == self@.dom().len(),
    {
        proof {
            lemma_as_map_dom(self.entry_views());
            lemma_as_map_card(self.entry_views());
        }
        let ghost keys = self.entry_views().map_values(|e: (u64, UserInfoView)| e.0);
        let mut out: Vec<u64> = Vec::new();
        let mut i: usize = 0;
        while i < self.entries.len()
            invariant
                i <= self.entries@.len(),
                keys == self.entry_views().map_values(|e: (u64, UserInfoView)| e.0),
                self.entry_views().len() == self.entries@.len(),
                out@ =~= keys.take(i as int),
            decreases self.entries@.len() - i,
        {
            out.push(self.entries[i].0);
            proof {
                assert(keys[i as int] == self.entry_views()[i as int].0);
                assert(keys.take(i as int).push(keys[i as int]) =~= keys.take(i as int + 1));
            }
            i = i + 1;
        }
        proof {
            assert(out@ =~= keys);
            assert forall|id: u64| #[trigger] out@.contains(id) <==> self@.dom().contains(id) by {
                if out@.contains(id) {
                    let j = choose|j: int| 0 <= j < keys.len() && keys[j] == id;
                    assert(self.entry_views()[j].0 == id);
                    assert(seq_has_key(self.entry_views(), id));
                }
                if self@.dom().contains(id) {
                    let j = choose|j: int|
                        0 <= j < self.entry_views().len() && self.entry_views()[j].0 == id;
                    assert(keys[j] == id);
                }
            }
        }
        out
    }
}

/// Removing an element keeps a duplicate-free sequence duplicate-free.
proof fn lemma_no_dup_remove(s: Seq<u64>, i: int)
    requires
        s.no_duplicates(),
        0 <= i < s.len(),
    ensures
        s.remove(i).no_duplicates(),
{
    s.remove_ensures(i);
    assert forall|p: int, q: int|
        0 <= p < s.remove(i).len() && 0 <= q < s.remove(i).len() && p != q implies s.remove(i)[p]
        != s.remove(i)[q] by {
        let sp = if p < i {
            p
        } else {
            p + 1
        };
        let sq = if q < i {
            q
        } else {
            q + 1
        };
        assert(s.remove(i)[p] == s[sp]);
        assert(s.remove(i)[q] == s[sq]);
    }
}

/// Appending a fresh element keeps a duplicate-free sequence duplicate-free.
pub(crate) proof fn lemma_no_dup_push(s: Seq<u64>, x: u64)
    requires
        s.no_duplicates(),
        !s.contains(x),
    ensures
        s.push(x).no_duplicates(),
{
    assert forall|p: int, q: int|
        0 <= p < s.push(x).len() && 0 <= q < s.push(x).len() && p != q implies s.push(x)[p]
        != s.push(x)[q] by {
        if p < s.len() && q < s.len() {
        } else if p == s.len() {
            assert(s.push(x)[q] == s[q]);
            assert(s.contains(s[q]) || s.push(x)[p] != s.push(x)[q]);
        } else {
            assert(s.push(x)[p] == s[p]);
            assert(s.contains(s[p]) || s.push(x)[p] != s.push(x)[q]);
        }
    }
}

} // verus!
