//! The process-wide session registry: a map from session id to the
//! session's outbound sink, touched only at session start and session end.
//!
//! The registry is modelled as a `Map<Seq<char>, S>` (its view); `register`
//! overwrites, `unregister` removes if present, and `register_fresh` refuses
//! an id that is already live, which is what keeps the ids of concurrently
//! active sessions distinct.

use vstd::prelude::*;

verus! {

/// Bookkeeping map from session id to outbound sink.
pub struct SessionRegistry<S> {
    entries: Vec<(String, S)>,
}

/// The map described by a sequence of (id, sink) entries; later entries win.
pub open spec fn map_of_entries<S>(entries: Seq<(String, S)>) -> Map<Seq<char>, S>
    decreases entries.len(),
{
    if entries.len() == 0 {
        Map::empty()
    } else {
        map_of_entries(entries.drop_last()).insert(entries.last().0@, entries.last().1)
    }
}

/// No two entries share an id.
pub open spec fn distinct_ids<S>(entries: Seq<(String, S)>) -> bool {
    forall|j: int, k: int|
        0 <= j < k < entries.len() ==> entries[j].0@ != entries[k].0@
}

proof fn lemma_map_of_entries_dom<S>(entries: Seq<(String, S)>)
    ensures
        forall|id: Seq<char>| #[trigger] map_of_entries(entries).dom().contains(id)
            <==> exists|k: int| 0 <= k < entries.len() && entries[k].0@ == id,
    decreases entries.len(),
{
    if entries.len() > 0 {
        let rest = entries.drop_last();
        lemma_map_of_entries_dom(rest);
        assert forall|id: Seq<char>| #[trigger] map_of_entries(entries).dom().contains(id)
            implies exists|k: int| 0 <= k < entries.len() && entries[k].0@ == id by {
            if id == entries.last().0@ {
                assert(entries[entries.len() - 1].0@ == id);
            } else {
                assert(map_of_entries(rest).dom().contains(id));
                let k = choose|k: int| 0 <= k < rest.len() && rest[k].0@ == id;
                assert(rest[k] == entries[k]);
                assert(entries[k].0@ == id);
            }
        }
        assert forall|id: Seq<char>|
            (exists|k: int| 0 <= k < entries.len() && entries[k].0@ == id)
            implies #[trigger] map_of_entries(entries).dom().contains(id) by {
            let k = choose|k: int| 0 <= k < entries.len() && entries[k].0@ == id;
            if k < entries.len() - 1 {
                assert(rest[k] == entries[k]);
                assert(exists|j: int| 0 <= j < rest.len() && rest[j].0@ == id);
                assert(map_of_entries(rest).dom().contains(id));
            }
        }
    }
}

proof fn lemma_map_of_entries_at<S>(entries: Seq<(String, S)>, k: int)
    requires
        distinct_ids(entries),
        0 <= k < entries.len(),
    ensures
        map_of_entries(entries).dom().contains(entries[k].0@),
        map_of_entries(entries)[entries[k].0@] == entries[k].1,
    decreases entries.len(),
{
    if k == entries.len() - 1 {
    } else {
        assert(entries.drop_last()[k] == entries[k]);
        lemma_map_of_entries_at(entries.drop_last(), k);
        assert(entries[k].0@ != entries.last().0@);
    }
}

proof fn lemma_map_of_entries_update<S>(entries: Seq<(String, S)>, k: int, id: String, sink: S)
    requires
        distinct_ids(entries),
        0 <= k < entries.len(),
        entries[k].0@ == id@,
    ensures
        map_of_entries(entries.update(k, (id, sink)))
            =~= map_of_entries(entries).insert(id@, sink),
    decreases entries.len(),
{
    let updated = entries.update(k, (id, sink));
    if k == entries.len() - 1 {
        assert(updated.drop_last() =~= entries.drop_last());
        assert(updated.last() == (id, sink));
    } else {
        assert(updated.drop_last() =~= entries.drop_last().update(k, (id, sink)));
        assert(entries.drop_last()[k] == entries[k]);
        lemma_map_of_entries_update(entries.drop_last(), k, id, sink);
        assert(updated.last() == entries.last());
        assert(entries.last().0@ != id@);
        assert(map_of_entries(updated)
            =~= map_of_entries(entries.drop_last()).insert(id@, sink)
                .insert(entries.last().0@, entries.last().1));
        assert(map_of_entries(entries).insert(id@, sink)
            =~= map_of_entries(entries.drop_last()).insert(entries.last().0@, entries.last().1)
                .insert(id@, sink));
    }
}

proof fn lemma_map_of_entries_remove<S>(entries: Seq<(String, S)>, k: int)
    requires
        distinct_ids(entries),
        0 <= k < entries.len(),
    ensures
        map_of_entries(entries.remove(k)) =~= map_of_entries(entries).remove(entries[k].0@),
    decreases entries.len(),
{
    let shorter = entries.remove(k);
    if k == entries.len() - 1 {
        assert(shorter =~= entries.drop_last());
        lemma_map_of_entries_dom(entries.drop_last());
        assert forall|j: int| 0 <= j < entries.drop_last().len()
            implies entries.drop_last()[j].0@ != entries[k].0@ by {
            assert(entries[j].0@ != entries[k].0@);
        }
        assert(!map_of_entries(entries.drop_last()).dom().contains(entries[k].0@));
    } else {
        assert(shorter.drop_last() =~= entries.drop_last().remove(k));
        assert(entries.drop_last()[k] == entries[k]);
        lemma_map_of_entries_remove(entries.drop_last(), k);
        assert(shorter.last() == entries.last());
        assert(entries[k].0@ != entries.last().0@);
    }
}

impl<S> SessionRegistry<S> {
    /// The bookkeeping map this registry holds.
    pub closed spec fn view(&self) -> Map<Seq<char>, S> {
        map_of_entries(self.entries@)
    }

    /// Internal invariant: entry ids are pairwise distinct.
    pub closed spec fn wf(&self) -> bool {
        distinct_ids(self.entries@)
    }

    /// An empty registry.
    pub fn new() -> (r: Self)
        ensures
            r.wf(),
            r@ == Map::<Seq<char>, S>::empty(),
    {
        let r = SessionRegistry { entries: Vec::new() };
        proof {
            assert(r@ =~= Map::<Seq<char>, S>::empty());
        }
        r
    }

    /// The position of `id` among the entries, if present.
    fn find(&self, id: &String) -> (r: Option<usize>)
        requires
            self.wf(),
        ensures
            match r {
                Some(k) => k < self.entries@.len() && self.entries@[k as int].0@ == id@,
                None => forall|k: int|
                    0 <= k < self.entries@.len() ==> self.entries@[k].0@ != id@,
            },
    {
        let n = self.entries.len();
        let mut k: usize = 0;
        while k < n
            invariant
                n == self.entries@.len(),
                k <= n,
                forall|j: int| 0 <= j < k ==> self.entries@[j].0@ != id@,
            decreases n - k,
        {
            if self.entries[k].0 == *id {
                return Some(k);
            }
            k = k + 1;
        }
        None
    }

    /// True when a session with this id is currently registered.
    pub fn contains(&self, id: &String) -> (r: bool)
        requires
            self.wf(),
        ensures
            r == self@.dom().contains(id@),
    {
        let found = self.find(id);
        proof {
            lemma_map_of_entries_dom(self.entries@);
        }
        match found {
            Some(k) => {
                proof {
                    lemma_map_of_entries_at(self.entries@, k as int);
                }
                true
            },
            None => false,
        }
    }

    /// Registers `sink` under `id`, overwriting any prior entry for that id.
    /// Never fails; touched only at session start.
    pub fn register(&mut self, id: String, sink: S)
        requires
            old(self).wf(),
        ensures
            final(self).wf(),
            final(self)@ == old(self)@.insert(id@, sink),
    {
        let found = self.find(&id);
        match found {
            Some(k) => {
                proof {
                    lemma_map_of_entries_update(self.entries@, k as int, id, sink);
                }
                self.entries.set(k, (id, sink));
                proof {
                    assert(self@ =~= old(self)@.insert(id@, sink));
                }
            },
            None => {
                let ghost before = self.entries@;
                self.entries.push((id, sink));
                proof {
                    assert(self.entries@.drop_last() =~= before);
                    assert(self@ =~= old(self)@.insert(id@, sink));
                }
            },
        }
    }

    /// Registers `sink` under `id` only when no session with that id is
    /// live; reports whether it did.  This is the operation the bridge uses
    /// when a session starts, so two concurrently active sessions can never
    /// share an id.
    pub fn register_fresh(&mut self, id: String, sink: S) -> (r: bool)
        requires
            old(self).wf(),
        ensures
            final(self).wf(),
            r == !old(self)@.dom().contains(id@),
            r ==> final(self)@ == old(self)@.insert(id@, sink),
            !r ==> final(self)@ == old(self)@,
    {
        let present = self.contains(&id);
        if present {
            false
        } else {
            self.register(id, sink);
            true
        }
    }

    /// Removes the entry for `id` if present; a no-op otherwise.  Touched
    /// only at session end.
    pub fn unregister(&mut self, id: &String)
        requires
            old(self).wf(),
        ensures
            final(self).wf(),
            final(self)@ == old(self)@.remove(id@),
    {
        let found = self.find(id);
        match found {
            Some(k) => {
                proof {
                    lemma_map_of_entries_remove(self.entries@, k as int);
                    let entries = self.entries@;
                    assert forall|j: int, l: int| 0 <= j < l < entries.remove(k as int).len()
                        implies entries.remove(k as int)[j].0@
                            != entries.remove(k as int)[l].0@ by {
                        assert(entries.remove(k as int)[j]
                            == if j < k { entries[j] } else { entries[j + 1] });
                        assert(entries.remove(k as int)[l]
                            == if l < k { entries[l] } else { entries[l + 1] });
                    }
                }
                self.entries.remove(k);
                proof {
                    assert(self@ =~= old(self)@.remove(id@));
                }
            },
            None => {
                proof {
                    lemma_map_of_entries_dom(self.entries@);
                    assert(!self@.dom().contains(id@));
                    assert(self@ =~= old(self)@.remove(id@));
                }
            },
        }
    }
}

/// Two sessions admitted by `register_fresh` while both stay live have
/// distinct ids: the second admission saw a registry that still held the
/// first id.
pub proof fn lemma_live_sessions_distinct<S>(
    m: Map<Seq<char>, S>,
    id1: Seq<char>,
    sink1: S,
    id2: Seq<char>,
)
    requires
        !m.dom().contains(id1),
        !m.insert(id1, sink1).dom().contains(id2),
    ensures
        id1 != id2,
{
}

/// Ending one session leaves every other session's registry entry intact:
/// removing `id1` neither drops nor changes the entry of a distinct `id2`.
pub proof fn lemma_unregister_leaves_others<S>(m: Map<Seq<char>, S>, id1: Seq<char>, id2: Seq<char>)
    requires
        id1 != id2,
        m.dom().contains(id2),
    ensures
        m.remove(id1).dom().contains(id2),
        m.remove(id1)[id2] == m[id2],
{
}

} // verus!
