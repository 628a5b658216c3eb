//! An in-memory key-value backend, and the session operations carried out
//! on it with the same decisions as on a redis server.

use vstd::prelude::*;
use crate::error::MyError;
use crate::session::Session;
use crate::store::{
    after_clear, after_set, finish_get, finish_write, get_allows, get_outcome, lookup,
    key_views, set_entry, ClearBatch, ClearStep,
};

verus! {

/// A key space held in memory. A key that was deleted keeps its slot, with
/// no value.
pub struct MemoryBackend {
    entries: Vec<(String, Option<String>)>,
    contents: Ghost<Map<Seq<char>, Seq<char>>>,
}

impl View for MemoryBackend {
    type V = Map<Seq<char>, Seq<char>>;

    closed spec fn view(&self) -> Map<Seq<char>, Seq<char>> {
        self.contents@
    }
}

impl MemoryBackend {
    pub closed spec fn wf(&self) -> bool {
        &&& forall|i: int, j: int|
            0 <= i < j < self.entries@.len() ==> #[trigger] self.entries@[i].0@
                != #[trigger] self.entries@[j].0@
        &&& forall|i: int|
            0 <= i < self.entries@.len() ==> match #[trigger] self.entries@[i] {
                (k, Some(v)) => self.contents@.contains_key(k@) && self.contents@[k@] == v@,
                (k, None) => !self.contents@.contains_key(k@),
            }
        &&& forall|k: Seq<char>|
            #[trigger] self.contents@.contains_key(k) ==> exists|i: int|
                0 <= i < self.entries@.len() && #[trigger] self.entries@[i].0@ == k
    }

    /// An empty key space.
    pub fn new() -> (r: MemoryBackend)
        ensures
            r.wf(),
            r@ == Map::<Seq<char>, Seq<char>>::empty(),
    {
        MemoryBackend { entries: Vec::new(), contents: Ghost(Map::empty()) }
    }

    /// The slot of `key`, if it has one.
    fn find(&self, key: &str) -> (r: Option<usize>)
        requires
            self.wf(),
        ensures
            match r {
                Some(i) => i < self.entries@.len() && self.entries@[i as int].0@ == key@,
                None => forall|i: int|
                    0 <= i < self.entries@.len() ==> #[trigger] self.entries@[i].0@ != key@,
            },
    {
        let wanted = key.to_owned();
        let mut i: usize = 0;
        while i < self.entries.len()
            invariant
                i <= self.entries@.len(),
                wanted@ == key@,
                forall|j: int| 0 <= j < i ==> #[trigger] self.entries@[j].0@ != key@,
            decreases self.entries@.len() - i,
        {
            if self.entries[i].0.eq(&wanted) {
                return Some(i);
            }
            i = i + 1;
        }
        None
    }

    /// The value under `key`, if any.
    pub fn get(&self, key: &str) -> (r: Option<String>)
        requires
            self.wf(),
        ensures
            match r {
                Some(v) => lookup(self@, key@) == Some(v@),
                None => lookup(self@, key@) is None,
            },
    {
        match self.find(key) {
            Some(i) => match &self.entries[i].1 {
                Some(v) => Some(v.clone()),
                None => None,
            },
            None => None,
        }
    }

    /// Writes `value` under `key`, replacing any value there.
    pub fn set(&mut self, key: String, value: String)
        requires
            old(self).wf(),
        ensures
            final(self).wf(),
            final(self)@ == old(self)@.insert(key@, value@),
    {
        let ghost k = key@;
        let ghost v = value@;
        let ghost before = self.entries@;
        let found = self.find(key.as_str());
        self.contents = Ghost(self.contents@.insert(key@, value@));
        match found {
            Some(i) => {
                self.entries.set(i, (key, Some(value)));
                assert forall|c: Seq<char>| #[trigger] self.contents@.contains_key(c) implies exists|j: int|
                    0 <= j < self.entries@.len() && #[trigger] self.entries@[j].0@ == c by {
                    if c != k {
                        let j = choose|j: int| 0 <= j < before.len() && #[trigger] before[j].0@ == c;
                        assert(self.entries@[j].0@ == c);
                    } else {
                        assert(self.entries@[i as int].0@ == c);
                    }
                }
            },
            None => {
                self.entries.push((key, Some(value)));
                assert forall|c: Seq<char>| #[trigger] self.contents@.contains_key(c) implies exists|j: int|
                    0 <= j < self.entries@.len() && #[trigger] self.entries@[j].0@ == c by {
                    if c != k {
                        let j = choose|j: int| 0 <= j < before.len() && #[trigger] before[j].0@ == c;
                        assert(self.entries@[j].0@ == c);
                    } else {
                        assert(self.entries@[before.len() as int].0@ == c);
                    }
                }
            },
        }
    }

    /// Deletes the value under `key`; a key with no value is left as it is.
    pub fn delete(&mut self, key: &str)
        requires
            old(self).wf(),
        ensures
            final(self).wf(),
            final(self)@ == old(self)@.remove(key@),
    {
        let ghost before = self.entries@;
        match self.find(key) {
            Some(i) => {
                let k = self.entries[i].0.clone();
                self.contents = Ghost(self.contents@.remove(key@));
                self.entries.set(i, (k, None));
                assert forall|c: Seq<char>| #[trigger] self.contents@.contains_key(c) implies exists|j: int|
                    0 <= j < self.entries@.len() && #[trigger] self.entries@[j].0@ == c by {
                    let j = choose|j: int| 0 <= j < before.len() && #[trigger] before[j].0@ == c;
                    assert(self.entries@[j].0@ == c);
                }
            },
            None => {
                assert(!self.contents@.contains_key(key@));
                assert(self.contents@.remove(key@) =~= self.contents@);
            },
        }
    }
}

proof fn lemma_push_to_set(s: Seq<Seq<char>>, k: Seq<char>)
    ensures
        s.push(k).to_set() == s.to_set().insert(k),
{
    let t = s.push(k);
    assert forall|x: Seq<char>| t.contains(x) == s.to_set().insert(k).contains(x) by {
        if s.contains(x) {
            let i = choose|i: int| 0 <= i < s.len() && s[i] == x;
            assert(t[i] == x);
        }
        if t.contains(x) {
            let i = choose|i: int| 0 <= i < t.len() && t[i] == x;
            if i < s.len() {
                assert(s[i] == x);
            }
        }
        if x == k {
            assert(t[s.len() as int] == k);
        }
    }
    assert(t.to_set() =~= s.to_set().insert(k));
}

impl MemoryBackend {
    /// Fetches the record stored under `sid`: absent when no value is there.
    pub fn get_session(&self, sid: &str) -> (r: Result<Option<Session>, MyError>)
        requires
            self.wf(),
        ensures
            get_allows(self@, sid@, get_outcome(r)),
            r is Err ==> r->Err_0 is Json,
    {
        finish_get(Ok(self.get(sid)))
    }

    /// Stores `session` under its sid, replacing what was there.
    pub fn set_session(&mut self, session: &Session) -> (r: Result<(), MyError>)
        requires
            old(self).wf(),
        ensures
            final(self).wf(),
            r is Ok,
            final(self)@ == after_set(old(self)@, session.sid@, session.credentials@),
    {
        let (key, value) = set_entry(session);
        self.set(key, value);
        finish_write(Ok(()))
    }

    /// Deletes `keys` in order; a key with no value is no error.
    pub fn clear_store(&mut self, keys: Vec<String>) -> (r: Result<(), MyError>)
        requires
            old(self).wf(),
        ensures
            final(self).wf(),
            r is Ok,
            final(self)@ == after_clear(old(self)@, key_views(keys@)),
    {
        let ghost start = self@;
        let ghost all = key_views(keys@);
        let mut batch = ClearBatch::new(keys);
        let mut step = batch.next_step();
        assert(all.subrange(0, 0).to_set() =~= Set::empty());
        assert(after_clear(start, all.subrange(0, 0)) =~= start);
        loop
            invariant
                start == old(self)@,
                all == key_views(keys@),
                self.wf(),
                batch.wf(),
                batch.key_views() == all,
                step == batch.step(),
                self@ == after_clear(start, all.subrange(0, batch.done() as int)),
            decreases all.len() - batch.done(),
        {
            match step {
                ClearStep::Delete(key) => {
                    let ghost d = batch.done() as int;
                    let ghost k = key@;
                    self.delete(key.as_str());
                    step = batch.advance(Ok(()));
                    assert(all.subrange(0, d + 1) =~= all.subrange(0, d).push(k));
                    proof {
                        lemma_push_to_set(all.subrange(0, d), k);
                    }
                    assert(self@ =~= after_clear(start, all.subrange(0, d + 1)));
                },
                ClearStep::Finished(r) => {
                    assert(batch.done() == all.len());
                    assert(all.subrange(0, all.len() as int) =~= all);
                    return r;
                },
            }
        }
    }
}

} // verus!
