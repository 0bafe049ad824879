//! The persistence backend: a per-document store keyed by the normalized
//! (lowercased) document name, holding one decoded document per key. It
//! abstracts to a `Map<Seq<char>, ThemeView>`; `delete` fails exactly on a
//! key that holds no document, the way removing a never-written file
//! fails.

use crate::assoc::{assoc_map, has_key, key_index, keys_unique, lemma_amap_empty,
    lemma_amap_push, lemma_amap_remove, lemma_key_index};
use crate::defs::{Theme, ThemeView};
use vstd::prelude::*;

verus! {

/// The documents currently persisted, one entry per normalized name.
pub struct Storage {
    pub files: Vec<(String, Theme)>,
}

impl View for Storage {
    type V = Map<Seq<char>, ThemeView>;

    open spec fn view(&self) -> Map<Seq<char>, ThemeView> {
        assoc_map(self.files@)
    }
}

impl Storage {
    /// Each stored name occurs at most once.
    pub open spec fn wf(&self) -> bool {
        keys_unique(self.files@)
    }

    /// An empty backend, with no documents stored.
    pub fn new() -> (s: Storage)
        ensures
            s.wf(),
            s@ == Map::<Seq<char>, ThemeView>::empty(),
    {
        let s = Storage { files: Vec::new() };
        proof {
            lemma_amap_empty::<Theme>();
        }
        s
    }

    fn find(&self, name: &String) -> (r: Option<usize>)
        ensures
            match r {
                Some(i) => i < self.files.len() && self.files@[i as int].0@ == name@,
                None => !has_key(self.files@, name@),
            },
    {
        let mut i: usize = 0;
        while i < self.files.len()
            invariant
                i <= self.files.len(),
                forall|j: int| 0 <= j < i ==> #[trigger] self.files@[j].0@ != name@,
            decreases self.files.len() - i,
        {
            if self.files[i].0 == *name {
                return Some(i);
            }
            i += 1;
        }
        None
    }

    /// Whether a document is stored under `name`.
    pub fn contains(&self, name: &String) -> (r: bool)
        requires
            self.wf(),
        ensures
            r == self@.contains_key(name@),
    {
        match self.find(name) {
            Some(i) => {
                proof {
                    lemma_key_index(self.files@, name@, i as int);
                }
                true
            },
            None => false,
        }
    }

    /// Reads the document stored under `name`, or reports that none is.
    pub fn load(&self, name: &String) -> (r: Option<Theme>)
        requires
            self.wf(),
        ensures
            match r {
                Some(t) => self@.contains_key(name@) && t@ == self@[name@],
                None => !self@.contains_key(name@),
            },
    {
        match self.find(name) {
            Some(i) => {
                proof {
                    lemma_key_index(self.files@, name@, i as int);
                }
                Some(self.files[i].1.clone())
            },
            None => None,
        }
    }

    /// Writes `doc` under `name`, overwriting whatever was stored there.
    pub fn store(&mut self, name: String, doc: Theme)
        requires
            old(self).wf(),
        ensures
            final(self).wf(),
            final(self)@ == old(self)@.insert(name@, doc@),
    {
        let ghost s0 = self.files@;
        match self.find(&name) {
            Some(i) => {
                proof {
                    lemma_amap_remove(s0, i as int);
                }
                self.files.remove(i);
                proof {
                    assert(assoc_map(self.files@) == old(self)@.remove(name@));
                    assert(!assoc_map(self.files@).contains_key(name@));
                    assert(!has_key(self.files@, name@));
                    lemma_amap_push(self.files@, name, doc);
                }
                self.files.push((name, doc));
                proof {
                    assert(self@ == old(self)@.remove(name@).insert(name@, doc@));
                    assert(self@ =~= old(self)@.insert(name@, doc@));
                }
            },
            None => {
                proof {
                    lemma_amap_push(s0, name, doc);
                }
                self.files.push((name, doc));
            },
        }
    }

    /// Deletes the document stored under `name`; fails iff none is there.
    pub fn delete(&mut self, name: &String) -> (r: Result<(), ()>)
        requires
            old(self).wf(),
        ensures
            final(self).wf(),
            match r {
                Ok(()) => old(self)@.contains_key(name@) && final(self)@ == old(self)@.remove(
                    name@,
                ),
                Err(()) => !old(self)@.contains_key(name@) && *final(self) == *old(self),
            },
    {
        match self.find(name) {
            Some(i) => {
                proof {
                    lemma_key_index(self.files@, name@, i as int);
                    lemma_amap_remove(self.files@, i as int);
                }
                self.files.remove(i);
                Ok(())
            },
            None => Err(()),
        }
    }

    /// The names of all stored documents, in storage order.
    pub fn list(&self) -> (r: Vec<String>)
        ensures
            r@.len() == self.files@.len(),
            forall|j: int| 0 <= j < r@.len() ==> r@[j]@ == #[trigger] self.files@[j].0@,
    {
        let mut out: Vec<String> = Vec::new();
        let mut i: usize = 0;
        while i < self.files.len()
            invariant
                i <= self.files.len(),
                out@.len() == i,
                forall|j: int| 0 <= j < i ==> out@[j]@ == #[trigger] self.files@[j].0@,
            decreases self.files.len() - i,
        {
            out.push(self.files[i].0.clone());
            i += 1;
        }
        out
    }
}

} // verus!
