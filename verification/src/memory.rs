//! The cache store: a map from the normalized (lowercased) document name
//! to either a resident in-memory document or a placeholder for one that
//! only exists in the persistence backend, guarded by a non-blocking
//! reader/writer lock model. Every operation either runs at once or fails
//! with a concurrency error; a poisoned lock makes the store permanently
//! inert.

use crate::assoc::{assoc_map, has_key, key_index, keys_unique, lemma_amap_push,
    lemma_amap_remove, lemma_key_index};
use crate::defs::{Theme, ThemeView};
use crate::storage::Storage;
use vstd::prelude::*;

verus! {

/// What `str::to_lowercase` returns for the given characters.
pub uninterp spec fn lower_of(s: Seq<char>) -> Seq<char>;

/// Relies on str::to_lowercase: the result is a function of the
/// characters alone.
#[verifier::external_body]
fn lowercase(s: &String) -> (r: String)
    ensures
        r@ == lower_of(s@),
{
    s.to_lowercase()
}

#[derive(Debug, Clone)]
pub enum DatabaseError {
    EntryDoesNotExist(String),
    EntryAlreadyExists(String),
    LockIsPoisoned,
    WouldBlock,
    DiskEntryDoesNotExist(String),
    FailedWritingToDisk,
}

/// A cache entry: the authoritative in-memory document, or a placeholder
/// for one that lives in the persistence backend.
#[derive(Debug)]
pub enum Instance {
    Memory(Theme),
    Disk,
}

pub ghost enum InstanceView {
    Memory(ThemeView),
    Disk,
}

impl View for Instance {
    type V = InstanceView;

    open spec fn view(&self) -> InstanceView {
        match self {
            Instance::Memory(t) => InstanceView::Memory(t@),
            Instance::Disk => InstanceView::Disk,
        }
    }
}

/// The state of the store's single reader/writer lock. `Readers` counts
/// the shared holders; a poisoned lock never recovers.
#[derive(Debug, Clone, Copy, PartialEq, Eq, Structural)]
pub enum LockState {
    Open,
    Readers(u32),
    Writer,
    Poisoned,
}

/// A shared (read-mode) acquisition succeeds at once.
pub open spec fn can_read(l: LockState) -> bool {
    l is Open || l is Readers
}

/// An exclusive (write-mode) acquisition succeeds at once.
pub open spec fn can_write(l: LockState) -> bool {
    l is Open
}

pub open spec fn opt_view(r: Option<Theme>) -> Option<ThemeView> {
    match r {
        Some(t) => Some(t@),
        None => None,
    }
}

/// What `get` observes: the entry under the normalized name, read through
/// to the backend when it is a placeholder. A read-through miss is
/// reported as absence.
pub open spec fn lookup(
    mem: Map<Seq<char>, InstanceView>,
    disk: Map<Seq<char>, ThemeView>,
    name: Seq<char>,
) -> Option<ThemeView> {
    let k = lower_of(name);
    if !mem.contains_key(k) {
        None
    } else {
        match mem[k] {
            InstanceView::Memory(t) => Some(t),
            InstanceView::Disk => if disk.contains_key(k) {
                Some(disk[k])
            } else {
                None
            },
        }
    }
}

/// The backend contents after a reconciliation pass: orphaned names are
/// purged, every resident entry is rewritten, placeholders keep their
/// stored document.
pub open spec fn flush_disk(
    m: Map<Seq<char>, InstanceView>,
    d: Map<Seq<char>, ThemeView>,
) -> Map<Seq<char>, ThemeView> {
    Map::new(
        |k: Seq<char>| m.contains_key(k) && (m[k] is Memory || d.contains_key(k)),
        |k: Seq<char>|
            match m[k] {
                InstanceView::Memory(t) => t,
                InstanceView::Disk => d[k],
            },
    )
}

/// The cache a fresh store starts from: one placeholder per document the
/// backend already holds.
pub open spec fn all_placeholders(d: Map<Seq<char>, ThemeView>) -> Map<Seq<char>, InstanceView> {
    Map::new(|k: Seq<char>| d.contains_key(k), |k: Seq<char>| InstanceView::Disk)
}

/// The store: the entry table, the persistence backend it reconciles
/// against, and the lock state.
pub struct MemoryDatabase {
    pub loaded_themes: Vec<(String, Instance)>,
    pub disk: Storage,
    pub lock: LockState,
}

impl MemoryDatabase {
    pub open spec fn wf(&self) -> bool {
        &&& keys_unique(self.loaded_themes@)
        &&& self.disk.wf()
        &&& (self.lock matches LockState::Readers(n) ==> n >= 1)
    }

    /// The entry table as a map from normalized name to entry view.
    pub open spec fn mem(&self) -> Map<Seq<char>, InstanceView> {
        assoc_map(self.loaded_themes@)
    }

    /// A store over the given backend: every document already persisted
    /// is registered as a placeholder, and the lock starts open.
    pub fn new(disk: Storage) -> (db: MemoryDatabase)
        requires
            disk.wf(),
        ensures
            db.wf(),
            db.lock == LockState::Open,
            db.disk@ == disk@,
            db.mem() == all_placeholders(disk@),
    {
        let ghost d = disk@;
        let names = disk.list();
        proof {
            assert forall|j1: int, j2: int| 0 <= j1 < j2 < names@.len() implies names@[j1]@
                != names@[j2]@ by {
                assert(names@[j1]@ == disk.files@[j1].0@);
                assert(names@[j2]@ == disk.files@[j2].0@);
            }
        }
        let mut entries: Vec<(String, Instance)> = Vec::new();
        let mut i: usize = 0;
        while i < names.len()
            invariant
                i <= names.len(),
                keys_unique(entries@),
                entries@.len() == i,
                forall|j: int| 0 <= j < i ==> entries@[j].0@ == #[trigger] names@[j]@,
                forall|j1: int, j2: int| 0 <= j1 < j2 < names@.len() ==> #[trigger] names@[j1]@
                    != #[trigger] names@[j2]@,
                forall|k: Seq<char>|
                    #[trigger] assoc_map(entries@).contains_key(k) <==> exists|j: int|
                        0 <= j < i && #[trigger] names@[j]@ == k,
                forall|k: Seq<char>| #[trigger] assoc_map(entries@).contains_key(k)
                    ==> assoc_map(entries@)[k] == InstanceView::Disk,
            decreases names.len() - i,
        {
            let nm = names[i].clone();
            let ghost pre = entries@;
            let ghost nmv = nm@;
            proof {
                if has_key(pre, nm@) {
                    let j = key_index(pre, nm@);
                    assert(names@[j]@ == nm@);
                }
                lemma_amap_push(pre, nm, Instance::Disk);
            }
            entries.push((nm, Instance::Disk));
            proof {
                assert(assoc_map(entries@) == assoc_map(pre).insert(
                    nmv,
                    InstanceView::Disk,
                ));
                assert forall|k: Seq<char>| #[trigger] assoc_map(entries@).contains_key(k)
                    implies assoc_map(entries@)[k] == InstanceView::Disk by {
                    if k != nmv {
                        assert(assoc_map(pre).contains_key(k));
                    }
                }
            }
            i += 1;
        }
        let db = MemoryDatabase { loaded_themes: entries, disk, lock: LockState::Open };
        proof {
            assert forall|k: Seq<char>| #[trigger] db.mem().contains_key(k) <==> all_placeholders(
                d,
            ).contains_key(k) by {
                if d.contains_key(k) {
                    let j = key_index(db.disk.files@, k);
                    assert(db.disk.files@[j].0@ == k);
                    assert(names@[j]@ == k);
                }
                if db.mem().contains_key(k) {
                    let j = choose|j: int| 0 <= j < i && #[trigger] names@[j]@ == k;
                    assert(db.disk.files@[j].0@ == k);
                    assert(has_key(db.disk.files@, k));
                }
            }
            assert(db.mem() =~= all_placeholders(d));
        }
        db
    }

    fn find_entry(&self, key: &String) -> (r: Option<usize>)
        ensures
            match r {
                Some(i) => i < self.loaded_themes.len() && self.loaded_themes@[i as int].0@
                    == key@,
                None => !has_key(self.loaded_themes@, key@),
            },
    {
        let mut i: usize = 0;
        while i < self.loaded_themes.len()
            invariant
                i <= self.loaded_themes.len(),
                forall|j: int| 0 <= j < i ==> #[trigger] self.loaded_themes@[j].0@ != key@,
            decreases self.loaded_themes.len() - i,
        {
            if self.loaded_themes[i].0 == *key {
                return Some(i);
            }
            i += 1;
        }
        None
    }

    /// Replaces or creates the entry under `key`, leaving every other
    /// entry alone.
    fn upsert_entry(&mut self, key: String, inst: Instance)
        requires
            old(self).wf(),
        ensures
            final(self).wf(),
            final(self).disk == old(self).disk,
            final(self).lock == old(self).lock,
            final(self).mem() == old(self).mem().insert(key@, inst@),
    {
        let ghost s0 = self.loaded_themes@;
        match self.find_entry(&key) {
            Some(i) => {
                proof {
                    lemma_amap_remove(s0, i as int);
                }
                self.loaded_themes.remove(i);
                proof {
                    assert(assoc_map(self.loaded_themes@) == old(self).mem().remove(key@));
                    assert(!assoc_map(self.loaded_themes@).contains_key(key@));
                    assert(!has_key(self.loaded_themes@, key@));
                    lemma_amap_push(self.loaded_themes@, key, inst);
                }
                self.loaded_themes.push((key, inst));
                proof {
                    assert(self.mem() =~= old(self).mem().insert(key@, inst@));
                }
            },
            None => {
                proof {
                    lemma_amap_push(s0, key, inst);
                }
                self.loaded_themes.push((key, inst));
            },
        }
    }

    /// Looks the document up under its normalized name, reading through
    /// to the backend for a placeholder. Absence, a read-through miss and
    /// an unavailable lock are all reported as `None`.
    pub fn get(&self, name: String) -> (r: Option<Theme>)
        requires
            self.wf(),
        ensures
            can_read(self.lock) ==> opt_view(r) == lookup(self.mem(), self.disk@, name@),
            !can_read(self.lock) ==> r is None,
    {
        match self.lock {
            LockState::Writer => return None,
            LockState::Poisoned => return None,
            _ => {},
        }
        let key = lowercase(&name);
        match self.find_entry(&key) {
            Some(i) => {
                proof {
                    lemma_key_index(self.loaded_themes@, key@, i as int);
                }
                match &self.loaded_themes[i].1 {
                    Instance::Memory(t) => Some(t.clone()),
                    Instance::Disk => self.disk.load(&key),
                }
            },
            None => None,
        }
    }

    /// Creates the document under its own normalized name; refuses to
    /// touch a name that already has any entry. Never writes to the
    /// backend.
    pub fn insert(&mut self, value: Theme) -> (r: Result<(), DatabaseError>)
        requires
            old(self).wf(),
        ensures
            final(self).wf(),
            final(self).disk == old(self).disk,
            final(self).lock == old(self).lock,
            ({
                let k = lower_of(value@.name);
                let m = old(self).mem();
                if old(self).lock is Poisoned {
                    r matches Err(DatabaseError::LockIsPoisoned) && *final(self) == *old(self)
                } else if !(old(self).lock is Open) {
                    r matches Err(DatabaseError::WouldBlock) && *final(self) == *old(self)
                } else if m.contains_key(k) {
                    (r matches Err(DatabaseError::EntryAlreadyExists(s)) && s@ == k) && *final(self) == *old(self)
                } else {
                    r is Ok && final(self).mem() == m.insert(k, InstanceView::Memory(value@))
                }
            }),
    {
        match self.lock {
            LockState::Poisoned => return Err(DatabaseError::LockIsPoisoned),
            LockState::Readers(_) => return Err(DatabaseError::WouldBlock),
            LockState::Writer => return Err(DatabaseError::WouldBlock),
            LockState::Open => {},
        }
        let key = lowercase(&value.name);
        match self.find_entry(&key) {
            Some(_) => Err(DatabaseError::EntryAlreadyExists(key)),
            None => {
                let inst = Instance::Memory(value);
                proof {
                    lemma_amap_push(self.loaded_themes@, key, inst);
                }
                self.loaded_themes.push((key, inst));
                Ok(())
            },
        }
    }

    /// Rename-capable replace: the entry under `name` is dropped and the
    /// document is stored resident under its own normalized name. A name
    /// with no entry is adopted from the backend first when a document is
    /// persisted there, else the call fails.
    pub fn set(&mut self, name: String, value: Theme) -> (r: Result<(), DatabaseError>)
        requires
            old(self).wf(),
        ensures
            final(self).wf(),
            final(self).disk == old(self).disk,
            final(self).lock == old(self).lock,
            ({
                let k = lower_of(name@);
                let nk = lower_of(value@.name);
                let m = old(self).mem();
                let d = old(self).disk@;
                if old(self).lock is Poisoned {
                    r matches Err(DatabaseError::LockIsPoisoned) && *final(self) == *old(self)
                } else if !(old(self).lock is Open) {
                    r matches Err(DatabaseError::WouldBlock) && *final(self) == *old(self)
                } else if (m.contains_key(k) && m[k] is Memory) || d.contains_key(k) {
                    r is Ok && final(self).mem() == m.remove(k).insert(
                        nk,
                        InstanceView::Memory(value@),
                    )
                } else {
                    (r matches Err(DatabaseError::EntryDoesNotExist(s)) && s@ == name@) && *final(self) == *old(self)
                }
            }),
    {
        match self.lock {
            LockState::Poisoned => return Err(DatabaseError::LockIsPoisoned),
            LockState::Readers(_) => return Err(DatabaseError::WouldBlock),
            LockState::Writer => return Err(DatabaseError::WouldBlock),
            LockState::Open => {},
        }
        let ghost m0 = self.mem();
        let key = lowercase(&name);
        let idx: usize;
        match self.find_entry(&key) {
            Some(i) => {
                idx = i;
            },
            None => {
                if self.disk.contains(&key) {
                    proof {
                        lemma_amap_push(self.loaded_themes@, key, Instance::Disk);
                    }
                    self.loaded_themes.push((key.clone(), Instance::Disk));
                    idx = self.loaded_themes.len() - 1;
                } else {
                    return Err(DatabaseError::EntryDoesNotExist(name));
                }
            },
        }
        let proceed: bool = match &self.loaded_themes[idx].1 {
            Instance::Memory(_) => true,
            Instance::Disk => self.disk.contains(&key),
        };
        if !proceed {
            return Err(DatabaseError::EntryDoesNotExist(name));
        }
        proof {
            lemma_key_index(self.loaded_themes@, key@, idx as int);
            lemma_amap_remove(self.loaded_themes@, idx as int);
        }
        self.loaded_themes.remove(idx);
        proof {
            assert(self.mem() =~= m0.remove(key@));
        }
        let new_key = lowercase(&value.name);
        self.upsert_entry(new_key, Instance::Memory(value));
        proof {
            assert(self.mem() =~= m0.remove(key@).insert(
                lower_of(value@.name),
                InstanceView::Memory(value@),
            ));
        }
        Ok(())
    }

    /// Drops the entry under the normalized name, deleting the persisted
    /// document first; if the backend holds none — the document was never
    /// flushed — the whole operation fails and the entry stays.
    pub fn remove(&mut self, name: String) -> (r: Result<(), DatabaseError>)
        requires
            old(self).wf(),
        ensures
            final(self).wf(),
            final(self).lock == old(self).lock,
            ({
                let k = lower_of(name@);
                let m = old(self).mem();
                let d = old(self).disk@;
                if old(self).lock is Poisoned {
                    r matches Err(DatabaseError::LockIsPoisoned) && *final(self) == *old(self)
                } else if !(old(self).lock is Open) {
                    r matches Err(DatabaseError::WouldBlock) && *final(self) == *old(self)
                } else if !m.contains_key(k) {
                    (r matches Err(DatabaseError::EntryDoesNotExist(s)) && s@ == name@) && *final(self) == *old(self)
                } else if !d.contains_key(k) {
                    r matches Err(DatabaseError::FailedWritingToDisk) && *final(self) == *old(self)
                } else {
                    r is Ok && final(self).mem() == m.remove(k) && final(self).disk@ == d.remove(k)
                }
            }),
    {
        match self.lock {
            LockState::Poisoned => return Err(DatabaseError::LockIsPoisoned),
            LockState::Readers(_) => return Err(DatabaseError::WouldBlock),
            LockState::Writer => return Err(DatabaseError::WouldBlock),
            LockState::Open => {},
        }
        let key = lowercase(&name);
        match self.find_entry(&key) {
            None => Err(DatabaseError::EntryDoesNotExist(name)),
            Some(i) => {
                match self.disk.delete(&key) {
                    Err(()) => Err(DatabaseError::FailedWritingToDisk),
                    Ok(()) => {
                        proof {
                            lemma_key_index(self.loaded_themes@, key@, i as int);
                            lemma_amap_remove(self.loaded_themes@, i as int);
                        }
                        self.loaded_themes.remove(i);
                        Ok(())
                    },
                }
            },
        }
    }

    /// Reconciliation: purge every persisted document whose name has no
    /// entry, then rewrite every resident document to the backend.
    /// Placeholder entries are left untouched.
    pub fn flush(&mut self) -> (r: Result<(), DatabaseError>)
        requires
            old(self).wf(),
        ensures
            final(self).wf(),
            final(self).loaded_themes == old(self).loaded_themes,
            final(self).lock == old(self).lock,
            ({
                let m = old(self).mem();
                let d = old(self).disk@;
                if old(self).lock is Poisoned {
                    r matches Err(DatabaseError::LockIsPoisoned) && *final(self) == *old(self)
                } else if old(self).lock is Writer {
                    r matches Err(DatabaseError::WouldBlock) && *final(self) == *old(self)
                } else {
                    r is Ok && final(self).disk@ == flush_disk(m, d)
                }
            }),
    {
        match self.lock {
            LockState::Poisoned => return Err(DatabaseError::LockIsPoisoned),
            LockState::Writer => return Err(DatabaseError::WouldBlock),
            _ => {},
        }
        let ghost m = self.mem();
        let ghost d0 = self.disk@;
        let ghost themes0 = self.loaded_themes;
        let ghost files0 = self.disk.files@;
        let ghost lock0 = self.lock;
        let names = self.disk.list();
        let mut i: usize = 0;
        while i < names.len()
            invariant
                self.wf(),
                self.loaded_themes == themes0,
                self.lock == lock0,
                m == assoc_map(themes0@),
                i <= names.len(),
                forall|j: int| 0 <= j < names@.len() ==> #[trigger] names@[j]@ == files0[j].0@,
                names@.len() == files0.len(),
                d0 == assoc_map(files0),
                forall|k: Seq<char>| #[trigger] self.disk@.contains_key(k) ==> d0.contains_key(k)
                    && self.disk@[k] == d0[k],
                forall|k: Seq<char>| d0.contains_key(k) && m.contains_key(k)
                    ==> #[trigger] self.disk@.contains_key(k),
                forall|j: int| 0 <= j < i && !m.contains_key(#[trigger] names@[j]@)
                    ==> !self.disk@.contains_key(names@[j]@),
            decreases names.len() - i,
        {
            match self.find_entry(&names[i]) {
                None => {
                    let _ = self.disk.delete(&names[i]);
                },
                Some(j) => {
                    proof {
                        lemma_key_index(self.loaded_themes@, names@[i as int]@, j as int);
                    }
                },
            }
            i += 1;
        }
        let ghost d1 = self.disk@;
        proof {
            assert forall|k: Seq<char>| #[trigger] d1.contains_key(k) <==> d0.contains_key(k)
                && m.contains_key(k) by {
                if d0.contains_key(k) && !m.contains_key(k) {
                    let j = key_index(files0, k);
                    assert(files0[j].0@ == k);
                    assert(names@[j]@ == k);
                    assert(!d1.contains_key(k));
                }
            }
        }
        let mut i2: usize = 0;
        while i2 < self.loaded_themes.len()
            invariant
                self.wf(),
                self.loaded_themes == themes0,
                self.lock == lock0,
                m == assoc_map(themes0@),
                i2 <= themes0@.len(),
                forall|k: Seq<char>| #[trigger] d1.contains_key(k) <==> d0.contains_key(k)
                    && m.contains_key(k),
                forall|k: Seq<char>| #[trigger] d1.contains_key(k) ==> d1[k] == d0[k],
                forall|k: Seq<char>|
                    #[trigger] self.disk@.contains_key(k) <==> d1.contains_key(k) || (exists|j: int|
                        0 <= j < i2 && #[trigger] themes0@[j].0@ == k && themes0@[j].1@
                            is Memory),
                forall|j: int|
                    0 <= j < i2 && #[trigger] themes0@[j].1@ is Memory ==> self.disk@.contains_key(
                        themes0@[j].0@,
                    ) && self.disk@[themes0@[j].0@] == themes0@[j].1@->Memory_0,
                forall|k: Seq<char>|
                    #[trigger] self.disk@.contains_key(k) && !(exists|j: int|
                        0 <= j < i2 && #[trigger] themes0@[j].0@ == k && themes0@[j].1@
                            is Memory) ==> d1.contains_key(k) && self.disk@[k] == d1[k],
            decreases self.loaded_themes.len() - i2,
        {
            match &self.loaded_themes[i2].1 {
                Instance::Disk => {},
                Instance::Memory(t) => {
                    let tc = t.clone();
                    let key2 = self.loaded_themes[i2].0.clone();
                    self.disk.store(key2, tc);
                },
            }
            i2 += 1;
        }
        proof {
            let fd = flush_disk(m, d0);
            assert forall|k: Seq<char>| #[trigger] self.disk@.contains_key(k) <==> fd.contains_key(
                k,
            ) by {
                if m.contains_key(k) {
                    let j = key_index(themes0@, k);
                    assert(themes0@[j].0@ == k);
                    assert(m[k] == themes0@[j].1@);
                    if m[k] is Memory {
                        assert(self.disk@.contains_key(k));
                    }
                }
                if self.disk@.contains_key(k) && !d1.contains_key(k) {
                    let j = choose|j: int|
                        0 <= j < i2 && #[trigger] themes0@[j].0@ == k && themes0@[j].1@ is Memory;
                    lemma_key_index(themes0@, k, j);
                    assert(m[k] == themes0@[j].1@);
                }
            }
            assert forall|k: Seq<char>| #[trigger] self.disk@.contains_key(k) implies self.disk@[k]
                == fd[k] by {
                let j = key_index(themes0@, k);
                assert(fd.contains_key(k));
                assert(m.contains_key(k));
                assert(themes0@[j].0@ == k);
                assert(m[k] == themes0@[j].1@);
                if m[k] is Memory {
                    assert(self.disk@[k] == themes0@[j].1@->Memory_0);
                } else {
                    if exists|j2: int|
                        0 <= j2 < i2 && #[trigger] themes0@[j2].0@ == k && themes0@[j2].1@
                            is Memory {
                        let j2 = choose|j2: int|
                            0 <= j2 < i2 && #[trigger] themes0@[j2].0@ == k && themes0@[j2].1@
                                is Memory;
                        lemma_key_index(themes0@, k, j2);
                        assert(false);
                    }
                    assert(self.disk@[k] == d1[k]);
                }
            }
            assert(self.disk@ =~= fd);
        }
        Ok(())
    }

    /// Non-blocking shared acquisition of the store's lock: fails at once
    /// when a writer holds it or it is poisoned.
    pub fn acquire_read(&mut self) -> (r: Result<(), DatabaseError>)
        requires
            old(self).wf(),
        ensures
            final(self).wf(),
            final(self).loaded_themes == old(self).loaded_themes,
            final(self).disk == old(self).disk,
            match old(self).lock {
                LockState::Open => r is Ok && final(self).lock == LockState::Readers(1),
                LockState::Readers(n) => if n < u32::MAX {
                    r is Ok && final(self).lock == LockState::Readers((n + 1) as u32)
                } else {
                    r matches Err(DatabaseError::WouldBlock) && final(self).lock == old(self).lock
                },
                LockState::Writer => r matches Err(DatabaseError::WouldBlock) && final(self).lock
                    == old(self).lock,
                LockState::Poisoned => r matches Err(DatabaseError::LockIsPoisoned) && final(self).lock == old(self).lock,
            },
    {
        match self.lock {
            LockState::Open => {
                self.lock = LockState::Readers(1);
                Ok(())
            },
            LockState::Readers(n) => {
                if n < u32::MAX {
                    self.lock = LockState::Readers(n + 1);
                    Ok(())
                } else {
                    Err(DatabaseError::WouldBlock)
                }
            },
            LockState::Writer => Err(DatabaseError::WouldBlock),
            LockState::Poisoned => Err(DatabaseError::LockIsPoisoned),
        }
    }

    /// Non-blocking exclusive acquisition of the store's lock: succeeds
    /// exactly when nobody holds it and it is not poisoned.
    pub fn acquire_write(&mut self) -> (r: Result<(), DatabaseError>)
        requires
            old(self).wf(),
        ensures
            final(self).wf(),
            final(self).loaded_themes == old(self).loaded_themes,
            final(self).disk == old(self).disk,
            match old(self).lock {
                LockState::Open => r is Ok && final(self).lock == LockState::Writer,
                LockState::Poisoned => r matches Err(DatabaseError::LockIsPoisoned) && final(self).lock == old(self).lock,
                _ => r matches Err(DatabaseError::WouldBlock) && final(self).lock == old(self).lock,
            },
    {
        match self.lock {
            LockState::Open => {
                self.lock = LockState::Writer;
                Ok(())
            },
            LockState::Poisoned => Err(DatabaseError::LockIsPoisoned),
            _ => Err(DatabaseError::WouldBlock),
        }
    }

    /// Releases one shared hold; on any other lock state it is a no-op.
    pub fn release_read(&mut self)
        requires
            old(self).wf(),
        ensures
            final(self).wf(),
            final(self).loaded_themes == old(self).loaded_themes,
            final(self).disk == old(self).disk,
            match old(self).lock {
                LockState::Readers(n) => final(self).lock == if n <= 1 {
                    LockState::Open
                } else {
                    LockState::Readers((n - 1) as u32)
                },
                _ => final(self).lock == old(self).lock,
            },
    {
        match self.lock {
            LockState::Readers(n) => {
                if n <= 1 {
                    self.lock = LockState::Open;
                } else {
                    self.lock = LockState::Readers(n - 1);
                }
            },
            _ => {},
        }
    }

    /// Releases the exclusive hold; on any other lock state it is a
    /// no-op.
    pub fn release_write(&mut self)
        requires
            old(self).wf(),
        ensures
            final(self).wf(),
            final(self).loaded_themes == old(self).loaded_themes,
            final(self).disk == old(self).disk,
            match old(self).lock {
                LockState::Writer => final(self).lock == LockState::Open,
                _ => final(self).lock == old(self).lock,
            },
    {
        match self.lock {
            LockState::Writer => {
                self.lock = LockState::Open;
            },
            _ => {},
        }
    }

    /// Marks the store faulted after a failure inside a caller's critical
    /// section; from here on every operation reports a poisoned lock.
    pub fn poison(&mut self)
        requires
            old(self).wf(),
        ensures
            final(self).wf(),
            final(self).loaded_themes == old(self).loaded_themes,
            final(self).disk == old(self).disk,
            final(self).lock == LockState::Poisoned,
    {
        self.lock = LockState::Poisoned;
    }
}

} // verus!
