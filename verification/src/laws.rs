//! Properties of the cache store, stated and proved over the same model
//! that the store's contracts use: the entry map, the backend map, and
//! the lock state.

use crate::defs::ThemeView;
use crate::memory::{can_write, flush_disk, lookup, lower_of, InstanceView, LockState};
use vstd::prelude::*;

verus! {

/// A document not yet known to the store becomes readable under its own
/// name once inserted: after `insert`'s successful transition, which
/// `insert`'s contract owes exactly on a fresh name under an open lock,
/// `get` observes the inserted document.
pub proof fn lemma_insert_then_get(
    m: Map<Seq<char>, InstanceView>,
    d: Map<Seq<char>, ThemeView>,
    dv: ThemeView,
)
    requires
        !m.contains_key(lower_of(dv.name)),
    ensures
        lookup(m.insert(lower_of(dv.name), InstanceView::Memory(dv)), d, dv.name) == Some(dv),
{
}

/// `get` is idempotent: two reads of the same name with no intervening
/// mutation observe equal results, because `get`'s contract pins the
/// observation as a function of the store's state alone and `get` takes
/// the store by shared reference.
pub proof fn lemma_get_idempotent(
    m: Map<Seq<char>, InstanceView>,
    d: Map<Seq<char>, ThemeView>,
    name: Seq<char>,
    r1: Option<ThemeView>,
    r2: Option<ThemeView>,
)
    requires
        r1 == lookup(m, d, name),
        r2 == lookup(m, d, name),
    ensures
        r1 == r2,
{
}

/// After reconciliation, every resident entry is persisted exactly as it
/// stands in memory, and a name with no entry has no persisted document.
pub proof fn lemma_flush_reconciles(
    m: Map<Seq<char>, InstanceView>,
    d: Map<Seq<char>, ThemeView>,
)
    ensures
        forall|k: Seq<char>|
            #[trigger] m.contains_key(k) && m[k] is Memory ==> flush_disk(m, d).contains_key(k)
                && flush_disk(m, d)[k] == m[k]->Memory_0,
        forall|k: Seq<char>| !m.contains_key(k) ==> !(#[trigger] flush_disk(m, d).contains_key(k)),
{
}

/// A resident document that was never flushed cannot be removed: in that
/// state `remove`'s contract owes `FailedWritingToDisk` with the store
/// unchanged, and `get` still observes the document afterwards.
pub proof fn lemma_remove_unflushed(
    m: Map<Seq<char>, InstanceView>,
    d: Map<Seq<char>, ThemeView>,
    name: Seq<char>,
    tv: ThemeView,
)
    requires
        m.contains_key(lower_of(name)),
        m[lower_of(name)] == InstanceView::Memory(tv),
        !d.contains_key(lower_of(name)),
    ensures
        lookup(m, d, name) == Some(tv),
{
}

/// `set(oldName, D)` re-keys the store: after its successful transition
/// the document reads back under D's own name, and — whenever the two
/// normalized names differ — the old name reads as absent.
pub proof fn lemma_set_renames(
    m: Map<Seq<char>, InstanceView>,
    d: Map<Seq<char>, ThemeView>,
    old_name: Seq<char>,
    dv: ThemeView,
)
    ensures
        lookup(
            m.remove(lower_of(old_name)).insert(lower_of(dv.name), InstanceView::Memory(dv)),
            d,
            dv.name,
        ) == Some(dv),
        lower_of(dv.name) != lower_of(old_name) ==> lookup(
            m.remove(lower_of(old_name)).insert(lower_of(dv.name), InstanceView::Memory(dv)),
            d,
            old_name,
        ) is None,
{
}

/// Of two contending write acquisitions, exactly one succeeds: a
/// successful acquisition leaves the lock in the writer state, on which
/// `acquire_write`'s contract owes `WouldBlock`.
pub proof fn lemma_write_lock_exclusive(l: LockState)
    requires
        can_write(l),
    ensures
        !can_write(LockState::Writer),
{
}

} // verus!
