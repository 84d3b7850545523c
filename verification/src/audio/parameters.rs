//! Named knobs: each holds its last value and remembers its first.

use crate::table::Table;
use vstd::prelude::*;

verus! {

/// What a parameter store holds, as mathematics: the current value of each
/// name, the first value ever written to each name, and the neutral value that
/// stands for a name never written.
pub struct Knobs<R> {
    pub current: Map<Seq<char>, R>,
    pub defaults: Map<Seq<char>, R>,
    pub equilibrium: R,
}

impl<R> Knobs<R> {
    /// A store in which nothing was written yet.
    pub open spec fn empty(equilibrium: R) -> Self {
        Knobs { current: Map::empty(), defaults: Map::empty(), equilibrium }
    }

    /// What a read of `name` gives: the current value, else the recorded
    /// default, else the neutral value.
    pub open spec fn get(self, name: Seq<char>) -> R {
        if self.current.contains_key(name) {
            self.current[name]
        } else if self.defaults.contains_key(name) {
            self.defaults[name]
        } else {
            self.equilibrium
        }
    }

    /// The store after `value` is written to `name`: the current value is
    /// replaced, the default is recorded only if `name` had none.
    pub open spec fn update(self, name: Seq<char>, value: R) -> Self {
        Knobs {
            current: self.current.insert(name, value),
            defaults: if self.defaults.contains_key(name) {
                self.defaults
            } else {
                self.defaults.insert(name, value)
            },
            equilibrium: self.equilibrium,
        }
    }

    /// The store after each of `writes` in turn.
    pub open spec fn apply(self, writes: Seq<(Seq<char>, R)>) -> Self
        decreases writes.len(),
    {
        if writes.len() == 0 {
            self
        } else {
            self.update(writes[0].0, writes[0].1).apply(writes.drop_first())
        }
    }
}

/// A store of named values with a fallback: a read gives the last value
/// written, and a name never written reads as the neutral value.
pub struct Parameters<R> {
    h: Table<R>,
    defaults: Table<R>,
    equilibrium: R,
}

impl<R: Copy> Parameters<R> {
    /// The store as mathematics.
    pub closed spec fn view(self) -> Knobs<R> {
        Knobs { current: self.h@, defaults: self.defaults@, equilibrium: self.equilibrium }
    }

    /// An empty store whose neutral value is `equilibrium`.
    pub fn new(equilibrium: R) -> (p: Self)
        ensures
            p@ == Knobs::empty(equilibrium),
    {
        Parameters { h: Table::new(), defaults: Table::new(), equilibrium }
    }

    /// Reads `key`. Never fails.
    pub fn get(&self, key: &str) -> (r: R)
        ensures
            r == self@.get(key@),
    {
        match self.h.get(key) {
            Some(v) => *v,
            None => match self.defaults.get(key) {
                Some(v) => *v,
                None => self.equilibrium,
            },
        }
    }

    /// Writes `value` to `key`; the first write to a name also records its
    /// default.
    pub fn update(&mut self, key: &str, value: &R)
        ensures
            final(self)@ == old(self)@.update(key@, *value),
    {
        if !self.defaults.contains_key(key) {
            self.defaults.insert(key, *value);
        }
        self.h.insert(key, *value);
    }

    /// The default recorded for `key`: the first value ever written to it.
    pub fn default_value(&self, key: &str) -> (r: Option<R>)
        ensures
            r == if self@.defaults.contains_key(key@) {
                Some(self@.defaults[key@])
            } else {
                None
            },
    {
        match self.defaults.get(key) {
            Some(v) => Some(*v),
            None => None,
        }
    }
}

/// A name that no write has touched reads as the neutral value.
pub proof fn lemma_unwritten_reads_equilibrium<R>(
    equilibrium: R,
    writes: Seq<(Seq<char>, R)>,
    name: Seq<char>,
)
    requires
        forall|i: int| 0 <= i < writes.len() ==> (#[trigger] writes[i]).0 != name,
    ensures
        Knobs::empty(equilibrium).apply(writes).get(name) == equilibrium,
{
    lemma_apply_keeps_unwritten(Knobs::empty(equilibrium), writes, name);
}

/// Writes to other names leave a name as it was.
pub proof fn lemma_apply_keeps_unwritten<R>(
    store: Knobs<R>,
    writes: Seq<(Seq<char>, R)>,
    name: Seq<char>,
)
    requires
        forall|i: int| 0 <= i < writes.len() ==> (#[trigger] writes[i]).0 != name,
    ensures
        store.apply(writes).get(name) == store.get(name),
        store.apply(writes).current.contains_key(name) == store.current.contains_key(name),
        store.apply(writes).defaults.contains_key(name) == store.defaults.contains_key(name),
        store.apply(writes).equilibrium == store.equilibrium,
    decreases writes.len(),
{
    if writes.len() > 0 {
        let rest = writes.drop_first();
        assert forall|i: int| 0 <= i < rest.len() implies (#[trigger] rest[i]).0 != name by {
            assert(rest[i] == writes[i + 1]);
        }
        lemma_apply_keeps_unwritten(store.update(writes[0].0, writes[0].1), rest, name);
    }
}

/// After two writes to one name a read gives the second value.
pub proof fn lemma_read_gives_last_write<R>(store: Knobs<R>, name: Seq<char>, v1: R, v2: R)
    ensures
        store.update(name, v1).update(name, v2).get(name) == v2,
{
}

/// A recorded default never changes, whatever is written afterwards.
pub proof fn lemma_default_is_immutable<R>(
    store: Knobs<R>,
    name: Seq<char>,
    writes: Seq<(Seq<char>, R)>,
)
    requires
        store.defaults.contains_key(name),
    ensures
        store.apply(writes).defaults.contains_key(name),
        store.apply(writes).defaults[name] == store.defaults[name],
    decreases writes.len(),
{
    if writes.len() > 0 {
        lemma_default_is_immutable(
            store.update(writes[0].0, writes[0].1),
            name,
            writes.drop_first(),
        );
    }
}

/// The default of a name is the first value written to it: after a first
/// write of `v1`, a second write and any further writes, it is still `v1`.
pub proof fn lemma_default_is_first_write<R>(
    store: Knobs<R>,
    name: Seq<char>,
    v1: R,
    v2: R,
    later: Seq<(Seq<char>, R)>,
)
    requires
        !store.defaults.contains_key(name),
    ensures
        store.update(name, v1).update(name, v2).apply(later).defaults.contains_key(name),
        store.update(name, v1).update(name, v2).apply(later).defaults[name] == v1,
{
    lemma_default_is_immutable(store.update(name, v1).update(name, v2), name, later);
}

} // verus!
