//! The keyboard configuration: every binding in use, each with the action
//! that owns it.

use crate::binding::{Action, ActionView, Binding, BindingView, Combo};
use vstd::prelude::*;

verus! {

/// One line of the configuration: a binding and the action that owns it.
pub type Entry = (BindingView, ActionView);

/// Whether some entry has the key combination `combo`.
pub open spec fn holds(entries: Seq<Entry>, combo: Combo) -> bool {
    exists|i: int| 0 <= i < entries.len() && (#[trigger] entries[i]).0.combo == combo
}

/// No key combination occurs in two entries.
pub open spec fn distinct(entries: Seq<Entry>) -> bool {
    forall|i: int, j: int|
        0 <= i < j < entries.len() ==> (#[trigger] entries[i]).0.combo != (
        #[trigger] entries[j]).0.combo
}

/// The action that owns `combo`, if any entry has it.
pub open spec fn owner_in(entries: Seq<Entry>, combo: Combo) -> Option<ActionView> {
    if holds(entries, combo) {
        let i = choose|i: int| 0 <= i < entries.len() && (#[trigger] entries[i]).0.combo == combo;
        Some(entries[i].1)
    } else {
        None
    }
}

/// The entries without the one that has the key combination `combo`.
pub open spec fn without(entries: Seq<Entry>, combo: Combo) -> Seq<Entry> {
    if holds(entries, combo) {
        let i = choose|i: int| 0 <= i < entries.len() && (#[trigger] entries[i]).0.combo == combo;
        entries.remove(i)
    } else {
        entries
    }
}

/// In a configuration without repeated combinations, the owner of an entry's
/// combination is that entry's action.
pub proof fn lemma_owner_at(entries: Seq<Entry>, i: int)
    requires
        distinct(entries),
        0 <= i < entries.len(),
    ensures
        holds(entries, entries[i].0.combo),
        owner_in(entries, entries[i].0.combo) == Some(entries[i].1),
        without(entries, entries[i].0.combo) == entries.remove(i),
{
    let combo = entries[i].0.combo;
    assert(holds(entries, combo));
    let j = choose|j: int| 0 <= j < entries.len() && (#[trigger] entries[j]).0.combo == combo;
    assert(j == i) by {
        if j < i {
            assert(entries[j].0.combo != entries[i].0.combo);
        } else if i < j {
            assert(entries[i].0.combo != entries[j].0.combo);
        }
    }
}

/// Appending an entry whose combination is free gives that combination its
/// owner and leaves every other combination with the owner it had.
pub proof fn lemma_owner_push(entries: Seq<Entry>, entry: Entry)
    requires
        distinct(entries),
        !holds(entries, entry.0.combo),
    ensures
        distinct(entries.push(entry)),
        owner_in(entries.push(entry), entry.0.combo) == Some(entry.1),
        forall|c: Combo|
            c != entry.0.combo ==> #[trigger] owner_in(entries.push(entry), c) == owner_in(
                entries,
                c,
            ),
{
    let after = entries.push(entry);
    assert(distinct(after)) by {
        assert forall|i: int, j: int| 0 <= i < j < after.len() implies (#[trigger] after[i]).0.combo
            != (#[trigger] after[j]).0.combo by {
            if j < entries.len() {
                assert(entries[i].0.combo != entries[j].0.combo);
            } else {
                assert(after[i] == entries[i]);
            }
        }
    }
    assert(after[entries.len() as int] == entry);
    lemma_owner_at(after, entries.len() as int);
    assert forall|c: Combo| c != entry.0.combo implies #[trigger] owner_in(after, c) == owner_in(
        entries,
        c,
    ) by {
        if holds(entries, c) {
            let i = choose|i: int|
                0 <= i < entries.len() && (#[trigger] entries[i]).0.combo == c;
            assert(after[i] == entries[i]);
            lemma_owner_at(entries, i);
            lemma_owner_at(after, i);
        } else if holds(after, c) {
            let i = choose|i: int| 0 <= i < after.len() && (#[trigger] after[i]).0.combo == c;
            assert(i < entries.len());
            assert(after[i] == entries[i]);
        }
    }
}

/// Dropping an entry frees its combination and leaves every other
/// combination with the owner it had.
pub proof fn lemma_owner_remove(entries: Seq<Entry>, at: int)
    requires
        distinct(entries),
        0 <= at < entries.len(),
    ensures
        distinct(entries.remove(at)),
        !holds(entries.remove(at), entries[at].0.combo),
        forall|c: Combo|
            c != entries[at].0.combo ==> #[trigger] owner_in(entries.remove(at), c) == owner_in(
                entries,
                c,
            ),
{
    let after = entries.remove(at);
    let gone = entries[at].0.combo;
    assert forall|i: int| 0 <= i < after.len() implies #[trigger] after[i] == entries[if i
        < at {
        i
    } else {
        i + 1
    }] by {}
    assert(distinct(after)) by {
        assert forall|i: int, j: int| 0 <= i < j < after.len() implies (#[trigger] after[i]).0.combo
            != (#[trigger] after[j]).0.combo by {
            let a = if i < at { i } else { i + 1 };
            let b = if j < at { j } else { j + 1 };
            assert(after[i] == entries[a]);
            assert(after[j] == entries[b]);
            assert(entries[a].0.combo != entries[b].0.combo);
        }
    }
    assert(!holds(after, gone)) by {
        if holds(after, gone) {
            let i = choose|i: int| 0 <= i < after.len() && (#[trigger] after[i]).0.combo == gone;
            let a = if i < at { i } else { i + 1 };
            assert(after[i] == entries[a]);
            if a < at {
                assert(entries[a].0.combo != entries[at].0.combo);
            } else {
                assert(entries[at].0.combo != entries[a].0.combo);
            }
        }
    }
    assert forall|c: Combo| c != gone implies #[trigger] owner_in(after, c) == owner_in(
        entries,
        c,
    ) by {
        if holds(entries, c) {
            let i = choose|i: int|
                0 <= i < entries.len() && (#[trigger] entries[i]).0.combo == c;
            let a = if i < at { i } else { i - 1 };
            assert(after[a] == entries[i]);
            lemma_owner_at(entries, i);
            lemma_owner_at(after, a);
        } else if holds(after, c) {
            let i = choose|i: int| 0 <= i < after.len() && (#[trigger] after[i]).0.combo == c;
            let a = if i < at { i } else { i + 1 };
            assert(after[i] == entries[a]);
        }
    }
}

/// The keyboard configuration. No key combination occurs in it twice.
pub struct Shortcuts {
    entries: Vec<(Binding, Action)>,
}

impl View for Shortcuts {
    type V = Seq<Entry>;

    closed spec fn view(&self) -> Seq<Entry> {
        self.entries@.map_values(|e: (Binding, Action)| (e.0@, e.1@))
    }
}

impl Shortcuts {
    /// The configuration holds no key combination twice.
    pub open spec fn wf(&self) -> bool {
        distinct(self@)
    }

    /// The action that owns `combo` in this configuration.
    pub open spec fn owner(&self, combo: Combo) -> Option<ActionView> {
        owner_in(self@, combo)
    }

    /// A configuration without bindings.
    pub fn new() -> (r: Shortcuts)
        ensures
            r@ == Seq::<Entry>::empty(),
            r.wf(),
    {
        let r = Shortcuts { entries: Vec::new() };
        assert(r@ =~= Seq::<Entry>::empty());
        r
    }

    /// The number of bindings in the configuration.
    pub fn len(&self) -> (n: usize)
        ensures
            n == self@.len(),
    {
        self.entries.len()
    }

    /// The binding of the entry at `index`.
    pub fn binding_at(&self, index: usize) -> (r: &Binding)
        requires
            index < self@.len(),
        ensures
            r@ == self@[index as int].0,
    {
        &self.entries[index].0
    }

    /// The action of the entry at `index`.
    pub fn action_at(&self, index: usize) -> (r: &Action)
        requires
            index < self@.len(),
        ensures
            r@ == self@[index as int].1,
    {
        &self.entries[index].1
    }

    fn position(&self, binding: &Binding) -> (r: Option<usize>)
        ensures
            match r {
                Some(i) => i < self@.len() && self@[i as int].0.combo == binding@.combo,
                None => !holds(self@, binding@.combo),
            },
    {
        let mut i: usize = 0;
        while i < self.entries.len()
            invariant
                i <= self.entries.len(),
                forall|j: int| 0 <= j < i ==> (#[trigger] self@[j]).0.combo != binding@.combo,
            decreases self.entries.len() - i,
        {
            if self.entries[i].0.same_combo(binding) {
                return Some(i);
            }
            i += 1;
        }
        None
    }

    /// The action that owns a binding of the same key combination, if the
    /// configuration has one.
    pub fn contains_binding(&self, binding: &Binding) -> (r: Option<Action>)
        requires
            self.wf(),
        ensures
            match r {
                Some(action) => self.owner(binding@.combo) == Some(action@),
                None => self.owner(binding@.combo) is None,
            },
    {
        match self.position(binding) {
            Some(i) => {
                proof {
                    lemma_owner_at(self@, i as int);
                }
                Some(self.entries[i].1.duplicate())
            },
            None => None,
        }
    }

    /// Gives `binding` to `action`, unless its key combination is owned
    /// already: then nothing changes and the result is `false`.
    pub fn add_binding(&mut self, action: Action, binding: Binding) -> (added: bool)
        requires
            old(self).wf(),
        ensures
            final(self).wf(),
            added == (old(self).owner(binding@.combo) is None),
            added ==> final(self)@ == old(self)@.push((binding@, action@)),
            added ==> final(self).owner(binding@.combo) == Some(action@),
            !added ==> final(self)@ == old(self)@,
            forall|c: Combo|
                c != binding@.combo ==> #[trigger] owner_in(final(self)@, c) == owner_in(
                    old(self)@,
                    c,
                ),
    {
        match self.position(&binding) {
            Some(_) => false,
            None => {
                proof {
                    lemma_owner_push(self@, (binding@, action@));
                }
                self.entries.push((binding, action));
                assert(self@ =~= old(self)@.push((binding@, action@)));
                true
            },
        }
    }

    /// Takes the binding of this key combination out of the configuration.
    /// The result says whether there was one.
    pub fn remove_binding(&mut self, binding: &Binding) -> (removed: bool)
        requires
            old(self).wf(),
        ensures
            final(self).wf(),
            removed == (old(self).owner(binding@.combo) is Some),
            final(self).owner(binding@.combo) is None,
            final(self)@ == without(old(self)@, binding@.combo),
            removed ==> final(self)@.len() + 1 == old(self)@.len(),
            forall|c: Combo|
                c != binding@.combo ==> #[trigger] owner_in(final(self)@, c) == owner_in(
                    old(self)@,
                    c,
                ),
    {
        match self.position(binding) {
            Some(i) => {
                proof {
                    lemma_owner_at(self@, i as int);
                    lemma_owner_remove(self@, i as int);
                }
                self.entries.remove(i);
                assert(self@ =~= old(self)@.remove(i as int));
                true
            },
            None => false,
        }
    }
}

} // verus!
