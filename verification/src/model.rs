//! The custom shortcuts as they are listed: one model for each command, with
//! every binding that launches it.

use crate::binding::{binding_views, Action, ActionView, Binding, BindingView};
use crate::config::{distinct, Entry, Shortcuts};
use slab::Slab;
use vstd::prelude::*;

verus! {

/// A command and the bindings that launch it.
pub struct ShortcutModel {
    pub action: Action,
    pub description: String,
    pub bindings: Vec<Binding>,
    /// Counts the changes made to the model since it was built.
    pub modified: u64,
}

/// The mathematical value of a [`ShortcutModel`].
pub struct ModelView {
    pub action: ActionView,
    pub description: Seq<char>,
    pub bindings: Seq<BindingView>,
    pub modified: nat,
}

impl View for ShortcutModel {
    type V = ModelView;

    open spec fn view(&self) -> ModelView {
        ModelView {
            action: self.action@,
            description: self.description@,
            bindings: binding_views(self.bindings@),
            modified: self.modified as nat,
        }
    }
}

/// The views of a sequence of models, in order.
pub open spec fn model_views(models: Seq<ShortcutModel>) -> Seq<ModelView> {
    models.map_values(|m: ShortcutModel| m@)
}

/// The models that a slab holds, by key.
pub uninterp spec fn models_of(models: Slab<ShortcutModel>) -> Map<usize, ShortcutModel>;

/// The key that the slab gives to the next model inserted.
pub uninterp spec fn next_key_of(models: Slab<ShortcutModel>) -> usize;

/// The number of slots that the slab has, taken or vacant.
pub uninterp spec fn slots_of(models: Slab<ShortcutModel>) -> usize;

/// The slab holds the models `listed` and no other, the model at each place
/// under that place as its key.
pub open spec fn keyed_as(models: Slab<ShortcutModel>, listed: Seq<ModelView>) -> bool {
    &&& forall|key: usize| #[trigger] models_of(models).contains_key(key) <==> key < listed.len()
    &&& forall|key: usize|
        key < listed.len() ==> (#[trigger] models_of(models)[key])@ == listed[key as int]
}

/// `Slab::new`, for models: the new slab holds none, has no slot, and its
/// first key is 0.
#[verifier::external_body]
fn models_new() -> (models: Slab<ShortcutModel>)
    ensures
        models_of(models).dom() == Set::<usize>::empty(),
        next_key_of(models) == 0,
        slots_of(models) == 0,
{
    Slab::new()
}

/// `Slab::insert`, for models: the model is stored under the slab's next
/// key, which no model had, and that key is returned; the other models stay
/// as they are. Where the next key was one past the last slot, the slab
/// gains that slot and its next key is the one after it.
#[verifier::external_body]
fn models_insert(models: &mut Slab<ShortcutModel>, model: ShortcutModel) -> (key: usize)
    ensures
        key == next_key_of(*old(models)),
        !models_of(*old(models)).contains_key(key),
        models_of(*final(models)) == models_of(*old(models)).insert(key, model),
        key == slots_of(*old(models)) ==> next_key_of(*final(models)) == key + 1 && slots_of(
            *final(models),
        ) == key + 1,
{
    models.insert(model)
}

/// How an entry is described in the list: by its binding's description, or,
/// where it has none, by the text of its action.
pub open spec fn describe(entry: Entry) -> Seq<char> {
    match entry.0.description {
        Some(text) => text,
        None => entry.1.label(),
    }
}

/// `at` is the first model for `action`.
pub open spec fn first_for(models: Seq<ModelView>, action: ActionView, at: int) -> bool {
    &&& 0 <= at < models.len()
    &&& models[at].action == action
    &&& forall|j: int| 0 <= j < at ==> (#[trigger] models[j]).action != action
}

/// Some model is for `action`.
pub open spec fn has_model(models: Seq<ModelView>, action: ActionView) -> bool {
    exists|at: int| 0 <= at < models.len() && (#[trigger] models[at]).action == action
}

/// The models after one more entry of the configuration is taken in. An
/// entry that launches no command changes nothing. One whose command has a
/// model adds its binding to the first such model and gives the model its
/// description. Any other gets a new model at the end.
pub open spec fn absorb(models: Seq<ModelView>, entry: Entry) -> Seq<ModelView> {
    if !(entry.1 is Spawn) {
        models
    } else if has_model(models, entry.1) {
        let at = choose|at: int| first_for(models, entry.1, at);
        models.update(
            at,
            ModelView {
                action: models[at].action,
                description: describe(entry),
                bindings: models[at].bindings.push(entry.0),
                modified: models[at].modified,
            },
        )
    } else {
        models.push(
            ModelView {
                action: entry.1,
                description: describe(entry),
                bindings: seq![entry.0],
                modified: 0,
            },
        )
    }
}

/// The models that a configuration gives, its entries taken in one by one.
pub open spec fn grouped(entries: Seq<Entry>) -> Seq<ModelView>
    decreases entries.len(),
{
    if entries.len() == 0 {
        Seq::empty()
    } else {
        absorb(grouped(entries.drop_last()), entries.last())
    }
}

/// Every model is for a command, and no two models are for the same one.
pub open spec fn one_model_each(models: Seq<ModelView>) -> bool {
    &&& forall|m: int| 0 <= m < models.len() ==> (#[trigger] models[m]).action is Spawn
    &&& forall|m: int, n: int|
        0 <= m < n < models.len() ==> (#[trigger] models[m]).action != (
        #[trigger] models[n]).action
}

/// Taking in an entry keeps the models one for each command.
pub proof fn lemma_absorb_one_model_each(models: Seq<ModelView>, entry: Entry)
    requires
        one_model_each(models),
    ensures
        one_model_each(absorb(models, entry)),
{
    if entry.1 is Spawn {
        if has_model(models, entry.1) {
            let w = choose|at: int| 0 <= at < models.len() && (#[trigger] models[at]).action == entry.1;
            lemma_first_exists(models, entry.1, w);
        } else {
            let after = absorb(models, entry);
            assert forall|m: int, n: int| 0 <= m < n < after.len() implies (
            #[trigger] after[m]).action != (#[trigger] after[n]).action by {
                if n < models.len() {
                    assert(models[m].action != models[n].action);
                } else {
                    assert(after[m] == models[m]);
                }
            }
        }
    }
}

/// The models of a configuration are one for each command.
pub proof fn lemma_grouped_one_model_each(entries: Seq<Entry>)
    ensures
        one_model_each(grouped(entries)),
    decreases entries.len(),
{
    if entries.len() > 0 {
        lemma_grouped_one_model_each(entries.drop_last());
        lemma_absorb_one_model_each(grouped(entries.drop_last()), entries.last());
    }
}

/// Some model for the entry's action holds the entry's binding.
pub open spec fn lists(models: Seq<ModelView>, entry: Entry) -> bool {
    exists|m: int, b: int|
        0 <= m < models.len() && 0 <= b < models[m].bindings.len() && models[m].action == entry.1
            && #[trigger] models[m].bindings[b] == entry.0
}

/// Taking in an entry lists it, where it launches a command, keeps what was
/// listed, and lists nothing else.
pub proof fn lemma_absorb_lists(models: Seq<ModelView>, taken: Entry, entry: Entry)
    ensures
        lists(absorb(models, taken), entry) <==> lists(models, entry) || (taken.1 is Spawn
            && entry == taken),
{
    let after = absorb(models, taken);
    if taken.1 is Spawn {
        if has_model(models, taken.1) {
            let w = choose|at: int|
                0 <= at < models.len() && (#[trigger] models[at]).action == taken.1;
            lemma_first_exists(models, taken.1, w);
            let at = choose|at: int| first_for(models, taken.1, at);
            let held = models[at].bindings;
            assert(after[at].bindings == held.push(taken.0));
            if lists(models, entry) {
                let (m, b) = choose|m: int, b: int|
                    0 <= m < models.len() && 0 <= b < models[m].bindings.len() && models[m].action
                        == entry.1 && #[trigger] models[m].bindings[b] == entry.0;
                assert(after[m].bindings[b] == entry.0);
                assert(lists(after, entry));
            }
            if entry == taken {
                assert(after[at].bindings[held.len() as int] == entry.0);
                assert(lists(after, entry));
            }
            if lists(after, entry) {
                let (m, b) = choose|m: int, b: int|
                    0 <= m < after.len() && 0 <= b < after[m].bindings.len() && after[m].action
                        == entry.1 && #[trigger] after[m].bindings[b] == entry.0;
                if m == at && b == held.len() {
                    assert(entry.0 == taken.0 && entry.1 == taken.1);
                } else {
                    assert(models[m].bindings[b] == entry.0);
                    assert(lists(models, entry));
                }
            }
        } else {
            let last = models.len() as int;
            if lists(models, entry) {
                let (m, b) = choose|m: int, b: int|
                    0 <= m < models.len() && 0 <= b < models[m].bindings.len() && models[m].action
                        == entry.1 && #[trigger] models[m].bindings[b] == entry.0;
                assert(after[m].bindings[b] == entry.0);
                assert(lists(after, entry));
            }
            if entry == taken {
                assert(after[last].bindings[0] == entry.0);
                assert(lists(after, entry));
            }
            if lists(after, entry) {
                let (m, b) = choose|m: int, b: int|
                    0 <= m < after.len() && 0 <= b < after[m].bindings.len() && after[m].action
                        == entry.1 && #[trigger] after[m].bindings[b] == entry.0;
                if m == last {
                    assert(entry.0 == taken.0 && entry.1 == taken.1);
                } else {
                    assert(models[m].bindings[b] == entry.0);
                    assert(lists(models, entry));
                }
            }
        }
    }
}

/// The models of a configuration list exactly its entries that launch a
/// command, each under the model for its command.
pub proof fn lemma_grouped_lists(entries: Seq<Entry>, entry: Entry)
    ensures
        lists(grouped(entries), entry) <==> entry.1 is Spawn && entries.contains(entry),
    decreases entries.len(),
{
    if entries.len() > 0 {
        let front = entries.drop_last();
        lemma_grouped_lists(front, entry);
        lemma_absorb_lists(grouped(front), entries.last(), entry);
        if front.contains(entry) {
            let i = choose|i: int| 0 <= i < front.len() && front[i] == entry;
            assert(entries[i] == entry);
        }
        if entries.contains(entry) {
            let i = choose|i: int| 0 <= i < entries.len() && entries[i] == entry;
            if i < front.len() {
                assert(front[i] == entry);
            }
        }
    }
}

/// The model for a command is described as the last entry for that command
/// is.
pub proof fn lemma_grouped_description(entries: Seq<Entry>, i: int)
    requires
        0 <= i < entries.len(),
        entries[i].1 is Spawn,
        forall|j: int| i < j < entries.len() ==> (#[trigger] entries[j]).1 != entries[i].1,
    ensures
        exists|m: int|
            0 <= m < grouped(entries).len() && (#[trigger] grouped(entries)[m]).action
                == entries[i].1 && grouped(entries)[m].description == describe(entries[i]),
    decreases entries.len(),
{
    let front = entries.drop_last();
    let models = grouped(front);
    let taken = entries.last();
    let after = grouped(entries);
    if has_model(models, taken.1) {
        let w = choose|at: int| 0 <= at < models.len() && (#[trigger] models[at]).action == taken.1;
        lemma_first_exists(models, taken.1, w);
    }
    if i == entries.len() - 1 {
        if has_model(models, taken.1) {
            let at = choose|at: int| first_for(models, taken.1, at);
            assert(after[at].action == taken.1 && after[at].description == describe(taken));
        } else {
            let last = models.len() as int;
            assert(after[last].action == taken.1 && after[last].description == describe(taken));
        }
    } else {
        assert(front[i] == entries[i]);
        assert forall|j: int| i < j < front.len() implies (#[trigger] front[j]).1
            != front[i].1 by {
            assert(front[j] == entries[j]);
        }
        lemma_grouped_description(front, i);
        let m = choose|m: int|
            0 <= m < models.len() && (#[trigger] models[m]).action == entries[i].1
                && models[m].description == describe(entries[i]);
        assert(taken.1 != entries[i].1);
        assert(after[m] == models[m]);
    }
}

/// No key combination is held twice, in one model or in two.
pub open spec fn bindings_apart(models: Seq<ModelView>) -> bool {
    forall|m: int, b: int, n: int, c: int|
        0 <= m < models.len() && 0 <= b < models[m].bindings.len() && 0 <= n < models.len() && 0
            <= c < models[n].bindings.len() && (m != n || b != c) ==> (
        #[trigger] models[m].bindings[b]).combo != (#[trigger] models[n].bindings[c]).combo
}

/// Where the configuration holds no key combination twice, neither do the
/// models built from it: a binding is in at most one model, once.
pub proof fn lemma_grouped_bindings_apart(entries: Seq<Entry>)
    requires
        distinct(entries),
    ensures
        bindings_apart(grouped(entries)),
    decreases entries.len(),
{
    if entries.len() > 0 {
        let front = entries.drop_last();
        let taken = entries.last();
        let models = grouped(front);
        let after = grouped(entries);
        assert(distinct(front)) by {
            assert forall|i: int, j: int| 0 <= i < j < front.len() implies (
            #[trigger] front[i]).0.combo != (#[trigger] front[j]).0.combo by {
                assert(entries[i].0.combo != entries[j].0.combo);
            }
        }
        lemma_grouped_bindings_apart(front);
        assert forall|m: int, b: int|
            0 <= m < models.len() && 0 <= b < models[m].bindings.len() implies (
        #[trigger] models[m].bindings[b]).combo != taken.0.combo by {
            let entry = (models[m].bindings[b], models[m].action);
            assert(lists(models, entry));
            lemma_grouped_lists(front, entry);
            let i = choose|i: int| 0 <= i < front.len() && front[i] == entry;
            assert(entries[i] == entry);
            assert(entries[i].0.combo != entries[entries.len() - 1].0.combo);
        }
        if taken.1 is Spawn {
            if has_model(models, taken.1) {
                let w = choose|at: int|
                    0 <= at < models.len() && (#[trigger] models[at]).action == taken.1;
                lemma_first_exists(models, taken.1, w);
                let at = choose|at: int| first_for(models, taken.1, at);
                let held = models[at].bindings;
                assert(after[at].bindings == held.push(taken.0));
                assert forall|m: int, b: int, n: int, c: int|
                    0 <= m < after.len() && 0 <= b < after[m].bindings.len() && 0 <= n
                        < after.len() && 0 <= c < after[n].bindings.len() && (m != n || b
                        != c) implies (#[trigger] after[m].bindings[b]).combo != (
                #[trigger] after[n].bindings[c]).combo by {
                    let first_new = m == at && b == held.len();
                    let second_new = n == at && c == held.len();
                    if !first_new {
                        assert(after[m].bindings[b] == models[m].bindings[b]);
                    }
                    if !second_new {
                        assert(after[n].bindings[c] == models[n].bindings[c]);
                    }
                }
            } else {
                let last = models.len() as int;
                assert forall|m: int, b: int, n: int, c: int|
                    0 <= m < after.len() && 0 <= b < after[m].bindings.len() && 0 <= n
                        < after.len() && 0 <= c < after[n].bindings.len() && (m != n || b
                        != c) implies (#[trigger] after[m].bindings[b]).combo != (
                #[trigger] after[n].bindings[c]).combo by {
                    if m != last {
                        assert(after[m].bindings[b] == models[m].bindings[b]);
                    }
                    if n != last {
                        assert(after[n].bindings[c] == models[n].bindings[c]);
                    }
                }
            }
        }
    }
}

proof fn lemma_first_exists(models: Seq<ModelView>, action: ActionView, w: int)
    requires
        0 <= w < models.len(),
        models[w].action == action,
    ensures
        exists|at: int| first_for(models, action, at),
    decreases w,
{
    if exists|j: int| 0 <= j < w && (#[trigger] models[j]).action == action {
        let j = choose|j: int| 0 <= j < w && (#[trigger] models[j]).action == action;
        lemma_first_exists(models, action, j);
    } else {
        assert(first_for(models, action, w));
    }
}

fn find_model(models: &Vec<ShortcutModel>, action: &Action) -> (r: Option<usize>)
    ensures
        match r {
            Some(at) => first_for(model_views(models@), action@, at as int),
            None => !has_model(model_views(models@), action@),
        },
{
    let mut i: usize = 0;
    while i < models.len()
        invariant
            i <= models.len(),
            forall|j: int| 0 <= j < i ==> (#[trigger] model_views(models@)[j]).action != action@,
        decreases models.len() - i,
    {
        if models[i].action.same(action) {
            return Some(i);
        }
        i += 1;
    }
    None
}

/// Builds the list of custom shortcuts from the configuration: the entries
/// that launch a command, grouped by command in the order in which the
/// commands first occur, each model keyed by its place. The defaults take no
/// part.
pub fn bindings(_defaults: &Shortcuts, keybindings: &Shortcuts) -> (models: Slab<ShortcutModel>)
    ensures
        keyed_as(models, grouped(keybindings@)),
        one_model_each(grouped(keybindings@)),
        keybindings.wf() ==> bindings_apart(grouped(keybindings@)),
{
    let mut models: Vec<ShortcutModel> = Vec::new();
    let mut i: usize = 0;
    assert(model_views(models@) =~= grouped(keybindings@.take(0)));
    while i < keybindings.len()
        invariant
            i <= keybindings@.len(),
            model_views(models@) == grouped(keybindings@.take(i as int)),
        decreases keybindings@.len() - i,
    {
        let binding = keybindings.binding_at(i);
        let action = keybindings.action_at(i);
        let ghost entry = keybindings@[i as int];
        let ghost before = model_views(models@);
        proof {
            let next = keybindings@.take(i + 1);
            assert(next.drop_last() =~= keybindings@.take(i as int));
            assert(next.last() == entry);
        }
        if let Action::Spawn(task) = action {
            let description = match &binding.description {
                Some(text) => text.clone(),
                None => task.clone(),
            };
            match find_model(&models, action) {
                Some(at) => {
                    proof {
                        let chosen = choose|c: int| first_for(before, entry.1, c);
                        assert(first_for(before, entry.1, at as int));
                        assert(chosen == at) by {
                            if chosen < at {
                                assert(before[chosen].action != entry.1);
                            } else if at < chosen {
                                assert(before[at as int].action != entry.1);
                            }
                        }
                    }
                    let mut model = models.remove(at);
                    let ghost was = model@;
                    model.description = description;
                    model.bindings.push(binding.duplicate());
                    assert(binding_views(model.bindings@) =~= was.bindings.push(entry.0));
                    models.insert(at, model);
                    assert(model_views(models@) =~= absorb(before, entry));
                },
                None => {
                    let mut held: Vec<Binding> = Vec::new();
                    held.push(binding.duplicate());
                    assert(binding_views(held@) =~= seq![entry.0]);
                    models.push(
                        ShortcutModel {
                            action: action.duplicate(),
                            description,
                            bindings: held,
                            modified: 0,
                        },
                    );
                    assert(model_views(models@) =~= absorb(before, entry));
                },
            }
        }
        i += 1;
    }
    proof {
        assert(keybindings@.take(i as int) =~= keybindings@);
        lemma_grouped_one_model_each(keybindings@);
        if keybindings.wf() {
            lemma_grouped_bindings_apart(keybindings@);
        }
    }
    keyed(models)
}

/// Moves the models into a slab, each under its place as the key.
fn keyed(models: Vec<ShortcutModel>) -> (r: Slab<ShortcutModel>)
    ensures
        keyed_as(r, model_views(models@)),
{
    let ghost listed = model_views(models@);
    let mut models = models;
    let mut out = models_new();
    let mut placed: usize = 0;
    while models.len() > 0
        invariant
            placed + models@.len() == listed.len(),
            model_views(models@) == listed.subrange(placed as int, listed.len() as int),
            next_key_of(out) == placed,
            slots_of(out) == placed,
            keyed_as(out, listed.take(placed as int)),
        decreases models@.len(),
    {
        let ghost rest = model_views(models@);
        let ghost held = models_of(out);
        let model = models.remove(0);
        assert(model@ == rest[0]);
        assert(model_views(models@) =~= rest.subrange(1, rest.len() as int));
        assert(rest.subrange(1, rest.len() as int) =~= listed.subrange(
            placed + 1,
            listed.len() as int,
        ));
        let key = models_insert(&mut out, model);
        placed += 1;
        assert forall|k: usize| #[trigger]
            models_of(out).contains_key(k) <==> k < listed.take(placed as int).len() by {
            assert(held.contains_key(k) <==> k < listed.take(placed - 1).len());
        }
        assert forall|k: usize| k < listed.take(placed as int).len() implies (
        #[trigger] models_of(out)[k])@ == listed.take(placed as int)[k as int] by {
            if k != key {
                assert(held.contains_key(k));
                assert(held[k]@ == listed.take(placed - 1)[k as int]);
            }
        }
    }
    assert(listed.take(placed as int) =~= listed);
    out
}

} // verus!
