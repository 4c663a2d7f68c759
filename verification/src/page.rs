//! The custom-shortcuts page: the configuration, the list built from it, the
//! draft of a new shortcut, and the replace decisions that are outstanding.

use crate::binding::{binding_views, Action, ActionView, Binding, BindingView, Combo};
use crate::config::{holds, owner_in, without, Entry, Shortcuts};
use crate::draft::{
    all_acceptable, cleared, edit_ended, key_set, opened, picked, row_readied, AddShortcut,
    RowFocus,
};
use crate::model::{bindings, grouped, keyed_as, ShortcutModel};
use crate::rows::in_id_order;
use crate::text::{trim, trimmed};
use slab::Slab;
use vstd::prelude::*;

verus! {

/// A message for the list of shortcuts rather than for the draft.
#[derive(Clone, Debug)]
pub enum ShortcutMessage {
    /// Show the bindings of the shortcut at this place in the list.
    ShowShortcut(usize),
}

/// What the user did on the page.
#[derive(Clone, Debug)]
pub enum Message {
    /// Adds a new key binding input
    AddKeybinding,
    /// Add a new custom shortcut to the config
    AddShortcut,
    /// Update the Task text input
    TaskInput(String),
    /// Toggle editing of the key text input
    EditCombination,
    /// Toggle editability of the key text input
    KeyEditing(usize, bool),
    /// Update the key text input
    KeyInput(usize, String),
    /// Update the name text input
    NameInput(String),
    /// Enter key pressed in the name text input
    NameSubmit,
    /// Apply a requested shortcut replace operation
    ReplaceApply,
    /// Cancel a requested shortcut replace operation
    ReplaceCancel,
    /// Emit a generic shortcut message
    Shortcut(ShortcutMessage),
    /// Open the add shortcut context drawer
    ShortcutContext,
}

/// What is to happen on screen after a message was handled.
#[derive(Clone, Debug)]
pub enum Effect {
    Nothing,
    /// Focus the input of this row.
    FocusRow(usize),
    /// Focus the input of this row and select its text.
    FocusAndSelectRow(usize),
    /// Focus the command input.
    FocusTask,
    /// Open the drawer with the form and focus the name input.
    OpenDrawerAndFocusName,
    /// Hand the message on to the list of shortcuts.
    Forward(ShortcutMessage),
}

/// A change made to the configuration, for whoever keeps the stored copy.
#[derive(Clone, Debug)]
pub enum StoreChange {
    /// The binding was given to the action.
    Add(Action, Binding),
    /// The binding was taken out.
    Remove(Binding),
}

/// The mathematical value of a [`StoreChange`].
pub enum ChangeView {
    Add(ActionView, BindingView),
    Remove(BindingView),
}

impl View for StoreChange {
    type V = ChangeView;

    open spec fn view(&self) -> ChangeView {
        match self {
            StoreChange::Add(action, binding) => ChangeView::Add(action@, binding@),
            StoreChange::Remove(binding) => ChangeView::Remove(binding@),
        }
    }
}

/// The views of a sequence of changes, in order.
pub open spec fn change_views(changes: Seq<StoreChange>) -> Seq<ChangeView> {
    changes.map_values(|c: StoreChange| c@)
}

/// The changes that add the given entries, in order.
pub open spec fn additions(entries: Seq<Entry>) -> Seq<ChangeView> {
    entries.map_values(|e: Entry| ChangeView::Add(e.1, e.0))
}

/// A binding that is owned already, its owner, and the owner's label.
pub type Conflict = (BindingView, ActionView, Seq<char>);

/// The views of a sequence of pending conflicts, in order.
pub open spec fn conflict_views(queue: Seq<(Binding, Action, String)>) -> Seq<Conflict> {
    queue.map_values(|e: (Binding, Action, String)| (e.0@, e.1@, e.2@))
}

/// The candidates that the configuration owns already, in order, each with
/// its owner.
pub open spec fn conflicts(candidates: Seq<BindingView>, entries: Seq<Entry>) -> Seq<Conflict>
    decreases candidates.len(),
{
    if candidates.len() == 0 {
        Seq::empty()
    } else {
        let rest = conflicts(candidates.drop_last(), entries);
        match owner_in(entries, candidates.last().combo) {
            Some(owner) => rest.push((candidates.last(), owner, owner.label())),
            None => rest,
        }
    }
}

/// The entry that gives `binding` to the command `task`, described by
/// `name`.
pub open spec fn new_entry(binding: BindingView, name: Seq<char>, task: Seq<char>) -> Entry {
    (BindingView { combo: binding.combo, description: Some(name) }, ActionView::Spawn(task))
}

/// The configuration after the free candidates are added to `entries` for
/// the command `task`: each candidate in turn that had no owner in `entries`,
/// and was not added before it, gets an entry at the end.
pub open spec fn committed(
    candidates: Seq<BindingView>,
    entries: Seq<Entry>,
    name: Seq<char>,
    task: Seq<char>,
) -> Seq<Entry>
    decreases candidates.len(),
{
    if candidates.len() == 0 {
        entries
    } else {
        let so_far = committed(candidates.drop_last(), entries, name, task);
        let candidate = candidates.last();
        if owner_in(entries, candidate.combo) is None && !holds(so_far, candidate.combo) {
            so_far.push(new_entry(candidate, name, task))
        } else {
            so_far
        }
    }
}

/// Whether one of the first `n` bindings has the key combination `combo`.
pub open spec fn proposed(candidates: Seq<BindingView>, n: int, combo: Combo) -> bool {
    exists|i: int| 0 <= i < n && i < candidates.len() && (#[trigger] candidates[i]).combo == combo
}

/// Whether some candidate is free to be added at once.
pub open spec fn some_free(candidates: Seq<BindingView>, entries: Seq<Entry>) -> bool {
    exists|i: int|
        0 <= i < candidates.len() && owner_in(entries, (#[trigger] candidates[i]).combo) is None
}

/// The state of the custom-shortcuts page.
pub struct Page {
    /// Every binding in use, with its owner.
    pub config: Shortcuts,
    /// The custom shortcuts as listed, built from the configuration.
    pub shortcut_models: Slab<ShortcutModel>,
    /// The draft of a new shortcut.
    pub add_shortcut: AddShortcut,
    /// The conflicts that wait for a decision; the last one is asked first.
    pub replace_dialog: Vec<(Binding, Action, String)>,
    /// The changes made to the configuration since they were last taken, in
    /// the order in which they were made.
    pub changes: Vec<StoreChange>,
}

/// `after` is `before` with the candidates resolved for a shortcut `name`
/// that launches `task`: the free ones belong to the new command, the owned
/// ones wait in the queue, and nothing else has changed hands.
pub open spec fn resolved(
    before: Page,
    after: Page,
    name: Seq<char>,
    task: Seq<char>,
    candidates: Seq<BindingView>,
) -> bool {
    let old_entries = before.config@;
    let new_entries = after.config@;
    &&& after.config.wf()
    &&& new_entries == committed(candidates, old_entries, name, task)
    &&& conflict_views(after.replace_dialog@) == conflict_views(before.replace_dialog@)
        + conflicts(candidates, old_entries)
    &&& forall|i: int|
        0 <= i < candidates.len() && owner_in(old_entries, (#[trigger] candidates[i]).combo)
            is None ==> owner_in(new_entries, candidates[i].combo) == Some(
            ActionView::Spawn(task),
        )
    &&& forall|c: Combo|
        owner_in(old_entries, c) is Some || !proposed(candidates, candidates.len() as int, c)
            ==> #[trigger] owner_in(new_entries, c) == owner_in(old_entries, c)
    &&& old_entries.len() <= new_entries.len()
    &&& forall|k: int|
        0 <= k < new_entries.len() ==> if k < old_entries.len() {
            #[trigger] new_entries[k] == old_entries[k]
        } else {
            new_entries[k].1 == ActionView::Spawn(task) && new_entries[k].0.description == Some(
                name,
            )
        }
    &&& change_views(after.changes@) == change_views(before.changes@) + additions(
        new_entries.subrange(old_entries.len() as int, new_entries.len() as int),
    )
    &&& after.add_shortcut.active == if some_free(candidates, old_entries) {
        after.replace_dialog@.len() > 0
    } else {
        before.add_shortcut.active
    }
    &&& after.add_shortcut.editing == before.add_shortcut.editing
    &&& after.add_shortcut.name == before.add_shortcut.name
    &&& after.add_shortcut.task == before.add_shortcut.task
    &&& after.add_shortcut.keys == before.add_shortcut.keys
    &&& keyed_as(after.shortcut_models, grouped(new_entries))
}

/// `after` is `before` with the draft submitted under the trimmed `name`
/// and `task`. Without a name, without a command, or with a row that has
/// text but no binding that names a key, nothing has changed. Otherwise the
/// bindings of the rows with text, by ascending row id, were resolved.
pub open spec fn submitted(before: Page, after: Page, name: Seq<char>, task: Seq<char>) -> bool {
    let rows = before.add_shortcut.rows();
    if name.len() == 0 || task.len() == 0 || !all_acceptable(rows) {
        after == before
    } else {
        exists|ids: Seq<usize>|
            in_id_order(ids, rows) && #[trigger] resolved(
                before,
                after,
                name,
                task,
                picked(rows, ids),
            )
    }
}

/// `after` is `before` with the last conflict of the queue decided for the
/// new shortcut: its binding has left its owner and belongs to the command
/// `task`, described by `name`; both changes are noted for the stored copy.
/// With no conflict waiting nothing has changed.
pub open spec fn applied(before: Page, after: Page, name: Seq<char>, task: Seq<char>) -> bool {
    if before.replace_dialog@.len() == 0 {
        &&& after.config == before.config
        &&& after.shortcut_models == before.shortcut_models
        &&& after.add_shortcut == before.add_shortcut
        &&& after.changes == before.changes
        &&& after.replace_dialog@.len() == 0
    } else {
        let combo = before.replace_dialog@.last().0@.combo;
        &&& after.replace_dialog@ == before.replace_dialog@.drop_last()
        &&& after.config.wf()
        &&& owner_in(after.config@, combo) == Some(ActionView::Spawn(task))
        &&& forall|c: Combo|
            c != combo ==> #[trigger] owner_in(after.config@, c) == owner_in(before.config@, c)
        &&& after.config@ == without(before.config@, combo).push(
            new_entry(before.replace_dialog@.last().0@, name, task),
        )
        &&& change_views(after.changes@) == change_views(before.changes@) + (if owner_in(
            before.config@,
            combo,
        ) is Some {
            seq![ChangeView::Remove(before.replace_dialog@.last().0@)]
        } else {
            Seq::empty()
        }).push(
            ChangeView::Add(
                ActionView::Spawn(task),
                BindingView { combo, description: Some(name) },
            ),
        )
        &&& after.add_shortcut.active == (after.replace_dialog@.len() > 0)
        &&& after.add_shortcut.editing == before.add_shortcut.editing
        &&& after.add_shortcut.name == before.add_shortcut.name
        &&& after.add_shortcut.task == before.add_shortcut.task
        &&& after.add_shortcut.keys == before.add_shortcut.keys
        &&& if after.replace_dialog@.len() == 0 {
            keyed_as(after.shortcut_models, grouped(after.config@))
        } else {
            after.shortcut_models == before.shortcut_models
        }
    }
}

/// `after` is `before` with the last conflict of the queue dropped: the
/// configuration and the draft are as they were, and the list is built anew
/// once the queue is empty. With no conflict waiting nothing has changed.
pub open spec fn cancelled(before: Page, after: Page) -> bool {
    &&& after.config == before.config
    &&& after.changes == before.changes
    &&& after.add_shortcut == before.add_shortcut
    &&& after.replace_dialog@ == if before.replace_dialog@.len() == 0 {
        before.replace_dialog@
    } else {
        before.replace_dialog@.drop_last()
    }
    &&& if before.replace_dialog@.len() == 1 {
        keyed_as(after.shortcut_models, grouped(after.config@))
    } else {
        after.shortcut_models == before.shortcut_models
    }
}

impl Page {
    /// The page is sound when its configuration is.
    pub open spec fn wf(&self) -> bool {
        self.config.wf()
    }

    /// A page over `config`, with its list built, the form closed and no
    /// conflict waiting.
    pub fn new(config: Shortcuts) -> (r: Page)
        requires
            config.wf(),
        ensures
            r.wf(),
            r.config == config,
            keyed_as(r.shortcut_models, grouped(config@)),
            r.replace_dialog@.len() == 0,
            r.changes@.len() == 0,
            !r.add_shortcut.active,
            r.add_shortcut.editing is None,
            r.add_shortcut.name@.len() == 0,
            r.add_shortcut.task@.len() == 0,
            r.add_shortcut.rows() == crate::rows::no_rows(),
    {
        let shortcut_models = bindings(&config, &config);
        Page {
            config,
            shortcut_models,
            add_shortcut: AddShortcut::new(),
            replace_dialog: Vec::new(),
            changes: Vec::new(),
        }
    }

    /// Hands out the changes made to the configuration since they were last
    /// taken, oldest first, and forgets them.
    pub fn take_changes(&mut self) -> (taken: Vec<StoreChange>)
        ensures
            taken == old(self).changes,
            final(self).changes@.len() == 0,
            final(self).config == old(self).config,
            final(self).shortcut_models == old(self).shortcut_models,
            final(self).add_shortcut == old(self).add_shortcut,
            final(self).replace_dialog == old(self).replace_dialog,
    {
        let mut taken: Vec<StoreChange> = Vec::new();
        std::mem::swap(&mut taken, &mut self.changes);
        taken
    }

    /// Builds the list of shortcuts anew from the configuration.
    pub fn on_enter(&mut self)
        ensures
            keyed_as(final(self).shortcut_models, grouped(old(self).config@)),
            final(self).config == old(self).config,
            final(self).add_shortcut == old(self).add_shortcut,
            final(self).replace_dialog == old(self).replace_dialog,
            final(self).changes == old(self).changes,
    {
        self.shortcut_models = bindings(&self.config, &self.config);
    }

    /// Clears what is transient when the page is left: the form is closed
    /// and its draft emptied, and the conflicts that still wait are dropped
    /// undecided, so that each binding stays with its owner. The
    /// configuration, the list and the noted changes stay as they are.
    pub fn on_leave(&mut self)
        ensures
            !final(self).add_shortcut.active,
            cleared(final(self).add_shortcut),
            final(self).replace_dialog@.len() == 0,
            final(self).config == old(self).config,
            final(self).shortcut_models == old(self).shortcut_models,
            final(self).changes == old(self).changes,
    {
        self.add_shortcut.clear();
        self.replace_dialog.clear();
    }

    /// Closes the form without committing anything.
    pub fn on_context_drawer_close(&mut self)
        ensures
            !final(self).add_shortcut.active,
            final(self).add_shortcut.editing == old(self).add_shortcut.editing,
            final(self).add_shortcut.name == old(self).add_shortcut.name,
            final(self).add_shortcut.task == old(self).add_shortcut.task,
            final(self).add_shortcut.keys == old(self).add_shortcut.keys,
            final(self).config == old(self).config,
            final(self).shortcut_models == old(self).shortcut_models,
            final(self).replace_dialog == old(self).replace_dialog,
            final(self).changes == old(self).changes,
    {
        self.add_shortcut.active = false;
    }

    /// Resolves the candidates of a shortcut `name` that launches `task`
    /// against the configuration as it stands: each one that is owned joins
    /// the queue with its owner, and then each one that is free is added for
    /// the new command. The list is built anew.
    pub fn resolve(&mut self, name: &String, task: &String, candidates: &Vec<Binding>)
        requires
            old(self).wf(),
        ensures
            resolved(*old(self), *final(self), name@, task@, binding_views(candidates@)),
    {
        let ghost cands = binding_views(candidates@);
        let ghost entries = self.config@;
        assert(cands.take(0) =~= binding_views(Seq::<Binding>::empty()));
        let ghost queue = conflict_views(self.replace_dialog@);
        let mut free: Vec<Binding> = Vec::new();
        let mut i: usize = 0;
        assert(conflict_views(self.replace_dialog@) =~= queue + conflicts(cands.take(0), entries));
        while i < candidates.len()
            invariant
                i <= candidates.len(),
                cands == binding_views(candidates@),
                self.config == old(self).config,
                self.add_shortcut == old(self).add_shortcut,
                self.shortcut_models == old(self).shortcut_models,
                self.changes == old(self).changes,
                entries == self.config@,
                committed(cands.take(i as int), entries, name@, task@) == committed(
                    binding_views(free@),
                    entries,
                    name@,
                    task@,
                ),
                self.config.wf(),
                conflict_views(self.replace_dialog@) == queue + conflicts(
                    cands.take(i as int),
                    entries,
                ),
                forall|j: int|
                    0 <= j < free.len() ==> owner_in(entries, (#[trigger] free[j])@.combo) is None
                        && proposed(cands, i as int, free[j]@.combo),
                forall|k: int|
                    0 <= k < i && owner_in(entries, (#[trigger] cands[k]).combo) is None
                        ==> proposed(binding_views(free@), free.len() as int, cands[k].combo),
            decreases candidates.len() - i,
        {
            let candidate = &candidates[i];
            proof {
                let next = cands.take(i + 1);
                assert(next.drop_last() =~= cands.take(i as int));
                assert(next.last() == candidate@);
                assert(cands[i as int] == candidate@);
            }
            let ghost free_before = binding_views(free@);
            match self.config.contains_binding(candidate) {
                Some(owner) => {
                    let label = owner.label();
                    let ghost waiting = conflict_views(self.replace_dialog@);
                    self.replace_dialog.push((candidate.duplicate(), owner, label));
                    assert(conflict_views(self.replace_dialog@) =~= waiting.push(
                        (candidate@, owner@, owner@.label()),
                    ));
                },
                None => {
                    free.push(candidate.duplicate());
                    assert(binding_views(free@)[free.len() - 1] == candidate@);
                    assert(binding_views(free@).drop_last() =~= free_before);
                },
            }
            proof {
                assert forall|k: int|
                    0 <= k < i + 1 && owner_in(entries, (#[trigger] cands[k]).combo)
                        is None implies proposed(
                    binding_views(free@),
                    free.len() as int,
                    cands[k].combo,
                ) by {
                    if k < i {
                        let w = choose|w: int|
                            0 <= w < free_before.len() && (#[trigger] free_before[w]).combo
                                == cands[k].combo;
                        assert(binding_views(free@)[w] == free_before[w]);
                    } else {
                        assert(binding_views(free@)[free.len() - 1].combo == cands[k].combo);
                    }
                }
                assert forall|j: int| 0 <= j < free.len() implies owner_in(
                    entries,
                    (#[trigger] free[j])@.combo,
                ) is None && proposed(cands, i + 1, free[j]@.combo) by {
                    if j < free_before.len() {
                        let w = choose|w: int|
                            0 <= w < i && w < cands.len() && (#[trigger] cands[w]).combo
                                == free[j]@.combo;
                        assert(cands[w].combo == free[j]@.combo);
                    } else {
                        assert(cands[i as int].combo == free[j]@.combo);
                    }
                }
            }
            i += 1;
        }
        assert(cands.take(i as int) =~= cands);
        assert(change_views(self.changes@) =~= change_views(old(self).changes@) + additions(
            self.config@.subrange(entries.len() as int, self.config@.len() as int),
        ));
        let mut k: usize = 0;
        while k < free.len()
            invariant
                k <= free.len(),
                self.config.wf(),
                self.add_shortcut == old(self).add_shortcut,
                self.shortcut_models == old(self).shortcut_models,
                change_views(self.changes@) == change_views(old(self).changes@) + additions(
                    self.config@.subrange(entries.len() as int, self.config@.len() as int),
                ),
                conflict_views(self.replace_dialog@) == queue + conflicts(cands, entries),
                entries == old(self).config@,
                committed(cands, entries, name@, task@) == committed(
                    binding_views(free@),
                    entries,
                    name@,
                    task@,
                ),
                self.config@ == committed(
                    binding_views(free@).take(k as int),
                    entries,
                    name@,
                    task@,
                ),
                forall|j: int|
                    0 <= j < free.len() ==> owner_in(entries, (#[trigger] free[j])@.combo) is None,
                forall|c: Combo|
                    #[trigger] owner_in(self.config@, c) == if proposed(
                        binding_views(free@),
                        k as int,
                        c,
                    ) {
                        Some(ActionView::Spawn(task@))
                    } else {
                        owner_in(entries, c)
                    },
                entries.len() <= self.config@.len(),
                forall|n: int|
                    0 <= n < self.config@.len() ==> if n < entries.len() {
                        #[trigger] self.config@[n] == entries[n]
                    } else {
                        self.config@[n].1 == ActionView::Spawn(task@)
                            && self.config@[n].0.description == Some(name@)
                    },
            decreases free.len() - k,
        {
            let ghost before = self.config@;
            let ghost views = binding_views(free@);
            let binding = free[k].described(name);
            let ghost noted = change_views(self.changes@);
            let ghost entry = (binding@, ActionView::Spawn(task@));
            proof {
                let next = views.take(k + 1);
                assert(next.drop_last() =~= views.take(k as int));
                assert(next.last() == views[k as int]);
                assert(entry == new_entry(views[k as int], name@, task@));
                assert(owner_in(entries, free[k as int]@.combo) is None);
            }
            let added = self.config.add_binding(Action::Spawn(task.clone()), binding.duplicate());
            if added {
                self.changes.push(StoreChange::Add(Action::Spawn(task.clone()), binding));
                assert(change_views(self.changes@) =~= noted.push(ChangeView::Add(entry.1, entry.0)));
                assert(self.config@.subrange(entries.len() as int, self.config@.len() as int)
                    =~= before.subrange(entries.len() as int, before.len() as int).push(entry));
                assert(additions(
                    self.config@.subrange(entries.len() as int, self.config@.len() as int),
                ) =~= additions(before.subrange(entries.len() as int, before.len() as int)).push(
                    ChangeView::Add(entry.1, entry.0),
                ));
            }
            proof {
                let combo = free[k as int]@.combo;
                assert(views[k as int].combo == combo);
                assert forall|c: Combo| #[trigger]
                    owner_in(self.config@, c) == if proposed(views, k + 1, c) {
                        Some(ActionView::Spawn(task@))
                    } else {
                        owner_in(entries, c)
                    } by {
                    if c == combo {
                        assert(proposed(views, k + 1, c));
                        if !added {
                            assert(owner_in(before, c) is Some);
                            assert(proposed(views, k as int, c));
                        }
                    } else {
                        assert(owner_in(self.config@, c) == owner_in(before, c));
                        if proposed(views, k + 1, c) {
                            let w = choose|w: int|
                                0 <= w < k + 1 && w < views.len() && (#[trigger] views[w]).combo
                                    == c;
                            assert(w < k);
                            assert(proposed(views, k as int, c));
                        }
                    }
                }
            }
            k += 1;
        }
        assert(binding_views(free@).take(k as int) =~= binding_views(free@));
        if free.len() > 0 {
            self.add_shortcut.active = !self.replace_dialog.is_empty();
        }
        self.on_enter();
        proof {
            let views = binding_views(free@);
            let after = self.config@;
            assert forall|i: int|
                0 <= i < cands.len() && owner_in(entries, (#[trigger] cands[i]).combo)
                    is None implies owner_in(after, cands[i].combo) == Some(
                ActionView::Spawn(task@),
            ) by {
                assert(proposed(views, free.len() as int, cands[i].combo));
            }
            assert forall|c: Combo|
                owner_in(entries, c) is Some || !proposed(
                    cands,
                    cands.len() as int,
                    c,
                ) implies #[trigger] owner_in(after, c) == owner_in(entries, c) by {
                if proposed(views, free.len() as int, c) {
                    let w = choose|w: int|
                        0 <= w < free.len() && w < views.len() && (#[trigger] views[w]).combo
                            == c;
                    assert(free[w]@.combo == c);
                    assert(owner_in(entries, free[w]@.combo) is None);
                    assert(proposed(cands, cands.len() as int, free[w]@.combo));
                }
            }
            if some_free(cands, entries) {
                let w = choose|w: int|
                    0 <= w < cands.len() && owner_in(entries, (#[trigger] cands[w]).combo)
                        is None;
                assert(proposed(views, free.len() as int, cands[w].combo));
            } else if free.len() > 0 {
                assert(owner_in(entries, free[0]@.combo) is None);
                let w = choose|w: int|
                    0 <= w < cands.len() && (#[trigger] cands[w]).combo == free[0]@.combo;
                assert(owner_in(entries, cands[w].combo) is None);
            }
        }
    }

    /// Submits the draft under an already trimmed name and command.
    pub fn submit_with(&mut self, name: &String, task: &String) -> (committed: bool)
        requires
            old(self).wf(),
        ensures
            final(self).wf(),
            committed == (name@.len() != 0 && task@.len() != 0 && all_acceptable(
                old(self).add_shortcut.rows(),
            )),
            submitted(*old(self), *final(self), name@, task@),
    {
        if name.as_str().is_empty() || task.as_str().is_empty() {
            return false;
        }
        match self.add_shortcut.candidates() {
            Some(candidates) => {
                self.resolve(name, task, &candidates);
                true
            },
            None => false,
        }
    }

    /// Submits the draft: its name and command are trimmed, and the rest is
    /// [`Page::submit_with`].
    pub fn submit(&mut self) -> (committed: bool)
        requires
            old(self).wf(),
        ensures
            final(self).wf(),
            committed == (trimmed(old(self).add_shortcut.name@).len() != 0 && trimmed(
                old(self).add_shortcut.task@,
            ).len() != 0 && all_acceptable(old(self).add_shortcut.rows())),
            submitted(
                *old(self),
                *final(self),
                trimmed(old(self).add_shortcut.name@),
                trimmed(old(self).add_shortcut.task@),
            ),
    {
        let name = trim(&self.add_shortcut.name);
        let task = trim(&self.add_shortcut.task);
        self.submit_with(&name, &task)
    }

    /// Decides the last conflict of the queue for the new shortcut, under an
    /// already trimmed name and command. The result says whether a conflict
    /// was waiting.
    pub fn replace_apply_with(&mut self, name: &String, task: &String) -> (decided: bool)
        requires
            old(self).wf(),
        ensures
            final(self).wf(),
            decided == (old(self).replace_dialog@.len() > 0),
            applied(*old(self), *final(self), name@, task@),
    {
        match self.replace_dialog.pop() {
            Some(conflict) => {
                let (binding, _, _) = conflict;
                let ghost noted = change_views(self.changes@);
                let described = binding.described(name);
                if self.config.remove_binding(&binding) {
                    self.changes.push(StoreChange::Remove(binding));
                    assert(change_views(self.changes@) =~= noted + seq![
                        ChangeView::Remove(binding@),
                    ]);
                } else {
                    assert(change_views(self.changes@) =~= noted + Seq::empty());
                }
                let ghost removed = change_views(self.changes@);
                self.config.add_binding(Action::Spawn(task.clone()), described.duplicate());
                self.changes.push(StoreChange::Add(Action::Spawn(task.clone()), described));
                assert(change_views(self.changes@) =~= removed.push(
                    ChangeView::Add(ActionView::Spawn(task@), described@),
                ));
                self.add_shortcut.active = !self.replace_dialog.is_empty();
                if self.replace_dialog.is_empty() {
                    self.on_enter();
                }
                true
            },
            None => false,
        }
    }

    /// Decides the last conflict of the queue for the new shortcut.
    pub fn replace_apply(&mut self) -> (decided: bool)
        requires
            old(self).wf(),
        ensures
            final(self).wf(),
            decided == (old(self).replace_dialog@.len() > 0),
            applied(
                *old(self),
                *final(self),
                trimmed(old(self).add_shortcut.name@),
                trimmed(old(self).add_shortcut.task@),
            ),
    {
        let name = trim(&self.add_shortcut.name);
        let task = trim(&self.add_shortcut.task);
        self.replace_apply_with(&name, &task)
    }

    /// Drops the last conflict of the queue: its binding stays with its
    /// owner. The result says whether a conflict was waiting.
    pub fn replace_cancel(&mut self) -> (decided: bool)
        requires
            old(self).wf(),
        ensures
            final(self).wf(),
            decided == (old(self).replace_dialog@.len() > 0),
            cancelled(*old(self), *final(self)),
    {
        match self.replace_dialog.pop() {
            Some(_) => {
                if self.replace_dialog.is_empty() {
                    self.on_enter();
                }
                true
            },
            None => false,
        }
    }

    /// Handles one message. `parsed` is what the text of a
    /// [`Message::KeyInput`] was read as; no other message looks at it.
    pub fn update(&mut self, message: Message, parsed: Option<Binding>) -> (effect: Effect)
        requires
            old(self).wf(),
            message matches Message::KeyInput(id, _) ==> old(self).add_shortcut.rows().contains_key(
                id,
            ),
        ensures
            final(self).wf(),
            updated(*old(self), *final(self), message, parsed, effect),
    {
        match message {
            Message::TaskInput(text) => {
                self.add_shortcut.task = text;
                Effect::Nothing
            },
            Message::KeyInput(id, text) => {
                self.add_shortcut.set_key(id, text, parsed);
                Effect::Nothing
            },
            Message::KeyEditing(id, enable) => {
                if enable {
                    self.add_shortcut.editing = Some(id);
                    Effect::Nothing
                } else if is_row(self.add_shortcut.editing, id) {
                    match self.add_shortcut.end_edit(id) {
                        Some(focus) => focus_effect(focus),
                        None => Effect::Nothing,
                    }
                } else {
                    Effect::Nothing
                }
            },
            Message::NameInput(text) => {
                self.add_shortcut.name = text;
                Effect::Nothing
            },
            Message::AddKeybinding => {
                let focus = self.add_shortcut.add_keybinding();
                focus_effect(focus)
            },
            Message::AddShortcut => {
                self.submit();
                Effect::Nothing
            },
            Message::EditCombination => {
                match self.add_shortcut.first_row() {
                    Some(id) => {
                        self.add_shortcut.editing = Some(id);
                        Effect::FocusAndSelectRow(id)
                    },
                    None => Effect::Nothing,
                }
            },
            Message::NameSubmit => {
                let name = trim(&self.add_shortcut.name);
                if name.as_str().is_empty() {
                    Effect::Nothing
                } else {
                    Effect::FocusTask
                }
            },
            Message::ReplaceApply => {
                self.replace_apply();
                Effect::Nothing
            },
            Message::ReplaceCancel => {
                self.replace_cancel();
                Effect::Nothing
            },
            Message::Shortcut(message) => {
                match message {
                    ShortcutMessage::ShowShortcut(_) => {
                        self.add_shortcut.active = false;
                    },
                }
                Effect::Forward(message)
            },
            Message::ShortcutContext => {
                self.add_shortcut.enable();
                Effect::OpenDrawerAndFocusName
            },
        }
    }
}

fn is_row(editing: Option<usize>, id: usize) -> (r: bool)
    ensures
        r == (editing == Some(id)),
{
    match editing {
        Some(row) => row == id,
        None => false,
    }
}

/// What is to happen on screen for a row made ready: a reused row gets the
/// focus, an added row gets the focus with its text selected.
pub open spec fn focus_effect_of(focus: RowFocus) -> Effect {
    match focus {
        RowFocus::Reused(id) => Effect::FocusRow(id),
        RowFocus::Added(id) => Effect::FocusAndSelectRow(id),
    }
}

fn focus_effect(focus: RowFocus) -> (r: Effect)
    ensures
        r == focus_effect_of(focus),
{
    match focus {
        RowFocus::Reused(id) => Effect::FocusRow(id),
        RowFocus::Added(id) => Effect::FocusAndSelectRow(id),
    }
}

/// Nothing but the draft differs between the two pages.
pub open spec fn only_draft(before: Page, after: Page) -> bool {
    &&& after.config == before.config
    &&& after.shortcut_models == before.shortcut_models
    &&& after.replace_dialog == before.replace_dialog
    &&& after.changes == before.changes
}

/// `after` and `effect` are what handling `message` makes of `before`.
pub open spec fn updated(
    before: Page,
    after: Page,
    message: Message,
    parsed: Option<Binding>,
    effect: Effect,
) -> bool {
    let draft = before.add_shortcut;
    let name = trimmed(draft.name@);
    let task = trimmed(draft.task@);
    match message {
        Message::TaskInput(text) => {
            &&& only_draft(before, after)
            &&& after.add_shortcut == (AddShortcut { task: text, ..draft })
            &&& effect is Nothing
        },
        Message::NameInput(text) => {
            &&& only_draft(before, after)
            &&& after.add_shortcut == (AddShortcut { name: text, ..draft })
            &&& effect is Nothing
        },
        Message::KeyInput(id, text) => {
            &&& only_draft(before, after)
            &&& key_set(draft, after.add_shortcut, id, text, parsed)
            &&& effect is Nothing
        },
        Message::KeyEditing(id, enable) => {
            &&& only_draft(before, after)
            &&& if enable {
                after.add_shortcut == (AddShortcut { editing: Some(id), ..draft }) && effect
                    is Nothing
            } else if draft.editing == Some(id) {
                exists|focus: Option<RowFocus>|
                    {
                        &&& #[trigger] edit_ended(draft, after.add_shortcut, id, focus)
                        &&& effect == match focus {
                            Some(row) => focus_effect_of(row),
                            None => Effect::Nothing,
                        }
                    }
            } else {
                after.add_shortcut == draft && effect is Nothing
            }
        },
        Message::AddKeybinding => {
            &&& only_draft(before, after)
            &&& exists|focus: RowFocus|
                {
                    &&& #[trigger] row_readied(draft, after.add_shortcut, focus)
                    &&& after.add_shortcut.editing == match focus {
                        RowFocus::Reused(_) => draft.editing,
                        RowFocus::Added(id) => Some(id),
                    }
                    &&& effect == focus_effect_of(focus)
                }
        },
        Message::AddShortcut => submitted(before, after, name, task) && effect is Nothing,
        Message::EditCombination => {
            &&& only_draft(before, after)
            &&& match effect {
                Effect::FocusAndSelectRow(id) => {
                    &&& draft.rows().contains_key(id)
                    &&& forall|j: usize| draft.rows().contains_key(j) ==> id <= j
                    &&& after.add_shortcut == (AddShortcut { editing: Some(id), ..draft })
                },
                Effect::Nothing => {
                    &&& forall|j: usize| !draft.rows().contains_key(j)
                    &&& after.add_shortcut == draft
                },
                _ => false,
            }
        },
        Message::NameSubmit => {
            &&& only_draft(before, after)
            &&& after.add_shortcut == draft
            &&& effect == if name.len() == 0 {
                Effect::Nothing
            } else {
                Effect::FocusTask
            }
        },
        Message::ReplaceApply => applied(before, after, name, task) && effect is Nothing,
        Message::ReplaceCancel => cancelled(before, after) && effect is Nothing,
        Message::Shortcut(inner) => {
            &&& only_draft(before, after)
            &&& after.add_shortcut == (AddShortcut { active: false, ..draft })
            &&& effect == Effect::Forward(inner)
        },
        Message::ShortcutContext => {
            &&& only_draft(before, after)
            &&& opened(after.add_shortcut)
            &&& effect is OpenDrawerAndFocusName
        },
    }
}

} // verus!
