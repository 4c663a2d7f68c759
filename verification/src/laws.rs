//! What holds of the page across its operations.

use crate::binding::{ActionView, Binding, BindingView, Combo};
use crate::config::owner_in;
use crate::draft::{at_most_one_unparsed, key_set, picked, row_readied, AddShortcut, RowFocus};
use crate::page::{applied, cancelled, resolved, submitted, Page};
use crate::rows::{in_id_order, KeyRow};
use vstd::prelude::*;

verus! {

/// The binding of a listed row that has text and a binding is among the
/// bindings picked from the rows.
pub proof fn lemma_picked_has(rows: Map<usize, KeyRow>, ids: Seq<usize>, k: int)
    requires
        0 <= k < ids.len(),
        rows[ids[k]].parses(),
    ensures
        picked(rows, ids).contains(rows[ids[k]].binding->0@),
    decreases ids.len(),
{
    let rest = picked(rows, ids.drop_last());
    let all = picked(rows, ids);
    if k == ids.len() - 1 {
        assert(all == rest.push(rows[ids[k]].binding->0@));
        assert(all[rest.len() as int] == rows[ids[k]].binding->0@);
    } else {
        assert(ids.drop_last()[k] == ids[k]);
        lemma_picked_has(rows, ids.drop_last(), k);
        let at = choose|at: int| 0 <= at < rest.len() && rest[at] == rows[ids[k]].binding->0@;
        assert(all[at] == rest[at]);
    }
}

/// A submitted binding that no action owned belongs to the new command
/// afterwards: where a draft with a name and a command, and with rows that
/// are all acceptable, is submitted, the binding of each of its rows with
/// text is owned by the command `task`, if nothing owned it before.
pub proof fn lemma_free_binding_is_committed(
    before: Page,
    after: Page,
    name: Seq<char>,
    task: Seq<char>,
    id: usize,
)
    requires
        submitted(before, after, name, task),
        name.len() != 0,
        task.len() != 0,
        forall|j: usize|
            before.add_shortcut.rows().contains_key(j) ==> (
            #[trigger] before.add_shortcut.rows()[j]).acceptable(),
        before.add_shortcut.rows().contains_key(id),
        !before.add_shortcut.rows()[id].is_blank(),
        owner_in(before.config@, before.add_shortcut.rows()[id].binding->0@.combo) is None,
    ensures
        owner_in(after.config@, before.add_shortcut.rows()[id].binding->0@.combo) == Some(
            ActionView::Spawn(task),
        ),
{
    let rows = before.add_shortcut.rows();
    let ids = choose|ids: Seq<usize>|
        in_id_order(ids, rows) && #[trigger] resolved(before, after, name, task, picked(rows, ids));
    let candidates = picked(rows, ids);
    assert(ids.contains(id));
    let k = choose|k: int| 0 <= k < ids.len() && ids[k] == id;
    assert(rows[id].acceptable());
    lemma_picked_has(rows, ids, k);
    let at = choose|at: int|
        0 <= at < candidates.len() && candidates[at] == rows[id].binding->0@;
    assert(owner_in(before.config@, candidates[at].combo) is None);
}

/// A draft with a row that has text, but no binding that names a key,
/// commits nothing when it is submitted: the page stays as it was.
pub proof fn lemma_unacceptable_row_commits_nothing(
    before: Page,
    after: Page,
    name: Seq<char>,
    task: Seq<char>,
    id: usize,
)
    requires
        submitted(before, after, name, task),
        before.add_shortcut.rows().contains_key(id),
        !before.add_shortcut.rows()[id].acceptable(),
    ensures
        after == before,
{
}

/// Making a row ready for typing never leaves a second row that does not
/// parse.
pub proof fn lemma_readied_keeps_one_unparsed(
    before: AddShortcut,
    after: AddShortcut,
    focus: RowFocus,
)
    requires
        row_readied(before, after, focus),
        at_most_one_unparsed(before.rows()),
    ensures
        at_most_one_unparsed(after.rows()),
{
}

/// Typing into a row never leaves a second row that does not parse, as long
/// as the row did not parse before or its new text does.
pub proof fn lemma_key_set_keeps_one_unparsed(
    before: AddShortcut,
    after: AddShortcut,
    id: usize,
    text: String,
    parsed: Option<Binding>,
)
    requires
        before.rows().contains_key(id),
        key_set(before, after, id, text, parsed),
        at_most_one_unparsed(before.rows()),
        !before.rows()[id].parses() || (text@.len() != 0 && parsed is Some && parsed->0@.is_set()),
    ensures
        at_most_one_unparsed(after.rows()),
{
}

/// Applying a decision takes exactly one conflict from the queue, the last
/// one; with an empty queue the queue stays empty and the configuration as it
/// was.
pub proof fn lemma_apply_takes_one(before: Page, after: Page, name: Seq<char>, task: Seq<char>)
    requires
        applied(before, after, name, task),
    ensures
        before.replace_dialog@.len() > 0 ==> after.replace_dialog@.len() + 1
            == before.replace_dialog@.len(),
        before.replace_dialog@.len() == 0 ==> after.replace_dialog@.len() == 0 && after.config
            == before.config,
{
}

/// Cancelling a decision takes exactly one conflict from the queue, the last
/// one; with an empty queue the queue stays empty.
pub proof fn lemma_cancel_takes_one(before: Page, after: Page)
    requires
        cancelled(before, after),
    ensures
        before.replace_dialog@.len() > 0 ==> after.replace_dialog@.len() + 1
            == before.replace_dialog@.len(),
        before.replace_dialog@.len() == 0 ==> after.replace_dialog@.len() == 0,
{
}

/// After a conflict is applied its binding belongs to the new command, and
/// so no longer to the owner it had, unless that was the same command.
pub proof fn lemma_apply_moves_binding(
    before: Page,
    after: Page,
    name: Seq<char>,
    task: Seq<char>,
)
    requires
        applied(before, after, name, task),
        before.replace_dialog@.len() > 0,
    ensures
        owner_in(after.config@, before.replace_dialog@.last().0@.combo) == Some(
            ActionView::Spawn(task),
        ),
        before.replace_dialog@.last().1@ != ActionView::Spawn(task) ==> owner_in(
            after.config@,
            before.replace_dialog@.last().0@.combo,
        ) != Some(before.replace_dialog@.last().1@),
{
}

/// Cancelling a conflict leaves every key combination with the owner it
/// had.
pub proof fn lemma_cancel_keeps_owners(before: Page, after: Page, combo: Combo)
    requires
        cancelled(before, after),
    ensures
        owner_in(after.config@, combo) == owner_in(before.config@, combo),
{
}

/// The owner that a resolved conflict is queued with is the owner that the
/// configuration had for its binding, and stays its owner.
pub proof fn lemma_owned_candidate_keeps_owner(
    before: Page,
    after: Page,
    name: Seq<char>,
    task: Seq<char>,
    candidates: Seq<BindingView>,
    i: int,
)
    requires
        resolved(before, after, name, task, candidates),
        0 <= i < candidates.len(),
        owner_in(before.config@, candidates[i].combo) is Some,
    ensures
        owner_in(after.config@, candidates[i].combo) == owner_in(
            before.config@,
            candidates[i].combo,
        ),
{
}

} // verus!
