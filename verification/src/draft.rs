//! The draft of a new shortcut: a name, a command, and one row for each key
//! combination that is to launch it.

use crate::binding::{binding_views, Binding, BindingView};
use crate::rows::{
    in_id_order, no_rows, rows_clear, rows_get, rows_ids, rows_insert, rows_new, rows_of,
    rows_set, KeyRow,
};
use slab::Slab;
use vstd::prelude::*;

verus! {

/// The form in which a new shortcut is composed.
pub struct AddShortcut {
    /// Whether the form is open.
    pub active: bool,
    /// The row that is being edited, if any.
    pub editing: Option<usize>,
    pub name: String,
    pub task: String,
    pub keys: Slab<KeyRow>,
}

/// The row that should receive the input focus after a row was asked for.
#[derive(Clone, Copy, Debug, PartialEq, Eq, Structural)]
pub enum RowFocus {
    /// A row that did not parse was emptied and is used again.
    Reused(usize),
    /// A new row was added; its text is to be selected as well.
    Added(usize),
}

/// The row `id` is the first, by id, that does not parse.
pub open spec fn first_unparsed(rows: Map<usize, KeyRow>, id: usize) -> bool {
    &&& rows.contains_key(id)
    &&& !rows[id].parses()
    &&& forall|j: usize| j < id && rows.contains_key(j) ==> (#[trigger] rows[j]).parses()
}

/// Every row parses.
pub open spec fn all_parse(rows: Map<usize, KeyRow>) -> bool {
    forall|id: usize| rows.contains_key(id) ==> (#[trigger] rows[id]).parses()
}

/// No two rows fail to parse: at most one row is blank or invalid.
pub open spec fn at_most_one_unparsed(rows: Map<usize, KeyRow>) -> bool {
    forall|a: usize, b: usize|
        rows.contains_key(a) && rows.contains_key(b) && !(#[trigger] rows[a]).parses() && !(
        #[trigger] rows[b]).parses() ==> a == b
}

/// Every row may be submitted.
pub open spec fn all_acceptable(rows: Map<usize, KeyRow>) -> bool {
    forall|id: usize| rows.contains_key(id) ==> (#[trigger] rows[id]).acceptable()
}

/// `after` is `before` but for the row `id`, which is blank and without a
/// binding.
pub open spec fn blank_at(before: Map<usize, KeyRow>, after: Map<usize, KeyRow>, id: usize) -> bool {
    &&& after.dom() == before.dom().insert(id)
    &&& after[id].is_blank()
    &&& !after[id].parses()
    &&& forall|j: usize| j != id && before.contains_key(j) ==> #[trigger] after[j] == before[j]
}

/// The bindings of the rows `ids` that have text and a binding, in the
/// order of `ids`.
pub open spec fn picked(rows: Map<usize, KeyRow>, ids: Seq<usize>) -> Seq<BindingView>
    decreases ids.len(),
{
    if ids.len() == 0 {
        Seq::empty()
    } else {
        let rest = picked(rows, ids.drop_last());
        let row = rows[ids.last()];
        if row.parses() {
            rest.push(row.binding->0@)
        } else {
            rest
        }
    }
}

/// `after` is a draft without content: no name, no command, and the single
/// blank row 0, which is not being edited.
pub open spec fn cleared(after: AddShortcut) -> bool {
    &&& after.editing is None
    &&& after.name@.len() == 0
    &&& after.task@.len() == 0
    &&& blank_at(no_rows(), after.rows(), 0)
}

/// `after` is the form opened afresh: open, and without content.
pub open spec fn opened(after: AddShortcut) -> bool {
    after.active && cleared(after)
}

/// `after` is `before` with `text` in row `id`, beside the binding that the
/// text was read as: `parsed`, or none where there is no text.
pub open spec fn key_set(
    before: AddShortcut,
    after: AddShortcut,
    id: usize,
    text: String,
    parsed: Option<Binding>,
) -> bool {
    &&& after.rows().dom() == before.rows().dom()
    &&& after.rows()[id].text == text
    &&& after.rows()[id].binding == (if text@.len() == 0 {
        None
    } else {
        parsed
    })
    &&& forall|j: usize|
        j != id && before.rows().contains_key(j) ==> #[trigger] after.rows()[j] == before.rows()[j]
    &&& after.active == before.active
    &&& after.editing == before.editing
    &&& after.name == before.name
    &&& after.task == before.task
}

/// `after` is `before` with a row made ready for typing. Where some row did
/// not parse, the first such row was emptied; otherwise a blank
/// row was added under an id that no row had. Nothing else has changed, but
/// for the row that is being edited.
pub open spec fn row_readied(before: AddShortcut, after: AddShortcut, focus: RowFocus) -> bool {
    &&& match focus {
        RowFocus::Reused(id) => first_unparsed(before.rows(), id),
        RowFocus::Added(id) => all_parse(before.rows()) && !before.rows().contains_key(id),
    }
    &&& blank_at(before.rows(), after.rows(), focus.row())
    &&& after.active == before.active
    &&& after.name == before.name
    &&& after.task == before.task
}

/// `after` is `before` with the editing of row `id` ended, and no row being
/// edited. A row that does not parse is emptied and keeps
/// the focus. A row that is followed by another is left as it is. Otherwise,
/// after the last row, a row is made ready for typing.
pub open spec fn edit_ended(
    before: AddShortcut,
    after: AddShortcut,
    id: usize,
    focus: Option<RowFocus>,
) -> bool {
    let rows = before.rows();
    &&& after.editing is None
    &&& after.active == before.active
    &&& after.name == before.name
    &&& after.task == before.task
    &&& if rows.contains_key(id) && !rows[id].parses() {
        focus == Some(RowFocus::Reused(id)) && blank_at(rows, after.rows(), id)
    } else if rows.contains_key(id) && has_later_row(rows, id) {
        focus is None && after.keys == before.keys
    } else {
        focus is Some && row_readied(before, after, focus->0)
    }
}

/// Some row has a greater id than `id`.
pub open spec fn has_later_row(rows: Map<usize, KeyRow>, id: usize) -> bool {
    exists|j: usize| id < j && #[trigger] rows.contains_key(j)
}

impl RowFocus {
    /// The row that is meant.
    pub open spec fn row(self) -> usize {
        match self {
            RowFocus::Reused(id) => id,
            RowFocus::Added(id) => id,
        }
    }
}

impl AddShortcut {
    /// The rows of the draft, by id.
    pub open spec fn rows(&self) -> Map<usize, KeyRow> {
        rows_of(self.keys)
    }

    /// A closed form without rows.
    pub fn new() -> (r: AddShortcut)
        ensures
            !r.active,
            r.editing is None,
            r.name@.len() == 0,
            r.task@.len() == 0,
            r.rows() == no_rows(),
    {
        AddShortcut {
            active: false,
            editing: None,
            name: String::new(),
            task: String::new(),
            keys: rows_new(),
        }
    }

    /// Opens the form afresh: no name, no command, and the single blank row
    /// 0, which is not being edited.
    pub fn enable(&mut self)
        ensures
            opened(*final(self)),
            at_most_one_unparsed(final(self).rows()),
    {
        self.active = true;
        self.editing = None;
        self.name = String::new();
        self.task = String::new();
        rows_clear(&mut self.keys);
        let id = rows_insert(&mut self.keys, KeyRow::blank());
        assert(self.rows().dom() =~= no_rows().dom().insert(0));
    }

    /// The row with the least id, if the draft has a row.
    pub fn first_row(&self) -> (r: Option<usize>)
        ensures
            match r {
                Some(id) => self.rows().contains_key(id) && forall|j: usize|
                    self.rows().contains_key(j) ==> id <= j,
                None => forall|j: usize| !self.rows().contains_key(j),
            },
    {
        let ids = rows_ids(&self.keys);
        if ids.len() > 0 {
            let id = ids[0];
            proof {
                assert forall|j: usize| self.rows().contains_key(j) implies id <= j by {
                    assert(ids@.contains(j));
                    let m = choose|m: int| 0 <= m < ids@.len() && ids@[m] == j;
                    if m > 0 {
                        assert(ids@[0] < ids@[m]);
                    }
                }
            }
            Some(id)
        } else {
            proof {
                assert forall|j: usize| !self.rows().contains_key(j) by {
                    if self.rows().contains_key(j) {
                        assert(ids@.contains(j));
                    }
                }
            }
            None
        }
    }

    /// Abandons the draft: the form is closed, and nothing of what was typed
    /// is left.
    pub fn clear(&mut self)
        ensures
            !final(self).active,
            cleared(*final(self)),
            at_most_one_unparsed(final(self).rows()),
    {
        self.enable();
        self.active = false;
    }

    /// Whether the draft has a row `id`.
    pub fn has_row(&self, id: usize) -> (r: bool)
        ensures
            r == self.rows().contains_key(id),
    {
        rows_get(&self.keys, id).is_some()
    }

    /// Replaces the text of row `id`. `parsed` is what the text was read as;
    /// for an empty text it is not looked at, since no text names no key.
    pub fn set_key(&mut self, id: usize, text: String, parsed: Option<Binding>)
        requires
            old(self).rows().contains_key(id),
        ensures
            key_set(*old(self), *final(self), id, text, parsed),
            at_most_one_unparsed(old(self).rows()) && (!old(self).rows()[id].parses() || (
            text@.len() != 0 && parsed is Some && parsed->0@.is_set()))
                ==> at_most_one_unparsed(final(self).rows()),
    {
        let binding = if text.as_str().is_empty() {
            None
        } else {
            parsed
        };
        rows_set(&mut self.keys, id, KeyRow { text, binding });
        assert(self.rows().dom() =~= old(self).rows().dom());
    }

    /// Asks for a row to type a key combination into. Where some row does not
    /// parse, be it blank, unreadable or of modifiers alone, the first such
    /// row is emptied and used again;
    /// otherwise a blank row is added under a fresh id and becomes the row
    /// that is being edited.
    pub fn add_keybinding(&mut self) -> (r: RowFocus)
        ensures
            row_readied(*old(self), *final(self), r),
            final(self).editing == match r {
                RowFocus::Reused(_) => old(self).editing,
                RowFocus::Added(id) => Some(id),
            },
            at_most_one_unparsed(old(self).rows()) ==> at_most_one_unparsed(final(self).rows()),
    {
        let ids = rows_ids(&self.keys);
        let mut i: usize = 0;
        while i < ids.len()
            invariant
                i <= ids.len(),
                *self == *old(self),
                in_id_order(ids@, self.rows()),
                forall|j: int| 0 <= j < i ==> (#[trigger] self.rows()[ids[j]]).parses(),
            decreases ids.len() - i,
        {
            let id = ids[i];
            let unparsed = match rows_get(&self.keys, id) {
                Some(row) => !row.is_parsed(),
                None => false,
            };
            if unparsed {
                proof {
                    assert forall|j: usize| j < id && self.rows().contains_key(j) implies (
                    #[trigger] self.rows()[j]).parses() by {
                        assert(ids@.contains(j));
                        let m = choose|m: int| 0 <= m < ids@.len() && ids@[m] == j;
                        if m >= i {
                            if m > i {
                                assert(ids@[i as int] < ids@[m]);
                            }
                            assert(false);
                        }
                    }
                }
                rows_set(&mut self.keys, id, KeyRow::blank());
                assert(self.rows().dom() =~= old(self).rows().dom().insert(id));
                return RowFocus::Reused(id);
            }
            i += 1;
        }
        proof {
            assert forall|id: usize| self.rows().contains_key(id) implies (
            #[trigger] self.rows()[id]).parses() by {
                assert(ids@.contains(id));
            }
        }
        let id = rows_insert(&mut self.keys, KeyRow::blank());
        self.editing = Some(id);
        RowFocus::Added(id)
    }

    /// Ends the editing of row `id`. A row that does not parse is emptied
    /// and keeps the focus; after the last row, a row is
    /// made ready for typing as [`AddShortcut::add_keybinding`] does.
    pub fn end_edit(&mut self, id: usize) -> (focus: Option<RowFocus>)
        ensures
            edit_ended(*old(self), *final(self), id, focus),
            at_most_one_unparsed(old(self).rows()) ==> at_most_one_unparsed(final(self).rows()),
    {
        self.editing = None;
        let ids = rows_ids(&self.keys);
        let (known, parsed) = match rows_get(&self.keys, id) {
            Some(row) => (true, row.is_parsed()),
            None => (false, false),
        };
        if known && !parsed {
            rows_set(&mut self.keys, id, KeyRow::blank());
            assert(self.rows().dom() =~= old(self).rows().dom().insert(id));
            return Some(RowFocus::Reused(id));
        }
        if known && ids.len() > 0 && ids[ids.len() - 1] > id {
            assert(self.rows().contains_key(ids@[ids.len() - 1]));
            return None;
        }
        proof {
            if known && has_later_row(self.rows(), id) {
                let j = choose|j: usize| id < j && #[trigger] self.rows().contains_key(j);
                assert(ids@.contains(j));
                let m = choose|m: int| 0 <= m < ids@.len() && ids@[m] == j;
                if m < ids.len() - 1 {
                    assert(ids@[m] < ids@[ids.len() - 1]);
                }
            }
        }
        let focus = self.add_keybinding();
        self.editing = None;
        assert(row_readied(*old(self), *self, focus));
        Some(focus)
    }

    /// The bindings that the draft proposes: those of the rows that have
    /// text, by ascending row id. There are none to propose, and the result
    /// is `None`, as soon as one row with text did not read as a binding that
    /// names a key.
    pub fn candidates(&self) -> (r: Option<Vec<Binding>>)
        ensures
            r is Some == all_acceptable(self.rows()),
            r is Some ==> exists|ids: Seq<usize>|
                in_id_order(ids, self.rows()) && binding_views(r->0@) == #[trigger] picked(
                    self.rows(),
                    ids,
                ),
    {
        let ids = rows_ids(&self.keys);
        let mut out: Vec<Binding> = Vec::new();
        let mut i: usize = 0;
        assert(binding_views(out@) =~= picked(self.rows(), ids@.take(0)));
        while i < ids.len()
            invariant
                i <= ids.len(),
                in_id_order(ids@, self.rows()),
                forall|j: int| 0 <= j < i ==> (#[trigger] self.rows()[ids[j]]).acceptable(),
                binding_views(out@) == picked(self.rows(), ids@.take(i as int)),
            decreases ids.len() - i,
        {
            let id = ids[i];
            proof {
                let next = ids@.take(i + 1);
                assert(next.drop_last() =~= ids@.take(i as int));
                assert(next.last() == id);
            }
            match rows_get(&self.keys, id) {
                Some(row) => {
                    if !row.text.as_str().is_empty() {
                        match &row.binding {
                            Some(binding) => {
                                if !binding.is_set() {
                                    return None;
                                }
                                let ghost before = out@;
                                out.push(binding.duplicate());
                                assert(binding_views(out@) =~= binding_views(before).push(
                                    binding@,
                                ));
                            },
                            None => {
                                return None;
                            },
                        }
                    }
                },
                None => {},
            }
            i += 1;
        }
        proof {
            assert(ids@.take(i as int) =~= ids@);
            assert forall|id: usize| self.rows().contains_key(id) implies (
            #[trigger] self.rows()[id]).acceptable() by {
                assert(ids@.contains(id));
            }
        }
        Some(out)
    }
}

} // verus!
