//! The key-combination rows of a draft, kept in a slab so that each row keeps
//! the id it was given when it was added.

use crate::binding::Binding;
use slab::Slab;
use vstd::prelude::*;

verus! {

/// One key-combination input: the text typed so far, and the binding that
/// this text was read as when it was typed, if it could be read as one. The
/// row counts as parsed only where it has text and that binding names a key:
/// modifiers alone are no key combination.
pub struct KeyRow {
    pub text: String,
    pub binding: Option<Binding>,
}

impl KeyRow {
    /// Whether the row has no text.
    pub open spec fn is_blank(self) -> bool {
        self.text@.len() == 0
    }

    /// Whether the row has text that was read as a binding that names a key.
    pub open spec fn parses(self) -> bool {
        !self.is_blank() && self.binding is Some && self.binding->0@.is_set()
    }

    /// A row may be submitted when it is blank or parses.
    pub open spec fn acceptable(self) -> bool {
        self.is_blank() || self.parses()
    }

    /// Whether the row has text that was read as a binding that names a key.
    pub fn is_parsed(&self) -> (r: bool)
        ensures
            r == self.parses(),
    {
        if self.text.as_str().is_empty() {
            return false;
        }
        match &self.binding {
            Some(binding) => binding.is_set(),
            None => false,
        }
    }

    /// A row without text.
    pub fn blank() -> (r: KeyRow)
        ensures
            r.is_blank(),
            !r.parses(),
    {
        KeyRow { text: String::new(), binding: None }
    }
}

/// `slab::Slab`, whose inside stays hidden: what a slab of rows holds is
/// [`rows_of`].
#[verifier::external_type_specification]
#[verifier::external_body]
#[verifier::reject_recursive_types(T)]
pub struct ExSlab<T>(Slab<T>);

/// The rows that a slab holds, by id.
pub uninterp spec fn rows_of(rows: Slab<KeyRow>) -> Map<usize, KeyRow>;

/// The id that the slab gives to the next row inserted.
pub uninterp spec fn vacant_of(rows: Slab<KeyRow>) -> usize;

/// The row collection without any row.
pub open spec fn no_rows() -> Map<usize, KeyRow> {
    Map::empty()
}

/// `ids` lists the ids of `rows`, each once, in ascending order.
pub open spec fn in_id_order(ids: Seq<usize>, rows: Map<usize, KeyRow>) -> bool {
    &&& forall|i: int, j: int| 0 <= i < j < ids.len() ==> ids[i] < ids[j]
    &&& forall|i: int| 0 <= i < ids.len() ==> rows.contains_key(#[trigger] ids[i])
    &&& forall|id: usize| rows.contains_key(id) ==> ids.contains(id)
}

/// `Slab::new`: the new slab holds no row, and its first id is 0.
#[verifier::external_body]
pub(crate) fn rows_new() -> (rows: Slab<KeyRow>)
    ensures
        rows_of(rows) == no_rows(),
        vacant_of(rows) == 0,
{
    Slab::new()
}

/// `Slab::clear`: afterwards the slab holds no row, and its next id is 0.
#[verifier::external_body]
pub(crate) fn rows_clear(rows: &mut Slab<KeyRow>)
    ensures
        rows_of(*final(rows)) == no_rows(),
        vacant_of(*final(rows)) == 0,
{
    rows.clear()
}

/// `Slab::insert`: the row is stored under the slab's next id, which no row
/// had, and that id is returned; the other rows stay as they are.
#[verifier::external_body]
pub(crate) fn rows_insert(rows: &mut Slab<KeyRow>, row: KeyRow) -> (id: usize)
    ensures
        id == vacant_of(*old(rows)),
        !rows_of(*old(rows)).contains_key(id),
        rows_of(*final(rows)) == rows_of(*old(rows)).insert(id, row),
{
    rows.insert(row)
}

/// `Slab::get`: the row stored under `id`, if there is one.
#[verifier::external_body]
pub(crate) fn rows_get(rows: &Slab<KeyRow>, id: usize) -> (row: Option<&KeyRow>)
    ensures
        row is Some == rows_of(*rows).contains_key(id),
        row is Some ==> *row->0 == rows_of(*rows)[id],
{
    rows.get(id)
}

/// `IndexMut` of `Slab`: replaces the row stored under `id`, which must
/// exist; the other rows stay as they are.
#[verifier::external_body]
pub(crate) fn rows_set(rows: &mut Slab<KeyRow>, id: usize, row: KeyRow)
    requires
        rows_of(*old(rows)).contains_key(id),
    ensures
        rows_of(*final(rows)) == rows_of(*old(rows)).insert(id, row),
{
    rows[id] = row;
}

/// `Slab::iter`: the ids of the rows, each once, in ascending order.
#[verifier::external_body]
pub(crate) fn rows_ids(rows: &Slab<KeyRow>) -> (ids: Vec<usize>)
    ensures
        in_id_order(ids@, rows_of(*rows)),
{
    rows.iter().map(|(id, _)| id).collect()
}

} // verus!
