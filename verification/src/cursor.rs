//! The selection cursor: an ordinal position paired with the key of the
//! selected row, kept valid while the table under it is rebuilt.
//!
//! After a rebuild the cursor follows its key to the key's new position. If
//! the key is gone, the cursor stays at its ordinal, clamped into the table,
//! and takes the key that now stands there. Over an empty table it rests at
//! ordinal 0 with a blank key.

use crate::order::lemma_ascending_distinct;
use crate::order::OrderedKey;
use crate::order::Placement;
use crate::table::SortedTable;
use vstd::prelude::*;

verus! {

/// The ordinal nearest to `ordinal` in a table of `len` rows; 0 in an empty
/// table.
pub open spec fn clamped(ordinal: int, len: int) -> int {
    if len <= 0 || ordinal < 0 {
        0
    } else if ordinal >= len {
        len - 1
    } else {
        ordinal
    }
}

/// The selection that a request for `ordinal` gives over `keys`: the
/// clamped ordinal with the key that stands there, or ordinal 0 with
/// `blank` over an empty table.
pub open spec fn selection_at<Id>(keys: Seq<Id>, ordinal: int, blank: Id) -> (int, Id) {
    if keys.len() == 0 {
        (0, blank)
    } else {
        (clamped(ordinal, keys.len() as int), keys[clamped(ordinal, keys.len() as int)])
    }
}

/// The selection that `selection` becomes over a rebuilt table with `keys`:
/// it follows its key where the key is still there, and else falls back to
/// its clamped ordinal.
pub open spec fn reconciled<Id>(keys: Seq<Id>, selection: (int, Id), blank: Id) -> (int, Id) {
    if keys.contains(selection.1) {
        (keys.index_of(selection.1), selection.1)
    } else {
        selection_at(keys, selection.0, blank)
    }
}

/// A selection as specifications see it: the ordinal and the identity of
/// the key.
pub open spec fn selection_view<K: OrderedKey>(selection: (usize, K)) -> (int, K::Id) {
    (selection.0 as int, selection.1.id())
}

/// Reconciliation over a table without repeated keys. Where the selected
/// key stands at position `j` of the rebuilt table, the selection moves to
/// `j` and keeps its key, whatever its ordinal was. Where the key is gone
/// from a table that is not empty, the ordinal is clamped into the table
/// and the key is the one found there. Over an empty table the selection is
/// ordinal 0 with the blank key.
pub proof fn lemma_reconciled<Id>(keys: Seq<Id>, ordinal: int, key: Id, blank: Id, j: int)
    requires
        keys.no_duplicates(),
        0 <= ordinal,
    ensures
        0 <= j < keys.len() && keys[j] == key ==> reconciled(keys, (ordinal, key), blank) == (
            j,
            key,
        ),
        !keys.contains(key) && keys.len() > 0 ==> {
            let after = reconciled(keys, (ordinal, key), blank);
            &&& after.0 == if ordinal < keys.len() {
                ordinal
            } else {
                keys.len() - 1
            }
            &&& after.1 == keys[after.0]
        },
        keys.len() == 0 ==> reconciled(keys, (ordinal, key), blank) == (0int, blank),
{
    if 0 <= j < keys.len() && keys[j] == key {
        assert(keys.contains(key));
        keys.index_of_first_ensures(key);
    }
}

/// A selection that is valid over `keys` is left as it is by
/// reconciliation: the cursor moves only when the table changed under it.
pub proof fn lemma_reconciled_is_stable<Id>(keys: Seq<Id>, selection: (int, Id), blank: Id)
    requires
        keys.no_duplicates(),
        0 <= selection.0 < keys.len(),
        keys[selection.0] == selection.1,
    ensures
        reconciled(keys, selection, blank) == selection,
{
    lemma_reconciled(keys, selection.0, selection.1, blank, selection.0);
}

/// After reconciliation over a table that is not empty the selection is
/// valid: its ordinal is a position of the table and its key is the key
/// that stands there.
pub proof fn lemma_reconciled_is_valid<Id>(keys: Seq<Id>, selection: (int, Id), blank: Id)
    requires
        keys.no_duplicates(),
        keys.len() > 0,
    ensures
        0 <= reconciled(keys, selection, blank).0 < keys.len(),
        keys[reconciled(keys, selection, blank).0] == reconciled(keys, selection, blank).1,
{
    if keys.contains(selection.1) {
        keys.index_of_first_ensures(selection.1);
    }
}

/// The ordinal nearest to `ordinal` in a table of `len` rows.
pub fn clamp_ordinal(ordinal: usize, len: usize) -> (r: usize)
    ensures
        r == clamped(ordinal as int, len as int),
{
    if len == 0 {
        0
    } else if ordinal >= len {
        len - 1
    } else {
        ordinal
    }
}

/// Points `selection` at the row nearest to `index`, or at nothing (ordinal
/// 0, the blank key) where the table is empty.
pub fn set_selection<K: OrderedKey, V>(
    table: &SortedTable<K, V>,
    selection: &mut (usize, K),
    index: usize,
    blank: K,
)
    ensures
        selection_view(*final(selection)) == selection_at(
            table.ids(),
            index as int,
            blank.id(),
        ),
{
    let len = table.len();
    if len == 0 {
        *selection = (0, blank);
    } else {
        let ordinal = clamp_ordinal(index, len);
        *selection = (ordinal, table.key_at(ordinal).duplicate());
    }
}

/// Restores `selection` after the table under it was rebuilt.
pub fn reconcile<K: OrderedKey, V>(table: &SortedTable<K, V>, selection: &mut (usize, K), blank: K)
    ensures
        selection_view(*final(selection)) == reconciled(
            table.ids(),
            selection_view(*old(selection)),
            blank.id(),
        ),
{
    let len = table.len();
    proof {
        lemma_ascending_distinct::<K>(table.ids());
        if table.ids().contains(selection.1.id()) {
            table.ids().index_of_first_ensures(selection.1.id());
        }
    }
    // The cheap path: the key still stands where the cursor is.
    if selection.0 < len {
        match table.key_at(selection.0).compare(&selection.1) {
            Placement::Same => {
                return ;
            },
            _ => {},
        }
    }
    match table.position_of(&selection.1) {
        Some(position) => {
            let key = selection.1.duplicate();
            *selection = (position, key);
        },
        None => {
            set_selection(table, selection, selection.0, blank);
        },
    }
}

} // verus!
