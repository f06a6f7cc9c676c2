//! Properties that hold across the table's operations.
use vstd::prelude::*;

use loro::LoroValue;

use crate::engine::{fields_of, imported_lists, TableState};
use crate::keys::cell_key;
use crate::table::{
    appended_ids, cells_in_order, column_of, columns_of, imported, new_column_ok, new_row_ok,
    row_id, row_of, row_ok, LoroTable,
};

verus! {

/// Reading back a snapshot, full or shallow, gives a table with the same
/// rows and columns, the same column records and the same cells: `decode`
/// succeeds on what `encode` or `encode_shallow` wrote for `t`, and for every
/// row the cells that `read_cells` returns, in column order, are those of the
/// same row of `t`.
pub proof fn law_round_trip(t: LoroTable, bytes: Seq<u8>, back: LoroTable)
    requires
        imported_lists(bytes, "cols"@, "rows"@) == Some(t.state()),
        imported_lists(bytes, "cols"@, "rows"@) == Some(back.state()),
    ensures
        imported_lists(bytes, "cols"@, "rows"@) is Some,
        back.rows_view().len() == t.rows_view().len(),
        back.cols_view().len() == t.cols_view().len(),
        columns_of(back.cols_view()) == columns_of(t.cols_view()),
        forall|i: int| 0 <= i < t.rows_view().len() ==> #[trigger] back.rows_view()[i] == t.rows_view()[i],
        forall|i: int| 0 <= i < t.rows_view().len() && #[trigger] t.rows_view()[i] is Some
            ==> cells_in_order(back.cols_view(), row_of(back.rows_view()[i]->0).cells)
                == cells_in_order(t.cols_view(), row_of(t.rows_view()[i]->0).cells),
{
}

/// After an import into a table without columns, every imported row holds one
/// cell per column, and reading its cells in column order gives back the
/// record it was made from.
pub proof fn law_cells_complete(
    old: TableState,
    new: TableState,
    headers: Seq<Seq<char>>,
    records: Seq<Seq<LoroValue>>,
    i: int,
)
    requires
        imported(old, new, headers, records),
        old.0.len() == 0,
        0 <= i < records.len(),
        records[i].len() == headers.len(),
    ensures
        ({
            let row = new.1[old.1.len() + i];
            &&& row is Some
            &&& row_ok(row->0)
            &&& new.0.len() == headers.len()
            &&& forall|j: int| 0 <= j < new.0.len() ==> fields_of(#[trigger] new.0[j]) is Some
            &&& forall|j: int| 0 <= j < new.0.len()
                ==> row_of(row->0).cells.contains_key(cell_key(column_of(#[trigger] new.0[j]).id))
            &&& cells_in_order(new.0, row_of(row->0).cells) == records[i]
        }),
{
    reveal_strlit("id");
    reveal_strlit("height");
    reveal_strlit("cells");
    assert("cells"@.len() == 5 && "id"@.len() == 2 && "height"@.len() == 6);
    let row = new.1[old.1.len() + i];
    let ids = appended_ids(new.0, 0, headers.len() as int);
    assert(new_row_ok(row, ids, records[i]));
    let cells = row->0.maps["cells"@];
    assert forall|j: int| 0 <= j < new.0.len() implies fields_of(#[trigger] new.0[j]) is Some by {
        assert(new_column_ok(new.0[0 + j], headers[j]));
    }
    assert forall|j: int| 0 <= j < new.0.len()
        implies row_of(row->0).cells.contains_key(cell_key(column_of(#[trigger] new.0[j]).id)) by {
        assert(ids[j] == column_of(new.0[0 + j]).id);
        assert(cells.get(cell_key(ids[j])) == Some(records[i][j]));
    }
    assert forall|j: int| 0 <= j < new.0.len()
        implies #[trigger] cells_in_order(new.0, row_of(row->0).cells)[j] == records[i][j] by {
        assert(ids[j] == column_of(new.0[0 + j]).id);
        assert(cells.get(cell_key(ids[j])) == Some(records[i][j]));
    }
    assert(cells_in_order(new.0, row_of(row->0).cells) =~= records[i]);
}

/// Column ids stay pairwise distinct across the whole document, and so do
/// row ids: if they were distinct before an import (as in an empty table),
/// they are distinct after it.
pub proof fn law_ids_unique(
    old: TableState,
    new: TableState,
    headers: Seq<Seq<char>>,
    records: Seq<Seq<LoroValue>>,
)
    requires
        imported(old, new, headers, records),
        forall|k: int| 0 <= k < old.0.len() ==> fields_of(#[trigger] old.0[k]) is Some,
        forall|a: int, b: int| 0 <= a < old.0.len() && 0 <= b < old.0.len() && a != b
            ==> column_of(#[trigger] old.0[a]).id != column_of(#[trigger] old.0[b]).id,
        forall|k: int| 0 <= k < old.1.len() ==> #[trigger] old.1[k] is Some,
        forall|a: int, b: int| 0 <= a < old.1.len() && 0 <= b < old.1.len() && a != b
            ==> row_id(#[trigger] old.1[a]) != row_id(#[trigger] old.1[b]),
    ensures
        forall|a: int, b: int| 0 <= a < new.0.len() && 0 <= b < new.0.len() && a != b
            ==> column_of(#[trigger] new.0[a]).id != column_of(#[trigger] new.0[b]).id,
        forall|a: int, b: int| 0 <= a < new.1.len() && 0 <= b < new.1.len() && a != b
            ==> row_id(#[trigger] new.1[a]) != row_id(#[trigger] new.1[b]),
{
    let n = old.0.len() as int;
    let m = old.1.len() as int;
    let ids = appended_ids(new.0, n, headers.len() as int);
    assert forall|k: int| 0 <= k < n implies #[trigger] new.0[k] == old.0[k] by {
        assert(new.0.take(n)[k] == new.0[k]);
    }
    assert forall|k: int| 0 <= k < m implies #[trigger] new.1[k] == old.1[k] by {
        assert(new.1.take(m)[k] == new.1[k]);
    }
    assert forall|a: int, b: int| 0 <= a < new.0.len() && 0 <= b < new.0.len() && a != b
        implies column_of(#[trigger] new.0[a]).id != column_of(#[trigger] new.0[b]).id by {
        if a >= n && b >= n {
            assert(ids[a - n] == column_of(new.0[n + (a - n)]).id);
            assert(ids[b - n] == column_of(new.0[n + (b - n)]).id);
        } else if a >= n {
            assert(ids[a - n] == column_of(new.0[n + (a - n)]).id);
            assert(ids[a - n] != column_of(old.0[b]).id);
        } else if b >= n {
            assert(ids[b - n] == column_of(new.0[n + (b - n)]).id);
            assert(ids[b - n] != column_of(old.0[a]).id);
        }
    }
    assert forall|a: int, b: int| 0 <= a < new.1.len() && 0 <= b < new.1.len() && a != b
        implies row_id(#[trigger] new.1[a]) != row_id(#[trigger] new.1[b]) by {
        if a >= m && b >= m {
            assert(new.1[m + (a - m)] == new.1[a]);
            assert(new.1[m + (b - m)] == new.1[b]);
        } else if a >= m {
            assert(new.1[m + (a - m)] == new.1[a]);
            assert(row_id(new.1[m + (a - m)]) != row_id(old.1[b]));
        } else if b >= m {
            assert(new.1[m + (b - m)] == new.1[b]);
            assert(row_id(new.1[m + (b - m)]) != row_id(old.1[a]));
        }
    }
}

} // verus!
