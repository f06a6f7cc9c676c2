//! A table in a Loro document: the root list `cols` holds one plain record per
//! column (`id`, `name`, `width`); the root list `rows` holds one map container
//! per row (`id`, `height`, and a nested map `cells` keyed by `cell_key` of the
//! column id).
use vstd::prelude::*;

use std::collections::HashSet;

use loro::{LoroDoc, LoroEncodeError, LoroError, LoroMap, LoroValue};

use crate::engine::{
    all_scalar, as_int, is_shallow, detached_of, shallow_of, scalar_record, as_text, attached_of, copy_value, detached_editing, editable, export_shallow,
    export_snapshot, field, fields_from_pairs, fields_of, import_doc, imported_lists, int_of,
    int_value, is_detached, is_double, is_map, list_items, list_len, list_map_at, list_maps,
    list_push, list_push_map, list_values, map_get, map_has_container, map_get_map, map_insert,
    map_insert_map, map_view, new_map, record_value, scalar, text_of, text_value, MapView,
    TableState,
};
use crate::ids::next_unique_id;
use crate::keys::{cell_key, cell_key_of, lemma_cell_key_injective};

verus! {

broadcast use vstd::std_specs::hash::group_hash_axioms;

/// The width a column is given on import.
pub const COLUMN_WIDTH: i64 = 130;

/// The height a row is given on import.
pub const ROW_HEIGHT: i64 = 30;

/// The root list that holds the column records.
pub const COLS: &'static str = "cols";

/// The root list that holds the row containers.
pub const ROWS: &'static str = "rows";

/// Why an import stopped.
#[derive(Debug)]
pub enum ImportError {
    /// A source record could not be read (raised where the source is read).
    MalformedRecord(String),
    /// The record at this index has a different number of fields than the
    /// header.
    ShapeMismatch(usize),
    /// The columns or rows would be more than 32-bit ids or a 32-bit cell
    /// count can cover.
    TooLarge,
    /// The cell at this record and field is not an integer, a float or a
    /// string.
    InvalidCell(usize, usize),
    /// The document refused a write.
    Engine(LoroError),
}

/// Why a snapshot could not be read.
#[derive(Debug)]
pub enum DecodeError {
    Corrupt(LoroError),
}

/// Why a snapshot could not be written.
#[derive(Debug)]
pub enum EncodeError {
    /// The document is checked out at an older version.
    Detached,
    Engine(LoroEncodeError),
}

/// A table kept in a Loro document.
#[derive(Debug)]
pub struct LoroTable {
    doc: LoroDoc,
}

/// A column as read from its record.
pub struct Column {
    pub id: i64,
    pub name: String,
    pub width: u32,
}

pub struct ColumnView {
    pub id: i64,
    pub name: Seq<char>,
    pub width: u32,
}

impl View for Column {
    type V = ColumnView;

    open spec fn view(&self) -> ColumnView {
        ColumnView { id: self.id, name: self.name@, width: self.width }
    }
}

/// The integer under a key, or zero where it is missing or not an integer.
pub open spec fn int_or_zero(v: Option<LoroValue>) -> i64 {
    match v {
        Some(x) => match int_of(x) {
            Some(n) => n,
            None => 0,
        },
        None => 0,
    }
}

/// The text under a key, or the empty text where it is missing or not a string.
pub open spec fn text_or_empty(v: Option<LoroValue>) -> Seq<char> {
    match v {
        Some(x) => match text_of(x) {
            Some(t) => t,
            None => Seq::empty(),
        },
        None => Seq::empty(),
    }
}

/// The low 32 bits of an integer.
pub open spec fn low_u32(n: i64) -> u32 {
    (n as int % 0x1_0000_0000) as u32
}

/// The column a record stands for; a missing or ill-typed attribute reads as
/// zero or empty.
pub open spec fn column_of(v: LoroValue) -> ColumnView {
    let f = fields_of(v)->0;
    ColumnView {
        id: int_or_zero(f.get("id"@)),
        name: text_or_empty(f.get("name"@)),
        width: low_u32(int_or_zero(f.get("width"@))),
    }
}

/// The columns that the map records of a list stand for, in order; other
/// items are passed over.
pub open spec fn columns_of(items: Seq<LoroValue>) -> Seq<ColumnView>
    decreases items.len(),
{
    if items.len() == 0 {
        Seq::empty()
    } else if fields_of(items.last()) is Some {
        columns_of(items.drop_last()).push(column_of(items.last()))
    } else {
        columns_of(items.drop_last())
    }
}

/// An id that fits in 32 signed bits.
pub open spec fn in_i32(id: i64) -> bool {
    i32::MIN <= id <= i32::MAX
}

/// The 32-bit pattern of an id in signed 32-bit range.
pub open spec fn id_code(id: i64) -> u32 {
    if id >= 0 { id as u32 } else { (id + 0x1_0000_0000) as u32 }
}

/// A 32-bit pattern read as a signed 32-bit number, widened to 64 bits.
pub open spec fn id_of_code(x: u32) -> i64 {
    if x < 0x8000_0000 { x as i64 } else { (x as int - 0x1_0000_0000) as i64 }
}

/// A record written on import for a column named `name`.
pub open spec fn new_column_ok(v: LoroValue, name: Seq<char>) -> bool {
    &&& fields_of(v) is Some
    &&& fields_of(v)->0.dom() == set!["id"@, "name"@, "width"@]
    &&& in_i32(column_of(v).id)
    &&& column_of(v).name == name
    &&& column_of(v).width == COLUMN_WIDTH
}

/// The cells of a row written on import: under the key of each column id, the
/// value of the field in that column, and nothing else.
pub open spec fn cells_hold(cells: Map<Seq<char>, LoroValue>, ids: Seq<i64>, rec: Seq<LoroValue>) -> bool {
    &&& forall|k: Seq<char>| #[trigger] cells.contains_key(k) <==> exists|j: int| 0 <= j < ids.len() && k == cell_key(ids[j])
    &&& forall|j: int| 0 <= j < ids.len() ==> cells.get(cell_key(#[trigger] ids[j])) == Some(rec[j])
}

/// The id of a row container.
pub open spec fn row_id(row: Option<MapView>) -> i64 {
    int_or_zero(row->0.values.get("id"@))
}

/// A row container written on import for the record `rec`, under columns with
/// ids `ids`.
pub open spec fn new_row_ok(row: Option<MapView>, ids: Seq<i64>, rec: Seq<LoroValue>) -> bool {
    &&& row is Some
    &&& row->0.values.dom() == set!["id"@, "height"@]
    &&& int_of(row->0.values["id"@]) is Some
    &&& in_i32(row_id(row))
    &&& int_of(row->0.values["height"@]) == Some(ROW_HEIGHT)
    &&& row->0.maps.dom() == set!["cells"@]
    &&& row->0.containers == set!["cells"@]
    &&& cells_hold(row->0.maps["cells"@], ids, rec)
}

/// The ids of the `n` columns appended after the first `base` items.
pub open spec fn appended_ids(cols: Seq<LoroValue>, base: int, n: int) -> Seq<i64> {
    Seq::new(n as nat, |j: int| column_of(cols[base + j]).id)
}

/// What an import of `headers` and `records` makes of the state `old`: one
/// column record per header and one row container per record appended. The
/// new column ids differ from each other and from the id of every column
/// already there; the same holds of the new row ids among the rows.
pub open spec fn imported(
    old: TableState,
    new: TableState,
    headers: Seq<Seq<char>>,
    records: Seq<Seq<LoroValue>>,
) -> bool {
    let ids = appended_ids(new.0, old.0.len() as int, headers.len() as int);
    &&& new.0.len() == old.0.len() + headers.len()
    &&& new.0.take(old.0.len() as int) == old.0
    &&& new.1.len() == old.1.len() + records.len()
    &&& new.1.take(old.1.len() as int) == old.1
    &&& forall|j: int| 0 <= j < headers.len() ==> new_column_ok(#[trigger] new.0[old.0.len() + j], headers[j])
    &&& forall|a: int, b: int| 0 <= a < headers.len() && 0 <= b < headers.len() && a != b ==> #[trigger] ids[a] != #[trigger] ids[b]
    &&& forall|a: int, k: int| 0 <= a < headers.len() && 0 <= k < old.0.len() && fields_of(old.0[k]) is Some
        ==> #[trigger] ids[a] != column_of(#[trigger] old.0[k]).id
    &&& forall|i: int| 0 <= i < records.len() ==> new_row_ok(#[trigger] new.1[old.1.len() + i], ids, records[i])
    &&& forall|a: int, b: int| 0 <= a < records.len() && 0 <= b < records.len() && a != b
        ==> row_id(#[trigger] new.1[old.1.len() + a]) != row_id(#[trigger] new.1[old.1.len() + b])
    &&& forall|a: int, k: int| 0 <= a < records.len() && 0 <= k < old.1.len() && old.1[k] is Some
        ==> row_id(#[trigger] new.1[old.1.len() + a]) != row_id(#[trigger] old.1[k])
}

/// Both lists of `old` stay at the front of those of `new`.
pub open spec fn kept(old: TableState, new: TableState) -> bool {
    &&& old.0.len() <= new.0.len()
    &&& new.0.take(old.0.len() as int) == old.0
    &&& old.1.len() <= new.1.len()
    &&& new.1.take(old.1.len() as int) == old.1
}

/// Every cell of every record is an integer, a float or a string.
pub open spec fn all_cells_scalar(records: Seq<Vec<LoroValue>>) -> bool {
    forall|i: int, j: int| 0 <= i < records.len() && 0 <= j < records[i]@.len() ==> scalar(#[trigger] records[i]@[j])
}

pub open spec fn texts(v: Seq<String>) -> Seq<Seq<char>> {
    v.map_values(|h: String| h@)
}

pub open spec fn records_view(v: Seq<Vec<LoroValue>>) -> Seq<Seq<LoroValue>> {
    v.map_values(|r: Vec<LoroValue>| r@)
}

/// Whether the record at `k` has another number of fields than `n`.
pub open spec fn ragged(records: Seq<Vec<LoroValue>>, k: int, n: nat) -> bool {
    records[k]@.len() != n
}

/// A row as read from its container.
pub struct Row {
    pub id: i64,
    pub height: u32,
    pub cells: LoroMap,
}

pub struct RowView {
    pub id: i64,
    pub height: u32,
    pub cells: Map<Seq<char>, LoroValue>,
}

impl View for Row {
    type V = RowView;

    open spec fn view(&self) -> RowView {
        RowView { id: self.id, height: self.height, cells: map_view(self.cells).values }
    }
}

/// The rows of a table, read one at a time by position.
pub struct Rows<'a> {
    table: &'a LoroTable,
}

/// A row container that can be read: `id` and `height`, where present, are
/// integers, and `cells` is a nested map.
pub open spec fn row_ok(m: MapView) -> bool {
    &&& (m.values.contains_key("id"@) ==> int_of(m.values["id"@]) is Some)
    &&& (m.values.contains_key("height"@) ==> int_of(m.values["height"@]) is Some)
    &&& !m.containers.contains("id"@)
    &&& !m.containers.contains("height"@)
    &&& m.maps.contains_key("cells"@)
}

/// The row a container stands for; a missing `id` or `height` reads as zero.
pub open spec fn row_of(m: MapView) -> RowView {
    RowView {
        id: int_or_zero(m.values.get("id"@)),
        height: low_u32(int_or_zero(m.values.get("height"@))),
        cells: m.maps["cells"@],
    }
}

/// Every item of `rows` is a row container that can be read.
pub open spec fn rows_ok(rows: Seq<Option<MapView>>) -> bool {
    forall|i: int| 0 <= i < rows.len() ==> (#[trigger] rows[i] is Some && row_ok(rows[i]->0))
}

/// The cells of a row in column order: for each column record, the value
/// under the key of its id.
pub open spec fn cells_in_order(cols: Seq<LoroValue>, cells: Map<Seq<char>, LoroValue>) -> Seq<LoroValue> {
    cols.map_values(|v: LoroValue| cells[cell_key(column_of(v).id)])
}

proof fn lemma_kept_refl(s: TableState)
    ensures
        kept(s, s),
{
    assert(s.0.take(s.0.len() as int) =~= s.0);
    assert(s.1.take(s.1.len() as int) =~= s.1);
}

proof fn lemma_root_names_differ()
    ensures
        "cols"@ != "rows"@,
{
    reveal_strlit("cols");
    reveal_strlit("rows");
    assert("cols"@[0] != "rows"@[0]);
}

/// Widens a 32-bit pattern to a 64-bit id, sign-extended.
fn code_to_id(x: u32) -> (r: i64)
    ensures
        r == id_of_code(x),
        in_i32(r),
        id_code(r) == x,
{
    if x < 0x8000_0000 {
        x as i64
    } else {
        x as i64 - 0x1_0000_0000
    }
}

/// The 32-bit pattern of an id in signed 32-bit range.
fn id_to_code(id: i64) -> (r: u32)
    requires
        in_i32(id),
    ensures
        r == id_code(id),
{
    if id >= 0 {
        id as u32
    } else {
        (id + 0x1_0000_0000) as u32
    }
}

/// Whether a value is an integer, a float or a string.
pub fn is_scalar(v: &LoroValue) -> (r: bool)
    ensures
        r == scalar(*v),
{
    as_int(v).is_some() || as_text(v).is_some() || is_double(v)
}

/// The record of a column: its id, its name and the import width.
fn column_record(id: i64, name: &str) -> (r: LoroValue)
    ensures
        fields_of(r) is Some,
        fields_of(r)->0.dom() == set!["id"@, "name"@, "width"@],
        scalar_record(r),
        column_of(r) == (ColumnView { id, name: name@, width: COLUMN_WIDTH as u32 }),
{
    let pairs: Vec<(String, LoroValue)> = vec![
        ("id".to_owned(), int_value(id)),
        ("name".to_owned(), text_value(name)),
        ("width".to_owned(), int_value(COLUMN_WIDTH)),
    ];
    let r = record_value(pairs);
    proof {
        reveal_strlit("id");
        reveal_strlit("name");
        reveal_strlit("width");
        reveal_with_fuel(fields_from_pairs, 4);
        assert("id"@.len() == 2 && "name"@.len() == 4 && "width"@.len() == 5);
        let f = fields_from_pairs(pairs@);
        let p = pairs@;
        assert(p.drop_last().drop_last().drop_last() =~= Seq::<(String, LoroValue)>::empty());
        let g = Map::<Seq<char>, LoroValue>::empty().insert("id"@, p[0].1).insert("name"@, p[1].1).insert("width"@, p[2].1);
        assert(f =~= g);
        assert(f.dom() =~= set!["id"@, "name"@, "width"@]);
        assert(f.get("width"@) == Some(p[2].1));
        assert(int_or_zero(f.get("width"@)) == COLUMN_WIDTH);
        assert(f.get("id"@) == Some(p[0].1));
        assert(f.get("name"@) == Some(p[1].1));
        assert(scalar(p[0].1) && scalar(p[1].1) && scalar(p[2].1));
    }
    r
}

fn int_field_or_zero(v: &LoroValue, key: &str) -> (r: i64)
    ensures
        fields_of(*v) is Some ==> r == int_or_zero(fields_of(*v)->0.get(key@)),
{
    match field(v, key) {
        Some(x) => match as_int(&x) {
            Some(n) => n,
            None => 0,
        },
        None => 0,
    }
}

fn truncate_u32(n: i64) -> (r: u32)
    ensures
        r == low_u32(n),
{
    let m: i64 = n % 0x1_0000_0000;
    let m: i64 = if m < 0 { m + 0x1_0000_0000 } else { m };
    m as u32
}

impl Column {
    /// Reads a column from its record, which must be a map value.
    pub fn from_loro_value(value: LoroValue) -> (r: Column)
        requires
            fields_of(value) is Some,
        ensures
            r@ == column_of(value),
    {
        let id = int_field_or_zero(&value, "id");
        let name = match field(&value, "name") {
            Some(x) => match as_text(&x) {
                Some(s) => s,
                None => String::new(),
            },
            None => String::new(),
        };
        let width = truncate_u32(int_field_or_zero(&value, "width"));
        Column { id, name, width }
    }
}

/// Whether a row container can be read as a row.
fn map_readable(m: &LoroMap) -> (r: bool)
    ensures
        r == row_ok(map_view(*m)),
{
    let id_ok = match map_get(m, "id") {
        Some(v) => as_int(&v).is_some(),
        None => true,
    };
    let height_ok = match map_get(m, "height") {
        Some(v) => as_int(&v).is_some(),
        None => true,
    };
    id_ok && height_ok && !map_has_container(m, "id") && !map_has_container(m, "height")
        && map_get_map(m, "cells").is_some()
}

impl Row {
    /// Whether every column is a record and the row holds a cell for each, as
    /// `read_cells` needs.
    pub fn has_all_cells(&self, table: &LoroTable) -> (r: bool)
        ensures
            r == ((forall|j: int| 0 <= j < table.cols_view().len() ==> fields_of(#[trigger] table.cols_view()[j]) is Some)
                && (forall|j: int| 0 <= j < table.cols_view().len()
                ==> self@.cells.contains_key(cell_key(column_of(#[trigger] table.cols_view()[j]).id)))),
    {
        if !table.cols_are_records() {
            return false;
        }
        let cols = table.cols();
        let mut j: usize = 0;
        while j < cols.len()
            invariant
                cols.len() == table.cols_view().len(),
                forall|a: int| 0 <= a < cols.len() ==> (#[trigger] cols[a])@ == column_of(table.cols_view()[a]),
                forall|a: int| 0 <= a < table.cols_view().len() ==> fields_of(#[trigger] table.cols_view()[a]) is Some,
                j <= cols.len(),
                forall|a: int| 0 <= a < j ==> self@.cells.contains_key(cell_key(column_of(#[trigger] table.cols_view()[a]).id)),
            decreases cols.len() - j,
        {
            let key = cell_key_of(cols[j].id);
            assert(cols[j as int]@ == column_of(table.cols_view()[j as int]));
            if map_get(&self.cells, key.as_str()).is_none() {
                return false;
            }
            j = j + 1;
        }
        true
    }

    /// Reads a row from its container, which must hold a nested map `cells`
    /// and, under `id` and `height`, nothing but integers.
    pub fn new_from_map(map: LoroMap) -> (r: Row)
        requires
            row_ok(map_view(map)),
        ensures
            r@ == row_of(map_view(map)),
    {
        let id = match map_get(&map, "id") {
            Some(v) => match as_int(&v) {
                Some(n) => n,
                None => 0,
            },
            None => 0,
        };
        let height = match map_get(&map, "height") {
            Some(v) => match as_int(&v) {
                Some(n) => truncate_u32(n),
                None => 0,
            },
            None => 0,
        };
        let cells = match map_get_map(&map, "cells") {
            Some(c) => c,
            None => new_map(),
        };
        Row { id, height, cells }
    }

    /// The row's cells in the table's column order. Every column must be a
    /// record, and the row must hold a cell for each.
    pub fn read_cells(&self, table: &LoroTable) -> (r: Vec<LoroValue>)
        requires
            forall|j: int| 0 <= j < table.cols_view().len() ==> fields_of(#[trigger] table.cols_view()[j]) is Some,
            forall|j: int| 0 <= j < table.cols_view().len()
                ==> self@.cells.contains_key(cell_key(column_of(#[trigger] table.cols_view()[j]).id)),
        ensures
            r@ == cells_in_order(table.cols_view(), self@.cells),
    {
        let cols = table.cols();
        let mut out: Vec<LoroValue> = Vec::new();
        let mut j: usize = 0;
        while j < cols.len()
            invariant
                cols.len() == table.cols_view().len(),
                forall|a: int| 0 <= a < cols.len() ==> (#[trigger] cols[a])@ == column_of(table.cols_view()[a]),
                forall|a: int| 0 <= a < table.cols_view().len()
                    ==> self@.cells.contains_key(cell_key(column_of(#[trigger] table.cols_view()[a]).id)),
                j <= cols.len(),
                out@ =~= cells_in_order(table.cols_view(), self@.cells).take(j as int),
            decreases cols.len() - j,
        {
            let key = cell_key_of(cols[j].id);
            assert(cols[j as int]@ == column_of(table.cols_view()[j as int]));
            let v = match map_get(&self.cells, key.as_str()) {
                Some(v) => v,
                None => int_value(0),
            };
            out.push(v);
            j = j + 1;
        }
        out
    }
}

impl<'a> Rows<'a> {
    /// The items of the table's `rows`.
    pub closed spec fn rows_view(&self) -> Seq<Option<MapView>> {
        self.table.rows_view()
    }

    /// The row at position `i`, or `None` past the end.
    pub fn get(&self, i: usize) -> (r: Option<Row>)
        requires
            i < self.rows_view().len() ==> (self.rows_view()[i as int] is Some
                && row_ok(self.rows_view()[i as int]->0)),
        ensures
            r is Some <==> i < self.rows_view().len(),
            r is Some ==> r->0@ == row_of(self.rows_view()[i as int]->0),
    {
        match list_map_at(&self.table.doc, ROWS, i) {
            Some(m) => Some(Row::new_from_map(m)),
            None => None,
        }
    }

    /// Whether every item of `rows` is a readable row, as `iter` and `get`
    /// need.
    pub fn all_readable(&self) -> (r: bool)
        ensures
            r == rows_ok(self.rows_view()),
    {
        let n = self.table.row_count();
        let mut i: usize = 0;
        while i < n
            invariant
                n == self.rows_view().len(),
                i <= n,
                forall|a: int| 0 <= a < i ==> (#[trigger] self.rows_view()[a] is Some && row_ok(self.rows_view()[a]->0)),
            decreases n - i,
        {
            match list_map_at(&self.table.doc, ROWS, i) {
                Some(m) => {
                    if !map_readable(&m) {
                        return false;
                    }
                },
                None => {
                    return false;
                },
            }
            i = i + 1;
        }
        true
    }

    /// All rows, in order. Every item of `rows` must be a readable row.
    pub fn iter(&self) -> (r: Vec<Row>)
        requires
            rows_ok(self.rows_view()),
        ensures
            r.len() == self.rows_view().len(),
            forall|i: int| 0 <= i < r.len() ==> (#[trigger] r[i])@ == row_of(self.rows_view()[i]->0),
    {
        let n = self.table.row_count();
        let mut out: Vec<Row> = Vec::new();
        let mut i: usize = 0;
        while i < n
            invariant
                rows_ok(self.rows_view()),
                n == self.rows_view().len(),
                i == out.len(),
                i <= n,
                forall|a: int| 0 <= a < out.len() ==> (#[trigger] out[a])@ == row_of(self.rows_view()[a]->0),
            decreases n - i,
        {
            match self.get(i) {
                Some(row) => {
                    out.push(row);
                },
                None => {},
            }
            i = i + 1;
        }
        out
    }
}

impl LoroTable {
    /// The items of `cols` and of `rows`.
    pub closed spec fn state(&self) -> TableState {
        (list_items(self.doc, "cols"@), list_maps(self.doc, "rows"@))
    }

    pub open spec fn cols_view(&self) -> Seq<LoroValue> {
        self.state().0
    }

    pub open spec fn rows_view(&self) -> Seq<Option<MapView>> {
        self.state().1
    }

    /// A table over the lists `cols` and `rows` of `doc`.
    pub fn new(doc: LoroDoc) -> (r: LoroTable)
        ensures
            r.cols_view() == list_items(doc, "cols"@),
            r.rows_view() == list_maps(doc, "rows"@),
            r.editable() == editable(doc),
    {
        LoroTable { doc }
    }

    pub fn row_count(&self) -> (r: usize)
        ensures
            r == self.rows_view().len(),
    {
        list_len(&self.doc, ROWS)
    }

    pub fn col_count(&self) -> (r: usize)
        ensures
            r == self.cols_view().len(),
    {
        list_len(&self.doc, COLS)
    }

    /// Whether the document is checked out at an older version.
    pub closed spec fn detached(&self) -> bool {
        detached_of(self.doc)
    }

    /// Whether the document holds only the history since some version.
    pub closed spec fn shallow(&self) -> bool {
        shallow_of(self.doc)
    }

    /// Whether the document is checked out at an older version.
    pub fn is_detached(&self) -> (r: bool)
        ensures
            r == self.detached(),
    {
        is_detached(&self.doc)
    }

    /// Whether the document holds only the history since some version.
    pub fn is_shallow(&self) -> (r: bool)
        ensures
            r == self.shallow(),
    {
        is_shallow(&self.doc)
    }

    /// Whether the document takes edits.
    pub closed spec fn editable(&self) -> bool {
        editable(self.doc)
    }

    /// Whether the document takes edits: it is not checked out at an older
    /// version, or it allows editing while checked out.
    pub fn can_edit(&self) -> (r: bool)
        ensures
            r == self.editable(),
    {
        !is_detached(&self.doc) || detached_editing(&self.doc)
    }

    /// The 32-bit patterns of the ids of the columns already in the table.
    fn column_codes(&self) -> (s: HashSet<u32>)
        ensures
            s@.finite(),
            s@.len() <= self.cols_view().len(),
            forall|k: int| 0 <= k < self.cols_view().len() && fields_of(#[trigger] self.cols_view()[k]) is Some
                && in_i32(column_of(self.cols_view()[k]).id) ==> s@.contains(id_code(column_of(self.cols_view()[k]).id)),
    {
        let items = list_values(&self.doc, COLS);
        let mut s: HashSet<u32> = HashSet::new();
        let mut k: usize = 0;
        while k < items.len()
            invariant
                items@ == self.cols_view(),
                k <= items.len(),
                s@.finite(),
                s@.len() <= k,
                forall|a: int| 0 <= a < k && fields_of(#[trigger] items@[a]) is Some && in_i32(column_of(items@[a]).id)
                    ==> s@.contains(id_code(column_of(items@[a]).id)),
            decreases items.len() - k,
        {
            if is_map(&items[k]) {
                let id = int_field_or_zero(&items[k], "id");
                if i32::MIN as i64 <= id && id <= i32::MAX as i64 {
                    s.insert(id_to_code(id));
                }
            }
            k = k + 1;
        }
        s
    }

    /// The 32-bit patterns of the ids of the rows already in the table.
    fn row_codes(&self) -> (s: HashSet<u32>)
        ensures
            s@.finite(),
            s@.len() <= self.rows_view().len(),
            forall|k: int| 0 <= k < self.rows_view().len() && #[trigger] self.rows_view()[k] is Some
                && in_i32(row_id(self.rows_view()[k])) ==> s@.contains(id_code(row_id(self.rows_view()[k]))),
    {
        let n = list_len(&self.doc, ROWS);
        let mut s: HashSet<u32> = HashSet::new();
        let mut k: usize = 0;
        while k < n
            invariant
                n == self.rows_view().len(),
                k <= n,
                s@.finite(),
                s@.len() <= k,
                forall|a: int| 0 <= a < k && #[trigger] self.rows_view()[a] is Some && in_i32(row_id(self.rows_view()[a]))
                    ==> s@.contains(id_code(row_id(self.rows_view()[a]))),
            decreases n - k,
        {
            match list_map_at(&self.doc, ROWS, k) {
                Some(m) => {
                    let id = match map_get(&m, "id") {
                        Some(v) => match as_int(&v) {
                            Some(x) => x,
                            None => 0,
                        },
                        None => 0,
                    };
                    if i32::MIN as i64 <= id && id <= i32::MAX as i64 {
                        s.insert(id_to_code(id));
                    }
                },
                None => {},
            }
            k = k + 1;
        }
        s
    }

    /// Appends one column per header and one row per record, each cell the
    /// field of the record in that column; returns the number of cells
    /// written. Every record must have as many fields as there are headers,
    /// and every cell must be an integer, a float or a string; otherwise the
    /// first offending record or cell is reported and nothing is written. On a
    /// document that takes edits the import then succeeds; a write that the
    /// document refuses ends it, and what was written stays.
    pub fn import(&mut self, headers: &Vec<String>, records: &Vec<Vec<LoroValue>>) -> (r: Result<u32, ImportError>)
        requires
            old(self).cols_view().len() + headers.len() <= u32::MAX,
            old(self).rows_view().len() + records.len() <= u32::MAX,
            headers.len() * records.len() <= u32::MAX,
        ensures
            (exists|k: int| 0 <= k < records.len() && ragged(records@, k, headers.len() as nat))
                <==> r matches Err(ImportError::ShapeMismatch(_)),
            r matches Err(ImportError::ShapeMismatch(k)) ==> {
                &&& k < records.len()
                &&& ragged(records@, k as int, headers.len() as nat)
                &&& forall|i: int| 0 <= i < k ==> !ragged(records@, i, headers.len() as nat)
            },
            (forall|k: int| 0 <= k < records.len() ==> !ragged(records@, k, headers.len() as nat))
                ==> (!all_cells_scalar(records@) <==> r matches Err(ImportError::InvalidCell(_, _))),
            r matches Err(ImportError::InvalidCell(i, j)) ==> i < records.len() && j < records[i as int].len()
                && !scalar(records[i as int][j as int]),
            (r matches Err(ImportError::ShapeMismatch(_)) || r matches Err(ImportError::InvalidCell(_, _)))
                ==> final(self).state() == old(self).state(),
            (forall|k: int| 0 <= k < records.len() ==> !ragged(records@, k, headers.len() as nat))
                && all_cells_scalar(records@) && old(self).editable() ==> r is Ok,
            !(r matches Err(ImportError::MalformedRecord(_))),
            kept(old(self).state(), final(self).state()),
            r matches Ok(n) ==> {
                &&& n == headers.len() * records.len()
                &&& imported(old(self).state(), final(self).state(), texts(headers@), records_view(records@))
            },
    {
        let n_cols = headers.len();
        let mut i: usize = 0;
        while i < records.len()
            invariant
                i <= records.len(),
                n_cols == headers.len(),
                forall|ii: int| 0 <= ii < i ==> !ragged(records@, ii, n_cols as nat),
            decreases records.len() - i,
        {
            if records[i].len() != n_cols {
                assert(ragged(records@, i as int, headers.len() as nat));
                proof {
                    lemma_kept_refl(self.state());
                }
                return Err(ImportError::ShapeMismatch(i));
            }
            i = i + 1;
        }
        let mut i: usize = 0;
        while i < records.len()
            invariant
                i <= records.len(),
                n_cols == headers.len(),
                self.state() == old(self).state(),
                forall|ii: int| 0 <= ii < records.len() ==> !ragged(records@, ii, n_cols as nat),
                forall|ii: int, jj: int| 0 <= ii < i && 0 <= jj < records@[ii]@.len() ==> scalar(#[trigger] records@[ii]@[jj]),
            decreases records.len() - i,
        {
            let rec = &records[i];
            let mut j: usize = 0;
            while j < rec.len()
                invariant
                    i < records.len(),
                    rec@ == records@[i as int]@,
                    n_cols == headers.len(),
                    self.state() == old(self).state(),
                    j <= rec.len(),
                    forall|ii: int| 0 <= ii < records.len() ==> !ragged(records@, ii, n_cols as nat),
                    forall|ii: int, jj: int| 0 <= ii < i && 0 <= jj < records@[ii]@.len() ==> scalar(#[trigger] records@[ii]@[jj]),
                    forall|jj: int| 0 <= jj < j ==> scalar(#[trigger] rec@[jj]),
                decreases rec.len() - j,
            {
                if !is_scalar(&rec[j]) {
                    proof {
                        lemma_kept_refl(self.state());
                    }
                    return Err(ImportError::InvalidCell(i, j));
                }
                j = j + 1;
            }
            assert forall|ii: int, jj: int| 0 <= ii < i + 1 && 0 <= jj < records@[ii]@.len()
                implies scalar(#[trigger] records@[ii]@[jj]) by {
                if ii == i {
                    assert(records@[ii]@[jj] == rec@[jj]);
                }
            }
            i = i + 1;
        }
        assert(all_cells_scalar(records@));
        let ghost old_state = self.state();
        let ghost ed = editable(self.doc);
        let ghost base = old_state.0.len() as int;
        let mut col_set = self.column_codes();
        let ghost seed = col_set@;
        let mut col_ids: Vec<i64> = Vec::new();
        let mut j: usize = 0;
        while j < n_cols
            invariant
                n_cols == headers.len(),
                base == old_state.0.len(),
                base + n_cols <= u32::MAX,
                j <= n_cols,
                editable(self.doc) == ed,
                old_state == old(self).state(),
                ed == old(self).editable(),
                col_ids.len() == j,
                col_set@.finite(),
                col_set@.len() <= base + j,
                forall|u: u32| seed.contains(u) ==> col_set@.contains(u),
                forall|k: int| 0 <= k < base && fields_of(#[trigger] old_state.0[k]) is Some
                    && in_i32(column_of(old_state.0[k]).id) ==> seed.contains(id_code(column_of(old_state.0[k]).id)),
                forall|a: int| 0 <= a < j ==> col_set@.contains(id_code(#[trigger] col_ids[a])),
                forall|a: int| 0 <= a < j ==> in_i32(#[trigger] col_ids[a]),
                forall|a: int, b: int| 0 <= a < j && 0 <= b < j && a != b ==> #[trigger] col_ids[a] != #[trigger] col_ids[b],
                forall|a: int, k: int| 0 <= a < j && 0 <= k < base && fields_of(old_state.0[k]) is Some
                    ==> #[trigger] col_ids[a] != column_of(#[trigger] old_state.0[k]).id,
                self.state().1 == old_state.1,
                self.state().0.len() == base + j,
                self.state().0.take(base) == old_state.0,
                forall|a: int| 0 <= a < j ==> new_column_ok(#[trigger] self.state().0[base + a], headers[a]@),
                forall|a: int| 0 <= a < j ==> column_of(#[trigger] self.state().0[base + a]).id == col_ids[a],
                forall|ii: int| 0 <= ii < records.len() ==> !ragged(records@, ii, n_cols as nat),
                all_cells_scalar(records@),
            decreases n_cols - j,
        {
            let code = next_unique_id(&mut col_set);
            let id64 = code_to_id(code);
            let name = headers[j].as_str();
            let rec = column_record(id64, name);
            let ghost before = self.state();
            proof {
                lemma_root_names_differ();
            }
            match list_push(&mut self.doc, COLS, rec) {
                Ok(()) => {},
                Err(e) => {
                    assert(self.state() == before);
                    assert(old_state.1.take(old_state.1.len() as int) =~= old_state.1);
                    return Err(ImportError::Engine(e));
                },
            }
            proof {
                lemma_root_names_differ();
                let now = self.state().0;
                assert(now == before.0.push(rec));
                assert(self.state().1 == before.1);
                assert forall|k: int| 0 <= k < base implies now.take(base)[k] == old_state.0[k] by {
                    assert(before.0.push(rec)[k] == before.0[k]);
                    assert(before.0.take(base)[k] == before.0[k]);
                }
                assert(now.take(base) =~= old_state.0);
                assert forall|a: int| 0 <= a < j implies #[trigger] now[base + a] == before.0[base + a] by {
                    assert(before.0.push(rec)[base + a] == before.0[base + a]);
                }
                assert(now[base + j] == rec);
                assert forall|a: int| 0 <= a < j implies col_ids[a] != id64 by {
                    assert(col_set@.contains(id_code(col_ids[a])));
                }
                assert forall|k: int| 0 <= k < base && fields_of(old_state.0[k]) is Some
                    implies id64 != column_of(old_state.0[k]).id by {
                    let c = column_of(old_state.0[k]).id;
                    if in_i32(c) {
                        assert(seed.contains(id_code(c)));
                    }
                }
            }
            col_ids.push(id64);
            j = j + 1;
        }
        let ghost cols_after = self.state().0;
        proof {
            lemma_root_names_differ();
        }
        assert(col_ids@ =~= appended_ids(cols_after, base, n_cols as int));
        let ghost row_base = old_state.1.len() as int;
        let mut row_set = self.row_codes();
        let ghost rseed = row_set@;
        let mut i: usize = 0;
        while i < records.len()
            invariant
                n_cols == headers.len(),
                editable(self.doc) == ed,
                old_state == old(self).state(),
                ed == old(self).editable(),
                col_ids.len() == n_cols,
                col_ids@ == appended_ids(cols_after, base, n_cols as int),
                forall|a: int| 0 <= a < n_cols ==> in_i32(#[trigger] col_ids[a]),
                forall|a: int, b: int| 0 <= a < n_cols && 0 <= b < n_cols && a != b ==> #[trigger] col_ids[a] != #[trigger] col_ids[b],
                row_base + records.len() <= u32::MAX,
                forall|ii: int| 0 <= ii < records.len() ==> !ragged(records@, ii, n_cols as nat),
                all_cells_scalar(records@),
                i <= records.len(),
                row_set@.finite(),
                row_set@.len() <= row_base + i,
                forall|u: u32| rseed.contains(u) ==> row_set@.contains(u),
                forall|k: int| 0 <= k < row_base && #[trigger] old_state.1[k] is Some && in_i32(row_id(old_state.1[k]))
                    ==> rseed.contains(id_code(row_id(old_state.1[k]))),
                row_base == old_state.1.len(),
                base == old_state.0.len(),
                cols_after.take(base) == old_state.0,
                cols_after.len() == base + n_cols,
                self.state().0 == cols_after,
                self.state().1.len() == row_base + i,
                self.state().1.take(row_base) == old_state.1,
                forall|a: int| 0 <= a < i ==> row_set@.contains(id_code(row_id(#[trigger] self.state().1[row_base + a]))),
                forall|a: int| 0 <= a < i ==> new_row_ok(#[trigger] self.state().1[row_base + a], col_ids@, records@[a]@),
                forall|a: int, b: int| 0 <= a < i && 0 <= b < i && a != b
                    ==> row_id(#[trigger] self.state().1[row_base + a]) != row_id(#[trigger] self.state().1[row_base + b]),
                forall|a: int, k: int| 0 <= a < i && 0 <= k < row_base && old_state.1[k] is Some
                    ==> row_id(#[trigger] self.state().1[row_base + a]) != row_id(#[trigger] old_state.1[k]),
            decreases records.len() - i,
        {
            let ghost set_before = row_set@;
            let code = next_unique_id(&mut row_set);
            let rid = code_to_id(code);
            let rec = &records[i];
            assert(!ragged(records@, i as int, n_cols as nat));
            let mut cells = new_map();
            let mut j: usize = 0;
            while j < n_cols
                invariant
                    n_cols == headers.len(),
                    col_ids.len() == n_cols,
                    rec@.len() == n_cols,
                    rec@ == records@[i as int]@,
                    i < records.len(),
                    all_cells_scalar(records@),
                    j <= n_cols,
                    !attached_of(cells),
                    forall|a: int| 0 <= a < n_cols ==> in_i32(#[trigger] col_ids[a]),
                    forall|a: int, b: int| 0 <= a < n_cols && 0 <= b < n_cols && a != b ==> #[trigger] col_ids[a] != #[trigger] col_ids[b],
                    map_view(cells).maps == Map::<Seq<char>, Map<Seq<char>, LoroValue>>::empty(),
                    map_view(cells).containers == Set::<Seq<char>>::empty(),
                    forall|k: Seq<char>| #[trigger] map_view(cells).values.contains_key(k)
                        <==> exists|a: int| 0 <= a < j && k == cell_key(col_ids@[a]),
                    forall|a: int| 0 <= a < j ==> map_view(cells).values.get(cell_key(#[trigger] col_ids@[a])) == Some(rec@[a]),
                    forall|ii: int| 0 <= ii < records.len() ==> !ragged(records@, ii, n_cols as nat),
                decreases n_cols - j,
            {
                let key = cell_key_of(col_ids[j]);
                let ghost before = map_view(cells).values;
                let v = copy_value(&rec[j]);
                assert(scalar(records@[i as int]@[j as int]));
                match map_insert(&mut cells, key.as_str(), v) {
                    Ok(()) => {},
                    Err(e) => {
                        return Err(ImportError::Engine(e));
                    },
                }
                proof {
                    assert forall|a: int| 0 <= a < j implies cell_key(col_ids[a]) != cell_key(col_ids[j as int]) by {
                        lemma_cell_key_injective(col_ids[a], col_ids[j as int]);
                    }
                    let now = map_view(cells).values;
                    let kj = cell_key(col_ids@[j as int]);
                    assert forall|k: Seq<char>| #[trigger] now.contains_key(k)
                        <==> exists|a: int| 0 <= a < j + 1 && k == cell_key(col_ids@[a]) by {
                        if now.contains_key(k) {
                            if k == kj {
                                assert(0 <= j < j + 1 && k == cell_key(col_ids@[j as int]));
                            } else {
                                assert(before.contains_key(k));
                                let a = choose|a: int| 0 <= a < j && k == cell_key(col_ids@[a]);
                                assert(0 <= a < j + 1 && k == cell_key(col_ids@[a]));
                            }
                        }
                        if exists|a: int| 0 <= a < j + 1 && k == cell_key(col_ids@[a]) {
                            let a = choose|a: int| 0 <= a < j + 1 && k == cell_key(col_ids@[a]);
                            if a < j {
                                assert(before.contains_key(cell_key(col_ids@[a])));
                            }
                        }
                    }
                    assert forall|a: int| 0 <= a < j + 1 implies now.get(cell_key(#[trigger] col_ids@[a])) == Some(rec@[a]) by {
                        if a < j {
                            assert(before.get(cell_key(col_ids@[a])) == Some(rec@[a]));
                        }
                    }
                }
                j = j + 1;
            }
            let mut row = new_map();
            let id_value = int_value(rid);
            let height_value = int_value(ROW_HEIGHT);
            let ghost v1 = id_value;
            let ghost v2 = height_value;
            let ghost cells_view = map_view(cells);
            match map_insert(&mut row, "id", id_value) {
                Ok(()) => {},
                Err(e) => {
                    return Err(ImportError::Engine(e));
                },
            }
            match map_insert(&mut row, "height", height_value) {
                Ok(()) => {},
                Err(e) => {
                    return Err(ImportError::Engine(e));
                },
            }
            proof {
                assert forall|k: Seq<char>| #[trigger] cells_view.values.contains_key(k) implies scalar(cells_view.values[k]) by {
                    let a = choose|a: int| 0 <= a < j && k == cell_key(col_ids@[a]);
                    assert(cells_view.values.get(cell_key(col_ids@[a])) == Some(rec@[a]));
                    assert(scalar(records@[i as int]@[a]));
                }
                assert(cells_view.containers.is_empty());
            }
            match map_insert_map(&mut row, "cells", cells) {
                Ok(()) => {},
                Err(e) => {
                    return Err(ImportError::Engine(e));
                },
            }
            let ghost row_view = map_view(row);
            proof {
                reveal_strlit("id");
                reveal_strlit("height");
                reveal_strlit("cells");
                let vals = Map::<Seq<char>, LoroValue>::empty().insert("id"@, v1).insert("height"@, v2);
                assert(row_view.values =~= vals.remove("cells"@));
                assert("cells"@.len() == 5 && "id"@.len() == 2 && "height"@.len() == 6);
                assert(!vals.contains_key("cells"@));
                assert(row_view.values =~= vals);
                assert(row_view.values.dom() =~= set!["id"@, "height"@]);
                assert(row_view.maps.dom() =~= set!["cells"@]);
                assert(row_view.containers =~= set!["cells"@]);
                assert(all_scalar(row_view));
            }
            let ghost before = self.state().1;
            proof {
                lemma_root_names_differ();
            }
            match list_push_map(&mut self.doc, ROWS, row) {
                Ok(()) => {},
                Err(e) => {
                    assert(self.state().1 == before);
                    return Err(ImportError::Engine(e));
                },
            }
            proof {
                lemma_root_names_differ();
                assert(self.state().1 == before.push(Some(row_view)));
                assert(self.state().1[row_base + i] == Some(row_view));
                assert(row_id(Some(row_view)) == rid);
                assert(before.take(row_base) == old_state.1);
                assert(self.state().1.take(row_base) =~= old_state.1);
                assert forall|a: int| 0 <= a < i implies #[trigger] self.state().1[row_base + a] == before[row_base + a] by {
                    assert(before.push(Some(row_view))[row_base + a] == before[row_base + a]);
                }
                assert forall|a: int| 0 <= a < i implies row_id(#[trigger] self.state().1[row_base + a]) != rid by {
                    assert(set_before.contains(id_code(row_id(before[row_base + a]))));
                }
                assert forall|k: int| 0 <= k < row_base && old_state.1[k] is Some implies rid != row_id(old_state.1[k]) by {
                    let c = row_id(old_state.1[k]);
                    if in_i32(c) {
                        assert(rseed.contains(id_code(c)));
                    }
                }
                assert(row_set@.contains(id_code(row_id(self.state().1[row_base + i]))));
            }
            i = i + 1;
        }
        Ok((n_cols * records.len()) as u32)
    }

    /// Whether every item of `cols` is a record, as `cols` needs.
    pub fn cols_are_records(&self) -> (r: bool)
        ensures
            r == forall|j: int| 0 <= j < self.cols_view().len() ==> fields_of(#[trigger] self.cols_view()[j]) is Some,
    {
        let items = list_values(&self.doc, COLS);
        let mut j: usize = 0;
        while j < items.len()
            invariant
                items@ == self.cols_view(),
                j <= items.len(),
                forall|a: int| 0 <= a < j ==> fields_of(#[trigger] items@[a]) is Some,
            decreases items.len() - j,
        {
            if !is_map(&items[j]) {
                return false;
            }
            j = j + 1;
        }
        true
    }

    /// A view of the rows, read lazily.
    pub fn rows(&self) -> (r: Rows<'_>)
        ensures
            r.rows_view() == self.rows_view(),
    {
        Rows { table: self }
    }

    /// A snapshot of the whole document, history included.
    pub fn encode(&self) -> (r: Result<Vec<u8>, EncodeError>)
        ensures
            r matches Err(EncodeError::Detached) <==> self.detached(),
            !self.detached() && !self.shallow() ==> r is Ok,
            r matches Ok(b) ==> imported_lists(b@, "cols"@, "rows"@) == Some(self.state()),
    {
        if is_detached(&self.doc) {
            return Err(EncodeError::Detached);
        }
        match export_snapshot(&self.doc) {
            Ok(b) => Ok(b),
            Err(e) => Err(EncodeError::Engine(e)),
        }
    }

    /// A snapshot of the current state, without the older history.
    pub fn encode_shallow(&self) -> (r: Result<Vec<u8>, EncodeError>)
        ensures
            r matches Err(EncodeError::Detached) <==> self.detached(),
            r matches Ok(b) ==> imported_lists(b@, "cols"@, "rows"@) == Some(self.state()),
    {
        if is_detached(&self.doc) {
            return Err(EncodeError::Detached);
        }
        match export_shallow(&self.doc) {
            Ok(b) => Ok(b),
            Err(e) => Err(EncodeError::Engine(e)),
        }
    }

    /// A new table from a snapshot, full or shallow.
    pub fn decode(data: &[u8]) -> (r: Result<LoroTable, DecodeError>)
        ensures
            r is Ok <==> imported_lists(data@, "cols"@, "rows"@) is Some,
            r matches Ok(t) ==> imported_lists(data@, "cols"@, "rows"@) == Some(t.state()),
    {
        match import_doc(data) {
            Ok(doc) => Ok(LoroTable::new(doc)),
            Err(e) => Err(DecodeError::Corrupt(e)),
        }
    }

    /// The columns, in order; items of `cols` that are not map records are
    /// passed over.
    pub fn columns(&self) -> (r: Vec<Column>)
        ensures
            r@.map_values(|c: Column| c@) == columns_of(self.cols_view()),
    {
        let items = list_values(&self.doc, COLS);
        let mut out: Vec<Column> = Vec::new();
        let mut i: usize = 0;
        while i < items.len()
            invariant
                items@ == self.cols_view(),
                i <= items.len(),
                out@.map_values(|c: Column| c@) == columns_of(items@.take(i as int)),
            decreases items.len() - i,
        {
            assert(items@.take(i as int + 1).drop_last() == items@.take(i as int));
            if is_map(&items[i]) {
                let c = Column::from_loro_value(copy_value(&items[i]));
                out.push(c);
            }
            i = i + 1;
        }
        assert(items@.take(i as int) == items@);
        out
    }

    /// The columns, in order. Every item of `cols` must be a record.
    pub fn cols(&self) -> (r: Vec<Column>)
        requires
            forall|j: int| 0 <= j < self.cols_view().len() ==> fields_of(#[trigger] self.cols_view()[j]) is Some,
        ensures
            r.len() == self.cols_view().len(),
            forall|j: int| 0 <= j < r.len() ==> (#[trigger] r[j])@ == column_of(self.cols_view()[j]),
    {
        let items = list_values(&self.doc, COLS);
        let mut out: Vec<Column> = Vec::new();
        let mut i: usize = 0;
        while i < items.len()
            invariant
                items@ == self.cols_view(),
                i <= items.len(),
                out.len() == i,
                forall|j: int| 0 <= j < i ==> (#[trigger] out[j])@ == column_of(items@[j]),
                forall|j: int| 0 <= j < items.len() ==> fields_of(#[trigger] items@[j]) is Some,
            decreases items.len() - i,
        {
            let c = Column::from_loro_value(copy_value(&items[i]));
            out.push(c);
            i = i + 1;
        }
        out
    }
}

} // verus!
