//! The Loro containers a table is built from, and what this library relies on
//! of them.
//!
//! A document holds two root lists: `cols`, whose items are plain map values
//! (one record per column), and `rows`, whose items are map containers (one per
//! row, with a nested map of cells).
use vstd::prelude::*;

use loro::{ExportMode, LoroDoc, LoroEncodeError, LoroError, LoroMap, LoroValue};

verus! {

#[verifier::external_type_specification]
#[verifier::external_body]
pub struct ExLoroValue(LoroValue);

#[verifier::external_type_specification]
#[verifier::external_body]
pub struct ExLoroDoc(LoroDoc);

#[verifier::external_type_specification]
#[verifier::external_body]
pub struct ExLoroMap(LoroMap);

#[verifier::external_type_specification]
#[verifier::external_body]
pub struct ExLoroError(LoroError);

#[verifier::external_type_specification]
#[verifier::external_body]
pub struct ExLoroEncodeError(LoroEncodeError);

/// What a map container holds: the plain values under their keys, the plain
/// contents of the nested map containers under theirs, and the keys that hold
/// a container of any kind.
pub struct MapView {
    pub values: Map<Seq<char>, LoroValue>,
    pub maps: Map<Seq<char>, Map<Seq<char>, LoroValue>>,
    pub containers: Set<Seq<char>>,
}

pub open spec fn empty_map_view() -> MapView {
    MapView { values: Map::empty(), maps: Map::empty(), containers: Set::empty() }
}

/// The state of two root lists: the items of the first, and for each item of
/// the second what it holds if it is a map container.
pub type TableState = (Seq<LoroValue>, Seq<Option<MapView>>);

/// The integer a value holds, if it is one (`LoroValue::as_i64`).
pub uninterp spec fn int_of(v: LoroValue) -> Option<i64>;

/// The text a value holds, if it is a string (`LoroValue::as_string`).
pub uninterp spec fn text_of(v: LoroValue) -> Option<Seq<char>>;

/// Whether a value is a float (`LoroValue::is_double`).
pub uninterp spec fn double_of(v: LoroValue) -> bool;

/// The entries of a value, if it is a map (`LoroValue::as_map`).
pub uninterp spec fn fields_of(v: LoroValue) -> Option<Map<Seq<char>, LoroValue>>;

/// A value that is an integer, a float or a string: no container, and no
/// byte value that a map could read as one.
pub open spec fn scalar(v: LoroValue) -> bool {
    int_of(v) is Some || text_of(v) is Some || double_of(v)
}

/// Every value of a map, and of its nested maps, is a scalar.
pub open spec fn all_scalar(m: MapView) -> bool {
    &&& forall|k: Seq<char>| #[trigger] m.values.contains_key(k) ==> scalar(m.values[k])
    &&& forall|k: Seq<char>, k2: Seq<char>| m.maps.contains_key(k) && #[trigger] m.maps[k].contains_key(k2)
        ==> scalar(m.maps[k][k2])
}

/// What a map container holds.
pub uninterp spec fn map_view(m: LoroMap) -> MapView;

/// Whether a map container is attached to a document (`LoroMap::is_attached`).
pub uninterp spec fn attached_of(m: LoroMap) -> bool;

/// The items of the root list of a document with this name.
pub uninterp spec fn list_items(d: LoroDoc, name: Seq<char>) -> Seq<LoroValue>;

/// For each item of the root list with this name, its map contents if it is
/// a map container.
pub uninterp spec fn list_maps(d: LoroDoc, name: Seq<char>) -> Seq<Option<MapView>>;

/// Whether a document is checked out at an older version (`LoroDoc::is_detached`).
pub uninterp spec fn detached_of(d: LoroDoc) -> bool;

/// Whether a document accepts edits while detached
/// (`LoroDoc::is_detached_editing_enabled`).
pub uninterp spec fn detached_editing_of(d: LoroDoc) -> bool;

/// A document whose containers accept local edits: one that is not detached,
/// or that allows editing while detached.
pub open spec fn editable(d: LoroDoc) -> bool {
    !detached_of(d) || detached_editing_of(d)
}

/// The root lists `first` and `second` of a fresh document after
/// `LoroDoc::import` of these bytes, or `None` where the import fails.
pub uninterp spec fn imported_lists(b: Seq<u8>, first: Seq<char>, second: Seq<char>) -> Option<TableState>;

/// Whether a document holds only the history since some version
/// (`LoroDoc::is_shallow`).
pub uninterp spec fn shallow_of(d: LoroDoc) -> bool;

/// Relies on `LoroDoc::is_shallow`.
#[verifier::external_body]
pub(crate) fn is_shallow(d: &LoroDoc) -> (r: bool)
    ensures
        r == shallow_of(*d),
{
    d.is_shallow()
}

/// A name of one of the two root lists a table uses. `LoroDoc::get_list`
/// panics on some other names (those of mergeable containers that do not
/// exist).
pub open spec fn root_name(name: Seq<char>) -> bool {
    name == "cols"@ || name == "rows"@
}

/// A record whose every field is a scalar: no container reference in it.
pub open spec fn scalar_record(v: LoroValue) -> bool {
    &&& fields_of(v) is Some
    &&& forall|k: Seq<char>| #[trigger] fields_of(v)->0.contains_key(k) ==> scalar(fields_of(v)->0[k])
}

/// Relies on `LoroDoc::is_detached`.
#[verifier::external_body]
pub(crate) fn is_detached(d: &LoroDoc) -> (r: bool)
    ensures
        r == detached_of(*d),
{
    d.is_detached()
}

/// Relies on `LoroDoc::is_detached_editing_enabled`.
#[verifier::external_body]
pub(crate) fn detached_editing(d: &LoroDoc) -> (r: bool)
    ensures
        r == detached_editing_of(*d),
{
    d.is_detached_editing_enabled()
}

/// Relies on `LoroValue::from(i64)`, which makes `LoroValue::I64`.
#[verifier::external_body]
pub(crate) fn int_value(n: i64) -> (r: LoroValue)
    ensures
        int_of(r) == Some(n),
        text_of(r) is None,
        fields_of(r) is None,
{
    LoroValue::from(n)
}

/// Relies on `LoroValue::from(&str)`, which makes `LoroValue::String`.
#[verifier::external_body]
pub(crate) fn text_value(s: &str) -> (r: LoroValue)
    ensures
        text_of(r) == Some(s@),
        int_of(r) is None,
        fields_of(r) is None,
{
    LoroValue::from(s)
}

/// The map that a list of pairs collects into: a later key replaces an
/// earlier one.
pub open spec fn fields_from_pairs(pairs: Seq<(String, LoroValue)>) -> Map<Seq<char>, LoroValue>
    decreases pairs.len(),
{
    if pairs.len() == 0 {
        Map::empty()
    } else {
        fields_from_pairs(pairs.drop_last()).insert(pairs.last().0@, pairs.last().1)
    }
}

/// Relies on `LoroMapValue::from(Vec<(String, LoroValue)>)`, which collects the
/// pairs into a hash map, and on `LoroValue::Map`.
#[verifier::external_body]
pub(crate) fn record_value(pairs: Vec<(String, LoroValue)>) -> (r: LoroValue)
    ensures
        fields_of(r) == Some(fields_from_pairs(pairs@)),
        int_of(r) is None,
        text_of(r) is None,
{
    LoroValue::Map(pairs.into())
}

/// Relies on `LoroValue::is_double`.
#[verifier::external_body]
pub(crate) fn is_double(v: &LoroValue) -> (r: bool)
    ensures
        r == double_of(*v),
{
    v.is_double()
}

/// Relies on `LoroValue::clone`, which is derived: an equal value.
#[verifier::external_body]
pub(crate) fn copy_value(v: &LoroValue) -> (r: LoroValue)
    ensures
        r == *v,
{
    v.clone()
}

/// Relies on `LoroValue::as_i64`.
#[verifier::external_body]
pub(crate) fn as_int(v: &LoroValue) -> (r: Option<i64>)
    ensures
        r == int_of(*v),
{
    v.as_i64().copied()
}

/// Relies on `LoroValue::as_string`.
#[verifier::external_body]
pub(crate) fn as_text(v: &LoroValue) -> (r: Option<String>)
    ensures
        r is Some <==> text_of(*v) is Some,
        r is Some ==> r->0@ == text_of(*v)->0,
{
    v.as_string().map(|s| s.to_string())
}

/// Relies on `LoroValue::as_map` and the map's `get`: the value under a key of a
/// map value.
#[verifier::external_body]
pub(crate) fn field(v: &LoroValue, key: &str) -> (r: Option<LoroValue>)
    ensures
        fields_of(*v) is None ==> r is None,
        fields_of(*v) is Some ==> r == fields_of(*v)->0.get(key@),
{
    v.as_map().and_then(|m| m.get(key).cloned())
}

/// Relies on `LoroValue::is_map`.
#[verifier::external_body]
pub(crate) fn is_map(v: &LoroValue) -> (r: bool)
    ensures
        r == fields_of(*v) is Some,
{
    v.is_map()
}

/// Relies on `LoroMap::new`: a detached map, empty.
#[verifier::external_body]
pub(crate) fn new_map() -> (r: LoroMap)
    ensures
        map_view(r) == empty_map_view(),
        !attached_of(r),
{
    LoroMap::new()
}

/// Relies on `LoroMap::insert`: sets the value under a key. On a detached map
/// it fails only for a container value.
#[verifier::external_body]
pub(crate) fn map_insert(m: &mut LoroMap, key: &str, v: LoroValue) -> (r: Result<(), LoroError>)
    requires
        !attached_of(*old(m)),
    ensures
        !attached_of(*final(m)),
        scalar(v) ==> r is Ok,
        r is Ok && scalar(v) ==> map_view(*final(m)) == (MapView {
            values: map_view(*old(m)).values.insert(key@, v),
            maps: map_view(*old(m)).maps.remove(key@),
            containers: map_view(*old(m)).containers.remove(key@),
        }),
{
    m.insert(key, v)
}

/// Relies on `LoroMap::insert_container`: puts a map container under a key.
/// On a detached map it always succeeds.
#[verifier::external_body]
pub(crate) fn map_insert_map(m: &mut LoroMap, key: &str, child: LoroMap) -> (r: Result<(), LoroError>)
    requires
        !attached_of(*old(m)),
    ensures
        !attached_of(*final(m)),
        r is Ok,
        r is Ok && all_scalar(map_view(child)) && map_view(child).containers.is_empty()
            ==> map_view(*final(m)) == (MapView {
            values: map_view(*old(m)).values.remove(key@),
            maps: map_view(*old(m)).maps.insert(key@, map_view(child).values),
            containers: map_view(*old(m)).containers.insert(key@),
        }),
{
    m.insert_container(key, child).map(|_| ())
}

/// Relies on `LoroMap::get`, for a key that holds a plain value.
#[verifier::external_body]
pub(crate) fn map_get(m: &LoroMap, key: &str) -> (r: Option<LoroValue>)
    ensures
        r == map_view(*m).values.get(key@),
{
    m.get(key).and_then(|v| v.into_value().ok())
}

/// Relies on `LoroMap::get`, for a key that holds a container.
#[verifier::external_body]
pub(crate) fn map_has_container(m: &LoroMap, key: &str) -> (r: bool)
    ensures
        r == map_view(*m).containers.contains(key@),
{
    m.get(key).map_or(false, |v| v.is_container())
}

/// Relies on `LoroMap::get`, for a key that holds a map container.
#[verifier::external_body]
pub(crate) fn map_get_map(m: &LoroMap, key: &str) -> (r: Option<LoroMap>)
    ensures
        r is Some <==> map_view(*m).maps.contains_key(key@),
        r is Some ==> map_view(r->0).values == map_view(*m).maps[key@],
{
    m.get(key).and_then(|v| v.into_container().ok()).and_then(|c| c.into_map().ok())
}

/// Relies on `LoroList::len` of a root list.
#[verifier::external_body]
pub(crate) fn list_len(d: &LoroDoc, name: &str) -> (r: usize)
    requires
        root_name(name@),
    ensures
        r == list_items(*d, name@).len(),
        r == list_maps(*d, name@).len(),
{
    d.get_list(name).len()
}

/// Relies on `LoroList::get_value` of a root list.
#[verifier::external_body]
pub(crate) fn list_values(d: &LoroDoc, name: &str) -> (r: Vec<LoroValue>)
    requires
        root_name(name@),
    ensures
        r@ == list_items(*d, name@),
{
    d.get_list(name).get_value().into_list().map(|l| l.to_vec()).unwrap_or_default()
}

/// Relies on `LoroList::insert` at the end of a root list. A map value is no
/// container, so the insert fails only where the document takes no edits, and
/// then before it changes anything.
#[verifier::external_body]
pub(crate) fn list_push(d: &mut LoroDoc, name: &str, v: LoroValue) -> (r: Result<(), LoroError>)
    requires
        root_name(name@),
    ensures
        detached_of(*final(d)) == detached_of(*old(d)),
        detached_editing_of(*final(d)) == detached_editing_of(*old(d)),
        forall|n: Seq<char>| n != name@ ==> list_items(*final(d), n) == list_items(*old(d), n),
        forall|n: Seq<char>| n != name@ ==> list_maps(*final(d), n) == list_maps(*old(d), n),
        editable(*old(d)) && scalar_record(v) ==> r is Ok,
        r is Ok ==> list_items(*final(d), name@) == list_items(*old(d), name@).push(v),
        r is Err ==> *final(d) == *old(d),
{
    let list = d.get_list(name);
    list.insert(list.len(), v)
}

/// Relies on `LoroList::push_container` on a root list: the detached map is
/// attached with its contents. It fails only where the document takes no
/// edits, and then before it changes anything.
#[verifier::external_body]
pub(crate) fn list_push_map(d: &mut LoroDoc, name: &str, row: LoroMap) -> (r: Result<(), LoroError>)
    requires
        root_name(name@),
    ensures
        detached_of(*final(d)) == detached_of(*old(d)),
        detached_editing_of(*final(d)) == detached_editing_of(*old(d)),
        forall|n: Seq<char>| n != name@ ==> list_items(*final(d), n) == list_items(*old(d), n),
        forall|n: Seq<char>| n != name@ ==> list_maps(*final(d), n) == list_maps(*old(d), n),
        editable(*old(d)) && !attached_of(row) && all_scalar(map_view(row)) ==> r is Ok,
        r is Ok && all_scalar(map_view(row)) ==> list_maps(*final(d), name@) == list_maps(*old(d), name@).push(Some(map_view(row))),
        r is Err ==> *final(d) == *old(d),
{
    d.get_list(name).push_container(row).map(|_| ())
}

/// Relies on `LoroList::get` of a root list, for an item that is a map
/// container.
#[verifier::external_body]
pub(crate) fn list_map_at(d: &LoroDoc, name: &str, i: usize) -> (r: Option<LoroMap>)
    requires
        root_name(name@),
    ensures
        i >= list_maps(*d, name@).len() ==> r is None,
        i < list_maps(*d, name@).len() ==> (r is Some <==> list_maps(*d, name@)[i as int] is Some),
        r is Some ==> list_maps(*d, name@)[i as int] == Some(map_view(r->0)),
{
    d.get_list(name).get(i).and_then(|v| v.into_container().ok()).and_then(|c| c.into_map().ok())
}

/// Relies on `LoroDoc::export` with `ExportMode::snapshot`: a snapshot holds the
/// whole document, and importing it restores its latest state, which is the
/// current one on a document that is not checked out at an older version. It
/// fails only for a shallow document (exported as a shallow snapshot) or where
/// the encoded length overflows, which buffers held in memory cannot reach.
#[verifier::external_body]
pub(crate) fn export_snapshot(d: &LoroDoc) -> (r: Result<Vec<u8>, LoroEncodeError>)
    requires
        !detached_of(*d),
    ensures
        !shallow_of(*d) ==> r is Ok,
        forall|a: Seq<char>, b: Seq<char>| r is Ok
            ==> #[trigger] imported_lists(r->Ok_0@, a, b) == Some((list_items(*d, a), list_maps(*d, b))),
{
    d.export(ExportMode::snapshot())
}

/// Relies on `LoroDoc::export` with `ExportMode::shallow_snapshot` at the
/// document's current frontiers: the ops after them are kept, so on a
/// document that is not checked out at an older version importing it gives
/// the current state, without older history.
#[verifier::external_body]
pub(crate) fn export_shallow(d: &LoroDoc) -> (r: Result<Vec<u8>, LoroEncodeError>)
    requires
        !detached_of(*d),
    ensures
        forall|a: Seq<char>, b: Seq<char>| r is Ok
            ==> #[trigger] imported_lists(r->Ok_0@, a, b) == Some((list_items(*d, a), list_maps(*d, b))),
{
    d.export(ExportMode::shallow_snapshot(&d.state_frontiers()))
}

/// Relies on `LoroDoc::import` into a new document.
#[verifier::external_body]
pub(crate) fn import_doc(bytes: &[u8]) -> (r: Result<LoroDoc, LoroError>)
    ensures
        forall|a: Seq<char>, b: Seq<char>| r is Ok <==> #[trigger] imported_lists(bytes@, a, b) is Some,
        forall|a: Seq<char>, b: Seq<char>| r is Ok
            ==> #[trigger] imported_lists(bytes@, a, b) == Some((list_items(r->Ok_0, a), list_maps(r->Ok_0, b))),
{
    let doc = LoroDoc::new();
    doc.import(bytes).map(|_| doc)
}

} // verus!
