use vstd::prelude::*;
use crate::chars::{
    concat, from_chars, matches_at, push_all, same_chars, same_text, slice_chars, to_chars,
};
use crate::docmeta::fallback_title_from_path;
use crate::error::{AppError, ErrorCode};
use crate::model::{opt_text, DocMeta, DocMetaView, LocationDescriptor, Timestamp};
use crate::path::{DocId, LocationId};
use crate::seq_lemmas::{lemma_filter_push, lemma_filter_source, lemma_filter_step};
use crate::text::{file_stem_spec, is_indexable_spec, is_indexable_text_path};

verus! {

/// A row of the document catalog: a document's metadata and when the row was last written.
#[derive(Debug, Clone, PartialEq)]
pub struct CatalogRow {
    pub meta: DocMeta,
    pub updated_at: Timestamp,
}

/// A catalog row as plain values.
pub struct RowView {
    pub meta: DocMetaView,
    pub updated_at: Timestamp,
}

impl View for CatalogRow {
    type V = RowView;

    open spec fn view(&self) -> RowView {
        RowView { meta: self.meta@, updated_at: self.updated_at }
    }
}

/// A row of the search index: the text of one document under its key.
#[derive(Debug, Clone, PartialEq, Eq)]
pub struct IndexRow {
    pub location_id: LocationId,
    pub rel_path: String,
    pub title: String,
    pub content: String,
}

/// An index row as plain values.
pub struct IndexRowView {
    pub location_id: i64,
    pub rel_path: Seq<char>,
    pub title: Seq<char>,
    pub content: Seq<char>,
}

impl View for IndexRow {
    type V = IndexRowView;

    open spec fn view(&self) -> IndexRowView {
        IndexRowView {
            location_id: self.location_id.0,
            rel_path: self.rel_path@,
            title: self.title@,
            content: self.content@,
        }
    }
}

/// A location as plain values.
pub struct LocationView {
    pub id: i64,
    pub name: Seq<char>,
    pub root_path: Seq<char>,
    pub added_at: Timestamp,
}

impl View for LocationDescriptor {
    type V = LocationView;

    open spec fn view(&self) -> LocationView {
        LocationView {
            id: self.id.0,
            name: self.name@,
            root_path: self.root_path@,
            added_at: self.added_at,
        }
    }
}

/// The state of the store: registered locations, newest first; the
/// document catalog, one row for each key; the search index; and the
/// identifier that the next location gets.
pub struct StoreView {
    pub locations: Seq<LocationView>,
    pub documents: Seq<RowView>,
    pub index: Seq<IndexRowView>,
    pub next_location_id: i64,
}

pub open spec fn location_views(locations: Seq<LocationDescriptor>) -> Seq<LocationView> {
    locations.map_values(|l: LocationDescriptor| l@)
}

pub open spec fn row_views(rows: Seq<CatalogRow>) -> Seq<RowView> {
    rows.map_values(|r: CatalogRow| r@)
}

pub open spec fn index_views(rows: Seq<IndexRow>) -> Seq<IndexRowView> {
    rows.map_values(|r: IndexRow| r@)
}

/// The row belongs to the document with the given key.
pub open spec fn row_has_key(r: RowView, location_id: i64, rel_path: Seq<char>) -> bool {
    r.meta.location_id == location_id && r.meta.rel_path == rel_path
}

/// The index row belongs to the document with the given key.
pub open spec fn index_has_key(r: IndexRowView, location_id: i64, rel_path: Seq<char>) -> bool {
    r.location_id == location_id && r.rel_path == rel_path
}

/// Index of the first row at or after `from` with the given key.
pub open spec fn find_row(rows: Seq<RowView>, location_id: i64, rel_path: Seq<char>, from: int) -> Option<
    int,
>
    decreases rows.len() - from,
{
    if from < 0 || from >= rows.len() {
        None
    } else if row_has_key(rows[from], location_id, rel_path) {
        Some(from)
    } else {
        find_row(rows, location_id, rel_path, from + 1)
    }
}

/// No two rows have the same key.
pub open spec fn keys_distinct(rows: Seq<RowView>) -> bool {
    forall|i: int, j: int|
        0 <= i < j < rows.len() ==> !row_has_key(
            #[trigger] rows[j],
            (#[trigger] rows[i]).meta.location_id,
            rows[i].meta.rel_path,
        )
}

/// The first of two optional values that is there.
pub open spec fn coalesce(first: Option<Timestamp>, second: Option<Timestamp>) -> Option<Timestamp> {
    match first {
        Some(_) => first,
        None => second,
    }
}

/// The row that an upsert writes over an existing one: all of the new
/// metadata, but the time of creation that the row already had, if any.
pub open spec fn merged_row(existing: RowView, meta: DocMetaView, now: Timestamp) -> RowView {
    RowView {
        meta: DocMetaView { created_at: coalesce(existing.meta.created_at, meta.created_at), ..meta },
        updated_at: now,
    }
}

/// The catalog after an upsert: the row of the same key is overwritten in
/// place, keeping its time of creation; a new key gets a new row at the end.
pub open spec fn rows_upserted(rows: Seq<RowView>, meta: DocMetaView, now: Timestamp) -> Seq<RowView> {
    match find_row(rows, meta.location_id, meta.rel_path, 0) {
        Some(i) => rows.update(i, merged_row(rows[i], meta, now)),
        None => rows.push(RowView { meta, updated_at: now }),
    }
}

/// The rows of every key but one.
pub open spec fn not_key(location_id: i64, rel_path: Seq<char>) -> spec_fn(RowView) -> bool {
    |r: RowView| !row_has_key(r, location_id, rel_path)
}

/// The index rows of every key but one.
pub open spec fn index_not_key(location_id: i64, rel_path: Seq<char>) -> spec_fn(IndexRowView) -> bool {
    |r: IndexRowView| !index_has_key(r, location_id, rel_path)
}

/// The rows of every location but one.
pub open spec fn outside_location(location_id: i64) -> spec_fn(RowView) -> bool {
    |r: RowView| r.meta.location_id != location_id
}

/// The rows of one location.
pub open spec fn inside_location(location_id: i64) -> spec_fn(RowView) -> bool {
    |r: RowView| r.meta.location_id == location_id
}

/// The index rows of one location.
pub open spec fn index_inside_location(location_id: i64) -> spec_fn(IndexRowView) -> bool {
    |r: IndexRowView| r.location_id == location_id
}

/// The index rows of one key.
pub open spec fn index_of_key(location_id: i64, rel_path: Seq<char>) -> spec_fn(IndexRowView) -> bool {
    |r: IndexRowView| index_has_key(r, location_id, rel_path)
}

/// The catalog without the rows of one key.
pub open spec fn rows_without(rows: Seq<RowView>, location_id: i64, rel_path: Seq<char>) -> Seq<RowView> {
    rows.filter(not_key(location_id, rel_path))
}

/// The index without the rows of one key.
pub open spec fn index_without(index: Seq<IndexRowView>, location_id: i64, rel_path: Seq<char>) -> Seq<
    IndexRowView,
> {
    index.filter(index_not_key(location_id, rel_path))
}

/// The index after an upsert: every row of the key is deleted, then one is inserted.
pub open spec fn index_upserted(index: Seq<IndexRowView>, row: IndexRowView) -> Seq<IndexRowView> {
    index_without(index, row.location_id, row.rel_path).push(row)
}

/// The catalog without the rows of one location.
pub open spec fn rows_outside(rows: Seq<RowView>, location_id: i64) -> Seq<RowView> {
    rows.filter(outside_location(location_id))
}

/// Index of the first location at or after `from` with the given identifier.
pub open spec fn find_location(locations: Seq<LocationView>, id: i64, from: int) -> Option<int>
    decreases locations.len() - from,
{
    if from < 0 || from >= locations.len() {
        None
    } else if locations[from].id == id {
        Some(from)
    } else {
        find_location(locations, id, from + 1)
    }
}

/// Some location has the given root.
pub open spec fn has_root(locations: Seq<LocationView>, root_path: Seq<char>) -> bool {
    exists|i: int| 0 <= i < locations.len() && (#[trigger] locations[i]).root_path == root_path
}

/// The place of a new location among those sorted newest first: behind all
/// that were added at the same time or later.
pub open spec fn insert_position(locations: Seq<LocationView>, added_at: Timestamp, from: int) -> int
    decreases locations.len() - from,
{
    if from < 0 || from >= locations.len() {
        locations.len() as int
    } else if locations[from].added_at.before(added_at) {
        from
    } else {
        insert_position(locations, added_at, from + 1)
    }
}

/// Locations are sorted newest first.
pub open spec fn newest_first(locations: Seq<LocationView>) -> bool {
    forall|i: int, j: int|
        0 <= i < j < locations.len() ==> !(#[trigger] locations[i]).added_at.before(
            (#[trigger] locations[j]).added_at,
        )
}

/// The invariant of the store: locations have distinct identifiers, all
/// below the next one, and distinct roots, and are sorted newest first; no
/// two catalog rows have the same key.
pub open spec fn store_wf(c: StoreView) -> bool {
    &&& forall|i: int, j: int|
        0 <= i < j < c.locations.len() ==> (#[trigger] c.locations[i]).id != (
        #[trigger] c.locations[j]).id
    &&& forall|i: int, j: int|
        0 <= i < j < c.locations.len() ==> (#[trigger] c.locations[i]).root_path != (
        #[trigger] c.locations[j]).root_path
    &&& forall|i: int| 0 <= i < c.locations.len() ==> (#[trigger] c.locations[i]).id < c.next_location_id
    &&& newest_first(c.locations)
    &&& keys_distinct(c.documents)
}

pub open spec fn conflict_message() -> Seq<char> {
    "Location already exists"@
}

pub open spec fn exhausted_message() -> Seq<char> {
    "Failed to insert location: no identifier is left"@
}

fn clone_opt(o: &Option<String>) -> (out: Option<String>)
    ensures
        opt_text(out) == opt_text(*o),
        out == *o,
{
    match o {
        Some(s) => Some(s.clone()),
        None => None,
    }
}

/// A copy of a document's metadata.
pub fn clone_meta(m: &DocMeta) -> (out: DocMeta)
    ensures
        out@ == m@,
{
    DocMeta {
        id: DocId { location_id: m.id.location_id, rel_path: m.id.rel_path.clone() },
        filename: m.filename.clone(),
        size_bytes: m.size_bytes,
        mtime: m.mtime,
        created_at: m.created_at,
        content_hash: clone_opt(&m.content_hash),
        encoding: m.encoding,
        line_ending: m.line_ending,
        is_conflict: m.is_conflict,
        title: clone_opt(&m.title),
        word_count: m.word_count,
    }
}

fn clone_row(r: &CatalogRow) -> (out: CatalogRow)
    ensures
        out@ == r@,
{
    CatalogRow { meta: clone_meta(&r.meta), updated_at: r.updated_at }
}

fn clone_index_row(r: &IndexRow) -> (out: IndexRow)
    ensures
        out@ == r@,
{
    IndexRow {
        location_id: r.location_id,
        rel_path: r.rel_path.clone(),
        title: r.title.clone(),
        content: r.content.clone(),
    }
}

fn clone_location(l: &LocationDescriptor) -> (out: LocationDescriptor)
    ensures
        out@ == l@,
{
    LocationDescriptor {
        id: l.id,
        name: l.name.clone(),
        root_path: l.root_path.clone(),
        added_at: l.added_at,
    }
}

/// The store's state: locations, document catalog and search index.
pub struct Store {
    locations: Vec<LocationDescriptor>,
    documents: Vec<CatalogRow>,
    index: Vec<IndexRow>,
    next_location_id: i64,
}

impl View for Store {
    type V = StoreView;

    closed spec fn view(&self) -> StoreView {
        StoreView {
            locations: location_views(self.locations@),
            documents: row_views(self.documents@),
            index: index_views(self.index@),
            next_location_id: self.next_location_id,
        }
    }
}

pub proof fn lemma_find_row_none(rows: Seq<RowView>, location_id: i64, rel_path: Seq<char>, from: int)
    requires
        0 <= from,
        find_row(rows, location_id, rel_path, from) is None,
    ensures
        forall|k: int| from <= k < rows.len() ==> !row_has_key(#[trigger] rows[k], location_id, rel_path),
    decreases rows.len() - from,
{
    if from < rows.len() {
        lemma_find_row_none(rows, location_id, rel_path, from + 1);
    }
}

pub proof fn lemma_find_row_some(rows: Seq<RowView>, location_id: i64, rel_path: Seq<char>, from: int)
    requires
        0 <= from,
        find_row(rows, location_id, rel_path, from) is Some,
    ensures
        from <= find_row(rows, location_id, rel_path, from).unwrap() < rows.len(),
        row_has_key(
            rows[find_row(rows, location_id, rel_path, from).unwrap()],
            location_id,
            rel_path,
        ),
    decreases rows.len() - from,
{
    if from < rows.len() && !row_has_key(rows[from], location_id, rel_path) {
        lemma_find_row_some(rows, location_id, rel_path, from + 1);
    }
}

/// An upsert keeps the keys of the catalog distinct.
pub proof fn lemma_upsert_keeps_keys_distinct(rows: Seq<RowView>, meta: DocMetaView, now: Timestamp)
    requires
        keys_distinct(rows),
    ensures
        keys_distinct(rows_upserted(rows, meta, now)),
{
    let out = rows_upserted(rows, meta, now);
    match find_row(rows, meta.location_id, meta.rel_path, 0) {
        Some(i) => {
            lemma_find_row_some(rows, meta.location_id, meta.rel_path, 0);
            assert forall|a: int, b: int| 0 <= a < b < out.len() implies !row_has_key(
                #[trigger] out[b],
                (#[trigger] out[a]).meta.location_id,
                out[a].meta.rel_path,
            ) by {
                assert(row_has_key(out[a], rows[a].meta.location_id, rows[a].meta.rel_path));
                assert(row_has_key(out[b], rows[b].meta.location_id, rows[b].meta.rel_path));
                assert(!row_has_key(rows[b], rows[a].meta.location_id, rows[a].meta.rel_path));
            }
        },
        None => {
            lemma_find_row_none(rows, meta.location_id, meta.rel_path, 0);
            assert forall|a: int, b: int| 0 <= a < b < out.len() implies !row_has_key(
                #[trigger] out[b],
                (#[trigger] out[a]).meta.location_id,
                out[a].meta.rel_path,
            ) by {
                if b < rows.len() {
                    assert(!row_has_key(rows[b], rows[a].meta.location_id, rows[a].meta.rel_path));
                } else {
                    assert(!row_has_key(rows[a], meta.location_id, meta.rel_path));
                }
            }
        },
    }
}

/// Filtering rows keeps their keys distinct.
pub proof fn lemma_filter_keeps_keys_distinct(rows: Seq<RowView>, pred: spec_fn(RowView) -> bool)
    requires
        keys_distinct(rows),
    ensures
        keys_distinct(rows.filter(pred)),
    decreases rows.len(),
{
    reveal(Seq::filter);
    if rows.len() > 0 {
        let init = rows.drop_last();
        assert(keys_distinct(init)) by {
            assert forall|i: int, j: int| 0 <= i < j < init.len() implies !row_has_key(
                #[trigger] init[j],
                (#[trigger] init[i]).meta.location_id,
                init[i].meta.rel_path,
            ) by {
                assert(init[i] == rows[i] && init[j] == rows[j]);
            }
        }
        lemma_filter_keeps_keys_distinct(init, pred);
        let sub = init.filter(pred);
        if pred(rows.last()) {
            let out = sub.push(rows.last());
            assert forall|i: int, j: int| 0 <= i < j < out.len() implies !row_has_key(
                #[trigger] out[j],
                (#[trigger] out[i]).meta.location_id,
                out[i].meta.rel_path,
            ) by {
                if j == sub.len() {
                    lemma_filter_source(init, pred, i);
                    let k = choose|k: int| 0 <= k < init.len() && init[k] == sub[i];
                    assert(rows[k] == sub[i]);
                    assert(!row_has_key(
                        rows[rows.len() - 1],
                        rows[k].meta.location_id,
                        rows[k].meta.rel_path,
                    ));
                }
            }
        }
    }
}

impl Store {
    /// The invariant holds.
    pub open spec fn wf(&self) -> bool {
        store_wf(self@)
    }

    /// An empty store. The first location gets the identifier 1.
    pub fn new() -> (out: Self)
        ensures
            out.wf(),
            out@.locations.len() == 0,
            out@.documents.len() == 0,
            out@.index.len() == 0,
            out@.next_location_id == 1,
    {
        Store {
            locations: Vec::new(),
            documents: Vec::new(),
            index: Vec::new(),
            next_location_id: 1,
        }
    }

    /// Restores a store from saved rows: `None` where they break the store's invariant.
    pub fn from_rows(
        locations: Vec<LocationDescriptor>,
        documents: Vec<CatalogRow>,
        index: Vec<IndexRow>,
        next_location_id: i64,
    ) -> (out: Option<Self>)
        ensures
            match out {
                Some(c) => c.wf() && c@.locations == location_views(locations@) && c@.documents
                    == row_views(documents@) && c@.index == index_views(index@)
                    && c@.next_location_id == next_location_id,
                None => !store_wf(
                    StoreView {
                        locations: location_views(locations@),
                        documents: row_views(documents@),
                        index: index_views(index@),
                        next_location_id,
                    },
                ),
            },
    {
        let ghost lv = location_views(locations@);
        let ghost rv = row_views(documents@);
        let ghost target = StoreView {
            locations: lv,
            documents: rv,
            index: index_views(index@),
            next_location_id,
        };
        let mut j: usize = 0;
        while j < locations.len()
            invariant
                j <= locations.len(),
                lv == location_views(locations@),
                forall|a: int, b: int| 0 <= a < b < j ==> (#[trigger] lv[a]).id != (#[trigger] lv[b]).id,
                forall|a: int, b: int|
                    0 <= a < b < j ==> (#[trigger] lv[a]).root_path != (#[trigger] lv[b]).root_path,
                forall|a: int| 0 <= a < j ==> (#[trigger] lv[a]).id < next_location_id,
                forall|a: int, b: int|
                    0 <= a < b < j ==> !(#[trigger] lv[a]).added_at.before((#[trigger] lv[b]).added_at),
            decreases locations.len() - j,
        {
            proof {
                assert(lv[j as int] == locations@[j as int]@);
            }
            if locations[j].id.0 >= next_location_id {
                return None;
            }
            let mut i: usize = 0;
            while i < j
                invariant
                    i <= j < locations.len(),
                    lv == location_views(locations@),
                    forall|a: int| 0 <= a < i ==> (#[trigger] lv[a]).id != lv[j as int].id,
                    forall|a: int| 0 <= a < i ==> (#[trigger] lv[a]).root_path != lv[j as int].root_path,
                    forall|a: int| 0 <= a < i ==> !(#[trigger] lv[a]).added_at.before(lv[j as int].added_at),
                decreases j - i,
            {
                proof {
                    assert(lv[i as int] == locations@[i as int]@);
                    assert(lv[j as int] == locations@[j as int]@);
                }
                if locations[i].id.0 == locations[j].id.0 || same_text(
                    locations[i].root_path.as_str(),
                    locations[j].root_path.as_str(),
                ) || locations[i].added_at.is_before(&locations[j].added_at) {
                    return None;
                }
                i += 1;
            }
            j += 1;
        }
        let mut b: usize = 0;
        while b < documents.len()
            invariant
                b <= documents.len(),
                rv == row_views(documents@),
                forall|x: int, y: int|
                    0 <= x < y < b ==> !row_has_key(
                        #[trigger] rv[y],
                        (#[trigger] rv[x]).meta.location_id,
                        rv[x].meta.rel_path,
                    ),
            decreases documents.len() - b,
        {
            let mut a: usize = 0;
            while a < b
                invariant
                    a <= b < documents.len(),
                    rv == row_views(documents@),
                    forall|x: int|
                        0 <= x < a ==> !row_has_key(
                            rv[b as int],
                            (#[trigger] rv[x]).meta.location_id,
                            rv[x].meta.rel_path,
                        ),
                decreases b - a,
            {
                proof {
                    assert(rv[a as int] == documents@[a as int]@);
                    assert(rv[b as int] == documents@[b as int]@);
                }
                if documents[a].meta.id.location_id.0 == documents[b].meta.id.location_id.0
                    && same_text(
                    documents[a].meta.id.rel_path.as_str(),
                    documents[b].meta.id.rel_path.as_str(),
                ) {
                    return None;
                }
                a += 1;
            }
            b += 1;
        }
        Some(Store { locations, documents, index, next_location_id })
    }

    /// Registers a location. Fails with `Conflict` where a location with the
    /// same root is registered already, and with `Io` where no identifier
    /// is left; otherwise the location gets the next identifier and takes
    /// its place among the locations, newest first.
    pub fn location_add(&mut self, name: String, root_path: String, added_at: Timestamp) -> (result:
        Result<LocationDescriptor, AppError>)
        requires
            old(self).wf(),
        ensures
            final(self).wf(),
            final(self)@.documents == old(self)@.documents,
            final(self)@.index == old(self)@.index,
            match result {
                Ok(loc) => {
                    &&& !has_root(old(self)@.locations, root_path@)
                    &&& old(self)@.next_location_id < i64::MAX
                    &&& loc@ == (LocationView {
                        id: old(self)@.next_location_id,
                        name: name@,
                        root_path: root_path@,
                        added_at,
                    })
                    &&& final(self)@.next_location_id == old(self)@.next_location_id + 1
                    &&& final(self)@.locations == old(self)@.locations.insert(
                        insert_position(old(self)@.locations, added_at, 0),
                        loc@,
                    )
                },
                Err(e) => {
                    &&& final(self)@ == old(self)@
                    &&& if has_root(old(self)@.locations, root_path@) {
                        e@ == (
                            ErrorCode::Conflict,
                            conflict_message(),
                            Some("Path: "@ + root_path@),
                        )
                    } else {
                        old(self)@.next_location_id == i64::MAX && e@ == (
                            ErrorCode::Io,
                            exhausted_message(),
                            None::<Seq<char>>,
                        )
                    }
                },
            },
    {
        let ghost lv = self@.locations;
        let mut i: usize = 0;
        while i < self.locations.len()
            invariant
                i <= self.locations.len(),
                *self == *old(self),
                self.wf(),
                lv == location_views(self.locations@),
                forall|k: int| 0 <= k < i ==> (#[trigger] lv[k]).root_path != root_path@,
            decreases self.locations.len() - i,
        {
            proof {
                assert(lv[i as int] == self.locations@[i as int]@);
            }
            if same_text(self.locations[i].root_path.as_str(), root_path.as_str()) {
                let context = concat("Path: ", root_path.as_str());
                return Err(
                    AppError::new(ErrorCode::Conflict, "Location already exists").with_context(
                        context.as_str(),
                    ),
                );
            }
            i += 1;
        }
        if self.next_location_id == i64::MAX {
            return Err(
                AppError::new(ErrorCode::Io, "Failed to insert location: no identifier is left"),
            );
        }
        let id = self.next_location_id;
        let mut pos: usize = 0;
        while pos < self.locations.len() && !self.locations[pos].added_at.is_before(&added_at)
            invariant
                pos <= self.locations.len(),
                *self == *old(self),
                self.wf(),
                lv == location_views(self.locations@),
                insert_position(lv, added_at, 0) == insert_position(lv, added_at, pos as int),
                forall|k: int| 0 <= k < pos ==> !(#[trigger] lv[k]).added_at.before(added_at),
            decreases self.locations.len() - pos,
        {
            proof {
                assert(lv[pos as int] == self.locations@[pos as int]@);
            }
            pos += 1;
        }
        proof {
            if pos < self.locations.len() {
                assert(lv[pos as int] == self.locations@[pos as int]@);
            }
        }
        let loc = LocationDescriptor {
            id: LocationId(id),
            name: name.clone(),
            root_path: root_path.clone(),
            added_at,
        };
        let copy = clone_location(&loc);
        self.locations.insert(pos, loc);
        self.next_location_id = id + 1;
        proof {
            let out = location_views(self.locations@);
            assert(out =~= lv.insert(pos as int, copy@));
            assert forall|a: int, b: int| 0 <= a < b < out.len() implies (#[trigger] out[a]).id != (
            #[trigger] out[b]).id && out[a].root_path != out[b].root_path && !out[a].added_at.before(
                out[b].added_at,
            ) by {
                let a0 = if a < pos {
                    a
                } else {
                    a - 1
                };
                let b0 = if b < pos {
                    b
                } else {
                    b - 1
                };
                if a != pos {
                    assert(out[a] == lv[a0]);
                }
                if b != pos {
                    assert(out[b] == lv[b0]);
                }
            }
            assert forall|a: int| 0 <= a < out.len() implies (#[trigger] out[a]).id
                < self.next_location_id by {
                if a != pos {
                    let a0 = if a < pos {
                        a
                    } else {
                        a - 1
                    };
                    assert(out[a] == lv[a0]);
                }
            }
        }
        Ok(copy)
    }

    /// The registered locations, newest first.
    pub fn location_list(&self) -> (out: Vec<LocationDescriptor>)
        ensures
            location_views(out@) == self@.locations,
            self.wf() ==> newest_first(location_views(out@)),
    {
        let mut out: Vec<LocationDescriptor> = Vec::new();
        let mut i: usize = 0;
        while i < self.locations.len()
            invariant
                i <= self.locations.len(),
                location_views(out@) == location_views(self.locations@).take(i as int),
            decreases self.locations.len() - i,
        {
            let ghost before = location_views(out@);
            out.push(clone_location(&self.locations[i]));
            proof {
                assert(location_views(out@) =~= before.push(self.locations@[i as int]@));
                assert(before.push(self.locations@[i as int]@) =~= location_views(
                    self.locations@,
                ).take(i + 1));
            }
            i += 1;
        }
        proof {
            assert(location_views(self.locations@).take(self.locations.len() as int)
                =~= location_views(self.locations@));
        }
        out
    }

    /// The location with the given identifier.
    pub fn location_get(&self, location_id: LocationId) -> (out: Option<LocationDescriptor>)
        ensures
            match out {
                Some(loc) => find_location(self@.locations, location_id.0, 0) matches Some(i)
                    && loc@ == self@.locations[i] && loc@.id == location_id.0,
                None => find_location(self@.locations, location_id.0, 0) is None,
            },
    {
        let ghost lv = self@.locations;
        let mut i: usize = 0;
        while i < self.locations.len()
            invariant
                i <= self.locations.len(),
                lv == location_views(self.locations@),
                find_location(lv, location_id.0, 0) == find_location(lv, location_id.0, i as int),
            decreases self.locations.len() - i,
        {
            proof {
                assert(lv[i as int] == self.locations@[i as int]@);
            }
            if self.locations[i].id.0 == location_id.0 {
                return Some(clone_location(&self.locations[i]));
            }
            i += 1;
        }
        None
    }

    /// Removes a location and, with it, the catalog rows of its documents;
    /// rows of the search index stay. Returns whether there was such a
    /// location.
    pub fn location_remove(&mut self, location_id: LocationId) -> (out: bool)
        requires
            old(self).wf(),
        ensures
            final(self).wf(),
            final(self)@.index == old(self)@.index,
            final(self)@.next_location_id == old(self)@.next_location_id,
            match find_location(old(self)@.locations, location_id.0, 0) {
                Some(i) => out && final(self)@.locations == old(self)@.locations.remove(i)
                    && final(self)@.documents == rows_outside(old(self)@.documents, location_id.0),
                None => !out && final(self)@ == old(self)@,
            },
    {
        let ghost lv = self@.locations;
        let mut i: usize = 0;
        while i < self.locations.len()
            invariant
                i <= self.locations.len(),
                *self == *old(self),
                self.wf(),
                lv == location_views(self.locations@),
                find_location(lv, location_id.0, 0) == find_location(lv, location_id.0, i as int),
            decreases self.locations.len() - i,
        {
            proof {
                assert(lv[i as int] == self.locations@[i as int]@);
            }
            if self.locations[i].id.0 == location_id.0 {
                self.locations.remove(i);
                proof {
                    let out = location_views(self.locations@);
                    assert(out =~= lv.remove(i as int));
                    assert forall|a: int, b: int| 0 <= a < b < out.len() implies (
                    #[trigger] out[a]).id != (#[trigger] out[b]).id && out[a].root_path
                        != out[b].root_path && !out[a].added_at.before(out[b].added_at) by {
                        let a0 = if a < i {
                            a
                        } else {
                            a + 1
                        };
                        let b0 = if b < i {
                            b
                        } else {
                            b + 1
                        };
                        assert(out[a] == lv[a0] && out[b] == lv[b0]);
                    }
                    assert forall|a: int| 0 <= a < out.len() implies (#[trigger] out[a]).id
                        < self.next_location_id by {
                        let a0 = if a < i {
                            a
                        } else {
                            a + 1
                        };
                        assert(out[a] == lv[a0]);
                    }
                }
                self.remove_rows_of_location(location_id.0);
                return true;
            }
            i += 1;
        }
        false
    }

    fn remove_rows_of_location(&mut self, location_id: i64)
        requires
            keys_distinct(row_views(old(self).documents@)),
        ensures
            final(self).locations == old(self).locations,
            final(self).index == old(self).index,
            final(self).next_location_id == old(self).next_location_id,
            row_views(final(self).documents@) == rows_outside(
                row_views(old(self).documents@),
                location_id,
            ),
            keys_distinct(row_views(final(self).documents@)),
    {
        let ghost rows = row_views(self.documents@);
        let ghost pred = outside_location(location_id);
        let mut kept: Vec<CatalogRow> = Vec::new();
        let mut i: usize = 0;
        proof {
            reveal(Seq::filter);
            assert(rows.take(0).filter(pred) =~= Seq::empty());
        }
        while i < self.documents.len()
            invariant
                i <= self.documents.len(),
                *self == *old(self),
                rows == row_views(self.documents@),
                pred == outside_location(location_id),
                row_views(kept@) == rows.take(i as int).filter(pred),
            decreases self.documents.len() - i,
        {
            proof {
                lemma_filter_step(rows, pred, i as int);
                assert(rows[i as int] == self.documents@[i as int]@);
            }
            let ghost before = row_views(kept@);
            if self.documents[i].meta.id.location_id.0 != location_id {
                kept.push(clone_row(&self.documents[i]));
                proof {
                    assert(row_views(kept@) =~= before.push(self.documents@[i as int]@));
                }
            }
            i += 1;
        }
        proof {
            assert(rows.take(self.documents.len() as int) =~= rows);
            lemma_filter_keeps_keys_distinct(rows, pred);
        }
        self.documents = kept;
    }
}

/// The title under which a document's text is indexed: the title of its
/// metadata, else the stem of its file name, else `Untitled`.
pub open spec fn index_title(title: Option<Seq<char>>, rel_path: Seq<char>) -> Seq<char> {
    match title {
        Some(t) => t,
        None => match file_stem_spec(rel_path) {
            Some(stem) => stem,
            None => "Untitled"@,
        },
    }
}

/// The index after a document's text was handed to it: the text of a
/// document whose extension is indexed replaces the rows of its key; a
/// document of another kind loses its rows.
pub open spec fn index_after_text(
    index: Seq<IndexRowView>,
    location_id: i64,
    rel_path: Seq<char>,
    title: Option<Seq<char>>,
    text: Seq<char>,
) -> Seq<IndexRowView> {
    if is_indexable_spec(rel_path) {
        index_upserted(
            index,
            IndexRowView {
                location_id,
                rel_path,
                title: index_title(title, rel_path),
                content: text,
            },
        )
    } else {
        index_without(index, location_id, rel_path)
    }
}

/// A path is the directory itself or lies below it.
pub open spec fn under_dir(path: Seq<char>, dir: Seq<char>) -> bool {
    path == dir || (path.len() > dir.len() && path.take(dir.len() as int) == dir
        && path[dir.len() as int] == '/')
}

/// The path of an entry of `old_dir` once the directory is at `new_dir`.
pub open spec fn moved_path(path: Seq<char>, old_dir: Seq<char>, new_dir: Seq<char>) -> Seq<char> {
    new_dir + path.skip(old_dir.len() as int)
}

/// A catalog row after a directory of its location has moved.
pub open spec fn moved_row(
    location_id: i64,
    old_dir: Seq<char>,
    new_dir: Seq<char>,
    now: Timestamp,
) -> spec_fn(RowView) -> RowView {
    |r: RowView|
        if r.meta.location_id == location_id && under_dir(r.meta.rel_path, old_dir) {
            RowView {
                meta: DocMetaView {
                    rel_path: moved_path(r.meta.rel_path, old_dir, new_dir),
                    ..r.meta
                },
                updated_at: now,
            }
        } else {
            r
        }
}

/// An index row after a directory of its location has moved.
pub open spec fn moved_index_row(location_id: i64, old_dir: Seq<char>, new_dir: Seq<char>) -> spec_fn(
    IndexRowView,
) -> IndexRowView {
    |r: IndexRowView|
        if r.location_id == location_id && under_dir(r.rel_path, old_dir) {
            IndexRowView { rel_path: moved_path(r.rel_path, old_dir, new_dir), ..r }
        } else {
            r
        }
}

/// The catalog rows after a directory has moved: the rows at or below the
/// old path get the new path in its place and the time of the move.
pub open spec fn rows_moved(
    rows: Seq<RowView>,
    location_id: i64,
    old_dir: Seq<char>,
    new_dir: Seq<char>,
    now: Timestamp,
) -> Seq<RowView> {
    rows.map_values(moved_row(location_id, old_dir, new_dir, now))
}

/// The index rows after a directory has moved.
pub open spec fn index_moved(
    index: Seq<IndexRowView>,
    location_id: i64,
    old_dir: Seq<char>,
    new_dir: Seq<char>,
) -> Seq<IndexRowView> {
    index.map_values(moved_index_row(location_id, old_dir, new_dir))
}

/// The rows that are neither a directory of a location nor below it.
pub open spec fn outside_dir(location_id: i64, dir: Seq<char>) -> spec_fn(RowView) -> bool {
    |r: RowView| !(r.meta.location_id == location_id && under_dir(r.meta.rel_path, dir))
}

/// The index rows that are neither a directory of a location nor below it.
pub open spec fn index_outside_dir(location_id: i64, dir: Seq<char>) -> spec_fn(IndexRowView) -> bool {
    |r: IndexRowView| !(r.location_id == location_id && under_dir(r.rel_path, dir))
}

pub open spec fn move_collision_message() -> Seq<char> {
    "Failed to update directory document rows: a document exists at a destination path"@
}

/// Whether a path is a directory itself or lies below it.
pub fn is_under_dir(path: &Vec<char>, dir: &Vec<char>) -> (out: bool)
    ensures
        out == under_dir(path@, dir@),
{
    if same_chars(path, dir) {
        return true;
    }
    if path.len() > dir.len() && matches_at(path, dir, 0) && path[dir.len()] == '/' {
        proof {
            assert(path@.subrange(0, dir@.len() as int) =~= path@.take(dir@.len() as int));
        }
        true
    } else {
        proof {
            if path.len() > dir.len() {
                assert(path@.subrange(0, dir@.len() as int) =~= path@.take(dir@.len() as int));
            }
        }
        false
    }
}

/// The path of an entry of `old_dir` once the directory is at `new_dir`.
pub fn move_path(path: &Vec<char>, old_dir: &Vec<char>, new_dir: &Vec<char>) -> (out: String)
    requires
        old_dir.len() <= path.len(),
    ensures
        out@ == moved_path(path@, old_dir@, new_dir@),
{
    let mut out: Vec<char> = Vec::new();
    push_all(&mut out, new_dir);
    let tail = slice_chars(path, old_dir.len(), path.len());
    push_all(&mut out, &tail);
    proof {
        assert(path@.subrange(old_dir@.len() as int, path@.len() as int) =~= path@.skip(
            old_dir@.len() as int,
        ));
        assert(Seq::<char>::empty() + new_dir@ =~= new_dir@);
    }
    from_chars(&out)
}

fn rows_have_distinct_keys(rows: &Vec<CatalogRow>) -> (out: bool)
    ensures
        out == keys_distinct(row_views(rows@)),
{
    let ghost rv = row_views(rows@);
    let mut b: usize = 0;
    while b < rows.len()
        invariant
            b <= rows.len(),
            rv == row_views(rows@),
            forall|x: int, y: int|
                0 <= x < y < b ==> !row_has_key(
                    #[trigger] rv[y],
                    (#[trigger] rv[x]).meta.location_id,
                    rv[x].meta.rel_path,
                ),
        decreases rows.len() - b,
    {
        let mut a: usize = 0;
        while a < b
            invariant
                a <= b < rows.len(),
                rv == row_views(rows@),
                forall|x: int|
                    0 <= x < a ==> !row_has_key(
                        rv[b as int],
                        (#[trigger] rv[x]).meta.location_id,
                        rv[x].meta.rel_path,
                    ),
            decreases b - a,
        {
            proof {
                assert(rv[a as int] == rows@[a as int]@);
                assert(rv[b as int] == rows@[b as int]@);
            }
            if rows[a].meta.id.location_id.0 == rows[b].meta.id.location_id.0 && same_text(
                rows[a].meta.id.rel_path.as_str(),
                rows[b].meta.id.rel_path.as_str(),
            ) {
                return false;
            }
            a += 1;
        }
        b += 1;
    }
    true
}

impl Store {
    /// Writes a document's metadata to the catalog at the time `now`. The
    /// row of the same key is overwritten and keeps the time of creation it
    /// had; a document that has no row gets one.
    pub fn update_doc_in_catalog(&mut self, meta: &DocMeta, now: Timestamp)
        requires
            old(self).wf(),
        ensures
            final(self).wf(),
            final(self)@ == (StoreView {
                documents: rows_upserted(old(self)@.documents, meta@, now),
                ..old(self)@
            }),
    {
        let ghost rows = row_views(self.documents@);
        proof {
            lemma_upsert_keeps_keys_distinct(rows, meta@, now);
        }
        let mut i: usize = 0;
        while i < self.documents.len()
            invariant
                i <= self.documents.len(),
                *self == *old(self),
                self.wf(),
                keys_distinct(rows_upserted(rows, meta@, now)),
                rows == row_views(self.documents@),
                find_row(rows, meta@.location_id, meta@.rel_path, 0) == find_row(
                    rows,
                    meta@.location_id,
                    meta@.rel_path,
                    i as int,
                ),
            decreases self.documents.len() - i,
        {
            proof {
                assert(rows[i as int] == self.documents@[i as int]@);
            }
            if self.documents[i].meta.id.location_id.0 == meta.id.location_id.0 && same_text(
                self.documents[i].meta.id.rel_path.as_str(),
                meta.id.rel_path.as_str(),
            ) {
                let mut copy = clone_meta(meta);
                match self.documents[i].meta.created_at {
                    Some(t) => {
                        copy.created_at = Some(t);
                    },
                    None => {},
                }
                let row = CatalogRow { meta: copy, updated_at: now };
                self.documents.set(i, row);
                proof {
                    assert(row_views(self.documents@) =~= rows.update(
                        i as int,
                        merged_row(rows[i as int], meta@, now),
                    ));
                }
                return ;
            }
            i += 1;
        }
        let row = CatalogRow { meta: clone_meta(meta), updated_at: now };
        self.documents.push(row);
        proof {
            assert(row_views(self.documents@) =~= rows.push(RowView { meta: meta@, updated_at: now }));
        }
    }

    /// Deletes the index rows of a key.
    pub fn remove_fts_entry(&mut self, doc_id: &DocId)
        ensures
            final(self).wf() == old(self).wf(),
            final(self)@ == (StoreView {
                index: index_without(old(self)@.index, doc_id.location_id.0, doc_id.rel_path@),
                ..old(self)@
            }),
    {
        let ghost rows = index_views(self.index@);
        let ghost pred = index_not_key(doc_id.location_id.0, doc_id.rel_path@);
        let mut kept: Vec<IndexRow> = Vec::new();
        let mut i: usize = 0;
        proof {
            reveal(Seq::filter);
            assert(rows.take(0).filter(pred) =~= Seq::empty());
        }
        while i < self.index.len()
            invariant
                i <= self.index.len(),
                *self == *old(self),
                rows == index_views(self.index@),
                pred == index_not_key(doc_id.location_id.0, doc_id.rel_path@),
                index_views(kept@) == rows.take(i as int).filter(pred),
            decreases self.index.len() - i,
        {
            proof {
                lemma_filter_step(rows, pred, i as int);
                assert(rows[i as int] == self.index@[i as int]@);
            }
            let ghost before = index_views(kept@);
            if !(self.index[i].location_id.0 == doc_id.location_id.0 && same_text(
                self.index[i].rel_path.as_str(),
                doc_id.rel_path.as_str(),
            )) {
                kept.push(clone_index_row(&self.index[i]));
                proof {
                    assert(index_views(kept@) =~= before.push(self.index@[i as int]@));
                }
            }
            i += 1;
        }
        proof {
            assert(rows.take(self.index.len() as int) =~= rows);
        }
        self.index = kept;
    }

    /// Puts a document's text into the index: every row of its key is
    /// deleted, then one row is inserted.
    pub fn upsert_fts_entry(&mut self, doc_id: &DocId, title: &str, content: &str)
        ensures
            final(self).wf() == old(self).wf(),
            final(self)@ == (StoreView {
                index: index_upserted(
                    old(self)@.index,
                    IndexRowView {
                        location_id: doc_id.location_id.0,
                        rel_path: doc_id.rel_path@,
                        title: title@,
                        content: content@,
                    },
                ),
                ..old(self)@
            }),
    {
        self.remove_fts_entry(doc_id);
        let ghost before = index_views(self.index@);
        let row = IndexRow {
            location_id: doc_id.location_id,
            rel_path: doc_id.rel_path.clone(),
            title: title.to_string(),
            content: content.to_string(),
        };
        self.index.push(row);
        proof {
            assert(index_views(self.index@) =~= before.push(row@));
        }
    }

    /// Hands a document's text to the index. The text of a document whose
    /// extension is indexed replaces the index rows of its key, under the
    /// title of its metadata, else the stem of its file name, else
    /// `Untitled`; a document of another kind loses its index rows.
    pub fn index_document_text(&mut self, doc_id: &DocId, meta: &DocMeta, text: &str)
        ensures
            final(self).wf() == old(self).wf(),
            final(self)@ == (StoreView {
                index: index_after_text(
                    old(self)@.index,
                    doc_id.location_id.0,
                    doc_id.rel_path@,
                    opt_text(meta.title),
                    text@,
                ),
                ..old(self)@
            }),
    {
        if !is_indexable_text_path(doc_id.rel_path.as_str()) {
            self.remove_fts_entry(doc_id);
            return ;
        }
        let title: String = match &meta.title {
            Some(t) => t.clone(),
            None => match fallback_title_from_path(doc_id.rel_path.as_str()) {
                Some(stem) => stem,
                None => "Untitled".to_string(),
            },
        };
        self.upsert_fts_entry(doc_id, title.as_str(), text);
    }

    fn remove_catalog_rows(&mut self, doc_id: &DocId)
        requires
            old(self).wf(),
        ensures
            final(self).wf(),
            final(self)@ == (StoreView {
                documents: rows_without(
                    old(self)@.documents,
                    doc_id.location_id.0,
                    doc_id.rel_path@,
                ),
                ..old(self)@
            }),
    {
        let ghost rows = row_views(self.documents@);
        let ghost pred = not_key(doc_id.location_id.0, doc_id.rel_path@);
        let mut kept: Vec<CatalogRow> = Vec::new();
        let mut i: usize = 0;
        proof {
            reveal(Seq::filter);
            assert(rows.take(0).filter(pred) =~= Seq::empty());
        }
        while i < self.documents.len()
            invariant
                i <= self.documents.len(),
                *self == *old(self),
                rows == row_views(self.documents@),
                pred == not_key(doc_id.location_id.0, doc_id.rel_path@),
                row_views(kept@) == rows.take(i as int).filter(pred),
            decreases self.documents.len() - i,
        {
            proof {
                lemma_filter_step(rows, pred, i as int);
                assert(rows[i as int] == self.documents@[i as int]@);
            }
            let ghost before = row_views(kept@);
            if !(self.documents[i].meta.id.location_id.0 == doc_id.location_id.0 && same_text(
                self.documents[i].meta.id.rel_path.as_str(),
                doc_id.rel_path.as_str(),
            )) {
                kept.push(clone_row(&self.documents[i]));
                proof {
                    assert(row_views(kept@) =~= before.push(self.documents@[i as int]@));
                }
            }
            i += 1;
        }
        proof {
            assert(rows.take(self.documents.len() as int) =~= rows);
            lemma_filter_keeps_keys_distinct(rows, pred);
        }
        self.documents = kept;
    }

    /// Removes a document from catalog and index: the rows of its key in both.
    pub fn remove_document_from_index(&mut self, doc_id: &DocId)
        requires
            old(self).wf(),
        ensures
            final(self).wf(),
            final(self)@ == (StoreView {
                documents: rows_without(
                    old(self)@.documents,
                    doc_id.location_id.0,
                    doc_id.rel_path@,
                ),
                index: index_without(old(self)@.index, doc_id.location_id.0, doc_id.rel_path@),
                ..old(self)@
            }),
    {
        self.remove_catalog_rows(doc_id);
        self.remove_fts_entry(doc_id);
    }

    /// Rewrites the paths of catalog and index rows after a directory of a
    /// location has moved from `old_rel_path` to `new_rel_path`: every row
    /// whose path is the old path or lies below it, at the boundary `/`,
    /// gets the new path in place of the old one. Fails with `Index`, and
    /// changes nothing, where a document would come to lie on another one.
    pub fn update_directory_paths_in_index(
        &mut self,
        location_id: LocationId,
        old_rel_path: &str,
        new_rel_path: &str,
        now: Timestamp,
    ) -> (result: Result<(), AppError>)
        requires
            old(self).wf(),
        ensures
            final(self).wf(),
            match result {
                Ok(()) => keys_distinct(
                    rows_moved(old(self)@.documents, location_id.0, old_rel_path@, new_rel_path@, now),
                ) && final(self)@ == (StoreView {
                    documents: rows_moved(
                        old(self)@.documents,
                        location_id.0,
                        old_rel_path@,
                        new_rel_path@,
                        now,
                    ),
                    index: index_moved(
                        old(self)@.index,
                        location_id.0,
                        old_rel_path@,
                        new_rel_path@,
                    ),
                    ..old(self)@
                }),
                Err(e) => !keys_distinct(
                    rows_moved(old(self)@.documents, location_id.0, old_rel_path@, new_rel_path@, now),
                ) && final(self)@ == old(self)@ && e@ == (
                    ErrorCode::Index,
                    move_collision_message(),
                    None::<Seq<char>>,
                ),
            },
    {
        let old_dir = to_chars(old_rel_path);
        let new_dir = to_chars(new_rel_path);
        let ghost rows = row_views(self.documents@);
        let ghost f = moved_row(location_id.0, old_rel_path@, new_rel_path@, now);
        let mut moved: Vec<CatalogRow> = Vec::new();
        let mut i: usize = 0;
        while i < self.documents.len()
            invariant
                i <= self.documents.len(),
                *self == *old(self),
                self.wf(),
                old_dir@ == old_rel_path@,
                new_dir@ == new_rel_path@,
                rows == row_views(self.documents@),
                f == moved_row(location_id.0, old_rel_path@, new_rel_path@, now),
                row_views(moved@) == rows.take(i as int).map_values(f),
            decreases self.documents.len() - i,
        {
            let ghost before = row_views(moved@);
            let r = &self.documents[i];
            proof {
                assert(rows[i as int] == r@);
            }
            let path = to_chars(r.meta.id.rel_path.as_str());
            let mut copy = clone_row(r);
            if r.meta.id.location_id.0 == location_id.0 && is_under_dir(&path, &old_dir) {
                copy.meta.id.rel_path = move_path(&path, &old_dir, &new_dir);
                copy.updated_at = now;
            }
            moved.push(copy);
            proof {
                assert(copy@ == f(rows[i as int]));
                assert(row_views(moved@) =~= before.push(f(rows[i as int])));
                assert(before.push(f(rows[i as int])) =~= rows.take(i + 1).map_values(f));
            }
            i += 1;
        }
        proof {
            assert(rows.take(self.documents.len() as int) =~= rows);
        }
        if !rows_have_distinct_keys(&moved) {
            return Err(
                AppError::new(
                    ErrorCode::Index,
                    "Failed to update directory document rows: a document exists at a destination path",
                ),
            );
        }
        self.documents = moved;
        let ghost irows = index_views(self.index@);
        let ghost g = moved_index_row(location_id.0, old_rel_path@, new_rel_path@);
        let mut moved_index: Vec<IndexRow> = Vec::new();
        let mut j: usize = 0;
        while j < self.index.len()
            invariant
                j <= self.index.len(),
                self.locations == old(self).locations,
                self.index == old(self).index,
                self.next_location_id == old(self).next_location_id,
                row_views(self.documents@) == rows.map_values(f),
                self.wf(),
                old_dir@ == old_rel_path@,
                new_dir@ == new_rel_path@,
                irows == index_views(self.index@),
                g == moved_index_row(location_id.0, old_rel_path@, new_rel_path@),
                index_views(moved_index@) == irows.take(j as int).map_values(g),
            decreases self.index.len() - j,
        {
            let ghost before = index_views(moved_index@);
            let r = &self.index[j];
            proof {
                assert(irows[j as int] == r@);
            }
            let path = to_chars(r.rel_path.as_str());
            let mut copy = clone_index_row(r);
            if r.location_id.0 == location_id.0 && is_under_dir(&path, &old_dir) {
                copy.rel_path = move_path(&path, &old_dir, &new_dir);
            }
            moved_index.push(copy);
            proof {
                assert(copy@ == g(irows[j as int]));
                assert(index_views(moved_index@) =~= before.push(g(irows[j as int])));
                assert(before.push(g(irows[j as int])) =~= irows.take(j + 1).map_values(g));
            }
            j += 1;
        }
        proof {
            assert(irows.take(self.index.len() as int) =~= irows);
        }
        self.index = moved_index;
        Ok(())
    }

    /// Removes from catalog and index every row whose path is the given
    /// directory of a location or lies below it.
    pub fn remove_directory_from_index(&mut self, location_id: LocationId, rel_path: &str)
        requires
            old(self).wf(),
        ensures
            final(self).wf(),
            final(self)@ == (StoreView {
                documents: old(self)@.documents.filter(outside_dir(location_id.0, rel_path@)),
                index: old(self)@.index.filter(index_outside_dir(location_id.0, rel_path@)),
                ..old(self)@
            }),
    {
        let dir = to_chars(rel_path);
        let ghost rows = row_views(self.documents@);
        let ghost pred = outside_dir(location_id.0, rel_path@);
        let mut kept: Vec<CatalogRow> = Vec::new();
        let mut i: usize = 0;
        proof {
            reveal(Seq::filter);
            assert(rows.take(0).filter(pred) =~= Seq::empty());
        }
        while i < self.documents.len()
            invariant
                i <= self.documents.len(),
                *self == *old(self),
                dir@ == rel_path@,
                rows == row_views(self.documents@),
                pred == outside_dir(location_id.0, rel_path@),
                row_views(kept@) == rows.take(i as int).filter(pred),
            decreases self.documents.len() - i,
        {
            proof {
                lemma_filter_step(rows, pred, i as int);
                assert(rows[i as int] == self.documents@[i as int]@);
            }
            let ghost before = row_views(kept@);
            let path = to_chars(self.documents[i].meta.id.rel_path.as_str());
            if !(self.documents[i].meta.id.location_id.0 == location_id.0 && is_under_dir(
                &path,
                &dir,
            )) {
                kept.push(clone_row(&self.documents[i]));
                proof {
                    assert(row_views(kept@) =~= before.push(self.documents@[i as int]@));
                }
            }
            i += 1;
        }
        proof {
            assert(rows.take(self.documents.len() as int) =~= rows);
            lemma_filter_keeps_keys_distinct(rows, pred);
        }
        self.documents = kept;
        let ghost irows = index_views(self.index@);
        let ghost ipred = index_outside_dir(location_id.0, rel_path@);
        let mut kept_index: Vec<IndexRow> = Vec::new();
        let mut j: usize = 0;
        proof {
            reveal(Seq::filter);
            assert(irows.take(0).filter(ipred) =~= Seq::empty());
        }
        while j < self.index.len()
            invariant
                j <= self.index.len(),
                self.locations == old(self).locations,
                self.index == old(self).index,
                self.next_location_id == old(self).next_location_id,
                row_views(self.documents@) == rows.filter(pred),
                self.wf(),
                dir@ == rel_path@,
                irows == index_views(self.index@),
                ipred == index_outside_dir(location_id.0, rel_path@),
                index_views(kept_index@) == irows.take(j as int).filter(ipred),
            decreases self.index.len() - j,
        {
            proof {
                lemma_filter_step(irows, ipred, j as int);
                assert(irows[j as int] == self.index@[j as int]@);
            }
            let ghost before = index_views(kept_index@);
            let path = to_chars(self.index[j].rel_path.as_str());
            if !(self.index[j].location_id.0 == location_id.0 && is_under_dir(&path, &dir)) {
                kept_index.push(clone_index_row(&self.index[j]));
                proof {
                    assert(index_views(kept_index@) =~= before.push(self.index@[j as int]@));
                }
            }
            j += 1;
        }
        proof {
            assert(irows.take(self.index.len() as int) =~= irows);
        }
        self.index = kept_index;
    }

    /// The identifier that the next location gets.
    pub fn next_location_id(&self) -> (out: i64)
        ensures
            out == self@.next_location_id,
    {
        self.next_location_id
    }

    /// The catalog row of a document.
    pub fn document(&self, doc_id: &DocId) -> (out: Option<CatalogRow>)
        ensures
            match out {
                Some(row) => find_row(self@.documents, doc_id.location_id.0, doc_id.rel_path@, 0)
                    matches Some(i) && row@ == self@.documents[i],
                None => find_row(self@.documents, doc_id.location_id.0, doc_id.rel_path@, 0) is None,
            },
    {
        let ghost rows = row_views(self.documents@);
        let mut i: usize = 0;
        while i < self.documents.len()
            invariant
                i <= self.documents.len(),
                rows == row_views(self.documents@),
                find_row(rows, doc_id.location_id.0, doc_id.rel_path@, 0) == find_row(
                    rows,
                    doc_id.location_id.0,
                    doc_id.rel_path@,
                    i as int,
                ),
            decreases self.documents.len() - i,
        {
            proof {
                assert(rows[i as int] == self.documents@[i as int]@);
            }
            if self.documents[i].meta.id.location_id.0 == doc_id.location_id.0 && same_text(
                self.documents[i].meta.id.rel_path.as_str(),
                doc_id.rel_path.as_str(),
            ) {
                return Some(clone_row(&self.documents[i]));
            }
            i += 1;
        }
        None
    }

    /// All catalog rows, in the order in which their keys were first written.
    pub fn documents(&self) -> (out: Vec<CatalogRow>)
        ensures
            row_views(out@) == self@.documents,
    {
        let mut out: Vec<CatalogRow> = Vec::new();
        let mut i: usize = 0;
        while i < self.documents.len()
            invariant
                i <= self.documents.len(),
                row_views(out@) == row_views(self.documents@).take(i as int),
            decreases self.documents.len() - i,
        {
            let ghost before = row_views(out@);
            out.push(clone_row(&self.documents[i]));
            proof {
                assert(row_views(out@) =~= before.push(self.documents@[i as int]@));
                assert(before.push(self.documents@[i as int]@) =~= row_views(self.documents@).take(
                    i + 1,
                ));
            }
            i += 1;
        }
        proof {
            assert(row_views(self.documents@).take(self.documents.len() as int) =~= row_views(
                self.documents@,
            ));
        }
        out
    }

    /// All index rows, oldest first.
    pub fn index_rows(&self) -> (out: Vec<IndexRow>)
        ensures
            index_views(out@) == self@.index,
    {
        let mut out: Vec<IndexRow> = Vec::new();
        let mut i: usize = 0;
        while i < self.index.len()
            invariant
                i <= self.index.len(),
                index_views(out@) == index_views(self.index@).take(i as int),
            decreases self.index.len() - i,
        {
            let ghost before = index_views(out@);
            out.push(clone_index_row(&self.index[i]));
            proof {
                assert(index_views(out@) =~= before.push(self.index@[i as int]@));
                assert(before.push(self.index@[i as int]@) =~= index_views(self.index@).take(i + 1));
            }
            i += 1;
        }
        proof {
            assert(index_views(self.index@).take(self.index.len() as int) =~= index_views(
                self.index@,
            ));
        }
        out
    }

    /// The catalog rows of one location, in the catalog's order.
    pub fn documents_in(&self, location_id: LocationId) -> (out: Vec<CatalogRow>)
        ensures
            row_views(out@) == self@.documents.filter(inside_location(location_id.0)),
    {
        let ghost rows = row_views(self.documents@);
        let ghost keep = inside_location(location_id.0);
        let mut out: Vec<CatalogRow> = Vec::new();
        let mut i: usize = 0;
        proof {
            assert(rows.take(0) =~= Seq::empty());
            assert(row_views(out@) =~= rows.take(0).filter(keep));
        }
        while i < self.documents.len()
            invariant
                i <= self.documents.len(),
                rows == row_views(self.documents@),
                keep == inside_location(location_id.0),
                row_views(out@) == rows.take(i as int).filter(keep),
            decreases self.documents.len() - i,
        {
            let ghost before = row_views(out@);
            proof {
                assert(rows[i as int] == self.documents@[i as int]@);
                assert(rows.take(i + 1) =~= rows.take(i as int).push(rows[i as int]));
                lemma_filter_push(rows.take(i as int), rows[i as int], keep);
            }
            if self.documents[i].meta.id.location_id.0 == location_id.0 {
                out.push(clone_row(&self.documents[i]));
                proof {
                    assert(row_views(out@) =~= before.push(rows[i as int]));
                }
            }
            i += 1;
        }
        proof {
            assert(rows.take(self.documents.len() as int) =~= rows);
        }
        out
    }

    /// The index rows of one location, oldest first.
    pub fn index_rows_in(&self, location_id: LocationId) -> (out: Vec<IndexRow>)
        ensures
            index_views(out@) == self@.index.filter(index_inside_location(location_id.0)),
    {
        let ghost rows = index_views(self.index@);
        let ghost keep = index_inside_location(location_id.0);
        let mut out: Vec<IndexRow> = Vec::new();
        let mut i: usize = 0;
        proof {
            assert(rows.take(0) =~= Seq::empty());
            assert(index_views(out@) =~= rows.take(0).filter(keep));
        }
        while i < self.index.len()
            invariant
                i <= self.index.len(),
                rows == index_views(self.index@),
                keep == index_inside_location(location_id.0),
                index_views(out@) == rows.take(i as int).filter(keep),
            decreases self.index.len() - i,
        {
            let ghost before = index_views(out@);
            proof {
                assert(rows[i as int] == self.index@[i as int]@);
                assert(rows.take(i + 1) =~= rows.take(i as int).push(rows[i as int]));
                lemma_filter_push(rows.take(i as int), rows[i as int], keep);
            }
            if self.index[i].location_id.0 == location_id.0 {
                out.push(clone_index_row(&self.index[i]));
                proof {
                    assert(index_views(out@) =~= before.push(rows[i as int]));
                }
            }
            i += 1;
        }
        proof {
            assert(rows.take(self.index.len() as int) =~= rows);
        }
        out
    }

    /// The index rows of one document, oldest first.
    pub fn index_rows_of(&self, doc_id: &DocId) -> (out: Vec<IndexRow>)
        ensures
            index_views(out@) == self@.index.filter(
                index_of_key(doc_id.location_id.0, doc_id.rel_path@),
            ),
    {
        let ghost rows = index_views(self.index@);
        let ghost keep = index_of_key(doc_id.location_id.0, doc_id.rel_path@);
        let mut out: Vec<IndexRow> = Vec::new();
        let mut i: usize = 0;
        proof {
            assert(rows.take(0) =~= Seq::empty());
            assert(index_views(out@) =~= rows.take(0).filter(keep));
        }
        while i < self.index.len()
            invariant
                i <= self.index.len(),
                rows == index_views(self.index@),
                keep == index_of_key(doc_id.location_id.0, doc_id.rel_path@),
                index_views(out@) == rows.take(i as int).filter(keep),
            decreases self.index.len() - i,
        {
            let ghost before = index_views(out@);
            proof {
                assert(rows[i as int] == self.index@[i as int]@);
                assert(rows.take(i + 1) =~= rows.take(i as int).push(rows[i as int]));
                lemma_filter_push(rows.take(i as int), rows[i as int], keep);
            }
            if self.index[i].location_id.0 == doc_id.location_id.0 && same_text(
                self.index[i].rel_path.as_str(),
                doc_id.rel_path.as_str(),
            ) {
                out.push(clone_index_row(&self.index[i]));
                proof {
                    assert(index_views(out@) =~= before.push(rows[i as int]));
                }
            }
            i += 1;
        }
        proof {
            assert(rows.take(self.index.len() as int) =~= rows);
        }
        out
    }
}

/// The paths of a list, as a set.
pub open spec fn path_set(paths: Seq<String>) -> Set<Seq<char>> {
    Set::new(|p: Seq<char>| exists|k: int| 0 <= k < paths.len() && (#[trigger] paths[k])@ == p)
}

/// The rows that stay when a location is held against the paths seen in
/// it: the rows of other locations, and the rows of seen paths.
pub open spec fn row_is_seen(location_id: i64, seen: Set<Seq<char>>) -> spec_fn(RowView) -> bool {
    |r: RowView| r.meta.location_id != location_id || seen.contains(r.meta.rel_path)
}

/// The paths of a location's catalog rows that were not seen.
pub open spec fn stale_paths(rows: Seq<RowView>, location_id: i64, seen: Set<Seq<char>>) -> Set<Seq<char>> {
    Set::new(
        |p: Seq<char>|
            !seen.contains(p) && exists|i: int|
                0 <= i < rows.len() && row_has_key(#[trigger] rows[i], location_id, p),
    )
}

/// The index rows that stay: all but those of a location's stale paths.
pub open spec fn index_row_is_kept(location_id: i64, stale: Set<Seq<char>>) -> spec_fn(IndexRowView) -> bool {
    |r: IndexRowView| !(r.location_id == location_id && stale.contains(r.rel_path))
}

/// The state after the rows of a location that were not seen are removed:
/// the catalog rows whose path is not among the seen ones, and the index
/// rows of those paths.
pub open spec fn without_unseen(c: StoreView, location_id: i64, seen: Set<Seq<char>>) -> StoreView {
    StoreView {
        documents: c.documents.filter(row_is_seen(location_id, seen)),
        index: c.index.filter(
            index_row_is_kept(location_id, stale_paths(c.documents, location_id, seen)),
        ),
        ..c
    }
}

fn is_listed(paths: &Vec<String>, path: &str) -> (out: bool)
    ensures
        out == path_set(paths@).contains(path@),
{
    let mut k: usize = 0;
    while k < paths.len()
        invariant
            k <= paths.len(),
            forall|j: int| 0 <= j < k ==> (#[trigger] paths@[j])@ != path@,
        decreases paths.len() - k,
    {
        if same_text(paths[k].as_str(), path) {
            return true;
        }
        k += 1;
    }
    false
}

impl Store {
    fn is_stale_path(&self, location_id: i64, seen: &Vec<String>, path: &str) -> (out: bool)
        ensures
            out == stale_paths(row_views(self.documents@), location_id, path_set(seen@)).contains(
                path@,
            ),
    {
        if is_listed(seen, path) {
            return false;
        }
        let ghost rows = row_views(self.documents@);
        let mut i: usize = 0;
        while i < self.documents.len()
            invariant
                i <= self.documents.len(),
                rows == row_views(self.documents@),
                !path_set(seen@).contains(path@),
                forall|j: int| 0 <= j < i ==> !row_has_key(#[trigger] rows[j], location_id, path@),
            decreases self.documents.len() - i,
        {
            proof {
                assert(rows[i as int] == self.documents@[i as int]@);
            }
            if self.documents[i].meta.id.location_id.0 == location_id && same_text(
                self.documents[i].meta.id.rel_path.as_str(),
                path,
            ) {
                proof {
                    assert(row_has_key(rows[i as int], location_id, path@));
                }
                return true;
            }
            i += 1;
        }
        false
    }

    /// Removes what a scan of a location did not see: the catalog rows of
    /// the location whose path is not among `seen`, and the index rows of
    /// those paths.
    pub fn remove_unseen_rows(&mut self, location_id: LocationId, seen: &Vec<String>)
        requires
            old(self).wf(),
        ensures
            final(self).wf(),
            final(self)@ == without_unseen(old(self)@, location_id.0, path_set(seen@)),
    {
        let ghost irows = index_views(self.index@);
        let ghost stale = stale_paths(row_views(self.documents@), location_id.0, path_set(seen@));
        let ghost ipred = index_row_is_kept(location_id.0, stale);
        let mut kept_index: Vec<IndexRow> = Vec::new();
        let mut j: usize = 0;
        proof {
            reveal(Seq::filter);
            assert(irows.take(0).filter(ipred) =~= Seq::empty());
        }
        while j < self.index.len()
            invariant
                j <= self.index.len(),
                *self == *old(self),
                irows == index_views(self.index@),
                stale == stale_paths(row_views(self.documents@), location_id.0, path_set(seen@)),
                ipred == index_row_is_kept(location_id.0, stale),
                index_views(kept_index@) == irows.take(j as int).filter(ipred),
            decreases self.index.len() - j,
        {
            proof {
                lemma_filter_step(irows, ipred, j as int);
                assert(irows[j as int] == self.index@[j as int]@);
            }
            let ghost before = index_views(kept_index@);
            if !(self.index[j].location_id.0 == location_id.0 && self.is_stale_path(
                location_id.0,
                seen,
                self.index[j].rel_path.as_str(),
            )) {
                kept_index.push(clone_index_row(&self.index[j]));
                proof {
                    assert(index_views(kept_index@) =~= before.push(self.index@[j as int]@));
                }
            }
            j += 1;
        }
        proof {
            assert(irows.take(self.index.len() as int) =~= irows);
        }
        let ghost rows = row_views(self.documents@);
        let ghost pred = row_is_seen(location_id.0, path_set(seen@));
        let mut kept: Vec<CatalogRow> = Vec::new();
        let mut i: usize = 0;
        proof {
            reveal(Seq::filter);
            assert(rows.take(0).filter(pred) =~= Seq::empty());
        }
        while i < self.documents.len()
            invariant
                i <= self.documents.len(),
                *self == *old(self),
                rows == row_views(self.documents@),
                pred == row_is_seen(location_id.0, path_set(seen@)),
                row_views(kept@) == rows.take(i as int).filter(pred),
            decreases self.documents.len() - i,
        {
            proof {
                lemma_filter_step(rows, pred, i as int);
                assert(rows[i as int] == self.documents@[i as int]@);
            }
            let ghost before = row_views(kept@);
            if self.documents[i].meta.id.location_id.0 != location_id.0 || is_listed(
                seen,
                self.documents[i].meta.id.rel_path.as_str(),
            ) {
                kept.push(clone_row(&self.documents[i]));
                proof {
                    assert(row_views(kept@) =~= before.push(self.documents@[i as int]@));
                }
            }
            i += 1;
        }
        proof {
            assert(rows.take(self.documents.len() as int) =~= rows);
            lemma_filter_keeps_keys_distinct(rows, pred);
        }
        self.documents = kept;
        self.index = kept_index;
    }
}

/// A row that has a time of creation keeps it through every later
/// upsert of its key: what a later save or scan reports of the file's
/// creation does not replace the time at which it was first seen.
pub proof fn lemma_upsert_keeps_time_of_creation(rows: Seq<RowView>, meta: DocMetaView, now: Timestamp, i: int)
    requires
        0 <= i < rows.len(),
        keys_distinct(rows),
        row_has_key(rows[i], meta.location_id, meta.rel_path),
    ensures
        rows_upserted(rows, meta, now).len() == rows.len(),
        rows_upserted(rows, meta, now)[i].meta == (DocMetaView {
            created_at: coalesce(rows[i].meta.created_at, meta.created_at),
            ..meta
        }),
        rows[i].meta.created_at is Some ==> rows_upserted(rows, meta, now)[i].meta.created_at
            == rows[i].meta.created_at,
        rows_upserted(rows, meta, now)[i].updated_at == now,
        forall|j: int| 0 <= j < rows.len() && j != i ==> rows_upserted(rows, meta, now)[j] == rows[j],
{
    lemma_find_row_at(rows, meta.location_id, meta.rel_path, i, 0);
}

pub proof fn lemma_find_row_at(rows: Seq<RowView>, location_id: i64, rel_path: Seq<char>, i: int, from: int)
    requires
        keys_distinct(rows),
        0 <= from <= i < rows.len(),
        row_has_key(rows[i], location_id, rel_path),
    ensures
        find_row(rows, location_id, rel_path, from) == Some(i),
    decreases i - from,
{
    if from < i {
        assert(!row_has_key(rows[i], rows[from].meta.location_id, rows[from].meta.rel_path));
        lemma_find_row_at(rows, location_id, rel_path, i, from + 1);
    }
}

} // verus!
