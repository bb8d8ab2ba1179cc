use vstd::prelude::*;
use crate::catalog::{clone_meta, Store, StoreView};
use crate::chars::{lowercase_of, same_text, to_chars, to_lowercase};
use crate::dirops::{io_failure, root_of};
use crate::docmeta::{filename_of, filename_spec, read_doc_metadata, scanned_meta};
use crate::error::{failure, AppError, ErrorCode, ErrorView};
use crate::model::{DocListOptions, DocMeta, DocMetaView, DocSortField, SortOrder};
use crate::path::LocationId;
use crate::reconcile::{file_views, location_not_found_message, ScannedFile, ScannedFileView};
use crate::text::{extension, extension_spec};

verus! {

/// `a` comes before `b` in the order of their characters' code points,
/// a text before its extensions.
pub open spec fn text_less(a: Seq<char>, b: Seq<char>) -> bool
    decreases a.len(),
{
    if b.len() == 0 {
        false
    } else if a.len() == 0 {
        true
    } else if (a[0] as u32) < (b[0] as u32) {
        true
    } else if (a[0] as u32) > (b[0] as u32) {
        false
    } else {
        text_less(a.drop_first(), b.drop_first())
    }
}

/// Whether `a` comes before `b` in the order of their characters' code points.
pub fn text_before(a: &str, b: &str) -> (out: bool)
    ensures
        out == text_less(a@, b@),
{
    let x = to_chars(a);
    let y = to_chars(b);
    let mut i: usize = 0;
    proof {
        assert(x@.skip(0) =~= x@);
        assert(y@.skip(0) =~= y@);
    }
    loop
        invariant
            i <= x.len(),
            i <= y.len(),
            x@ == a@,
            y@ == b@,
            text_less(x@, y@) == text_less(x@.skip(i as int), y@.skip(i as int)),
        decreases x.len() - i,
    {
        let ghost xs = x@.skip(i as int);
        let ghost ys = y@.skip(i as int);
        if i >= y.len() {
            return false;
        }
        if i >= x.len() {
            return true;
        }
        proof {
            assert(xs[0] == x@[i as int]);
            assert(ys[0] == y@[i as int]);
            assert(xs.drop_first() =~= x@.skip(i + 1));
            assert(ys.drop_first() =~= y@.skip(i + 1));
        }
        let cx = x[i] as u32;
        let cy = y[i] as u32;
        if cx < cy {
            return true;
        }
        if cx > cy {
            return false;
        }
        i += 1;
    }
}

/// The field that a listing is sorted by where none is asked for.
pub open spec fn sort_field_spec(sort_by: Option<DocSortField>) -> DocSortField {
    match sort_by {
        Some(f) => f,
        None => DocSortField::Modified,
    }
}

/// `a` is listed before `b`: by name in the order of the characters;
/// by time of modification, newest first; by time of creation, newest
/// first, documents without one last; by size, largest first.
pub open spec fn comes_before(a: DocMetaView, b: DocMetaView, field: DocSortField) -> bool {
    match field {
        DocSortField::Name => text_less(a.filename, b.filename),
        DocSortField::Modified => b.mtime.before(a.mtime),
        DocSortField::Created => match (a.created_at, b.created_at) {
            (Some(x), Some(y)) => y.before(x),
            (Some(_), None) => true,
            _ => false,
        },
        DocSortField::Size => b.size_bytes < a.size_bytes,
    }
}

/// The place of `x` in a sorted listing: before the first document at or
/// after `from` that it comes before, behind all others.
pub open spec fn insert_place(sorted: Seq<DocMetaView>, x: DocMetaView, field: DocSortField, from: int) -> int
    decreases sorted.len() - from,
{
    if from < 0 || from >= sorted.len() {
        sorted.len() as int
    } else if comes_before(x, sorted[from], field) {
        from
    } else {
        insert_place(sorted, x, field, from + 1)
    }
}

/// The documents sorted by a field; documents that the field does not
/// tell apart stay in the order in which they were given.
pub open spec fn sorted_by(docs: Seq<DocMetaView>, field: DocSortField) -> Seq<DocMetaView>
    decreases docs.len(),
{
    if docs.len() == 0 {
        Seq::empty()
    } else {
        let before = sorted_by(docs.drop_last(), field);
        before.insert(insert_place(before, docs.last(), field, 0), docs.last())
    }
}

pub open spec fn meta_views(docs: Seq<DocMeta>) -> Seq<DocMetaView> {
    docs.map_values(|d: DocMeta| d@)
}

/// A listing in the order asked for: sorted by the field, and turned
/// around where the order is ascending.
pub open spec fn ordered(docs: Seq<DocMetaView>, field: DocSortField, order: SortOrder) -> Seq<DocMetaView> {
    if order == SortOrder::Ascending {
        sorted_by(docs, field).reverse()
    } else {
        sorted_by(docs, field)
    }
}

fn precedes(a: &DocMeta, b: &DocMeta, field: DocSortField) -> (out: bool)
    ensures
        out == comes_before(a@, b@, field),
{
    match field {
        DocSortField::Name => text_before(a.filename.as_str(), b.filename.as_str()),
        DocSortField::Modified => b.mtime.is_before(&a.mtime),
        DocSortField::Created => match (&a.created_at, &b.created_at) {
            (Some(x), Some(y)) => y.is_before(x),
            (Some(_), None) => true,
            _ => false,
        },
        DocSortField::Size => b.size_bytes < a.size_bytes,
    }
}

proof fn lemma_insert_place_bounds(sorted: Seq<DocMetaView>, x: DocMetaView, field: DocSortField, from: int)
    requires
        0 <= from <= sorted.len(),
    ensures
        from <= insert_place(sorted, x, field, from) <= sorted.len(),
    decreases sorted.len() - from,
{
    if from < sorted.len() && !comes_before(x, sorted[from], field) {
        lemma_insert_place_bounds(sorted, x, field, from + 1);
    }
}

/// Sorts documents by a field, keeping the given order among documents
/// that the field does not tell apart, and turns the listing around
/// where the order is ascending.
pub fn sort_documents(docs: Vec<DocMeta>, field: DocSortField, order: SortOrder) -> (out: Vec<DocMeta>)
    ensures
        meta_views(out@) == ordered(meta_views(docs@), field, order),
{
    let ghost input = meta_views(docs@);
    let mut sorted: Vec<DocMeta> = Vec::new();
    let mut i: usize = 0;
    proof {
        assert(input.take(0) =~= Seq::empty());
        assert(meta_views(sorted@) =~= Seq::empty());
    }
    while i < docs.len()
        invariant
            i <= docs.len(),
            input == meta_views(docs@),
            meta_views(sorted@) == sorted_by(input.take(i as int), field),
        decreases docs.len() - i,
    {
        let ghost before = meta_views(sorted@);
        let x = clone_meta(&docs[i]);
        proof {
            assert(input.take(i + 1).drop_last() =~= input.take(i as int));
            assert(input.take(i + 1).last() == docs@[i as int]@);
            lemma_insert_place_bounds(before, x@, field, 0);
        }
        let mut pos: usize = 0;
        while pos < sorted.len() && !precedes(&x, &sorted[pos], field)
            invariant
                pos <= sorted.len(),
                before == meta_views(sorted@),
                insert_place(before, x@, field, 0) == insert_place(before, x@, field, pos as int),
            decreases sorted.len() - pos,
        {
            proof {
                assert(before[pos as int] == sorted@[pos as int]@);
            }
            pos += 1;
        }
        proof {
            if pos < sorted.len() {
                assert(before[pos as int] == sorted@[pos as int]@);
            }
        }
        sorted.insert(pos, x);
        proof {
            assert(meta_views(sorted@) =~= before.insert(pos as int, x@));
        }
        i += 1;
    }
    proof {
        assert(input.take(docs.len() as int) =~= input);
    }
    match order {
        SortOrder::Descending => sorted,
        SortOrder::Ascending => {
            let ghost s = meta_views(sorted@);
            let mut out: Vec<DocMeta> = Vec::new();
            let mut k: usize = sorted.len();
            while k > 0
                invariant
                    k <= sorted.len(),
                    s == meta_views(sorted@),
                    out.len() == sorted.len() - k,
                    forall|j: int| 0 <= j < out.len() ==> (#[trigger] out@[j])@ == s[s.len() - 1 - j],
                decreases k,
            {
                out.push(clone_meta(&sorted[k - 1]));
                proof {
                    assert(s[k - 1] == sorted@[k - 1]@);
                }
                k -= 1;
            }
            proof {
                assert(meta_views(out@) =~= s.reverse());
            }
            out
        },
    }
}

/// The extension that a file is filtered by: its own, in lowercase, or
/// nothing where it has none.
pub open spec fn filter_extension(path: Seq<char>) -> Seq<char> {
    match extension_spec(path) {
        Some(e) => lowercase_of(e),
        None => lowercase_of(Seq::empty()),
    }
}

/// A file passes the filter of a listing: there is no filter, or the
/// file's extension is among the filter's, without regard to case.
pub open spec fn passes_filter(path: Seq<char>, extensions: Option<Seq<Seq<char>>>) -> bool {
    match extensions {
        None => true,
        Some(list) => lists_extension(list, filter_extension(path)),
    }
}

/// An extension is among those of a filter, without regard to case.
pub open spec fn lists_extension(list: Seq<Seq<char>>, extension: Seq<char>) -> bool {
    exists|i: int| 0 <= i < list.len() && lowercase_of(#[trigger] list[i]) == extension
}

/// The extensions of a filter as plain values.
pub open spec fn extension_views(extensions: Option<Vec<String>>) -> Option<Seq<Seq<char>>> {
    match extensions {
        Some(list) => Some(list@.map_values(|e: String| e@)),
        None => None,
    }
}

/// Whether a file passes the extension filter of a listing.
pub fn passes_extension_filter(path: &str, extensions: &Option<Vec<String>>) -> (out: bool)
    ensures
        out == passes_filter(path@, extension_views(*extensions)),
{
    match extensions {
        None => true,
        Some(list) => {
            let ext = match extension(path) {
                Some(e) => to_lowercase(e.as_str()),
                None => to_lowercase(""),
            };
            proof {
                assert(""@ =~= Seq::<char>::empty()) by {
                    reveal_strlit("");
                }
            }
            let ghost wanted_views = list@.map_values(|e: String| e@);
            let mut i: usize = 0;
            while i < list.len()
                invariant
                    i <= list.len(),
                    extension_views(*extensions) == Some(wanted_views),
                    wanted_views == list@.map_values(|e: String| e@),
                    ext@ == filter_extension(path@),
                    forall|k: int|
                        0 <= k < i ==> lowercase_of(#[trigger] wanted_views[k]) != filter_extension(
                            path@,
                        ),
                decreases list.len() - i,
            {
                let wanted = to_lowercase(list[i].as_str());
                if same_text(wanted.as_str(), ext.as_str()) {
                    proof {
                        assert(lowercase_of(wanted_views[i as int]) == filter_extension(path@));
                    }
                    return true;
                }
                i += 1;
            }
            false
        },
    }
}

/// The metadata of a listed file.
pub open spec fn listed_meta(location_id: i64, f: ScannedFileView) -> DocMetaView {
    scanned_meta(LocationId(location_id), f.rel_path, filename_spec(f.rel_path), f.stat, f.bytes)
}

/// The metadata of the files among the first `n` that pass the filter, in order.
pub open spec fn listed(
    location_id: i64,
    files: Seq<ScannedFileView>,
    extensions: Option<Seq<Seq<char>>>,
    n: int,
) -> Seq<DocMetaView>
    decreases n,
{
    if n <= 0 || n > files.len() {
        Seq::empty()
    } else if passes_filter(files[n - 1].rel_path, extensions) {
        listed(location_id, files, extensions, n - 1).push(listed_meta(location_id, files[n - 1]))
    } else {
        listed(location_id, files, extensions, n - 1)
    }
}

/// The options of a listing where none are given.
pub open spec fn options_spec(options: Option<DocListOptions>) -> (
    Option<Seq<Seq<char>>>,
    DocSortField,
    SortOrder,
) {
    match options {
        Some(o) => (extension_views(o.extensions), sort_field_spec(o.sort_by), o.sort_order),
        None => (None, DocSortField::Modified, SortOrder::Descending),
    }
}

pub open spec fn listing_view(r: Result<Vec<ScannedFile>, String>) -> Result<Seq<ScannedFileView>, Seq<char>> {
    match r {
        Ok(files) => Ok(file_views(files@)),
        Err(d) => Err(d@),
    }
}

/// What a listing answers.
pub open spec fn doc_list_spec(
    c: StoreView,
    location_id: i64,
    options: Option<DocListOptions>,
    listing: Result<Seq<ScannedFileView>, Seq<char>>,
) -> Result<Seq<DocMetaView>, ErrorView> {
    if root_of(c, location_id) is None {
        Err(failure(ErrorCode::NotFound, location_not_found_message(location_id)))
    } else {
        match listing {
            Err(detail) => Err(io_failure("Failed to read directory: "@, detail)),
            Ok(files) => {
                let (extensions, field, order) = options_spec(options);
                Ok(ordered(listed(location_id, files, extensions, files.len() as int), field, order))
            },
        }
    }
}

pub open spec fn list_result_view(r: Result<Vec<DocMeta>, AppError>) -> Result<Seq<DocMetaView>, ErrorView> {
    match r {
        Ok(docs) => Ok(meta_views(docs@)),
        Err(e) => Err(e@),
    }
}

impl Store {
    /// Lists the documents of a location from the files that were found
    /// under its root, in the order in which they were found: the files
    /// that pass the extension filter, with their metadata, sorted as
    /// asked. By default the newest modification comes first. The store
    /// is not touched.
    pub fn doc_list(
        &self,
        location_id: LocationId,
        options: Option<DocListOptions>,
        listing: Result<Vec<ScannedFile>, String>,
    ) -> (result: Result<Vec<DocMeta>, AppError>)
        ensures
            list_result_view(result) == doc_list_spec(
                self@,
                location_id.0,
                options,
                listing_view(listing),
            ),
    {
        let _root = self.location_root(location_id)?;
        let files = match listing {
            Ok(f) => f,
            Err(detail) => {
                let message = crate::chars::concat("Failed to read directory: ", detail.as_str());
                return Err(AppError::io(message.as_str()));
            },
        };
        let (extensions, field, order) = match options {
            Some(o) => (
                o.extensions,
                match o.sort_by {
                    Some(f) => f,
                    None => DocSortField::Modified,
                },
                o.sort_order,
            ),
            None => (None, DocSortField::Modified, SortOrder::Descending),
        };
        let ghost fv = file_views(files@);
        let mut docs: Vec<DocMeta> = Vec::new();
        let mut i: usize = 0;
        proof {
            assert(meta_views(docs@) =~= Seq::empty());
        }
        while i < files.len()
            invariant
                i <= files.len(),
                fv == file_views(files@),
                meta_views(docs@) == listed(location_id.0, fv, extension_views(extensions), i as int),
            decreases files.len() - i,
        {
            let f = &files[i];
            let ghost before = meta_views(docs@);
            proof {
                assert(fv[i as int] == f@);
            }
            if passes_extension_filter(f.rel_path.as_str(), &extensions) {
                let filename = filename_of(f.rel_path.as_str());
                let meta = read_doc_metadata(
                    f.stat,
                    location_id,
                    f.rel_path.clone(),
                    filename.as_str(),
                    f.bytes.as_ref(),
                );
                docs.push(meta);
                proof {
                    assert(meta_views(docs@) =~= before.push(listed_meta(location_id.0, fv[i as int])));
                }
            }
            i += 1;
        }
        Ok(sort_documents(docs, field, order))
    }
}

proof fn lemma_text_less_transitive(a: Seq<char>, b: Seq<char>, c: Seq<char>)
    requires
        text_less(a, b),
        text_less(b, c),
    ensures
        text_less(a, c),
    decreases a.len(),
{
    if a.len() > 0 && b.len() > 0 && c.len() > 0 && (a[0] as u32) == (b[0] as u32) && (b[0] as u32)
        == (c[0] as u32) {
        lemma_text_less_transitive(a.drop_first(), b.drop_first(), c.drop_first());
    }
}

proof fn lemma_text_less_asymmetric(a: Seq<char>, b: Seq<char>)
    ensures
        !(text_less(a, b) && text_less(b, a)),
    decreases a.len(),
{
    if a.len() > 0 && b.len() > 0 && (a[0] as u32) == (b[0] as u32) {
        lemma_text_less_asymmetric(a.drop_first(), b.drop_first());
    }
}

/// The order of a listing is a strict order: no document comes before
/// itself or before one that comes before it, and what comes before an
/// earlier document comes before the later ones too.
pub proof fn lemma_order_is_strict(a: DocMetaView, b: DocMetaView, c: DocMetaView, field: DocSortField)
    ensures
        !(comes_before(a, b, field) && comes_before(b, a, field)),
        comes_before(a, b, field) && comes_before(b, c, field) ==> comes_before(a, c, field),
{
    lemma_text_less_asymmetric(a.filename, b.filename);
    if text_less(a.filename, b.filename) && text_less(b.filename, c.filename) {
        lemma_text_less_transitive(a.filename, b.filename, c.filename);
    }
}

/// No later document of the listing comes before an earlier one.
pub open spec fn is_sorted(docs: Seq<DocMetaView>, field: DocSortField) -> bool {
    forall|i: int, j: int|
        0 <= i < j < docs.len() ==> !comes_before(#[trigger] docs[j], #[trigger] docs[i], field)
}

proof fn lemma_insert_place_splits(sorted: Seq<DocMetaView>, x: DocMetaView, field: DocSortField, from: int)
    requires
        0 <= from <= sorted.len(),
    ensures
        from <= insert_place(sorted, x, field, from) <= sorted.len(),
        forall|k: int|
            from <= k < insert_place(sorted, x, field, from) ==> !comes_before(
                x,
                #[trigger] sorted[k],
                field,
            ),
        insert_place(sorted, x, field, from) < sorted.len() ==> comes_before(
            x,
            sorted[insert_place(sorted, x, field, from)],
            field,
        ),
    decreases sorted.len() - from,
{
    if from < sorted.len() && !comes_before(x, sorted[from], field) {
        lemma_insert_place_splits(sorted, x, field, from + 1);
    }
}

/// A sorted listing holds the documents it was given, each as often as
/// it was given, and no later document of it comes before an earlier one.
pub proof fn lemma_sorted_by_sorts(docs: Seq<DocMetaView>, field: DocSortField)
    ensures
        sorted_by(docs, field).to_multiset() == docs.to_multiset(),
        sorted_by(docs, field).len() == docs.len(),
        is_sorted(sorted_by(docs, field), field),
    decreases docs.len(),
{
    if docs.len() == 0 {
        assert(docs =~= Seq::empty());
    } else {
        let init = docs.drop_last();
        let x = docs.last();
        let before = sorted_by(init, field);
        lemma_sorted_by_sorts(init, field);
        lemma_insert_place_splits(before, x, field, 0);
        let p = insert_place(before, x, field, 0);
        let out = before.insert(p, x);
        vstd::seq_lib::to_multiset_insert(before, p, x);
        vstd::seq_lib::to_multiset_build(init, x);
        assert(init.push(x) =~= docs);
        assert forall|i: int, j: int| 0 <= i < j < out.len() implies !comes_before(
            #[trigger] out[j],
            #[trigger] out[i],
            field,
        ) by {
            let i0 = if i < p {
                i
            } else {
                i - 1
            };
            let j0 = if j < p {
                j
            } else {
                j - 1
            };
            if i == p {
                assert(out[i] == x);
                assert(out[j] == before[j0]);
                lemma_order_is_strict(before[j0], x, before[p], field);
                if j0 > p {
                    assert(!comes_before(before[j0], before[p], field));
                }
            } else if j == p {
                assert(out[j] == x);
                assert(out[i] == before[i0]);
            } else {
                assert(out[i] == before[i0]);
                assert(out[j] == before[j0]);
            }
        }
    }
}

} // verus!
