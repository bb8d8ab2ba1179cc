use vstd::prelude::*;
use crate::catalog::{
    coalesce, find_row, index_has_key, index_not_key, index_of_key, index_row_is_kept,
    index_title, index_upserted,
    keys_distinct, lemma_filter_keeps_keys_distinct, lemma_find_row_at, lemma_find_row_some, lemma_upsert_keeps_keys_distinct,
    merged_row, row_has_key, row_is_seen, stale_paths, store_wf, IndexRowView, RowView,
    StoreView,
};
use crate::model::{DocMetaView, Timestamp};
use crate::reconcile::{
    indexed_text, reconciled, scan_fold, scan_index_row, scan_meta, scan_path, seen_paths,
    ScannedFileView,
};
use crate::seq_lemmas::{
    lemma_filter_all, lemma_filter_both, lemma_filter_concat, lemma_filter_keeps,
    lemma_filter_none, lemma_filter_push, lemma_filter_satisfies, lemma_filter_source,
    lemma_filter_twice,
};

verus! {

/// No later file of the scan has the normalised path of the file at `k`:
/// what the scan says of that path, it says last with this file.
pub open spec fn last_of_its_path(files: Seq<ScannedFileView>, k: int) -> bool {
    forall|j: int| k < j < files.len() ==> scan_path(#[trigger] files[j]) != scan_path(files[k])
}

/// No two index rows have the same key.
pub open spec fn index_keys_distinct(index: Seq<IndexRowView>) -> bool {
    forall|i: int, j: int|
        0 <= i < j < index.len() ==> !index_has_key(
            #[trigger] index[j],
            (#[trigger] index[i]).location_id,
            index[i].rel_path,
        )
}

/// The index rows that a scanned file is owed: one with its text where its
/// text is indexed, none where not.
pub open spec fn owed_index_rows(location_id: i64, f: ScannedFileView) -> Seq<IndexRowView> {
    match indexed_text(f) {
        Some(text) => seq![scan_index_row(location_id, f, text)],
        None => Seq::empty(),
    }
}

/// A catalog row holds what a scan found of a file: the file's metadata,
/// but for a time of creation that the row may have had before, and the
/// time of the scan.
pub open spec fn row_from_scan(r: RowView, location_id: i64, f: ScannedFileView, now: Timestamp) -> bool {
    &&& r.meta == (DocMetaView { created_at: r.meta.created_at, ..scan_meta(location_id, f) })
    &&& coalesce(r.meta.created_at, scan_meta(location_id, f).created_at) == r.meta.created_at
    &&& r.updated_at == now
}

proof fn lemma_fold_keeps_frame(
    c: StoreView,
    location_id: i64,
    files: Seq<ScannedFileView>,
    n: int,
    now: Timestamp,
)
    requires
        keys_distinct(c.documents),
        0 <= n <= files.len(),
    ensures
        keys_distinct(scan_fold(c, location_id, files, n, now).documents),
        scan_fold(c, location_id, files, n, now).locations == c.locations,
        scan_fold(c, location_id, files, n, now).next_location_id == c.next_location_id,
    decreases n,
{
    if n > 0 {
        lemma_fold_keeps_frame(c, location_id, files, n - 1, now);
        let prev = scan_fold(c, location_id, files, n - 1, now);
        lemma_upsert_keeps_keys_distinct(prev.documents, scan_meta(location_id, files[n - 1]), now);
    }
}

proof fn lemma_fold_index_of_file(
    c: StoreView,
    location_id: i64,
    files: Seq<ScannedFileView>,
    n: int,
    now: Timestamp,
    k: int,
)
    requires
        last_of_its_path(files, k),
        0 <= k < n <= files.len(),
    ensures
        scan_fold(c, location_id, files, n, now).index.filter(
            index_of_key(location_id, scan_path(files[k])),
        ) == owed_index_rows(location_id, files[k]),
    decreases n,
{
    let prev = scan_fold(c, location_id, files, n - 1, now);
    let f = files[n - 1];
    let q = scan_path(f);
    let p = scan_path(files[k]);
    let has = index_of_key(location_id, p);
    let nk = index_not_key(location_id, q);
    let trimmed = prev.index.filter(nk);
    if k == n - 1 {
        lemma_filter_satisfies(prev.index, nk);
        lemma_filter_none(trimmed, has);
        match indexed_text(f) {
            Some(text) => {
                let row = scan_index_row(location_id, f, text);
                lemma_filter_push(trimmed, row, has);
                assert(Seq::<IndexRowView>::empty().push(row) =~= seq![row]);
            },
            None => {},
        }
    } else {
        lemma_fold_index_of_file(c, location_id, files, n - 1, now, k);
        assert(p != q);
        lemma_filter_twice(prev.index, nk, has);
        match indexed_text(f) {
            Some(text) => {
                let row = scan_index_row(location_id, f, text);
                lemma_filter_push(trimmed, row, has);
            },
            None => {},
        }
    }
}

proof fn lemma_fold_row_of_file(
    c: StoreView,
    location_id: i64,
    files: Seq<ScannedFileView>,
    n: int,
    now: Timestamp,
    k: int,
)
    requires
        keys_distinct(c.documents),
        last_of_its_path(files, k),
        0 <= k < n <= files.len(),
    ensures
        exists|i: int|
            0 <= i < scan_fold(c, location_id, files, n, now).documents.len() && row_has_key(
                #[trigger] scan_fold(c, location_id, files, n, now).documents[i],
                location_id,
                scan_path(files[k]),
            ) && row_from_scan(
                scan_fold(c, location_id, files, n, now).documents[i],
                location_id,
                files[k],
                now,
            ),
    decreases n,
{
    let prev = scan_fold(c, location_id, files, n - 1, now);
    let out = scan_fold(c, location_id, files, n, now);
    let f = files[n - 1];
    let meta = scan_meta(location_id, f);
    let q = scan_path(f);
    assert(meta.location_id == location_id && meta.rel_path == q);
    if k == n - 1 {
        match find_row(prev.documents, location_id, q, 0) {
            Some(i) => {
                lemma_find_row_some(prev.documents, location_id, q, 0);
                assert(out.documents[i] == merged_row(prev.documents[i], meta, now));
                assert(row_has_key(out.documents[i], location_id, q));
                assert(row_from_scan(out.documents[i], location_id, f, now));
            },
            None => {
                let i = prev.documents.len() as int;
                assert(out.documents[i] == RowView { meta, updated_at: now });
                assert(row_has_key(out.documents[i], location_id, q));
                assert(row_from_scan(out.documents[i], location_id, f, now));
            },
        }
    } else {
        lemma_fold_row_of_file(c, location_id, files, n - 1, now, k);
        let p = scan_path(files[k]);
        assert(p != q);
        let i = choose|i: int|
            0 <= i < prev.documents.len() && row_has_key(
                #[trigger] prev.documents[i],
                location_id,
                p,
            ) && row_from_scan(prev.documents[i], location_id, files[k], now);
        match find_row(prev.documents, location_id, q, 0) {
            Some(j) => {
                lemma_find_row_some(prev.documents, location_id, q, 0);
                assert(j != i);
                assert(out.documents[i] == prev.documents[i]);
            },
            None => {
                assert(out.documents[i] == prev.documents[i]);
            },
        }
        assert(row_has_key(out.documents[i], location_id, p) && row_from_scan(
            out.documents[i],
            location_id,
            files[k],
            now,
        ));
    }
}

/// After a location is reconciled with a scan, every scanned file has its
/// catalog row, and exactly the index rows that it is owed: a file whose
/// text is indexed has one index row, under the title of its catalog row
/// and with its decoded text; a file whose extension is indexed but whose
/// bytes could not be decoded, and a file of any other kind, has a catalog
/// row and no index row. No two catalog rows have the same key. Where a
/// scan names a path more than once, this holds of the last file that it
/// names under that path, whose data the rows then hold.
pub proof fn lemma_reconciled_file_is_coherent(
    c: StoreView,
    location_id: i64,
    files: Seq<ScannedFileView>,
    now: Timestamp,
    k: int,
)
    requires
        store_wf(c),
        last_of_its_path(files, k),
        0 <= k < files.len(),
    ensures
        ({
            let out = reconciled(c, location_id, files, now);
            let p = scan_path(files[k]);
            &&& store_wf(out)
            &&& exists|i: int|
                0 <= i < out.documents.len() && row_has_key(
                    #[trigger] out.documents[i],
                    location_id,
                    p,
                ) && row_from_scan(out.documents[i], location_id, files[k], now)
            &&& out.index.filter(index_of_key(location_id, p)) == owed_index_rows(
                location_id,
                files[k],
            )
            &&& (indexed_text(files[k]) matches Some(text) ==> forall|i: int|
                0 <= i < out.documents.len() && row_has_key(
                    #[trigger] out.documents[i],
                    location_id,
                    p,
                ) ==> owed_index_rows(location_id, files[k])[0].title == index_title(
                    out.documents[i].meta.title,
                    p,
                ))
        }),
{
    let n = files.len() as int;
    let folded = scan_fold(c, location_id, files, n, now);
    let seen = seen_paths(files, n);
    let out = reconciled(c, location_id, files, now);
    let p = scan_path(files[k]);
    assert(seen.contains(p));
    lemma_fold_keeps_frame(c, location_id, files, n, now);
    let keep = row_is_seen(location_id, seen);
    lemma_filter_keeps_keys_distinct(folded.documents, keep);
    lemma_fold_row_of_file(c, location_id, files, n, now, k);
    let i = choose|i: int|
        0 <= i < folded.documents.len() && row_has_key(
            #[trigger] folded.documents[i],
            location_id,
            p,
        ) && row_from_scan(folded.documents[i], location_id, files[k], now);
    assert(keep(folded.documents[i]));
    lemma_filter_keeps(folded.documents, keep, i);
    let j = choose|j: int|
        0 <= j < folded.documents.filter(keep).len() && folded.documents.filter(keep)[j]
            == folded.documents[i];
    assert(out.documents[j] == folded.documents[i]);
    assert(row_has_key(out.documents[j], location_id, p) && row_from_scan(
        out.documents[j],
        location_id,
        files[k],
        now,
    ));
    let stale = stale_paths(folded.documents, location_id, seen);
    let kept = index_row_is_kept(location_id, stale);
    let has = index_of_key(location_id, p);
    assert(!stale.contains(p));
    lemma_filter_twice(folded.index, kept, has);
    lemma_fold_index_of_file(c, location_id, files, n, now, k);
    if let Some(text) = indexed_text(files[k]) {
        assert forall|m: int|
            0 <= m < out.documents.len() && row_has_key(
                #[trigger] out.documents[m],
                location_id,
                p,
            ) implies owed_index_rows(location_id, files[k])[0].title == index_title(
            out.documents[m].meta.title,
            p,
        ) by {
            if m < j {
                assert(!row_has_key(
                    out.documents[j],
                    out.documents[m].meta.location_id,
                    out.documents[m].meta.rel_path,
                ));
            } else if m > j {
                assert(!row_has_key(
                    out.documents[m],
                    out.documents[j].meta.location_id,
                    out.documents[j].meta.rel_path,
                ));
            }
        }
    }
}

/// The index rows of everything but the scanned paths of a location.
pub open spec fn not_scanned(location_id: i64, seen: Set<Seq<char>>) -> spec_fn(IndexRowView) -> bool {
    |r: IndexRowView| !(r.location_id == location_id && seen.contains(r.rel_path))
}

/// The index rows that the first `n` scanned files leave behind, in order:
/// each file takes the place of what was there for its path.
pub open spec fn indexed_rows(location_id: i64, files: Seq<ScannedFileView>, n: int) -> Seq<IndexRowView>
    decreases n,
{
    if n <= 0 || n > files.len() {
        Seq::empty()
    } else {
        indexed_rows(location_id, files, n - 1).filter(
            index_not_key(location_id, scan_path(files[n - 1])),
        ) + owed_index_rows(location_id, files[n - 1])
    }
}

/// A catalog row with the time `now` where it belongs to the location.
pub open spec fn touched(location_id: i64, now: Timestamp) -> spec_fn(RowView) -> RowView {
    |r: RowView|
        if r.meta.location_id == location_id {
            RowView { updated_at: now, ..r }
        } else {
            r
        }
}

/// A catalog row with the time `now` where it belongs to a seen path of the location.
pub open spec fn touched_where_seen(location_id: i64, seen: Set<Seq<char>>, now: Timestamp) -> spec_fn(
    RowView,
) -> RowView {
    |r: RowView|
        if r.meta.location_id == location_id && seen.contains(r.meta.rel_path) {
            RowView { updated_at: now, ..r }
        } else {
            r
        }
}

proof fn lemma_indexed_rows_keys(location_id: i64, files: Seq<ScannedFileView>, n: int, i: int)
    requires
        0 <= n <= files.len(),
        0 <= i < indexed_rows(location_id, files, n).len(),
    ensures
        indexed_rows(location_id, files, n)[i].location_id == location_id,
        exists|k: int|
            0 <= k < n && scan_path(#[trigger] files[k]) == indexed_rows(location_id, files, n)[i].rel_path,
    decreases n,
{
    if n > 0 {
        let earlier = indexed_rows(location_id, files, n - 1);
        let others = index_not_key(location_id, scan_path(files[n - 1]));
        let before = earlier.filter(others);
        if i < before.len() {
            lemma_filter_source(earlier, others, i);
            let j = choose|j: int| 0 <= j < earlier.len() && earlier[j] == before[i];
            lemma_indexed_rows_keys(location_id, files, n - 1, j);
            let k = choose|k: int|
                0 <= k < n - 1 && scan_path(#[trigger] files[k]) == earlier[j].rel_path;
            assert(0 <= k < n && scan_path(files[k]) == indexed_rows(location_id, files, n)[i].rel_path);
        } else {
            assert(scan_path(files[n - 1]) == indexed_rows(location_id, files, n)[i].rel_path);
        }
    }
}

proof fn lemma_fold_index_structure(
    c: StoreView,
    location_id: i64,
    files: Seq<ScannedFileView>,
    n: int,
    now: Timestamp,
)
    requires
        0 <= n <= files.len(),
    ensures
        scan_fold(c, location_id, files, n, now).index == c.index.filter(
            not_scanned(location_id, seen_paths(files, n)),
        ) + indexed_rows(location_id, files, n),
    decreases n,
{
    if n == 0 {
        let ns = not_scanned(location_id, seen_paths(files, 0));
        assert forall|i: int| 0 <= i < c.index.len() implies ns(#[trigger] c.index[i]) by {
            assert(!seen_paths(files, 0).contains(c.index[i].rel_path));
        }
        lemma_filter_all(c.index, ns);
        assert(c.index + Seq::<IndexRowView>::empty() =~= c.index);
    } else {
        lemma_fold_index_structure(c, location_id, files, n - 1, now);
        let prev = scan_fold(c, location_id, files, n - 1, now);
        let f = files[n - 1];
        let q = scan_path(f);
        let nk = index_not_key(location_id, q);
        let ns_prev = not_scanned(location_id, seen_paths(files, n - 1));
        let ns = not_scanned(location_id, seen_paths(files, n));
        let a = c.index.filter(ns_prev);
        let r = indexed_rows(location_id, files, n - 1);
        lemma_filter_concat(a, r, nk);
        assert forall|i: int| 0 <= i < c.index.len() implies ns(#[trigger] c.index[i]) == (ns_prev(
            c.index[i],
        ) && nk(c.index[i])) by {
            let path = c.index[i].rel_path;
            if seen_paths(files, n).contains(path) {
                let w = choose|w: int|
                    0 <= w < n && w < files.len() && scan_path(#[trigger] files[w]) == path;
                if w < n - 1 {
                    assert(seen_paths(files, n - 1).contains(path));
                }
            }
            if seen_paths(files, n - 1).contains(path) {
                let w = choose|w: int|
                    0 <= w < n - 1 && w < files.len() && scan_path(#[trigger] files[w]) == path;
                assert(0 <= w < n && scan_path(files[w]) == path);
            }
            if path == q {
                assert(scan_path(files[n - 1]) == path);
            }
        }
        lemma_filter_both(c.index, ns_prev, nk, ns);
        let a2 = c.index.filter(ns);
        let r2 = r.filter(nk);
        assert(prev.index.filter(nk) == a2 + r2);
        match indexed_text(f) {
            Some(text) => {
                let row = scan_index_row(location_id, f, text);
                assert((a2 + r2).push(row) =~= a2 + (r2 + seq![row]));
            },
            None => {
                assert(a2 + r2 =~= a2 + (r2 + Seq::<IndexRowView>::empty()));
            },
        }
    }
}

/// The catalog rows of a location all lie on seen paths.
pub open spec fn location_rows_seen(rows: Seq<RowView>, location_id: i64, seen: Set<Seq<char>>) -> bool {
    forall|i: int|
        0 <= i < rows.len() && (#[trigger] rows[i]).meta.location_id == location_id ==> seen.contains(
            rows[i].meta.rel_path,
        )
}

proof fn lemma_fold_rows_stay_seen(
    c: StoreView,
    location_id: i64,
    files: Seq<ScannedFileView>,
    n: int,
    now: Timestamp,
)
    requires
        0 <= n <= files.len(),
        location_rows_seen(c.documents, location_id, seen_paths(files, files.len() as int)),
    ensures
        location_rows_seen(
            scan_fold(c, location_id, files, n, now).documents,
            location_id,
            seen_paths(files, files.len() as int),
        ),
    decreases n,
{
    if n > 0 {
        lemma_fold_rows_stay_seen(c, location_id, files, n - 1, now);
        let prev = scan_fold(c, location_id, files, n - 1, now);
        let out = scan_fold(c, location_id, files, n, now);
        let f = files[n - 1];
        let meta = scan_meta(location_id, f);
        let seen = seen_paths(files, files.len() as int);
        assert(seen.contains(scan_path(files[n - 1])));
        assert(meta.rel_path == scan_path(f));
        assert forall|i: int|
            0 <= i < out.documents.len() && (#[trigger] out.documents[i]).meta.location_id
                == location_id implies seen.contains(out.documents[i].meta.rel_path) by {
            match find_row(prev.documents, location_id, scan_path(f), 0) {
                Some(j) => {
                    lemma_find_row_some(prev.documents, location_id, scan_path(f), 0);
                    if i != j {
                        assert(out.documents[i] == prev.documents[i]);
                    }
                },
                None => {
                    if i < prev.documents.len() {
                        assert(out.documents[i] == prev.documents[i]);
                    }
                },
            }
        }
    }
}

proof fn lemma_find_row_by_keys(a: Seq<RowView>, b: Seq<RowView>, location_id: i64, rel_path: Seq<char>, from: int)
    requires
        0 <= from,
        a.len() == b.len(),
        forall|i: int|
            0 <= i < a.len() ==> (#[trigger] a[i]).meta.location_id == b[i].meta.location_id
                && a[i].meta.rel_path == b[i].meta.rel_path,
    ensures
        find_row(a, location_id, rel_path, from) == find_row(b, location_id, rel_path, from),
    decreases a.len() - from,
{
    if from < a.len() {
        assert(row_has_key(a[from], location_id, rel_path) == row_has_key(
            b[from],
            location_id,
            rel_path,
        ));
        lemma_find_row_by_keys(a, b, location_id, rel_path, from + 1);
    }
}

/// A catalog row would keep its time of creation if a scanned file were
/// taken in over it.
pub open spec fn keeps_creation(r: RowView, location_id: i64, f: ScannedFileView) -> bool {
    coalesce(r.meta.created_at, scan_meta(location_id, f).created_at) == r.meta.created_at
}

/// No file between `k` and `n` has the normalised path of the file at `k`.
pub open spec fn latest_before(files: Seq<ScannedFileView>, k: int, n: int) -> bool {
    forall|j: int| k < j < n ==> scan_path(#[trigger] files[j]) != scan_path(files[k])
}

/// Among the first `n` files, a path that is seen is seen last somewhere.
proof fn lemma_seen_has_latest(files: Seq<ScannedFileView>, n: int, path: Seq<char>)
    requires
        0 <= n <= files.len(),
        seen_paths(files, n).contains(path),
    ensures
        exists|k: int| 0 <= k < n && scan_path(#[trigger] files[k]) == path && latest_before(files, k, n),
    decreases n,
{
    if n > 0 {
        if scan_path(files[n - 1]) == path {
            assert(latest_before(files, n - 1, n));
        } else {
            let w = choose|w: int| 0 <= w < n && w < files.len() && scan_path(#[trigger] files[w]) == path;
            assert(w < n - 1);
            assert(seen_paths(files, n - 1).contains(path));
            lemma_seen_has_latest(files, n - 1, path);
            let k = choose|k: int|
                0 <= k < n - 1 && scan_path(#[trigger] files[k]) == path && latest_before(
                    files,
                    k,
                    n - 1,
                );
            assert(latest_before(files, k, n));
        }
    } else {
        let w = choose|w: int| 0 <= w < n && w < files.len() && scan_path(#[trigger] files[w]) == path;
    }
}

/// After the first `n` files are taken in, the row of each of them would
/// keep its time of creation if the file were taken in again.
proof fn lemma_fold_keeps_creation(
    c: StoreView,
    location_id: i64,
    files: Seq<ScannedFileView>,
    n: int,
    now: Timestamp,
    k: int,
)
    requires
        keys_distinct(c.documents),
        0 <= k < n <= files.len(),
    ensures
        exists|i: int|
            0 <= i < scan_fold(c, location_id, files, n, now).documents.len() && row_has_key(
                #[trigger] scan_fold(c, location_id, files, n, now).documents[i],
                location_id,
                scan_path(files[k]),
            ) && keeps_creation(
                scan_fold(c, location_id, files, n, now).documents[i],
                location_id,
                files[k],
            ),
    decreases n,
{
    let prev = scan_fold(c, location_id, files, n - 1, now);
    let out = scan_fold(c, location_id, files, n, now);
    let f = files[n - 1];
    let meta = scan_meta(location_id, f);
    let q = scan_path(f);
    assert(meta.location_id == location_id && meta.rel_path == q);
    if k == n - 1 {
        match find_row(prev.documents, location_id, q, 0) {
            Some(i) => {
                lemma_find_row_some(prev.documents, location_id, q, 0);
                assert(out.documents[i] == merged_row(prev.documents[i], meta, now));
                assert(row_has_key(out.documents[i], location_id, q));
                assert(keeps_creation(out.documents[i], location_id, f));
            },
            None => {
                let i = prev.documents.len() as int;
                assert(out.documents[i] == RowView { meta, updated_at: now });
                assert(row_has_key(out.documents[i], location_id, q));
                assert(keeps_creation(out.documents[i], location_id, f));
            },
        }
    } else {
        lemma_fold_keeps_creation(c, location_id, files, n - 1, now, k);
        lemma_fold_keeps_frame(c, location_id, files, n - 1, now);
        let p = scan_path(files[k]);
        let i = choose|i: int|
            0 <= i < prev.documents.len() && row_has_key(
                #[trigger] prev.documents[i],
                location_id,
                p,
            ) && keeps_creation(prev.documents[i], location_id, files[k]);
        match find_row(prev.documents, location_id, q, 0) {
            Some(j) => {
                lemma_find_row_some(prev.documents, location_id, q, 0);
                if j == i {
                    assert(out.documents[i] == merged_row(prev.documents[i], meta, now));
                } else {
                    assert(out.documents[i] == prev.documents[i]);
                }
            },
            None => {
                assert(out.documents[i] == prev.documents[i]);
            },
        }
        assert(row_has_key(out.documents[i], location_id, p) && keeps_creation(
            out.documents[i],
            location_id,
            files[k],
        ));
    }
}

/// What has become of a row of an earlier run once the first `n` files
/// are taken in again at the time `second`: a row of a path that was seen
/// holds the data of the file that was seen last under it, its own time of
/// creation, and the new time; any other row is as it was.
pub open spec fn row_after(
    out: RowView,
    row: RowView,
    location_id: i64,
    files: Seq<ScannedFileView>,
    n: int,
    second: Timestamp,
) -> bool {
    if row.meta.location_id == location_id && seen_paths(files, n).contains(row.meta.rel_path) {
        out.updated_at == second && exists|k: int|
            0 <= k < n && scan_path(#[trigger] files[k]) == row.meta.rel_path && latest_before(
                files,
                k,
                n,
            ) && out.meta == (DocMetaView {
                created_at: row.meta.created_at,
                ..scan_meta(location_id, files[k])
            })
    } else {
        out == row
    }
}

/// Taking in again the files that a catalog already holds from the same
/// scan leaves each row with the data of the file seen last under its
/// path, and with the time of creation that it had.
proof fn lemma_second_fold_rows(
    rows: Seq<RowView>,
    c: StoreView,
    location_id: i64,
    files: Seq<ScannedFileView>,
    n: int,
    second: Timestamp,
)
    requires
        c.documents == rows,
        keys_distinct(rows),
        0 <= n <= files.len(),
        forall|k: int|
            0 <= k < files.len() ==> exists|i: int|
                0 <= i < rows.len() && row_has_key(
                    #[trigger] rows[i],
                    location_id,
                    scan_path(files[k]),
                ) && keeps_creation(rows[i], location_id, #[trigger] files[k]),
    ensures
        scan_fold(c, location_id, files, n, second).documents.len() == rows.len(),
        forall|m: int|
            0 <= m < rows.len() ==> row_after(
                #[trigger] scan_fold(c, location_id, files, n, second).documents[m],
                rows[m],
                location_id,
                files,
                n,
                second,
            ),
    decreases n,
{
    if n == 0 {
        assert forall|m: int| 0 <= m < rows.len() implies row_after(
            #[trigger] scan_fold(c, location_id, files, n, second).documents[m],
            rows[m],
            location_id,
            files,
            n,
            second,
        ) by {
            assert(!seen_paths(files, 0).contains(rows[m].meta.rel_path));
        }
    } else {
        lemma_second_fold_rows(rows, c, location_id, files, n - 1, second);
        let prev = scan_fold(c, location_id, files, n - 1, second);
        let out = scan_fold(c, location_id, files, n, second);
        let f = files[n - 1];
        let q = scan_path(f);
        let meta = scan_meta(location_id, f);
        assert(meta.location_id == location_id && meta.rel_path == q);
        let i = choose|i: int|
            0 <= i < rows.len() && row_has_key(#[trigger] rows[i], location_id, scan_path(files[n - 1]))
                && keeps_creation(rows[i], location_id, files[n - 1]);
        assert forall|m: int| 0 <= m < rows.len() implies (#[trigger] prev.documents[m]).meta.location_id
            == rows[m].meta.location_id && prev.documents[m].meta.rel_path == rows[m].meta.rel_path
            && prev.documents[m].meta.created_at == rows[m].meta.created_at by {
            assert(row_after(prev.documents[m], rows[m], location_id, files, n - 1, second));
            if rows[m].meta.location_id == location_id && seen_paths(files, n - 1).contains(
                rows[m].meta.rel_path,
            ) {
                let k = choose|k: int|
                    0 <= k < n - 1 && scan_path(#[trigger] files[k]) == rows[m].meta.rel_path
                        && latest_before(files, k, n - 1) && prev.documents[m].meta == (DocMetaView {
                        created_at: rows[m].meta.created_at,
                        ..scan_meta(location_id, files[k])
                    });
                assert(scan_meta(location_id, files[k]).location_id == location_id);
                assert(scan_meta(location_id, files[k]).rel_path == scan_path(files[k]));
            }
        }
        lemma_find_row_by_keys(prev.documents, rows, location_id, q, 0);
        lemma_find_row_at(rows, location_id, q, i, 0);
        assert(find_row(prev.documents, location_id, q, 0) == Some(i));
        assert(out.documents == prev.documents.update(i, merged_row(prev.documents[i], meta, second)));
        assert(seen_paths(files, n).contains(q)) by {
            assert(scan_path(files[n - 1]) == q);
        }
        assert forall|m: int| 0 <= m < rows.len() implies row_after(
            #[trigger] out.documents[m],
            rows[m],
            location_id,
            files,
            n,
            second,
        ) by {
            if m == i {
                assert(latest_before(files, n - 1, n));
                assert(out.documents[i].meta == (DocMetaView {
                    created_at: rows[i].meta.created_at,
                    ..scan_meta(location_id, files[n - 1])
                }));
            } else {
                assert(out.documents[m] == prev.documents[m]);
                assert(row_after(prev.documents[m], rows[m], location_id, files, n - 1, second));
                let path = rows[m].meta.rel_path;
                if rows[m].meta.location_id == location_id {
                    assert(path != q) by {
                        if path == q {
                            if m < i {
                                assert(!row_has_key(
                                    rows[i],
                                    rows[m].meta.location_id,
                                    rows[m].meta.rel_path,
                                ));
                            } else {
                                assert(!row_has_key(
                                    rows[m],
                                    rows[i].meta.location_id,
                                    rows[i].meta.rel_path,
                                ));
                            }
                        }
                    }
                    if seen_paths(files, n).contains(path) {
                        let w = choose|w: int|
                            0 <= w < n && w < files.len() && scan_path(#[trigger] files[w]) == path;
                        assert(w < n - 1);
                        assert(seen_paths(files, n - 1).contains(path));
                        let k = choose|k: int|
                            0 <= k < n - 1 && scan_path(#[trigger] files[k]) == path && latest_before(
                                files,
                                k,
                                n - 1,
                            ) && prev.documents[m].meta == (DocMetaView {
                                created_at: rows[m].meta.created_at,
                                ..scan_meta(location_id, files[k])
                            });
                        assert(latest_before(files, k, n));
                        assert(0 <= k < n && scan_path(files[k]) == path);
                    }
                    if seen_paths(files, n - 1).contains(path) {
                        let w = choose|w: int|
                            0 <= w < n - 1 && w < files.len() && scan_path(#[trigger] files[w])
                                == path;
                        assert(0 <= w < n && scan_path(files[w]) == path);
                    }
                }
            }
        }
    }
}

proof fn lemma_once_holds_every_file(
    c: StoreView,
    location_id: i64,
    files: Seq<ScannedFileView>,
    first: Timestamp,
)
    requires
        store_wf(c),
    ensures
        store_wf(reconciled(c, location_id, files, first)),
        location_rows_seen(
            reconciled(c, location_id, files, first).documents,
            location_id,
            seen_paths(files, files.len() as int),
        ),
        forall|k: int|
            0 <= k < files.len() ==> exists|i: int|
                0 <= i < reconciled(c, location_id, files, first).documents.len() && row_has_key(
                    #[trigger] reconciled(c, location_id, files, first).documents[i],
                    location_id,
                    scan_path(files[k]),
                ) && keeps_creation(
                    reconciled(c, location_id, files, first).documents[i],
                    location_id,
                    #[trigger] files[k],
                ),
        forall|k: int|
            0 <= k < files.len() && last_of_its_path(files, k) ==> exists|i: int|
                0 <= i < reconciled(c, location_id, files, first).documents.len() && row_has_key(
                    #[trigger] reconciled(c, location_id, files, first).documents[i],
                    location_id,
                    scan_path(files[k]),
                ) && row_from_scan(
                    reconciled(c, location_id, files, first).documents[i],
                    location_id,
                    #[trigger] files[k],
                    first,
                ),
{
    let n = files.len() as int;
    let seen = seen_paths(files, n);
    let folded = scan_fold(c, location_id, files, n, first);
    let once = reconciled(c, location_id, files, first);
    let keep = row_is_seen(location_id, seen);
    lemma_fold_keeps_frame(c, location_id, files, n, first);
    lemma_filter_keeps_keys_distinct(folded.documents, keep);
    lemma_filter_satisfies(folded.documents, keep);
    assert forall|i: int|
        0 <= i < once.documents.len() && (#[trigger] once.documents[i]).meta.location_id
            == location_id implies seen.contains(once.documents[i].meta.rel_path) by {
        assert(keep(once.documents[i]));
    }
    assert forall|k: int| 0 <= k < files.len() implies exists|i: int|
        0 <= i < once.documents.len() && row_has_key(
            #[trigger] once.documents[i],
            location_id,
            scan_path(files[k]),
        ) && keeps_creation(once.documents[i], location_id, #[trigger] files[k]) by {
        lemma_fold_keeps_creation(c, location_id, files, n, first, k);
        let p = scan_path(files[k]);
        assert(seen.contains(p));
        let i = choose|i: int|
            0 <= i < folded.documents.len() && row_has_key(
                #[trigger] folded.documents[i],
                location_id,
                p,
            ) && keeps_creation(folded.documents[i], location_id, files[k]);
        assert(keep(folded.documents[i]));
        lemma_filter_keeps(folded.documents, keep, i);
        let j = choose|j: int|
            0 <= j < folded.documents.filter(keep).len() && folded.documents.filter(keep)[j]
                == folded.documents[i];
        assert(once.documents[j] == folded.documents[i]);
        assert(row_has_key(once.documents[j], location_id, p) && keeps_creation(
            once.documents[j],
            location_id,
            files[k],
        ));
    }
    assert forall|k: int| 0 <= k < files.len() && last_of_its_path(files, k) implies exists|i: int|
        0 <= i < once.documents.len() && row_has_key(
            #[trigger] once.documents[i],
            location_id,
            scan_path(files[k]),
        ) && row_from_scan(once.documents[i], location_id, #[trigger] files[k], first) by {
        lemma_reconciled_file_is_coherent(c, location_id, files, first, k);
    }
}

proof fn lemma_second_run_rows(
    once: StoreView,
    location_id: i64,
    files: Seq<ScannedFileView>,
    first: Timestamp,
    second: Timestamp,
)
    requires
        store_wf(once),
        location_rows_seen(once.documents, location_id, seen_paths(files, files.len() as int)),
        forall|k: int|
            0 <= k < files.len() ==> exists|i: int|
                0 <= i < once.documents.len() && row_has_key(
                    #[trigger] once.documents[i],
                    location_id,
                    scan_path(files[k]),
                ) && keeps_creation(once.documents[i], location_id, #[trigger] files[k]),
        forall|k: int|
            0 <= k < files.len() && last_of_its_path(files, k) ==> exists|i: int|
                0 <= i < once.documents.len() && row_has_key(
                    #[trigger] once.documents[i],
                    location_id,
                    scan_path(files[k]),
                ) && row_from_scan(once.documents[i], location_id, #[trigger] files[k], first),
    ensures
        scan_fold(once, location_id, files, files.len() as int, second).documents
            == once.documents.map_values(touched(location_id, second)),
        reconciled(once, location_id, files, second).documents == once.documents.map_values(
            touched(location_id, second),
        ),
        first == second ==> once.documents.map_values(touched(location_id, second))
            == once.documents,
{
    let n = files.len() as int;
    let seen = seen_paths(files, n);
    let rows = once.documents;
    let folded2 = scan_fold(once, location_id, files, n, second);
    let keep = row_is_seen(location_id, seen);
    lemma_second_fold_rows(rows, once, location_id, files, n, second);
    let t = touched(location_id, second);
    assert forall|m: int| 0 <= m < rows.len() implies #[trigger] folded2.documents[m] == t(
        rows[m],
    ) by {
        assert(row_after(folded2.documents[m], rows[m], location_id, files, n, second));
        if rows[m].meta.location_id == location_id {
            let path = rows[m].meta.rel_path;
            assert(seen.contains(path));
            let k = choose|k: int|
                0 <= k < n && scan_path(#[trigger] files[k]) == path && latest_before(files, k, n)
                    && folded2.documents[m].meta == (DocMetaView {
                    created_at: rows[m].meta.created_at,
                    ..scan_meta(location_id, files[k])
                });
            assert(last_of_its_path(files, k));
            lemma_row_of_latest(rows, location_id, files, first, k, m);
        }
    }
    assert(folded2.documents =~= rows.map_values(t));
    assert forall|m: int| 0 <= m < folded2.documents.len() implies keep(
        #[trigger] folded2.documents[m],
    ) by {
        assert(folded2.documents[m] == t(rows[m]));
    }
    lemma_filter_all(folded2.documents, keep);
    if first == second {
        assert forall|m: int| 0 <= m < rows.len() implies t(#[trigger] rows[m]) == rows[m] by {
            let row = rows[m];
            if row.meta.location_id == location_id {
                assert(seen.contains(row.meta.rel_path));
                lemma_seen_has_latest(files, n, row.meta.rel_path);
                let k = choose|k: int|
                    0 <= k < n && scan_path(#[trigger] files[k]) == row.meta.rel_path
                        && latest_before(files, k, n);
                assert(last_of_its_path(files, k));
                lemma_row_of_latest(rows, location_id, files, first, k, m);
            }
        }
        assert(rows.map_values(t) =~= rows);
    }
}

/// The row under the path of a file that is the last of its path holds
/// what the scan found of that file.
proof fn lemma_row_of_latest(
    rows: Seq<RowView>,
    location_id: i64,
    files: Seq<ScannedFileView>,
    first: Timestamp,
    k: int,
    m: int,
)
    requires
        keys_distinct(rows),
        0 <= k < files.len(),
        0 <= m < rows.len(),
        row_has_key(rows[m], location_id, scan_path(files[k])),
        exists|i: int|
            0 <= i < rows.len() && row_has_key(#[trigger] rows[i], location_id, scan_path(files[k]))
                && row_from_scan(rows[i], location_id, files[k], first),
    ensures
        row_from_scan(rows[m], location_id, files[k], first),
{
    let i = choose|i: int|
        0 <= i < rows.len() && row_has_key(#[trigger] rows[i], location_id, scan_path(files[k]))
            && row_from_scan(rows[i], location_id, files[k], first);
    if i < m {
        assert(!row_has_key(rows[m], rows[i].meta.location_id, rows[i].meta.rel_path));
    } else if m < i {
        assert(!row_has_key(rows[i], rows[m].meta.location_id, rows[m].meta.rel_path));
    }
}

proof fn lemma_once_index_shape(
    c: StoreView,
    location_id: i64,
    files: Seq<ScannedFileView>,
    first: Timestamp,
) -> (x: Seq<IndexRowView>)
    ensures
        reconciled(c, location_id, files, first).index == x + indexed_rows(
            location_id,
            files,
            files.len() as int,
        ),
        forall|i: int|
            0 <= i < x.len() ==> (not_scanned(location_id, seen_paths(files, files.len() as int)))(
                #[trigger] x[i],
            ),
{
    let n = files.len() as int;
    let seen = seen_paths(files, n);
    let folded = scan_fold(c, location_id, files, n, first);
    let ns = not_scanned(location_id, seen);
    let r = indexed_rows(location_id, files, n);
    let a = c.index.filter(ns);
    lemma_fold_index_structure(c, location_id, files, n, first);
    let stale1 = stale_paths(folded.documents, location_id, seen);
    let kept1 = index_row_is_kept(location_id, stale1);
    lemma_filter_concat(a, r, kept1);
    assert forall|i: int| 0 <= i < r.len() implies kept1(#[trigger] r[i]) by {
        lemma_indexed_rows_keys(location_id, files, n, i);
        let k = choose|k: int| 0 <= k < n && scan_path(#[trigger] files[k]) == r[i].rel_path;
        assert(seen.contains(r[i].rel_path));
    }
    lemma_filter_all(r, kept1);
    let x = a.filter(kept1);
    lemma_filter_satisfies(c.index, ns);
    assert forall|i: int| 0 <= i < x.len() implies ns(#[trigger] x[i]) by {
        lemma_filter_source(a, kept1, i);
        let k = choose|k: int| 0 <= k < a.len() && a[k] == a.filter(kept1)[i];
        assert(ns(a[k]));
    }
    x
}

proof fn lemma_second_run_index(
    once: StoreView,
    x: Seq<IndexRowView>,
    location_id: i64,
    files: Seq<ScannedFileView>,
    second: Timestamp,
)
    requires
        once.index == x + indexed_rows(location_id, files, files.len() as int),
        forall|i: int|
            0 <= i < x.len() ==> (not_scanned(location_id, seen_paths(files, files.len() as int)))(
                #[trigger] x[i],
            ),
        location_rows_seen(
            scan_fold(once, location_id, files, files.len() as int, second).documents,
            location_id,
            seen_paths(files, files.len() as int),
        ),
    ensures
        reconciled(once, location_id, files, second).index == once.index,
{
    let n = files.len() as int;
    let seen = seen_paths(files, n);
    let folded2 = scan_fold(once, location_id, files, n, second);
    let ns = not_scanned(location_id, seen);
    let r = indexed_rows(location_id, files, n);
    lemma_fold_index_structure(once, location_id, files, n, second);
    lemma_filter_concat(x, r, ns);
    lemma_filter_all(x, ns);
    assert forall|i: int| 0 <= i < r.len() implies !ns(#[trigger] r[i]) by {
        lemma_indexed_rows_keys(location_id, files, n, i);
        let k = choose|k: int| 0 <= k < n && scan_path(#[trigger] files[k]) == r[i].rel_path;
        assert(seen.contains(r[i].rel_path));
    }
    lemma_filter_none(r, ns);
    assert(x + Seq::<IndexRowView>::empty() =~= x);
    assert(folded2.index == x + r);
    let stale2 = stale_paths(folded2.documents, location_id, seen);
    let kept2 = index_row_is_kept(location_id, stale2);
    assert forall|i: int| 0 <= i < folded2.index.len() implies kept2(#[trigger] folded2.index[i]) by {
        let path = folded2.index[i].rel_path;
        if stale2.contains(path) {
            let m = choose|m: int|
                0 <= m < folded2.documents.len() && row_has_key(
                    #[trigger] folded2.documents[m],
                    location_id,
                    path,
                );
            assert(seen.contains(folded2.documents[m].meta.rel_path));
        }
    }
    lemma_filter_all(folded2.index, kept2);
}

/// Filtering index rows keeps their keys distinct.
pub proof fn lemma_filter_keeps_index_keys_distinct(
    index: Seq<IndexRowView>,
    pred: spec_fn(IndexRowView) -> bool,
)
    requires
        index_keys_distinct(index),
    ensures
        index_keys_distinct(index.filter(pred)),
    decreases index.len(),
{
    reveal(Seq::filter);
    if index.len() > 0 {
        let init = index.drop_last();
        assert(index_keys_distinct(init)) by {
            assert forall|i: int, j: int| 0 <= i < j < init.len() implies !index_has_key(
                #[trigger] init[j],
                (#[trigger] init[i]).location_id,
                init[i].rel_path,
            ) by {
                assert(init[i] == index[i] && init[j] == index[j]);
            }
        }
        lemma_filter_keeps_index_keys_distinct(init, pred);
        let sub = init.filter(pred);
        if pred(index.last()) {
            let out = sub.push(index.last());
            assert forall|i: int, j: int| 0 <= i < j < out.len() implies !index_has_key(
                #[trigger] out[j],
                (#[trigger] out[i]).location_id,
                out[i].rel_path,
            ) by {
                if j == sub.len() {
                    lemma_filter_source(init, pred, i);
                    let k = choose|k: int| 0 <= k < init.len() && init[k] == sub[i];
                    assert(index[k] == sub[i]);
                    assert(!index_has_key(
                        index[index.len() - 1],
                        index[k].location_id,
                        index[k].rel_path,
                    ));
                }
            }
        }
    }
}

/// Writing an index row in place of the rows of its key keeps the keys
/// distinct.
pub proof fn lemma_index_upsert_keeps_keys_distinct(index: Seq<IndexRowView>, row: IndexRowView)
    requires
        index_keys_distinct(index),
    ensures
        index_keys_distinct(index_upserted(index, row)),
{
    let others = index_not_key(row.location_id, row.rel_path);
    lemma_filter_keeps_index_keys_distinct(index, others);
    lemma_filter_satisfies(index, others);
    let trimmed = index.filter(others);
    let out = trimmed.push(row);
    assert forall|i: int, j: int| 0 <= i < j < out.len() implies !index_has_key(
        #[trigger] out[j],
        (#[trigger] out[i]).location_id,
        out[i].rel_path,
    ) by {
        if j == trimmed.len() {
            assert(others(trimmed[i]));
        }
    }
}

proof fn lemma_fold_keeps_index_keys_distinct(
    c: StoreView,
    location_id: i64,
    files: Seq<ScannedFileView>,
    n: int,
    now: Timestamp,
)
    requires
        index_keys_distinct(c.index),
        0 <= n <= files.len(),
    ensures
        index_keys_distinct(scan_fold(c, location_id, files, n, now).index),
    decreases n,
{
    if n > 0 {
        lemma_fold_keeps_index_keys_distinct(c, location_id, files, n - 1, now);
        let prev = scan_fold(c, location_id, files, n - 1, now);
        let f = files[n - 1];
        match indexed_text(f) {
            Some(text) => {
                lemma_index_upsert_keeps_keys_distinct(
                    prev.index,
                    scan_index_row(location_id, f, text),
                );
            },
            None => {
                lemma_filter_keeps_index_keys_distinct(
                    prev.index,
                    index_not_key(location_id, scan_path(f)),
                );
            },
        }
    }
}

/// Reconciling a location brings no two index rows under one key: where
/// the keys of the index were distinct before, they are distinct after,
/// whatever the scan holds.
pub proof fn lemma_reconcile_keeps_index_keys_distinct(
    c: StoreView,
    location_id: i64,
    files: Seq<ScannedFileView>,
    now: Timestamp,
)
    ensures
        index_keys_distinct(c.index) ==> index_keys_distinct(
            reconciled(c, location_id, files, now).index,
        ),
{
    if index_keys_distinct(c.index) {
        let n = files.len() as int;
        let folded = scan_fold(c, location_id, files, n, now);
        lemma_fold_keeps_index_keys_distinct(c, location_id, files, n, now);
        lemma_filter_keeps_index_keys_distinct(
            folded.index,
            index_row_is_kept(
                location_id,
                stale_paths(folded.documents, location_id, seen_paths(files, n)),
            ),
        );
    }
}

/// Reconciling a location twice with the same scan, with no change between,
/// leaves catalog and index as the first reconciliation left them, whatever
/// the store held before and whatever the scan holds: the
/// locations and the index are the same, the catalog rows are the same but
/// for the time of the second run on the rows of the location, and no two
/// catalog rows have the same key; nor have two index rows, where none had
/// before the first reconciliation. Each table so holds as many rows after
/// the second reconciliation as after the first. Run at the same time, the
/// second reconciliation changes nothing at all.
pub proof fn lemma_reconcile_is_idempotent(
    c: StoreView,
    location_id: i64,
    files: Seq<ScannedFileView>,
    first: Timestamp,
    second: Timestamp,
)
    requires
        store_wf(c),
    ensures
        ({
            let once = reconciled(c, location_id, files, first);
            let twice = reconciled(once, location_id, files, second);
            &&& store_wf(twice)
            &&& twice.locations == once.locations
            &&& twice.next_location_id == once.next_location_id
            &&& twice.index == once.index
            &&& twice.documents == once.documents.map_values(touched(location_id, second))
            &&& twice.documents.len() == once.documents.len()
            &&& index_keys_distinct(c.index) ==> index_keys_distinct(twice.index)
            &&& first == second ==> twice == once
        }),
{
    let n = files.len() as int;
    lemma_reconcile_keeps_index_keys_distinct(c, location_id, files, first);
    let once = reconciled(c, location_id, files, first);
    let twice = reconciled(once, location_id, files, second);
    lemma_once_holds_every_file(c, location_id, files, first);
    lemma_once_holds_every_file(once, location_id, files, second);
    lemma_second_run_rows(once, location_id, files, first, second);
    let x = lemma_once_index_shape(c, location_id, files, first);
    lemma_fold_rows_stay_seen(once, location_id, files, n, second);
    lemma_second_run_index(once, x, location_id, files, second);
    lemma_fold_keeps_frame(once, location_id, files, n, second);
}

proof fn lemma_fold_keeps_keys(
    c: StoreView,
    location_id: i64,
    files: Seq<ScannedFileView>,
    n: int,
    now: Timestamp,
    key_location: i64,
    key_path: Seq<char>,
)
    requires
        0 <= n <= files.len(),
        exists|i: int|
            0 <= i < c.documents.len() && row_has_key(#[trigger] c.documents[i], key_location, key_path),
    ensures
        exists|i: int|
            0 <= i < scan_fold(c, location_id, files, n, now).documents.len() && row_has_key(
                #[trigger] scan_fold(c, location_id, files, n, now).documents[i],
                key_location,
                key_path,
            ),
    decreases n,
{
    if n > 0 {
        lemma_fold_keeps_keys(c, location_id, files, n - 1, now, key_location, key_path);
        let prev = scan_fold(c, location_id, files, n - 1, now);
        let out = scan_fold(c, location_id, files, n, now);
        let meta = scan_meta(location_id, files[n - 1]);
        let i = choose|i: int|
            0 <= i < prev.documents.len() && row_has_key(
                #[trigger] prev.documents[i],
                key_location,
                key_path,
            );
        match find_row(prev.documents, meta.location_id, meta.rel_path, 0) {
            Some(j) => {
                lemma_find_row_some(prev.documents, meta.location_id, meta.rel_path, 0);
                if i == j {
                    assert(row_has_key(out.documents[i], key_location, key_path));
                } else {
                    assert(out.documents[i] == prev.documents[i]);
                }
            },
            None => {
                assert(out.documents[i] == prev.documents[i]);
            },
        }
        assert(0 <= i < out.documents.len() && row_has_key(
            out.documents[i],
            key_location,
            key_path,
        ));
    } else {
        assert(scan_fold(c, location_id, files, n, now) == c);
    }
}

/// The catalog rows of one key.
pub open spec fn rows_of_key(location_id: i64, rel_path: Seq<char>) -> spec_fn(RowView) -> bool {
    |r: RowView| row_has_key(r, location_id, rel_path)
}

/// After a location is reconciled with a scan, a document of the
/// location that the scan did not see is gone: it has no catalog row, and
/// where the catalog knew it, it has no index row either. The rows of
/// other locations stay as they were.
pub proof fn lemma_reconciled_drops_unseen(
    c: StoreView,
    location_id: i64,
    files: Seq<ScannedFileView>,
    now: Timestamp,
    rel_path: Seq<char>,
)
    requires
        !seen_paths(files, files.len() as int).contains(rel_path),
    ensures
        ({
            let out = reconciled(c, location_id, files, now);
            &&& out.documents.filter(rows_of_key(location_id, rel_path)).len() == 0
            &&& (exists|i: int|
                0 <= i < c.documents.len() && row_has_key(
                    #[trigger] c.documents[i],
                    location_id,
                    rel_path,
                )) ==> out.index.filter(index_of_key(location_id, rel_path)).len() == 0
        }),
{
    let n = files.len() as int;
    let seen = seen_paths(files, n);
    let folded = scan_fold(c, location_id, files, n, now);
    let out = reconciled(c, location_id, files, now);
    let keep = row_is_seen(location_id, seen);
    lemma_filter_satisfies(folded.documents, keep);
    assert forall|i: int| 0 <= i < out.documents.len() implies !(rows_of_key(location_id, rel_path))(
        #[trigger] out.documents[i],
    ) by {
        assert(keep(out.documents[i]));
    }
    lemma_filter_none(out.documents, rows_of_key(location_id, rel_path));
    if exists|i: int|
        0 <= i < c.documents.len() && row_has_key(#[trigger] c.documents[i], location_id, rel_path) {
        lemma_fold_keeps_keys(c, location_id, files, n, now, location_id, rel_path);
        let stale = stale_paths(folded.documents, location_id, seen);
        assert(stale.contains(rel_path));
        let kept = index_row_is_kept(location_id, stale);
        lemma_filter_satisfies(folded.index, kept);
        assert forall|i: int| 0 <= i < out.index.len() implies !(index_of_key(location_id, rel_path))(
            #[trigger] out.index[i],
        ) by {
            assert(kept(out.index[i]));
        }
        lemma_filter_none(out.index, index_of_key(location_id, rel_path));
    }
}

} // verus!
