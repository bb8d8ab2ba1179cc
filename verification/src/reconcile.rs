use vstd::prelude::*;
use crate::catalog::{
    find_location, index_title, index_upserted, index_without, path_set, rows_upserted,
    without_unseen, IndexRowView, Store, StoreView,
};
use crate::chars::{from_chars, int_chars, int_text, push_all, push_text};
use crate::docmeta::{filename_of, filename_spec, read_doc_metadata, scanned_meta, FileStat};
use crate::error::{app_error_from_path, AppError, ErrorCode};
use crate::model::{DocMetaView, Timestamp};
use crate::path::{normalize_spec, outcome_of, DocId, LocationId, Normalized, PathError};
use crate::text::{decode_spec, detect_and_decode, is_indexable_spec, is_indexable_text_path};

verus! {

/// What a scan reports of one file under a location's root: its path
/// relative to the root, what the file system reports of it, and its bytes
/// where they were read.
#[derive(Debug, Clone, PartialEq, Eq)]
pub struct ScannedFile {
    pub rel_path: String,
    pub stat: FileStat,
    pub bytes: Option<Vec<u8>>,
}

/// A scanned file as plain values.
pub struct ScannedFileView {
    pub rel_path: Seq<char>,
    pub stat: FileStat,
    pub bytes: Option<Seq<u8>>,
}

impl View for ScannedFile {
    type V = ScannedFileView;

    open spec fn view(&self) -> ScannedFileView {
        ScannedFileView {
            rel_path: self.rel_path@,
            stat: self.stat,
            bytes: match self.bytes {
                Some(b) => Some(b@),
                None => None,
            },
        }
    }
}

pub open spec fn file_views(files: Seq<ScannedFile>) -> Seq<ScannedFileView> {
    files.map_values(|f: ScannedFile| f@)
}

/// The path of a scanned file has passed normalisation.
pub open spec fn has_valid_path(f: ScannedFileView) -> bool {
    normalize_spec(f.rel_path) is Path
}

/// The normalised path of a scanned file.
pub open spec fn scan_path(f: ScannedFileView) -> Seq<char> {
    match normalize_spec(f.rel_path) {
        Normalized::Path(p) => p,
        _ => f.rel_path,
    }
}

/// The text under which a scanned file is indexed: the decoding of its
/// bytes, for a file whose extension is indexed and whose bytes were read
/// and could be decoded.
pub open spec fn indexed_text(f: ScannedFileView) -> Option<Seq<char>> {
    if is_indexable_spec(scan_path(f)) {
        match f.bytes {
            Some(b) => decode_spec(b),
            None => None,
        }
    } else {
        None
    }
}

/// The catalog metadata of a scanned file.
pub open spec fn scan_meta(location_id: i64, f: ScannedFileView) -> DocMetaView {
    scanned_meta(
        LocationId(location_id),
        scan_path(f),
        filename_spec(scan_path(f)),
        f.stat,
        f.bytes,
    )
}

/// The index row of a scanned file whose text is indexed.
pub open spec fn scan_index_row(location_id: i64, f: ScannedFileView, text: Seq<char>) -> IndexRowView {
    IndexRowView {
        location_id,
        rel_path: scan_path(f),
        title: index_title(scan_meta(location_id, f).title, scan_path(f)),
        content: text,
    }
}

/// The state after one scanned file is taken in: its metadata is upserted
/// into the catalog, and its text replaces the index rows of its key, or,
/// where it has no text to index, those rows are removed.
pub open spec fn scan_step(c: StoreView, location_id: i64, f: ScannedFileView, now: Timestamp) -> StoreView {
    StoreView {
        documents: rows_upserted(c.documents, scan_meta(location_id, f), now),
        index: match indexed_text(f) {
            Some(text) => index_upserted(c.index, scan_index_row(location_id, f, text)),
            None => index_without(c.index, location_id, scan_path(f)),
        },
        ..c
    }
}

/// The state after the first `n` scanned files are taken in, in order.
pub open spec fn scan_fold(
    c: StoreView,
    location_id: i64,
    files: Seq<ScannedFileView>,
    n: int,
    now: Timestamp,
) -> StoreView
    decreases n,
{
    if n <= 0 || n > files.len() {
        c
    } else {
        scan_step(scan_fold(c, location_id, files, n - 1, now), location_id, files[n - 1], now)
    }
}

/// The number of files among the first `n` whose text is indexed.
pub open spec fn indexed_count(files: Seq<ScannedFileView>, n: int) -> nat
    decreases n,
{
    if n <= 0 || n > files.len() {
        0
    } else {
        indexed_count(files, n - 1) + if indexed_text(files[n - 1]) is Some {
            1nat
        } else {
            0nat
        }
    }
}

/// The normalised paths of the first `n` scanned files.
pub open spec fn seen_paths(files: Seq<ScannedFileView>, n: int) -> Set<Seq<char>> {
    Set::new(|p: Seq<char>| exists|k: int| 0 <= k < n && k < files.len() && scan_path(#[trigger] files[k]) == p)
}

/// The state after a location is reconciled with a scan of its root: every
/// scanned file is taken in, then the rows that the scan did not see are removed.
pub open spec fn reconciled(
    c: StoreView,
    location_id: i64,
    files: Seq<ScannedFileView>,
    now: Timestamp,
) -> StoreView {
    without_unseen(
        scan_fold(c, location_id, files, files.len() as int, now),
        location_id,
        seen_paths(files, files.len() as int),
    )
}

/// The first `n` scanned files have valid paths.
pub open spec fn valid_before(files: Seq<ScannedFileView>, n: int) -> bool {
    forall|k: int| 0 <= k < n && k < files.len() ==> has_valid_path(#[trigger] files[k])
}

pub open spec fn location_not_found_message(location_id: i64) -> Seq<char> {
    "Location not found: LocationId("@ + int_text(location_id as int) + ")"@
}

/// The error for a location that is not registered.
pub fn location_not_found(location_id: LocationId) -> (out: AppError)
    ensures
        out@ == (
            ErrorCode::NotFound,
            location_not_found_message(location_id.0),
            None::<Seq<char>>,
        ),
{
    let mut message: Vec<char> = Vec::new();
    push_text(&mut message, "Location not found: LocationId(");
    let digits = int_chars(location_id.0);
    push_all(&mut message, &digits);
    push_text(&mut message, ")");
    proof {
        assert(message@ =~= location_not_found_message(location_id.0));
    }
    AppError::not_found(from_chars(&message).as_str())
}

proof fn lemma_indexed_count_bound(files: Seq<ScannedFileView>, n: int)
    requires
        0 <= n <= files.len(),
    ensures
        indexed_count(files, n) <= n,
    decreases n,
{
    if n > 0 {
        lemma_indexed_count_bound(files, n - 1);
    }
}

impl Store {
    fn take_in(&mut self, location_id: LocationId, file: &ScannedFile, now: Timestamp) -> (result:
        Result<(bool, String), PathError>)
        requires
            old(self).wf(),
        ensures
            final(self).wf(),
            match result {
                Ok((indexed, path)) => has_valid_path(file@) && path@ == scan_path(file@)
                    && final(self)@ == scan_step(old(self)@, location_id.0, file@, now) && indexed
                    == (indexed_text(file@) is Some),
                Err(e) => !has_valid_path(file@) && final(self)@ == old(self)@ && outcome_of(Err(e))
                    == normalize_spec(file@.rel_path) && (e matches PathError::InvalidPath(m)
                    ==> m@ == crate::path::absolute_path_message()),
            },
    {
        let doc_id = match DocId::new(location_id, file.rel_path.clone()) {
            Ok(d) => d,
            Err(e) => {
                return Err(e);
            },
        };
        let filename = filename_of(doc_id.rel_path.as_str());
        let meta = read_doc_metadata(
            file.stat,
            location_id,
            doc_id.rel_path.clone(),
            filename.as_str(),
            file.bytes.as_ref(),
        );
        self.update_doc_in_catalog(&meta, now);
        let indexed = if is_indexable_text_path(doc_id.rel_path.as_str()) {
            match &file.bytes {
                Some(bytes) => match detect_and_decode(bytes.as_slice()) {
                    Ok((text, _)) => {
                        self.index_document_text(&doc_id, &meta, text.as_str());
                        true
                    },
                    Err(_) => {
                        self.remove_fts_entry(&doc_id);
                        false
                    },
                },
                None => {
                    self.remove_fts_entry(&doc_id);
                    false
                },
            }
        } else {
            self.remove_fts_entry(&doc_id);
            false
        };
        Ok((indexed, doc_id.rel_path))
    }

    /// Takes one scanned file into catalog and index. Returns whether its
    /// text was indexed, or the path error where its path is not valid, in
    /// which case nothing changes. A file whose extension is indexed but
    /// whose bytes could not be read or decoded keeps its catalog row and
    /// loses its index rows.
    pub fn take_in_scanned_file(
        &mut self,
        location_id: LocationId,
        file: &ScannedFile,
        now: Timestamp,
    ) -> (result: Result<bool, PathError>)
        requires
            old(self).wf(),
        ensures
            final(self).wf(),
            match result {
                Ok(indexed) => has_valid_path(file@) && final(self)@ == scan_step(
                    old(self)@,
                    location_id.0,
                    file@,
                    now,
                ) && indexed == (indexed_text(file@) is Some),
                Err(e) => !has_valid_path(file@) && final(self)@ == old(self)@ && outcome_of(Err(e))
                    == normalize_spec(file@.rel_path) && (e matches PathError::InvalidPath(m)
                    ==> m@ == crate::path::absolute_path_message()),
            },
    {
        match self.take_in(location_id, file, now) {
            Ok((indexed, _)) => Ok(indexed),
            Err(e) => Err(e),
        }
    }

    /// Reconciles a location with a scan of its root. Every scanned file is
    /// taken into catalog and index, in order; then every catalog row of
    /// the location that the scan did not see is removed, with its index
    /// rows. Returns the number of files whose text was indexed.
    ///
    /// A location whose root is missing is left as it is, and the answer is
    /// 0. Fails with `NotFound` where the location is not registered, and
    /// with `InvalidPath` at the first scanned file whose path is not
    /// valid; the files before it have then been taken in.
    pub fn reconcile_location_index(
        &mut self,
        location_id: LocationId,
        root_exists: bool,
        files: &Vec<ScannedFile>,
        now: Timestamp,
    ) -> (result: Result<usize, AppError>)
        requires
            old(self).wf(),
        ensures
            final(self).wf(),
            match result {
                Ok(indexed) => find_location(old(self)@.locations, location_id.0, 0) is Some && (
                if !root_exists {
                    indexed == 0 && final(self)@ == old(self)@
                } else {
                    valid_before(file_views(files@), files@.len() as int) && indexed
                        == indexed_count(file_views(files@), files@.len() as int) && final(self)@
                        == reconciled(old(self)@, location_id.0, file_views(files@), now)
                }),
                Err(e) => if find_location(old(self)@.locations, location_id.0, 0) is None {
                    final(self)@ == old(self)@ && e@ == (
                        ErrorCode::NotFound,
                        location_not_found_message(location_id.0),
                        None::<Seq<char>>,
                    )
                } else {
                    root_exists && e.code == ErrorCode::InvalidPath && exists|k: int|
                        0 <= k < files@.len() && valid_before(file_views(files@), k)
                            && !has_valid_path(#[trigger] file_views(files@)[k]) && final(self)@
                            == scan_fold(old(self)@, location_id.0, file_views(files@), k, now)
                            && e@ == crate::error::path_failure(file_views(files@)[k].rel_path)
                },
            },
    {
        match self.location_get(location_id) {
            Some(_) => {},
            None => {
                return Err(location_not_found(location_id));
            },
        }
        if !root_exists {
            return Ok(0);
        }
        let ghost fv = file_views(files@);
        let ghost start = self@;
        let mut seen: Vec<String> = Vec::new();
        let mut indexed: usize = 0;
        let mut i: usize = 0;
        while i < files.len()
            invariant
                i <= files.len(),
                self.wf(),
                root_exists,
                fv == file_views(files@),
                start == old(self)@,
                find_location(start.locations, location_id.0, 0) is Some,
                valid_before(fv, i as int),
                self@ == scan_fold(start, location_id.0, fv, i as int, now),
                indexed == indexed_count(fv, i as int),
                path_set(seen@) =~= seen_paths(fv, i as int),
            decreases files.len() - i,
        {
            proof {
                assert(fv[i as int] == files@[i as int]@);
                lemma_indexed_count_bound(fv, i as int);
            }
            let ghost seen_before = seen@;
            match self.take_in(location_id, &files[i], now) {
                Ok((was_indexed, path)) => {
                    if was_indexed {
                        indexed += 1;
                    }
                    seen.push(path);
                    proof {
                        assert forall|q: Seq<char>| path_set(seen@).contains(q) <==> seen_paths(
                            fv,
                            i + 1,
                        ).contains(q) by {
                            if path_set(seen@).contains(q) {
                                let k = choose|k: int|
                                    0 <= k < seen@.len() && (#[trigger] seen@[k])@ == q;
                                if k < seen_before.len() {
                                    assert(seen_before[k] == seen@[k]);
                                    assert(path_set(seen_before).contains(q));
                                    assert(seen_paths(fv, i as int).contains(q));
                                    let w = choose|w: int|
                                        0 <= w < i && w < fv.len() && scan_path(#[trigger] fv[w]) == q;
                                    assert(0 <= w < i + 1 && scan_path(fv[w]) == q);
                                } else {
                                    assert(scan_path(fv[i as int]) == q);
                                }
                            }
                            if seen_paths(fv, i + 1).contains(q) {
                                let w = choose|w: int|
                                    0 <= w < i + 1 && w < fv.len() && scan_path(#[trigger] fv[w]) == q;
                                if w < i {
                                    assert(seen_paths(fv, i as int).contains(q));
                                    assert(path_set(seen_before).contains(q));
                                    let k = choose|k: int|
                                        0 <= k < seen_before.len() && (#[trigger] seen_before[k])@
                                            == q;
                                    assert(seen@[k] == seen_before[k]);
                                } else {
                                    assert(seen@[seen@.len() - 1]@ == q);
                                }
                            }
                        }
                    }
                },
                Err(e) => {
                    let err = app_error_from_path(e);
                    proof {
                        let k = i as int;
                        assert(err@ == crate::error::path_failure(fv[k].rel_path));
                        assert(0 <= k < files@.len() && valid_before(fv, k) && !has_valid_path(
                            file_views(files@)[k],
                        ) && self@ == scan_fold(start, location_id.0, fv, k, now) && err@
                            == crate::error::path_failure(file_views(files@)[k].rel_path));
                        assert(err.code == ErrorCode::InvalidPath);
                    }
                    return Err(err);
                },
            }
            i += 1;
        }
        self.remove_unseen_rows(location_id, &seen);
        Ok(indexed)
    }
}

/// A scan of one location's root.
#[derive(Debug, Clone, PartialEq, Eq)]
pub struct LocationScan {
    pub location_id: LocationId,
    pub root_exists: bool,
    pub files: Vec<ScannedFile>,
}

/// A location scan as plain values.
pub struct LocationScanView {
    pub location_id: i64,
    pub root_exists: bool,
    pub files: Seq<ScannedFileView>,
}

impl View for LocationScan {
    type V = LocationScanView;

    open spec fn view(&self) -> LocationScanView {
        LocationScanView {
            location_id: self.location_id.0,
            root_exists: self.root_exists,
            files: file_views(self.files@),
        }
    }
}

pub open spec fn scan_views(scans: Seq<LocationScan>) -> Seq<LocationScanView> {
    scans.map_values(|s: LocationScan| s@)
}

/// A scan can be reconciled: its location is registered and, where its
/// root is there, every scanned path is valid.
pub open spec fn scan_is_sound(c: StoreView, scan: LocationScanView) -> bool {
    find_location(c.locations, scan.location_id, 0) is Some && (scan.root_exists ==> valid_before(
        scan.files,
        scan.files.len() as int,
    ))
}

/// The state after one location is reconciled with its scan.
pub open spec fn scan_applied(c: StoreView, scan: LocationScanView, now: Timestamp) -> StoreView {
    if scan.root_exists {
        reconciled(c, scan.location_id, scan.files, now)
    } else {
        c
    }
}

/// The state after the first `n` locations are reconciled, in order.
pub open spec fn all_reconciled(c: StoreView, scans: Seq<LocationScanView>, n: int, now: Timestamp) -> StoreView
    decreases n,
{
    if n <= 0 || n > scans.len() {
        c
    } else {
        scan_applied(all_reconciled(c, scans, n - 1, now), scans[n - 1], now)
    }
}

/// Reconciliation has stopped at a scan with an error: the scans before
/// it were sound and have been reconciled; the scan itself names a
/// location that is not registered, and nothing more has changed, or it
/// holds a path that is not valid, and its files before that path have
/// been taken in.
pub open spec fn stopped_at(
    c: StoreView,
    scans: Seq<LocationScanView>,
    k: int,
    now: Timestamp,
    state: StoreView,
    error: crate::error::ErrorView,
) -> bool {
    let before = all_reconciled(c, scans, k, now);
    &&& forall|i: int| 0 <= i < k ==> scan_is_sound(c, #[trigger] scans[i])
    &&& !scan_is_sound(c, scans[k])
    &&& if find_location(c.locations, scans[k].location_id, 0) is None {
        state == before && error == crate::error::failure(
            ErrorCode::NotFound,
            location_not_found_message(scans[k].location_id),
        )
    } else {
        exists|j: int|
            0 <= j < scans[k].files.len() && valid_before(scans[k].files, j) && !has_valid_path(
                #[trigger] scans[k].files[j],
            ) && state == scan_fold(before, scans[k].location_id, scans[k].files, j, now) && error
                == crate::error::path_failure(scans[k].files[j].rel_path)
    }
}

/// The number of files whose text was indexed by the first `n` scans.
pub open spec fn total_indexed(scans: Seq<LocationScanView>, n: int) -> nat
    decreases n,
{
    if n <= 0 || n > scans.len() {
        0
    } else {
        total_indexed(scans, n - 1) + if scans[n - 1].root_exists {
            indexed_count(scans[n - 1].files, scans[n - 1].files.len() as int)
        } else {
            0nat
        }
    }
}

/// A count held at the largest `usize`.
pub open spec fn held(v: nat) -> usize {
    if v >= usize::MAX {
        usize::MAX
    } else {
        v as usize
    }
}

/// The roots that are gone, among the first `n` locations: a location is
/// listed where its root was looked for and not found.
pub open spec fn missing_roots(locations: Seq<crate::catalog::LocationView>, root_exists: Seq<bool>, n: int) -> Seq<
    (i64, Seq<char>),
>
    decreases n,
{
    if n <= 0 || n > locations.len() {
        Seq::empty()
    } else if n - 1 < root_exists.len() && !root_exists[n - 1] {
        missing_roots(locations, root_exists, n - 1).push(
            (locations[n - 1].id, locations[n - 1].root_path),
        )
    } else {
        missing_roots(locations, root_exists, n - 1)
    }
}

proof fn lemma_reconciled_keeps_locations(c: StoreView, location_id: i64, files: Seq<ScannedFileView>, n: int, now: Timestamp)
    requires
        0 <= n <= files.len(),
    ensures
        scan_fold(c, location_id, files, n, now).locations == c.locations,
    decreases n,
{
    if n > 0 {
        lemma_reconciled_keeps_locations(c, location_id, files, n - 1, now);
    }
}

impl Store {
    /// Lists the locations whose roots are gone, given for each location,
    /// in the order of `location_list`, whether its root was found on
    /// disk. Nothing is changed: what to do about a missing root is the
    /// caller's to decide.
    pub fn validate_locations(&self, root_exists: &Vec<bool>) -> (out: Vec<(LocationId, String)>)
        ensures
            out@.map_values(|m: (LocationId, String)| (m.0.0, m.1@)) == missing_roots(
                self@.locations,
                root_exists@,
                self@.locations.len() as int,
            ),
    {
        let locations = self.location_list();
        let ghost lv = self@.locations;
        let mut out: Vec<(LocationId, String)> = Vec::new();
        let mut i: usize = 0;
        proof {
            assert(out@.map_values(|m: (LocationId, String)| (m.0.0, m.1@)) =~= Seq::empty());
        }
        while i < locations.len()
            invariant
                i <= locations.len(),
                lv == crate::catalog::location_views(locations@),
                out@.map_values(|m: (LocationId, String)| (m.0.0, m.1@)) == missing_roots(
                    lv,
                    root_exists@,
                    i as int,
                ),
            decreases locations.len() - i,
        {
            let ghost before = out@.map_values(|m: (LocationId, String)| (m.0.0, m.1@));
            proof {
                assert(lv[i as int] == locations@[i as int]@);
            }
            if i < root_exists.len() && !root_exists[i] {
                out.push((locations[i].id, locations[i].root_path.clone()));
                proof {
                    assert(out@.map_values(|m: (LocationId, String)| (m.0.0, m.1@)) =~= before.push(
                        (lv[i as int].id, lv[i as int].root_path),
                    ));
                }
            }
            i += 1;
        }
        out
    }

    /// Reconciles every scanned location, in order, and returns the
    /// number of files whose text was indexed, held at the largest number.
    /// Succeeds exactly where every scan names a registered location and,
    /// where its root is there, holds valid paths only; stops at the first
    /// scan that does not.
    pub fn reconcile_indexes(&mut self, scans: &Vec<LocationScan>, now: Timestamp) -> (result: Result<
        usize,
        AppError,
    >)
        requires
            old(self).wf(),
        ensures
            final(self).wf(),
            final(self)@.locations == old(self)@.locations,
            match result {
                Ok(total) => (forall|k: int|
                    0 <= k < scans@.len() ==> scan_is_sound(old(self)@, #[trigger] scan_views(scans@)[k]))
                    && final(self)@ == all_reconciled(
                    old(self)@,
                    scan_views(scans@),
                    scans@.len() as int,
                    now,
                ) && total == held(total_indexed(scan_views(scans@), scans@.len() as int)),
                Err(e) => exists|k: int|
                    0 <= k < scans@.len() && #[trigger] stopped_at(
                        old(self)@,
                        scan_views(scans@),
                        k,
                        now,
                        final(self)@,
                        e@,
                    ),
            },
    {
        let ghost sv = scan_views(scans@);
        let ghost start = self@;
        let mut total: usize = 0;
        let mut i: usize = 0;
        while i < scans.len()
            invariant
                i <= scans.len(),
                self.wf(),
                sv == scan_views(scans@),
                start == old(self)@,
                self@.locations == start.locations,
                forall|k: int| 0 <= k < i ==> scan_is_sound(start, #[trigger] sv[k]),
                self@ == all_reconciled(start, sv, i as int, now),
                total == held(total_indexed(sv, i as int)),
            decreases scans.len() - i,
        {
            let scan = &scans[i];
            let ghost before = self@;
            proof {
                assert(sv[i as int] == scan@);
                lemma_reconciled_keeps_locations(
                    before,
                    scan.location_id.0,
                    file_views(scan.files@),
                    scan.files@.len() as int,
                    now,
                );
            }
            match self.reconcile_location_index(scan.location_id, scan.root_exists, &scan.files, now) {
                Ok(indexed) => {
                    proof {
                        assert(scan_is_sound(start, sv[i as int]));
                    }
                    total = if indexed > usize::MAX - total {
                        usize::MAX
                    } else {
                        total + indexed
                    };
                },
                Err(e) => {
                    proof {
                        let fv = file_views(scan.files@);
                        if find_location(before.locations, scan.location_id.0, 0) is Some {
                            let j = choose|j: int|
                                0 <= j < scan.files@.len() && valid_before(fv, j) && !has_valid_path(
                                    #[trigger] fv[j],
                                ) && self@ == scan_fold(before, scan.location_id.0, fv, j, now)
                                    && e@ == crate::error::path_failure(fv[j].rel_path);
                            lemma_reconciled_keeps_locations(before, scan.location_id.0, fv, j, now);
                            assert(!valid_before(fv, fv.len() as int));
                            assert(0 <= j < sv[i as int].files.len() && valid_before(
                                sv[i as int].files,
                                j,
                            ) && !has_valid_path(sv[i as int].files[j]) && self@ == scan_fold(
                                before,
                                sv[i as int].location_id,
                                sv[i as int].files,
                                j,
                                now,
                            ) && e@ == crate::error::path_failure(sv[i as int].files[j].rel_path));
                        }
                        assert(!scan_is_sound(start, sv[i as int]));
                        assert(stopped_at(start, sv, i as int, now, self@, e@));
                    }
                    return Err(e);
                },
            }
            i += 1;
        }
        Ok(total)
    }
}

} // verus!
