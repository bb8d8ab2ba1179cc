use vstd::prelude::*;
use crate::catalog::{
    find_location, index_moved, index_outside_dir, is_under_dir, keys_distinct,
    move_collision_message, outside_dir, rows_moved, under_dir, Store, StoreView,
};
use crate::chars::{concat, from_chars, slice_chars, to_chars};
use crate::error::{failure, normalized_or_error, path_failure, AppError, ErrorCode, ErrorView};
use crate::model::Timestamp;
use crate::path::{
    join_path, join_path_spec, lemma_normalize_idempotent, normalize_relative_path,
    normalize_spec, LocationId, Normalized,
};
use crate::reconcile::{location_not_found, location_not_found_message};

verus! {

/// What the file system reports of a path: whether something is there, and
/// whether it is a directory.
#[derive(Debug, Clone, Copy, PartialEq, Eq, Structural)]
pub struct EntryState {
    pub exists: bool,
    pub is_dir: bool,
}

/// A path below a location's root: relative to the root, and in full.
#[derive(Debug, Clone, PartialEq, Eq)]
pub struct ResolvedPath {
    pub rel_path: String,
    pub full_path: String,
}

/// The root of a registered location.
pub open spec fn root_of(c: StoreView, location_id: i64) -> Option<Seq<char>> {
    match find_location(c.locations, location_id, 0) {
        Some(i) => Some(c.locations[i].root_path),
        None => None,
    }
}

/// The text of a failed file system operation: what was attempted, and the system's own words.
pub open spec fn io_failure(what: Seq<char>, detail: Seq<char>) -> ErrorView {
    failure(ErrorCode::Io, what + detail)
}

/// The error of a failed file system operation.
pub fn io_error(what: &str, detail: &str) -> (out: AppError)
    ensures
        out@ == io_failure(what@, detail@),
{
    let message = concat(what, detail);
    AppError::io(message.as_str())
}

/// The outcome of a file system operation, as plain values.
pub open spec fn outcome_view(o: Result<(), String>) -> Result<(), Seq<char>> {
    match o {
        Ok(()) => Ok(()),
        Err(d) => Err(d@),
    }
}

/// What `dir_create` answers.
pub open spec fn dir_create_spec(
    c: StoreView,
    location_id: i64,
    rel_path: Seq<char>,
    target: EntryState,
    created: Result<(), Seq<char>>,
) -> Result<bool, ErrorView> {
    if root_of(c, location_id) is None {
        Err(failure(ErrorCode::NotFound, location_not_found_message(location_id)))
    } else if !(normalize_spec(rel_path) is Path) {
        Err(path_failure(rel_path))
    } else if target.exists {
        if target.is_dir {
            Ok(false)
        } else {
            Err(
                failure(
                    ErrorCode::Conflict,
                    "A file already exists at the target directory path"@,
                ),
            )
        }
    } else {
        match created {
            Ok(()) => Ok(true),
            Err(detail) => Err(io_failure("Failed to create directory: "@, detail)),
        }
    }
}

/// A result as plain values.
pub open spec fn bool_result_view(r: Result<bool, AppError>) -> Result<bool, ErrorView> {
    match r {
        Ok(b) => Ok(b),
        Err(e) => Err(e@),
    }
}

pub open spec fn text_result_view(r: Result<String, AppError>) -> Result<Seq<char>, ErrorView> {
    match r {
        Ok(s) => Ok(s@),
        Err(e) => Err(e@),
    }
}

/// The part of a path before its last separator; empty where it has none.
pub open spec fn parent_of(path: Seq<char>) -> Seq<char>
    decreases path.len(),
{
    if path.len() == 0 {
        Seq::empty()
    } else if path.last() == '/' {
        path.drop_last()
    } else {
        parent_of(path.drop_last())
    }
}

/// The part of a path before its last separator.
pub fn parent_path(path: &str) -> (out: String)
    ensures
        out@ == parent_of(path@),
{
    let chars = to_chars(path);
    let mut k: usize = chars.len();
    proof {
        assert(chars@.take(k as int) =~= chars@);
    }
    while k > 0
        invariant
            k <= chars.len(),
            chars@ == path@,
            parent_of(chars@) == parent_of(chars@.take(k as int)),
        decreases k,
    {
        let ghost cur = chars@.take(k as int);
        proof {
            assert(cur.last() == chars@[k - 1]);
            assert(cur.drop_last() =~= chars@.take(k - 1));
        }
        if chars[k - 1] == '/' {
            let head = slice_chars(&chars, 0, k - 1);
            proof {
                assert(chars@.subrange(0, k - 1) =~= chars@.take(k - 1));
            }
            return from_chars(&head);
        }
        k -= 1;
    }
    proof {
        assert(chars@.take(0).len() == 0);
    }
    String::new()
}

/// No separator occurs in the text.
pub open spec fn is_single_segment(name: Seq<char>) -> bool {
    forall|i: int| 0 <= i < name.len() ==> name[i] != '/'
}

fn has_no_separator(name: &str) -> (out: bool)
    ensures
        out == is_single_segment(name@),
{
    let chars = to_chars(name);
    let mut i: usize = 0;
    while i < chars.len()
        invariant
            i <= chars.len(),
            chars@ == name@,
            forall|k: int| 0 <= k < i ==> chars@[k] != '/',
        decreases chars.len() - i,
    {
        if chars[i] == '/' {
            return false;
        }
        i += 1;
    }
    true
}

/// The paths of a directory move.
#[derive(Debug, Clone, PartialEq, Eq)]
pub struct DirMove {
    pub from_rel: String,
    pub to_rel: String,
    pub from_full: String,
    pub to_full: String,
}

/// A directory move as plain values: from and to, relative to the root.
pub type DirMoveView = (Seq<char>, Seq<char>);

/// The paths of a directory rename, or why it is refused before anything
/// is looked at on disk: the new name must be one valid path segment, and
/// it takes the place of the directory's last segment.
pub open spec fn dir_rename_plan_spec(
    c: StoreView,
    location_id: i64,
    rel_path: Seq<char>,
    new_name: Seq<char>,
) -> Result<DirMoveView, ErrorView> {
    if root_of(c, location_id) is None {
        Err(failure(ErrorCode::NotFound, location_not_found_message(location_id)))
    } else {
        match normalize_spec(rel_path) {
            Normalized::Path(from) => match normalize_spec(new_name) {
                Normalized::Path(name) => if !is_single_segment(name) {
                    Err(
                        failure(
                            ErrorCode::InvalidPath,
                            "New directory name must be a single path segment"@,
                        ),
                    )
                } else {
                    match normalize_spec(join_path_spec(parent_of(from), name)) {
                        Normalized::Path(to) => Ok((from, to)),
                        _ => Err(path_failure(join_path_spec(parent_of(from), name))),
                    }
                },
                _ => Err(failure(ErrorCode::InvalidPath, "New directory name is invalid"@)),
            },
            _ => Err(path_failure(rel_path)),
        }
    }
}

/// The paths of a directory move, or why it is refused before anything is
/// looked at on disk: a directory cannot move into itself or below itself.
pub open spec fn dir_move_plan_spec(
    c: StoreView,
    location_id: i64,
    rel_path: Seq<char>,
    new_rel_path: Seq<char>,
) -> Result<DirMoveView, ErrorView> {
    if root_of(c, location_id) is None {
        Err(failure(ErrorCode::NotFound, location_not_found_message(location_id)))
    } else {
        match normalize_spec(rel_path) {
            Normalized::Path(from) => match normalize_spec(new_rel_path) {
                Normalized::Path(to) => if under_dir(to, from) {
                    Err(
                        failure(
                            ErrorCode::InvalidPath,
                            "Cannot move a directory into itself or one of its descendants"@,
                        ),
                    )
                } else {
                    Ok((from, to))
                },
                _ => Err(path_failure(new_rel_path)),
            },
            _ => Err(path_failure(rel_path)),
        }
    }
}

/// Whether what is on disk allows a directory to move: the source must be
/// a directory and nothing may be at the destination.
pub open spec fn dir_move_check_spec(source: EntryState, dest: EntryState) -> Result<(), ErrorView> {
    if !source.exists {
        Err(failure(ErrorCode::NotFound, "Directory not found"@))
    } else if !source.is_dir {
        Err(failure(ErrorCode::InvalidPath, "Path is not a directory"@))
    } else if dest.exists {
        Err(
            failure(
                ErrorCode::Conflict,
                "A file or directory already exists at the destination"@,
            ),
        )
    } else {
        Ok(())
    }
}

pub open spec fn unit_result_view(r: Result<(), AppError>) -> Result<(), ErrorView> {
    match r {
        Ok(()) => Ok(()),
        Err(e) => Err(e@),
    }
}

/// Decides from what is on disk whether a directory may move.
pub fn dir_move_check(source: EntryState, dest: EntryState) -> (result: Result<(), AppError>)
    ensures
        unit_result_view(result) == dir_move_check_spec(source, dest),
{
    if !source.exists {
        return Err(AppError::not_found("Directory not found"));
    }
    if !source.is_dir {
        return Err(AppError::invalid_path("Path is not a directory"));
    }
    if dest.exists {
        return Err(
            AppError::new(
                ErrorCode::Conflict,
                "A file or directory already exists at the destination",
            ),
        );
    }
    Ok(())
}

/// State and answer of a directory move or rename once its paths are
/// planned: it is refused where the disk does not allow it, it fails with
/// `Io` where the disk operation failed, and with `Index` where the
/// catalog rows would collide; otherwise the rows follow the directory.
pub open spec fn dir_moved_spec(
    c: StoreView,
    location_id: i64,
    plan: Result<DirMoveView, ErrorView>,
    source: EntryState,
    dest: EntryState,
    renamed: Result<(), Seq<char>>,
    what: Seq<char>,
    now: Timestamp,
) -> (StoreView, Result<Seq<char>, ErrorView>) {
    match plan {
        Err(e) => (c, Err(e)),
        Ok((from, to)) => match dir_move_check_spec(source, dest) {
            Err(e) => (c, Err(e)),
            Ok(()) => match renamed {
                Err(detail) => (c, Err(io_failure(what, detail))),
                Ok(()) => if keys_distinct(rows_moved(c.documents, location_id, from, to, now)) {
                    (
                        StoreView {
                            documents: rows_moved(c.documents, location_id, from, to, now),
                            index: index_moved(c.index, location_id, from, to),
                            ..c
                        },
                        Ok(to),
                    )
                } else {
                    (c, Err(failure(ErrorCode::Index, move_collision_message())))
                },
            },
        },
    }
}

/// What `dir_delete` does to the state, and what it answers.
pub open spec fn dir_delete_spec(
    c: StoreView,
    location_id: i64,
    rel_path: Seq<char>,
    target: EntryState,
    removed: Result<(), Seq<char>>,
) -> (StoreView, Result<bool, ErrorView>) {
    if root_of(c, location_id) is None {
        (c, Err(failure(ErrorCode::NotFound, location_not_found_message(location_id))))
    } else {
        match normalize_spec(rel_path) {
            Normalized::Path(dir) => if !target.exists {
                (c, Ok(false))
            } else if !target.is_dir {
                (c, Err(failure(ErrorCode::InvalidPath, "Path is not a directory"@)))
            } else {
                match removed {
                    Err(detail) => (c, Err(io_failure("Failed to delete directory: "@, detail))),
                    Ok(()) => (
                        StoreView {
                            documents: c.documents.filter(outside_dir(location_id, dir)),
                            index: c.index.filter(index_outside_dir(location_id, dir)),
                            ..c
                        },
                        Ok(true),
                    ),
                }
            },
            _ => (c, Err(path_failure(rel_path))),
        }
    }
}

pub open spec fn plan_view(r: Result<DirMove, AppError>) -> Result<DirMoveView, ErrorView> {
    match r {
        Ok(m) => Ok((m.from_rel@, m.to_rel@)),
        Err(e) => Err(e@),
    }
}

impl Store {
    /// The root of a location, or the error for a location that is not registered.
    pub fn location_root(&self, location_id: LocationId) -> (result: Result<String, AppError>)
        ensures
            match result {
                Ok(root) => root_of(self@, location_id.0) == Some(root@),
                Err(e) => root_of(self@, location_id.0) is None && e@ == failure(
                    ErrorCode::NotFound,
                    location_not_found_message(location_id.0),
                ),
            },
    {
        match self.location_get(location_id) {
            Some(loc) => Ok(loc.root_path),
            None => Err(location_not_found(location_id)),
        }
    }

    /// Resolves a path below a location's root: the location must be
    /// registered and the path must pass normalisation. The full path then
    /// has the root as its prefix.
    pub fn resolve_in_location(&self, location_id: LocationId, rel_path: &str) -> (result: Result<
        ResolvedPath,
        AppError,
    >)
        ensures
            match result {
                Ok(r) => root_of(self@, location_id.0) matches Some(root) && normalize_spec(rel_path@)
                    == Normalized::Path(r.rel_path@) && r.full_path@ == join_path_spec(
                    root,
                    r.rel_path@,
                ) && root.is_prefix_of(r.full_path@),
                Err(e) => if root_of(self@, location_id.0) is None {
                    e@ == failure(ErrorCode::NotFound, location_not_found_message(location_id.0))
                } else {
                    !(normalize_spec(rel_path@) is Path) && e@ == path_failure(rel_path@)
                },
            },
    {
        let root = self.location_root(location_id)?;
        let rel = normalized_or_error(rel_path)?;
        proof {
            lemma_normalize_idempotent(rel_path@);
            crate::path::lemma_resolve_stays_under_root(root@, rel@);
        }
        let full = join_path(root.as_str(), rel.as_str());
        Ok(ResolvedPath { rel_path: rel, full_path: full })
    }

    /// Creates a directory below a location's root, as far as the store
    /// decides it: given what is on disk at the resolved path and, where
    /// nothing is there, how creating the directory went. The answer is
    /// `false` where the directory exists already, and `Conflict` where a
    /// file is in its place. The store's state is not touched.
    pub fn dir_create(
        &self,
        location_id: LocationId,
        rel_path: &str,
        target: EntryState,
        created: Result<(), String>,
    ) -> (result: Result<bool, AppError>)
        ensures
            bool_result_view(result) == dir_create_spec(
                self@,
                location_id.0,
                rel_path@,
                target,
                outcome_view(created),
            ),
    {
        let _resolved = self.resolve_in_location(location_id, rel_path)?;
        if target.exists {
            if target.is_dir {
                return Ok(false);
            }
            return Err(
                AppError::new(
                    ErrorCode::Conflict,
                    "A file already exists at the target directory path",
                ),
            );
        }
        match created {
            Ok(()) => Ok(true),
            Err(detail) => Err(io_error("Failed to create directory: ", detail.as_str())),
        }
    }

    /// Plans a directory rename: the paths to rename from and to, or why
    /// the rename is refused before anything is looked at on disk.
    pub fn dir_rename_plan(&self, location_id: LocationId, rel_path: &str, new_name: &str) -> (result:
        Result<DirMove, AppError>)
        ensures
            plan_view(result) == dir_rename_plan_spec(self@, location_id.0, rel_path@, new_name@),
            result matches Ok(m) ==> root_of(self@, location_id.0) matches Some(root) && m.from_full@
                == join_path_spec(root, m.from_rel@) && m.to_full@ == join_path_spec(root, m.to_rel@),
    {
        let root = self.location_root(location_id)?;
        let from = normalized_or_error(rel_path)?;
        let name = match normalize_relative_path(new_name) {
            Ok(n) => n,
            Err(_) => {
                return Err(AppError::invalid_path("New directory name is invalid"));
            },
        };
        if !has_no_separator(name.as_str()) {
            return Err(AppError::invalid_path("New directory name must be a single path segment"));
        }
        let parent = parent_path(from.as_str());
        let joined = join_path(parent.as_str(), name.as_str());
        let to = normalized_or_error(joined.as_str())?;
        let from_full = join_path(root.as_str(), from.as_str());
        let to_full = join_path(root.as_str(), to.as_str());
        Ok(DirMove { from_rel: from, to_rel: to, from_full, to_full })
    }

    /// Plans a directory move: the paths to move from and to, or why the
    /// move is refused before anything is looked at on disk. A directory
    /// cannot move into itself or below itself.
    pub fn dir_move_plan(&self, location_id: LocationId, rel_path: &str, new_rel_path: &str) -> (result:
        Result<DirMove, AppError>)
        ensures
            plan_view(result) == dir_move_plan_spec(self@, location_id.0, rel_path@, new_rel_path@),
            result matches Ok(m) ==> root_of(self@, location_id.0) matches Some(root) && m.from_full@
                == join_path_spec(root, m.from_rel@) && m.to_full@ == join_path_spec(root, m.to_rel@),
    {
        let root = self.location_root(location_id)?;
        let from = normalized_or_error(rel_path)?;
        let to = normalized_or_error(new_rel_path)?;
        if is_under_dir(&to_chars(to.as_str()), &to_chars(from.as_str())) {
            return Err(
                AppError::invalid_path(
                    "Cannot move a directory into itself or one of its descendants",
                ),
            );
        }
        let from_full = join_path(root.as_str(), from.as_str());
        let to_full = join_path(root.as_str(), to.as_str());
        Ok(DirMove { from_rel: from, to_rel: to, from_full, to_full })
    }

    fn finish_dir_move(
        &mut self,
        location_id: LocationId,
        plan: Result<DirMove, AppError>,
        source: EntryState,
        dest: EntryState,
        renamed: Result<(), String>,
        what: &str,
        now: Timestamp,
    ) -> (result: Result<String, AppError>)
        requires
            old(self).wf(),
        ensures
            final(self).wf(),
            (final(self)@, text_result_view(result)) == dir_moved_spec(
                old(self)@,
                location_id.0,
                plan_view(plan),
                source,
                dest,
                outcome_view(renamed),
                what@,
                now,
            ),
    {
        let m = plan?;
        dir_move_check(source, dest)?;
        match renamed {
            Ok(()) => {},
            Err(detail) => {
                return Err(io_error(what, detail.as_str()));
            },
        }
        self.update_directory_paths_in_index(
            location_id,
            m.from_rel.as_str(),
            m.to_rel.as_str(),
            now,
        )?;
        Ok(m.to_rel)
    }

    /// Renames a directory, as far as the store decides it: given what is
    /// on disk at the planned paths and how the rename on disk went. Where
    /// it went well, every catalog and index row at or below the old path
    /// follows. Answers the directory's new path.
    pub fn dir_rename(
        &mut self,
        location_id: LocationId,
        rel_path: &str,
        new_name: &str,
        source: EntryState,
        dest: EntryState,
        renamed: Result<(), String>,
        now: Timestamp,
    ) -> (result: Result<String, AppError>)
        requires
            old(self).wf(),
        ensures
            final(self).wf(),
            (final(self)@, text_result_view(result)) == dir_moved_spec(
                old(self)@,
                location_id.0,
                dir_rename_plan_spec(old(self)@, location_id.0, rel_path@, new_name@),
                source,
                dest,
                outcome_view(renamed),
                "Failed to rename directory: "@,
                now,
            ),
    {
        let plan = self.dir_rename_plan(location_id, rel_path, new_name);
        self.finish_dir_move(
            location_id,
            plan,
            source,
            dest,
            renamed,
            "Failed to rename directory: ",
            now,
        )
    }

    /// Moves a directory, as far as the store decides it: given what is on
    /// disk at the planned paths and how the move on disk went. A move of a
    /// directory into itself or below itself is refused with `InvalidPath`
    /// whatever is on disk, and nothing changes. Where the move went well,
    /// every catalog and index row at or below the old path follows.
    /// Answers the directory's new path.
    pub fn dir_move(
        &mut self,
        location_id: LocationId,
        rel_path: &str,
        new_rel_path: &str,
        source: EntryState,
        dest: EntryState,
        renamed: Result<(), String>,
        now: Timestamp,
    ) -> (result: Result<String, AppError>)
        requires
            old(self).wf(),
        ensures
            final(self).wf(),
            (final(self)@, text_result_view(result)) == dir_moved_spec(
                old(self)@,
                location_id.0,
                dir_move_plan_spec(old(self)@, location_id.0, rel_path@, new_rel_path@),
                source,
                dest,
                outcome_view(renamed),
                "Failed to move directory: "@,
                now,
            ),
    {
        let plan = self.dir_move_plan(location_id, rel_path, new_rel_path);
        self.finish_dir_move(
            location_id,
            plan,
            source,
            dest,
            renamed,
            "Failed to move directory: ",
            now,
        )
    }

    /// Deletes a directory, as far as the store decides it: given what is
    /// on disk at the resolved path and how removing it went. The answer is
    /// `false` where nothing is there. Where the directory was removed,
    /// every catalog and index row at or below its path goes with it.
    pub fn dir_delete(
        &mut self,
        location_id: LocationId,
        rel_path: &str,
        target: EntryState,
        removed: Result<(), String>,
    ) -> (result: Result<bool, AppError>)
        requires
            old(self).wf(),
        ensures
            final(self).wf(),
            (final(self)@, bool_result_view(result)) == dir_delete_spec(
                old(self)@,
                location_id.0,
                rel_path@,
                target,
                outcome_view(removed),
            ),
    {
        let resolved = self.resolve_in_location(location_id, rel_path)?;
        if !target.exists {
            return Ok(false);
        }
        if !target.is_dir {
            return Err(AppError::invalid_path("Path is not a directory"));
        }
        match removed {
            Ok(()) => {},
            Err(detail) => {
                return Err(io_error("Failed to delete directory: ", detail.as_str()));
            },
        }
        self.remove_directory_from_index(location_id, resolved.rel_path.as_str());
        Ok(true)
    }
}

/// A directory never moves into itself or below itself: such a move is
/// refused with `InvalidPath`, whatever is on disk and however a disk
/// operation would have gone, and the store is left as it was.
pub proof fn lemma_move_into_itself_is_refused(
    c: StoreView,
    location_id: i64,
    rel_path: Seq<char>,
    new_rel_path: Seq<char>,
    source: EntryState,
    dest: EntryState,
    renamed: Result<(), Seq<char>>,
    now: Timestamp,
)
    requires
        root_of(c, location_id) is Some,
        normalize_spec(rel_path) matches Normalized::Path(from) && normalize_spec(new_rel_path)
            matches Normalized::Path(to) && under_dir(to, from),
    ensures
        dir_moved_spec(
            c,
            location_id,
            dir_move_plan_spec(c, location_id, rel_path, new_rel_path),
            source,
            dest,
            renamed,
            "Failed to move directory: "@,
            now,
        ) == (
            c,
            Err::<Seq<char>, ErrorView>(
                failure(
                    ErrorCode::InvalidPath,
                    "Cannot move a directory into itself or one of its descendants"@,
                ),
            ),
        ),
{
}

} // verus!
