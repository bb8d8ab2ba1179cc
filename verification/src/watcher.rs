use vstd::prelude::*;
use crate::chars::{from_chars, push_all, same_chars, to_chars};
use crate::model::{opt_text, BackendEvent, FsChangeKind, FsEntryKind, Timestamp};
use crate::path::{
    is_cur_dir, normalize_spec, segment_kind, segments, split_segments, views, DocId, LocationId,
    Normalized,
};
use crate::seq_lemmas::lemma_filter_step;

verus! {

/// What was modified.
#[derive(Debug, Clone, Copy, PartialEq, Eq, Structural)]
pub enum ModifyKind {
    Any,
    Data,
    Metadata,
    /// The entry was renamed.
    Name,
    Other,
}

/// What was removed.
#[derive(Debug, Clone, Copy, PartialEq, Eq, Structural)]
pub enum RemoveKind {
    Any,
    File,
    Folder,
    Other,
}

/// The kind of a change that the file system feed reports.
#[derive(Debug, Clone, Copy, PartialEq, Eq, Structural)]
pub enum WatchEventKind {
    Any,
    Access,
    Create,
    Modify(ModifyKind),
    Remove(RemoveKind),
    Other,
}

/// Only creations, modifications and removals are processed.
pub open spec fn is_processed(kind: WatchEventKind) -> bool {
    kind is Create || kind is Modify || kind is Remove
}

/// Whether an event of this kind is processed at all.
pub fn should_process_watcher_event(kind: &WatchEventKind) -> (out: bool)
    ensures
        out == is_processed(*kind),
{
    match kind {
        WatchEventKind::Create => true,
        WatchEventKind::Modify(_) => true,
        WatchEventKind::Remove(_) => true,
        _ => false,
    }
}

/// The change that an event of a kind announces.
pub open spec fn change_kind_spec(kind: WatchEventKind) -> FsChangeKind {
    match kind {
        WatchEventKind::Create => FsChangeKind::Created,
        WatchEventKind::Remove(_) => FsChangeKind::Deleted,
        WatchEventKind::Modify(ModifyKind::Name) => FsChangeKind::Renamed,
        _ => FsChangeKind::Modified,
    }
}

/// The change that an event of a kind announces.
pub fn change_kind_from_event_kind(kind: &WatchEventKind) -> (out: FsChangeKind)
    ensures
        out == change_kind_spec(*kind),
{
    match kind {
        WatchEventKind::Create => FsChangeKind::Created,
        WatchEventKind::Remove(_) => FsChangeKind::Deleted,
        WatchEventKind::Modify(ModifyKind::Name) => FsChangeKind::Renamed,
        WatchEventKind::Modify(_) => FsChangeKind::Modified,
        _ => FsChangeKind::Modified,
    }
}

/// The segments of a path that name something or step upwards.
pub open spec fn components(path: Seq<char>) -> Seq<Seq<char>> {
    segments(path).filter(|s: Seq<char>| !is_cur_dir(s))
}

pub open spec fn is_absolute(path: Seq<char>) -> bool {
    path.len() > 0 && path[0] == '/'
}

/// The path below a root, where it lies below it: the components that
/// follow those of the root. `None` where the path does not lie below the
/// root, or is the root itself.
pub open spec fn relative_path_spec(root: Seq<char>, path: Seq<char>) -> Option<Seq<char>> {
    let r = components(root);
    let p = components(path);
    if is_absolute(root) == is_absolute(path) && r.len() < p.len() && p.take(r.len() as int) == r {
        Some(crate::path::join(p.skip(r.len() as int)))
    } else {
        None
    }
}

fn path_components(path: &Vec<char>) -> (out: Vec<Vec<char>>)
    ensures
        views(out@) == components(path@),
{
    let segs = split_segments(path);
    let ghost all = views(segs@);
    let ghost pred = |s: Seq<char>| !is_cur_dir(s);
    let mut out: Vec<Vec<char>> = Vec::new();
    let mut i: usize = 0;
    proof {
        reveal(Seq::filter);
        assert(all.take(0).filter(pred) =~= Seq::empty());
        assert(views(out@) =~= Seq::empty());
    }
    while i < segs.len()
        invariant
            i <= segs.len(),
            all == views(segs@),
            all == segments(path@),
            pred == (|s: Seq<char>| !is_cur_dir(s)),
            views(out@) == all.take(i as int).filter(pred),
        decreases segs.len() - i,
    {
        let seg = &segs[i];
        proof {
            lemma_filter_step(all, pred, i as int);
            assert(all[i as int] == seg@);
        }
        let (is_cur, _) = segment_kind(seg);
        let ghost before = views(out@);
        if !is_cur {
            out.push(crate::chars::slice_chars(seg, 0, seg.len()));
            proof {
                assert(seg@.subrange(0, seg@.len() as int) =~= seg@);
                assert(views(out@) =~= before.push(seg@));
            }
        }
        i += 1;
    }
    proof {
        assert(all.take(segs.len() as int) =~= all);
    }
    out
}

/// The path of an entry relative to a root that it lies below.
pub fn relative_path(root: &str, path: &str) -> (out: Option<String>)
    ensures
        opt_text(out) == relative_path_spec(root@, path@),
{
    let root_chars = to_chars(root);
    let path_chars = to_chars(path);
    let root_abs = root_chars.len() > 0 && root_chars[0] == '/';
    let path_abs = path_chars.len() > 0 && path_chars[0] == '/';
    if root_abs != path_abs {
        return None;
    }
    let r = path_components(&root_chars);
    let p = path_components(&path_chars);
    if r.len() >= p.len() {
        return None;
    }
    let ghost rv = views(r@);
    let ghost pv = views(p@);
    let mut i: usize = 0;
    while i < r.len()
        invariant
            i <= r.len() < p.len(),
            rv == views(r@),
            pv == views(p@),
            rv == components(root@),
            pv == components(path@),
            is_absolute(root@) == is_absolute(path@),
            forall|k: int| 0 <= k < i ==> rv[k] == pv[k],
        decreases r.len() - i,
    {
        proof {
            assert(rv[i as int] == r@[i as int]@);
            assert(pv[i as int] == p@[i as int]@);
        }
        if !same_chars(&r[i], &p[i]) {
            proof {
                assert(rv[i as int] != pv[i as int]);
                assert(pv.take(rv.len() as int)[i as int] == pv[i as int]);
                assert(pv.take(rv.len() as int) != rv);
                assert(rv.len() == r.len() && pv.len() == p.len());
            }
            return None;
        }
        i += 1;
    }
    proof {
        assert(pv.take(rv.len() as int) =~= rv);
    }
    let mut out: Vec<char> = Vec::new();
    let mut k: usize = r.len();
    let ghost rest = pv.skip(rv.len() as int);
    while k < p.len()
        invariant
            r.len() <= k <= p.len(),
            pv == views(p@),
            rv.len() == r.len(),
            rv == components(root@),
            pv == components(path@),
            is_absolute(root@) == is_absolute(path@),
            pv.take(rv.len() as int) == rv,
            rest == pv.skip(rv.len() as int),
            out@ == crate::path::join(rest.take(k - r.len())),
        decreases p.len() - k,
    {
        let ghost before = rest.take(k - r.len());
        let ghost after = rest.take(k - r.len() + 1);
        proof {
            assert(after.drop_last() =~= before);
            assert(after.last() == p@[k as int]@);
        }
        if k > r.len() {
            out.push('/');
        }
        let ghost base = out@;
        push_all(&mut out, &p[k]);
        proof {
            if k == r.len() {
                assert(before.len() == 0);
                assert(base =~= Seq::<char>::empty());
                assert(out@ =~= p@[k as int]@);
            }
        }
        k += 1;
    }
    proof {
        assert(rest.take(p.len() - r.len()) =~= rest);
    }
    Some(from_chars(&out))
}

/// A path lies within a root: it is the root or lies below it, component by component.
pub open spec fn is_within_spec(path: Seq<char>, root: Seq<char>) -> bool {
    let r = components(root);
    let p = components(path);
    is_absolute(root) == is_absolute(path) && r.len() <= p.len() && p.take(r.len() as int) == r
}

/// Whether a resolved path lies within a location's root. Both paths are
/// taken as they are given; resolving links on disk first is the caller's.
pub fn is_path_within_location(resolved_path: &str, location_root: &str) -> (out: bool)
    ensures
        out == is_within_spec(resolved_path@, location_root@),
{
    let root_chars = to_chars(location_root);
    let path_chars = to_chars(resolved_path);
    let root_abs = root_chars.len() > 0 && root_chars[0] == '/';
    let path_abs = path_chars.len() > 0 && path_chars[0] == '/';
    if root_abs != path_abs {
        return false;
    }
    let r = path_components(&root_chars);
    let p = path_components(&path_chars);
    if r.len() > p.len() {
        return false;
    }
    let ghost rv = views(r@);
    let ghost pv = views(p@);
    let mut i: usize = 0;
    while i < r.len()
        invariant
            i <= r.len() <= p.len(),
            rv == views(r@),
            pv == views(p@),
            rv == components(location_root@),
            pv == components(resolved_path@),
            is_absolute(location_root@) == is_absolute(resolved_path@),
            forall|k: int| 0 <= k < i ==> rv[k] == pv[k],
        decreases r.len() - i,
    {
        proof {
            assert(rv[i as int] == r@[i as int]@);
            assert(pv[i as int] == p@[i as int]@);
        }
        if !same_chars(&r[i], &p[i]) {
            proof {
                assert(rv[i as int] != pv[i as int]);
                assert(pv.take(rv.len() as int)[i as int] == pv[i as int]);
                assert(pv.take(rv.len() as int) != rv);
            }
            return false;
        }
        i += 1;
    }
    proof {
        assert(pv.take(rv.len() as int) =~= rv);
    }
    true
}

/// What the adapter knows of a path that an event names: the path relative
/// to the watched root, where it lies below it, and what is on disk there.
#[derive(Debug, Clone, PartialEq, Eq)]
pub struct ObservedPath {
    pub rel_path: Option<String>,
    pub exists: bool,
    pub is_dir: bool,
    pub is_file: bool,
}

/// What is to be done for a change.
#[derive(Debug, Clone, PartialEq)]
pub enum WatchAction {
    /// Reconcile the whole location; where that goes well, announce the
    /// change of a directory.
    Reconcile { change_kind: FsChangeKind, rel_path: String, old_rel_path: Option<String> },
    /// Remove the rows of the old identity, if any, and take the document
    /// in again; where that fails, reconcile the whole location.
    Reindex { doc_id: DocId, change_kind: FsChangeKind, old_doc_id: Option<DocId> },
    /// Remove the document's rows and announce that it is gone.
    Remove { doc_id: DocId },
}

/// An action as plain values; a document is its location and its path.
pub enum ActionView {
    Reconcile { change_kind: FsChangeKind, rel_path: Seq<char>, old_rel_path: Option<Seq<char>> },
    Reindex {
        doc: (LocationId, Seq<char>),
        change_kind: FsChangeKind,
        old_doc: Option<(LocationId, Seq<char>)>,
    },
    Remove { doc: (LocationId, Seq<char>) },
}

impl View for WatchAction {
    type V = ActionView;

    open spec fn view(&self) -> ActionView {
        match *self {
            WatchAction::Reconcile { change_kind, rel_path, old_rel_path } => ActionView::Reconcile {
                change_kind,
                rel_path: rel_path@,
                old_rel_path: opt_text(old_rel_path),
            },
            WatchAction::Reindex { doc_id, change_kind, old_doc_id } => ActionView::Reindex {
                doc: (doc_id.location_id, doc_id.rel_path@),
                change_kind,
                old_doc: match old_doc_id {
                    Some(d) => Some((d.location_id, d.rel_path@)),
                    None => None,
                },
            },
            WatchAction::Remove { doc_id } => ActionView::Remove {
                doc: (doc_id.location_id, doc_id.rel_path@),
            },
        }
    }
}

/// A path as plain values.
pub struct ObservedView {
    pub rel_path: Option<Seq<char>>,
    pub exists: bool,
    pub is_dir: bool,
    pub is_file: bool,
}

impl View for ObservedPath {
    type V = ObservedView;

    open spec fn view(&self) -> ObservedView {
        ObservedView {
            rel_path: opt_text(self.rel_path),
            exists: self.exists,
            is_dir: self.is_dir,
            is_file: self.is_file,
        }
    }
}

pub open spec fn observed_views(paths: Seq<ObservedPath>) -> Seq<ObservedView> {
    paths.map_values(|p: ObservedPath| p@)
}

pub open spec fn action_views(actions: Seq<WatchAction>) -> Seq<ActionView> {
    actions.map_values(|a: WatchAction| a@)
}

/// What is to be done for one path of a creation, modification or removal
/// in a location. A directory that is there always means a full
/// reconciliation; a file that is there is taken in again; a path with
/// nothing there is removed, or reconciled where a directory was removed.
/// Paths outside the root and paths that are not valid are passed over.
pub open spec fn path_action(location_id: LocationId, kind: WatchEventKind, p: ObservedView) -> Option<
    ActionView,
> {
    match p.rel_path {
        None => None,
        Some(rel) => if p.exists && p.is_dir {
            Some(
                ActionView::Reconcile {
                    change_kind: change_kind_spec(kind),
                    rel_path: rel,
                    old_rel_path: None,
                },
            )
        } else {
            match normalize_spec(rel) {
                Normalized::Path(normal) => if p.exists && p.is_file {
                    Some(
                        ActionView::Reindex {
                            doc: (location_id, normal),
                            change_kind: change_kind_spec(kind),
                            old_doc: None,
                        },
                    )
                } else if !p.exists {
                    if kind == WatchEventKind::Remove(RemoveKind::Folder) {
                        Some(
                            ActionView::Reconcile {
                                change_kind: FsChangeKind::Deleted,
                                rel_path: rel,
                                old_rel_path: None,
                            },
                        )
                    } else {
                        Some(ActionView::Remove { doc: (location_id, normal) })
                    }
                } else {
                    None
                },
                _ => None,
            }
        },
    }
}

/// The actions for the first `n` paths of an event.
pub open spec fn path_actions(
    location_id: LocationId,
    kind: WatchEventKind,
    paths: Seq<ObservedView>,
    n: int,
) -> Seq<ActionView>
    decreases n,
{
    if n <= 0 || n > paths.len() {
        Seq::empty()
    } else {
        match path_action(location_id, kind, paths[n - 1]) {
            Some(a) => path_actions(location_id, kind, paths, n - 1).push(a),
            None => path_actions(location_id, kind, paths, n - 1),
        }
    }
}

/// What is to be done for a rename. With either side a directory the whole
/// location is reconciled; a rename of a file removes the old identity and
/// takes the new one in. A rename with fewer than two paths, with a path
/// outside the root or with a path that is not valid is passed over.
pub open spec fn rename_actions(location_id: LocationId, paths: Seq<ObservedView>) -> Seq<ActionView> {
    if paths.len() < 2 {
        Seq::empty()
    } else {
        match (paths[0].rel_path, paths[1].rel_path) {
            (Some(old_rel), Some(new_rel)) => if paths[1].is_dir || paths[0].is_dir {
                seq![
                    ActionView::Reconcile {
                        change_kind: FsChangeKind::Renamed,
                        rel_path: new_rel,
                        old_rel_path: Some(old_rel),
                    },
                ]
            } else {
                match (normalize_spec(old_rel), normalize_spec(new_rel)) {
                    (Normalized::Path(old_normal), Normalized::Path(new_normal)) => seq![
                        ActionView::Reindex {
                            doc: (location_id, new_normal),
                            change_kind: FsChangeKind::Renamed,
                            old_doc: Some((location_id, old_normal)),
                        },
                    ],
                    _ => Seq::empty(),
                }
            },
            _ => Seq::empty(),
        }
    }
}

/// What is to be done for an event. Events of other kinds than creation,
/// modification and removal are passed over.
pub open spec fn event_actions(
    location_id: LocationId,
    kind: WatchEventKind,
    paths: Seq<ObservedView>,
) -> Seq<ActionView> {
    if !is_processed(kind) {
        Seq::empty()
    } else if kind == WatchEventKind::Modify(ModifyKind::Name) {
        rename_actions(location_id, paths)
    } else {
        path_actions(location_id, kind, paths, paths.len() as int)
    }
}

/// Every document that an action names lies in the given location and has
/// a normalised path.
pub open spec fn actions_in_location(actions: Seq<WatchAction>, location_id: LocationId) -> bool {
    forall|i: int|
        0 <= i < actions.len() ==> match #[trigger] actions[i] {
            WatchAction::Reindex { doc_id, old_doc_id, .. } => doc_id.location_id == location_id
                && doc_id.wf() && (old_doc_id matches Some(o) ==> o.location_id == location_id
                && o.wf()),
            WatchAction::Remove { doc_id } => doc_id.location_id == location_id && doc_id.wf(),
            _ => true,
        }
}

fn rename_event_actions(location_id: LocationId, paths: &Vec<ObservedPath>) -> (out: Vec<WatchAction>)
    ensures
        action_views(out@) == rename_actions(location_id, observed_views(paths@)),
        actions_in_location(out@, location_id),
{
    let mut out: Vec<WatchAction> = Vec::new();
    proof {
        assert(action_views(out@) =~= Seq::empty());
    }
    if paths.len() < 2 {
        return out;
    }
    let ghost pv = observed_views(paths@);
    proof {
        assert(pv[0] == paths@[0]@);
        assert(pv[1] == paths@[1]@);
    }
    let from = &paths[0];
    let to = &paths[1];
    let old_rel = match &from.rel_path {
        Some(r) => r,
        None => {
            return out;
        },
    };
    let new_rel = match &to.rel_path {
        Some(r) => r,
        None => {
            return out;
        },
    };
    if to.is_dir || from.is_dir {
        let action = WatchAction::Reconcile {
            change_kind: FsChangeKind::Renamed,
            rel_path: new_rel.clone(),
            old_rel_path: Some(old_rel.clone()),
        };
        out.push(action);
        proof {
            assert(action_views(out@) =~= seq![action@]);
        }
        return out;
    }
    let old_doc_id = match DocId::new(location_id, old_rel.clone()) {
        Ok(d) => d,
        Err(_) => {
            return out;
        },
    };
    let new_doc_id = match DocId::new(location_id, new_rel.clone()) {
        Ok(d) => d,
        Err(_) => {
            return out;
        },
    };
    let action = WatchAction::Reindex {
        doc_id: new_doc_id,
        change_kind: FsChangeKind::Renamed,
        old_doc_id: Some(old_doc_id),
    };
    out.push(action);
    proof {
        assert(action_views(out@) =~= seq![action@]);
    }
    out
}

/// Decides what is to be done for a change that the file system feed
/// reports for a watched location, from the kind of the change and from
/// what is on disk at the paths it names.
pub fn plan_watcher_event(location_id: LocationId, kind: WatchEventKind, paths: &Vec<ObservedPath>) -> (out:
    Vec<WatchAction>)
    ensures
        action_views(out@) == event_actions(location_id, kind, observed_views(paths@)),
        actions_in_location(out@, location_id),
{
    let mut out: Vec<WatchAction> = Vec::new();
    proof {
        assert(action_views(out@) =~= Seq::empty());
    }
    if !should_process_watcher_event(&kind) {
        return out;
    }
    match kind {
        WatchEventKind::Modify(ModifyKind::Name) => {
            return rename_event_actions(location_id, paths);
        },
        _ => {},
    }
    let change_kind = change_kind_from_event_kind(&kind);
    let folder_removed = match kind {
        WatchEventKind::Remove(RemoveKind::Folder) => true,
        _ => false,
    };
    let ghost pv = observed_views(paths@);
    let mut i: usize = 0;
    while i < paths.len()
        invariant
            i <= paths.len(),
            pv == observed_views(paths@),
            change_kind == change_kind_spec(kind),
            folder_removed == (kind == WatchEventKind::Remove(RemoveKind::Folder)),
            action_views(out@) == path_actions(location_id, kind, pv, i as int),
            actions_in_location(out@, location_id),
        decreases paths.len() - i,
    {
        let p = &paths[i];
        let ghost before = action_views(out@);
        let ghost old_out = out@;
        proof {
            assert(pv[i as int] == p@);
        }
        match &p.rel_path {
            None => {},
            Some(rel) => {
                if p.exists && p.is_dir {
                    let action = WatchAction::Reconcile {
                        change_kind,
                        rel_path: rel.clone(),
                        old_rel_path: None,
                    };
                    out.push(action);
                    proof {
                        assert(action_views(out@) =~= before.push(action@));
                    }
                } else {
                    match DocId::new(location_id, rel.clone()) {
                        Err(_) => {},
                        Ok(doc_id) => {
                            if p.exists && p.is_file {
                                let action = WatchAction::Reindex {
                                    doc_id,
                                    change_kind,
                                    old_doc_id: None,
                                };
                                out.push(action);
                                proof {
                                    assert(action_views(out@) =~= before.push(action@));
                                }
                            } else if !p.exists {
                                if folder_removed {
                                    let action = WatchAction::Reconcile {
                                        change_kind: FsChangeKind::Deleted,
                                        rel_path: rel.clone(),
                                        old_rel_path: None,
                                    };
                                    out.push(action);
                                    proof {
                                        assert(action_views(out@) =~= before.push(action@));
                                    }
                                } else {
                                    let action = WatchAction::Remove { doc_id };
                                    out.push(action);
                                    proof {
                                        assert(action_views(out@) =~= before.push(action@));
                                    }
                                }
                            }
                        },
                    }
                }
            },
        }
        proof {
            assert forall|k: int| 0 <= k < out@.len() implies match #[trigger] out@[k] {
                WatchAction::Reindex { doc_id, old_doc_id, .. } => doc_id.location_id
                    == location_id && doc_id.wf() && (old_doc_id matches Some(o) ==> o.location_id
                    == location_id && o.wf()),
                WatchAction::Remove { doc_id } => doc_id.location_id == location_id && doc_id.wf(),
                _ => true,
            } by {
                if k < old_out.len() {
                    assert(out@[k] == old_out[k]);
                }
            }
        }
        i += 1;
    }
    out
}

/// What follows an attempt to take a changed document in again.
#[derive(Debug, Clone, PartialEq)]
pub struct FollowUp {
    /// The whole location is to be reconciled.
    pub reconcile: bool,
    /// The notifications to send, in order.
    pub events: Vec<BackendEvent>,
}

fn file_changed(
    location_id: LocationId,
    change_kind: FsChangeKind,
    rel_path: &String,
    old_rel_path: Option<&String>,
) -> (out: BackendEvent)
    ensures
        out == (BackendEvent::FilesystemChanged {
            location_id,
            entry_kind: FsEntryKind::File,
            change_kind,
            rel_path: *rel_path,
            old_rel_path: match old_rel_path {
                Some(o) => Some(*o),
                None => None,
            },
        }),
{
    BackendEvent::FilesystemChanged {
        location_id,
        entry_kind: FsEntryKind::File,
        change_kind,
        rel_path: rel_path.clone(),
        old_rel_path: match old_rel_path {
            Some(o) => Some(o.clone()),
            None => None,
        },
    }
}

/// Decides what follows an attempt to take a changed document in again.
/// Where it went well the document is announced as modified, with the
/// file's new time, and the change is announced. Where it failed the whole
/// location is to be reconciled, and the change is announced all the same.
pub fn after_reindex(
    doc_id: &DocId,
    change_kind: FsChangeKind,
    old_rel_path: Option<&String>,
    reindexed: bool,
    new_mtime: Timestamp,
) -> (out: FollowUp)
    ensures
        out.reconcile == !reindexed,
        out.events@.len() == if reindexed {
            2int
        } else {
            1int
        },
        reindexed ==> out.events@[0] == (BackendEvent::DocModifiedExternally {
            doc_id: *doc_id,
            new_mtime,
        }),
        out.events@.last() == (BackendEvent::FilesystemChanged {
            location_id: doc_id.location_id,
            entry_kind: FsEntryKind::File,
            change_kind,
            rel_path: doc_id.rel_path,
            old_rel_path: match old_rel_path {
                Some(o) => Some(*o),
                None => None,
            },
        }),
{
    let mut events: Vec<BackendEvent> = Vec::new();
    if reindexed {
        events.push(
            BackendEvent::DocModifiedExternally {
                doc_id: DocId { location_id: doc_id.location_id, rel_path: doc_id.rel_path.clone() },
                new_mtime,
            },
        );
    }
    events.push(file_changed(doc_id.location_id, change_kind, &doc_id.rel_path, old_rel_path));
    FollowUp { reconcile: !reindexed, events }
}

/// The notifications after a full reconciliation that a change of a
/// directory called for: the change is announced where the reconciliation
/// went well, and nothing is said where it failed.
pub fn after_reconcile(
    location_id: LocationId,
    change_kind: FsChangeKind,
    rel_path: &String,
    old_rel_path: Option<&String>,
    reconciled: bool,
) -> (out: Vec<BackendEvent>)
    ensures
        out@.len() == if reconciled {
            1int
        } else {
            0int
        },
        reconciled ==> out@[0] == (BackendEvent::FilesystemChanged {
            location_id,
            entry_kind: FsEntryKind::Directory,
            change_kind,
            rel_path: *rel_path,
            old_rel_path: match old_rel_path {
                Some(o) => Some(*o),
                None => None,
            },
        }),
{
    let mut events: Vec<BackendEvent> = Vec::new();
    if reconciled {
        events.push(
            BackendEvent::FilesystemChanged {
                location_id,
                entry_kind: FsEntryKind::Directory,
                change_kind,
                rel_path: rel_path.clone(),
                old_rel_path: match old_rel_path {
                    Some(o) => Some(o.clone()),
                    None => None,
                },
            },
        );
    }
    events
}

/// The notifications after a document's rows are removed because its file
/// is gone: the document is announced as modified at the time `now`, and
/// the deletion is announced.
pub fn after_remove(doc_id: &DocId, now: Timestamp) -> (out: Vec<BackendEvent>)
    ensures
        out@.len() == 2,
        out@[0] == (BackendEvent::DocModifiedExternally { doc_id: *doc_id, new_mtime: now }),
        out@[1] == (BackendEvent::FilesystemChanged {
            location_id: doc_id.location_id,
            entry_kind: FsEntryKind::File,
            change_kind: FsChangeKind::Deleted,
            rel_path: doc_id.rel_path,
            old_rel_path: None,
        }),
{
    let mut events: Vec<BackendEvent> = Vec::new();
    events.push(
        BackendEvent::DocModifiedExternally {
            doc_id: DocId { location_id: doc_id.location_id, rel_path: doc_id.rel_path.clone() },
            new_mtime: now,
        },
    );
    events.push(file_changed(doc_id.location_id, FsChangeKind::Deleted, &doc_id.rel_path, None));
    events
}

} // verus!
