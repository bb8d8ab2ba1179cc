use vstd::prelude::*;
use crate::docmeta::{filename_of, filename_spec};
use crate::model::{BackendEvent, SaveResult, Timestamp};
use crate::path::{DocId, LocationId};

verus! {

/// The time that a save is announced with: the file's new time of
/// modification, or the present where the save reports no metadata.
pub open spec fn saved_at(result: SaveResult, now: Timestamp) -> Timestamp {
    match result.new_meta {
        Some(meta) => meta.mtime,
        None => now,
    }
}

/// The notifications after a save: where the document's name marks a
/// conflicted copy, the conflict is announced first; then the document is
/// announced as modified.
pub fn after_save(doc_id: &DocId, result: &SaveResult, now: Timestamp) -> (out: Vec<BackendEvent>)
    ensures
        out@.len() == if result.conflict_detected {
            2int
        } else {
            1int
        },
        result.conflict_detected ==> (out@[0] matches BackendEvent::ConflictDetected {
            location_id,
            rel_path,
            conflict_filename,
        } && location_id == doc_id.location_id && rel_path@ == doc_id.rel_path@
            && conflict_filename@ == filename_spec(doc_id.rel_path@)),
        out@.last() matches BackendEvent::DocModifiedExternally { doc_id: announced, new_mtime }
            && announced.location_id == doc_id.location_id && announced.rel_path@
            == doc_id.rel_path@ && new_mtime == saved_at(*result, now),
{
    let mut events: Vec<BackendEvent> = Vec::new();
    if result.conflict_detected {
        events.push(
            BackendEvent::ConflictDetected {
                location_id: doc_id.location_id,
                rel_path: doc_id.rel_path.clone(),
                conflict_filename: filename_of(doc_id.rel_path.as_str()),
            },
        );
    }
    let new_mtime = match &result.new_meta {
        Some(meta) => meta.mtime,
        None => now,
    };
    events.push(
        BackendEvent::DocModifiedExternally {
            doc_id: DocId { location_id: doc_id.location_id, rel_path: doc_id.rel_path.clone() },
            new_mtime,
        },
    );
    events
}

/// The notifications of the check at startup: every location whose root
/// is gone is announced, in order, and then the end of the check, with the
/// number of locations checked and the locations that are missing.
pub fn startup_events(checked: usize, missing: &Vec<(LocationId, String)>) -> (out: Vec<BackendEvent>)
    ensures
        out@.len() == missing@.len() + 1,
        forall|i: int|
            0 <= i < missing@.len() ==> (#[trigger] out@[i] matches BackendEvent::LocationMissing {
                location_id,
                path,
            } && location_id == missing@[i].0 && path@ == missing@[i].1@),
        out@.last() matches BackendEvent::ReconciliationComplete { checked: count, missing: ids }
            && count == checked && ids@ == missing@.map_values(|m: (LocationId, String)| m.0),
{
    let mut events: Vec<BackendEvent> = Vec::new();
    let mut ids: Vec<LocationId> = Vec::new();
    let mut i: usize = 0;
    while i < missing.len()
        invariant
            i <= missing.len(),
            events@.len() == i,
            ids@ == missing@.map_values(|m: (LocationId, String)| m.0).take(i as int),
            forall|k: int|
                0 <= k < i ==> (#[trigger] events@[k] matches BackendEvent::LocationMissing {
                    location_id,
                    path,
                } && location_id == missing@[k].0 && path@ == missing@[k].1@),
        decreases missing.len() - i,
    {
        let ghost before = ids@;
        events.push(
            BackendEvent::LocationMissing { location_id: missing[i].0, path: missing[i].1.clone() },
        );
        ids.push(missing[i].0);
        proof {
            assert(ids@ =~= missing@.map_values(|m: (LocationId, String)| m.0).take(i + 1));
        }
        i += 1;
    }
    proof {
        assert(missing@.map_values(|m: (LocationId, String)| m.0).take(missing.len() as int)
            =~= missing@.map_values(|m: (LocationId, String)| m.0));
    }
    events.push(BackendEvent::ReconciliationComplete { checked, missing: ids });
    events
}

} // verus!
