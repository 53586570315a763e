//! Laws of the store: properties that hold of every sequence of
//! operations, proved against the operation model that the executable
//! store is verified to implement.

use vstd::prelude::*;

use crate::errors::StorageError;
use crate::index::{auto_count, evicted, retained, MetaView};
use crate::store_model::{
    blob_named, dedup_applies, delete_spec, effective_blobs, effective_index, get_version_spec,
    has_version, lemma_blob_name_injective, lemma_delete_wf, lemma_prune_blobs, lemma_save_wf,
    lemma_upsert_blob, lemma_version_at_unique, new_record, prune_blobs, save_spec, snapshot_view,
    store_wf, upsert_blob, version_at, BlobView, EntityView, SnapView,
};

verus! {

/// An automatic save of unchanged content is idempotent: after a save
/// of `content`, saving the same `content` again with `is_auto_save`
/// set leaves the store exactly as it was and returns the first save's
/// snapshot identity — the same id and the same timestamp.
///
/// The law needs a retention bound of at least one: with a bound of
/// zero the first record is evicted the moment it is written, so there
/// is no "last record" for the second save to collapse into.
pub proof fn lemma_auto_save_idempotent(
    s: Seq<EntityView>,
    software_id: Seq<char>,
    content: Seq<char>,
    parsed1: Option<serde_json::Value>,
    parsed2: Option<serde_json::Value>,
    note1: Option<Seq<char>>,
    note2: Option<Seq<char>>,
    id1: Seq<char>,
    id2: Seq<char>,
    ts1: i64,
    ts2: i64,
)
    requires
        store_wf(s),
        effective_index(s, software_id).max_versions >= 1,
        save_spec(s, software_id, content, parsed1, note1, true, id1, ts1).1 is Ok,
    ensures
        ({
            let (s1, r1) = save_spec(s, software_id, content, parsed1, note1, true, id1, ts1);
            let (s2, r2) = save_spec(s1, software_id, content, parsed2, note2, true, id2, ts2);
            &&& s2 == s1
            &&& (r1 matches Ok(v1) && (r2 matches Ok(v2) && v2.id == v1.id && v2.timestamp
                == v1.timestamp))
        }),
{
    let idx = effective_index(s, software_id);
    let vs = idx.versions;
    lemma_save_wf(s, software_id, content, parsed1, note1, true, id1, ts1);
    let (s1, r1) = save_spec(s, software_id, content, parsed1, note1, true, id1, ts1);
    if dedup_applies(s, software_id, content, true) {
        assert(s1 == s);
        assert(dedup_applies(s1, software_id, content, true));
    } else {
        assert(!has_version(vs, id1));
        let m = new_record(software_id, content, note1, true, id1, ts1);
        let vs2 = vs.push(m);
        let kept = retained(vs2, idx.max_versions);
        assert(vs2.last() == m);
        assert(vs2.drop_last() =~= vs);
        assert(kept == retained(vs, idx.max_versions - 1).push(m));
        assert(kept.len() > 0 && kept.last() == m);
        assert(effective_index(s1, software_id).versions == kept);
        assert(dedup_applies(s1, software_id, content, true));
        assert(effective_index(s1, software_id).versions.last().id == id1);
        assert(effective_index(s1, software_id).versions.last().timestamp == ts1);
    }
}

/// A manual save always appends: two consecutive manual saves of
/// byte-identical content create two records with two distinct ids, and
/// neither save evicts anything — the history grows by exactly one
/// record each time.
pub proof fn lemma_manual_save_appends(
    s: Seq<EntityView>,
    software_id: Seq<char>,
    content: Seq<char>,
    parsed1: Option<serde_json::Value>,
    parsed2: Option<serde_json::Value>,
    note1: Option<Seq<char>>,
    note2: Option<Seq<char>>,
    id1: Seq<char>,
    id2: Seq<char>,
    ts1: i64,
    ts2: i64,
)
    requires
        store_wf(s),
        save_spec(s, software_id, content, parsed1, note1, false, id1, ts1).1 is Ok,
        ({
            let s1 = save_spec(s, software_id, content, parsed1, note1, false, id1, ts1).0;
            save_spec(s1, software_id, content, parsed2, note2, false, id2, ts2).1 is Ok
        }),
    ensures
        ({
            let (s1, r1) = save_spec(s, software_id, content, parsed1, note1, false, id1, ts1);
            let (s2, r2) = save_spec(s1, software_id, content, parsed2, note2, false, id2, ts2);
            &&& (r1 matches Ok(v1) && (r2 matches Ok(v2) && v1.id == id1 && v2.id == id2 && v1.id
                != v2.id))
            &&& effective_index(s1, software_id).versions.len() == effective_index(
                s,
                software_id,
            ).versions.len() + 1
            &&& effective_index(s2, software_id).versions.len() == effective_index(
                s,
                software_id,
            ).versions.len() + 2
        }),
{
    let idx = effective_index(s, software_id);
    let vs = idx.versions;
    lemma_save_wf(s, software_id, content, parsed1, note1, false, id1, ts1);
    let (s1, r1) = save_spec(s, software_id, content, parsed1, note1, false, id1, ts1);
    assert(!has_version(vs, id1));
    let m1 = new_record(software_id, content, note1, false, id1, ts1);
    assert(effective_index(s1, software_id).versions == vs.push(m1));
    lemma_save_wf(s1, software_id, content, parsed2, note2, false, id2, ts2);
    let vs1 = effective_index(s1, software_id).versions;
    assert(!has_version(vs1, id2));
    assert(vs1[vs.len() as int] == m1);
    assert(id2 != id1);
    let m2 = new_record(software_id, content, note2, false, id2, ts2);
    let (s2, r2) = save_spec(s1, software_id, content, parsed2, note2, false, id2, ts2);
    assert(effective_index(s2, software_id).versions == vs1.push(m2));
}

/// The retention bound holds: after an automatic save that actually
/// wrote a record, the entity's history holds at most `max_versions`
/// automatic saves.
pub proof fn lemma_retention_bound(
    s: Seq<EntityView>,
    software_id: Seq<char>,
    content: Seq<char>,
    parsed: Option<serde_json::Value>,
    note: Option<Seq<char>>,
    id: Seq<char>,
    ts: i64,
)
    requires
        store_wf(s),
        effective_index(s, software_id).max_versions >= 0,
        !dedup_applies(s, software_id, content, true),
        save_spec(s, software_id, content, parsed, note, true, id, ts).1 is Ok,
    ensures
        ({
            let s1 = save_spec(s, software_id, content, parsed, note, true, id, ts).0;
            auto_count(effective_index(s1, software_id).versions) <= effective_index(
                s,
                software_id,
            ).max_versions
        }),
{
    let idx = effective_index(s, software_id);
    let vs = idx.versions;
    lemma_save_wf(s, software_id, content, parsed, note, true, id, ts);
    assert(!has_version(vs, id));
    let m = new_record(software_id, content, note, true, id, ts);
    let vs2 = vs.push(m);
    crate::index::lemma_retained_auto_bound(vs2, idx.max_versions);
}

/// Manual saves survive eviction: a save never removes a manual record.
/// The manual records of the history after any save are exactly the
/// manual records before it, plus the new record when the save itself
/// was manual and appended.
pub proof fn lemma_manual_saves_survive(
    s: Seq<EntityView>,
    software_id: Seq<char>,
    content: Seq<char>,
    parsed: Option<serde_json::Value>,
    note: Option<Seq<char>>,
    is_auto_save: bool,
    id: Seq<char>,
    ts: i64,
)
    requires
        store_wf(s),
        effective_index(s, software_id).max_versions >= 0,
        !dedup_applies(s, software_id, content, is_auto_save),
        save_spec(s, software_id, content, parsed, note, is_auto_save, id, ts).1 is Ok,
    ensures
        ({
            let s1 = save_spec(s, software_id, content, parsed, note, is_auto_save, id, ts).0;
            let manual = |m: MetaView| !m.is_auto_save;
            let before = effective_index(s, software_id).versions.filter(manual);
            let m = new_record(software_id, content, note, is_auto_save, id, ts);
            effective_index(s1, software_id).versions.filter(manual) == if is_auto_save {
                before
            } else {
                before.push(m)
            }
        }),
{
    broadcast use vstd::prelude::Seq::lemma_filter_push;

    let idx = effective_index(s, software_id);
    let vs = idx.versions;
    lemma_save_wf(s, software_id, content, parsed, note, is_auto_save, id, ts);
    assert(!has_version(vs, id));
    let m = new_record(software_id, content, note, is_auto_save, id, ts);
    let vs2 = vs.push(m);
    let manual = |mm: MetaView| !mm.is_auto_save;
    if is_auto_save {
        crate::index::lemma_retained_keeps_manual(vs2, idx.max_versions);
        assert(vs2.filter(manual) == vs.filter(manual));
        assert(effective_index(
            save_spec(s, software_id, content, parsed, note, is_auto_save, id, ts).0,
            software_id,
        ).versions == retained(vs2, idx.max_versions));
    } else {
        assert(vs2.filter(manual) == vs.filter(manual).push(m));
    }
}

/// Round trip: a save that wrote a record (not the de-duplicated no-op,
/// and not evicted on the spot by a zero bound) can be read back — the
/// lookup under the new id returns exactly the snapshot the save
/// returned, content and parsed content included.
pub proof fn lemma_save_round_trip(
    s: Seq<EntityView>,
    software_id: Seq<char>,
    content: Seq<char>,
    parsed: Option<serde_json::Value>,
    note: Option<Seq<char>>,
    is_auto_save: bool,
    id: Seq<char>,
    ts: i64,
)
    requires
        store_wf(s),
        !dedup_applies(s, software_id, content, is_auto_save),
        is_auto_save ==> effective_index(s, software_id).max_versions >= 1,
        save_spec(s, software_id, content, parsed, note, is_auto_save, id, ts).1 is Ok,
    ensures
        ({
            let (s1, r1) = save_spec(s, software_id, content, parsed, note, is_auto_save, id, ts);
            get_version_spec(s1, software_id, id) == r1
        }),
{
    let idx = effective_index(s, software_id);
    let vs = idx.versions;
    let bs = effective_blobs(s, software_id);
    lemma_save_wf(s, software_id, content, parsed, note, is_auto_save, id, ts);
    assert(!has_version(vs, id));
    let m = new_record(software_id, content, note, is_auto_save, id, ts);
    let vs2 = vs.push(m);
    let kept = if is_auto_save {
        retained(vs2, idx.max_versions)
    } else {
        vs2
    };
    let gone = if is_auto_save {
        evicted(vs2, idx.max_versions)
    } else {
        Seq::<MetaView>::empty()
    };
    let nb = BlobView { file_name: crate::store_model::blob_name(id), content, parsed };
    let bs2 = upsert_blob(bs, nb);
    let (s1, r1) = save_spec(s, software_id, content, parsed, note, is_auto_save, id, ts);
    assert(effective_index(s1, software_id).versions == kept);
    assert(effective_blobs(s1, software_id) == prune_blobs(bs2, gone));
    // the new record is the last kept record
    if is_auto_save {
        assert(vs2.drop_last() =~= vs);
        assert(kept == retained(vs, idx.max_versions - 1).push(m));
    }
    assert(kept.len() > 0 && kept.last() == m);
    let ki = kept.len() - 1;
    // its id is unique among the kept records
    crate::index::lemma_retained_distinct(vs2, idx.max_versions);
    assert(crate::index::distinct_version_ids(vs2)) by {
        assert(forall|k: int| 0 <= k < vs.len() ==> #[trigger] vs2[k] == vs[k]);
        assert(vs2[vs.len() as int] == m);
    }
    assert(crate::index::distinct_version_ids(kept));
    lemma_version_at_unique(kept, id, ki as int);
    assert(has_version(kept, id));
    assert(version_at(kept, id) == ki);
    // the new blob survives pruning
    lemma_upsert_blob(bs, nb);
    assert(crate::store_model::distinct_blob_names(bs)) by {
        if crate::store_model::has_entity(s, software_id) {
            let ei = crate::store_model::entity_at(s, software_id);
            assert(0 <= ei < s.len() && s[ei].software_id == software_id);
            assert(crate::store_model::entity_wf(s[ei]));
        }
    }
    crate::index::lemma_split_id_disjoint(vs2, idx.max_versions);
    crate::index::lemma_split_from_source(vs2, idx.max_versions);
    assert(!crate::store_model::named_in(gone, m.file_name)) by {
        if crate::store_model::named_in(gone, m.file_name) {
            let j = choose|j: int|
                0 <= j < gone.len() && (#[trigger] gone[j]).file_name == m.file_name;
            assert(gone.contains(gone[j]));
            assert(vs2.contains(gone[j]));
            let k = choose|k: int| 0 <= k < vs2.len() && vs2[k] == gone[j];
            assert(forall|k2: int| 0 <= k2 < vs.len() ==> #[trigger] vs2[k2] == vs[k2]);
            if k < vs.len() {
                assert(vs[k].file_name == crate::store_model::blob_name(vs[k].id)) by {
                    if crate::store_model::has_entity(s, software_id) {
                        let ei = crate::store_model::entity_at(s, software_id);
                        assert(0 <= ei < s.len() && s[ei].software_id == software_id);
                        assert(crate::store_model::entity_wf(s[ei]));
                    }
                }
                lemma_blob_name_injective(vs2[k].id, id);
                assert(has_version(vs, id));
                assert(false);
            } else {
                assert(gone[j] == m);
                assert(kept[ki as int].id == gone[j].id);
                assert(false);
            }
        }
    }
    lemma_prune_blobs(bs2, gone);
    assert(blob_named(prune_blobs(bs2, gone), m.file_name) == nb);
    assert(get_version_spec(s1, software_id, id) == Ok::<SnapView, StorageError>(
        snapshot_view(m, content, parsed),
    ));
}

/// Deletion is idempotent and definitive: after deleting `version_id`,
/// the record is gone — a lookup reports `NotFound` — and deleting it
/// again changes nothing.  Deleting a never-existing id also changes
/// nothing.
pub proof fn lemma_delete_idempotent(
    s: Seq<EntityView>,
    software_id: Seq<char>,
    version_id: Seq<char>,
)
    requires
        store_wf(s),
    ensures
        ({
            let s1 = delete_spec(s, software_id, version_id);
            &&& get_version_spec(s1, software_id, version_id) == Err::<SnapView, StorageError>(
                StorageError::NotFound,
            )
            &&& delete_spec(s1, software_id, version_id) == s1
        }),
        !has_version(effective_index(s, software_id).versions, version_id) ==> delete_spec(
            s,
            software_id,
            version_id,
        ) == s,
{
    let vs = effective_index(s, software_id).versions;
    lemma_delete_wf(s, software_id, version_id);
    let s1 = delete_spec(s, software_id, version_id);
    if has_version(vs, version_id) {
        let vi = version_at(vs, version_id);
        assert(0 <= vi < vs.len() && vs[vi].id == version_id);
        let vs1 = effective_index(s1, software_id).versions;
        assert(vs1 == vs.remove(vi));
        assert(crate::index::distinct_version_ids(vs)) by {
            if crate::store_model::has_entity(s, software_id) {
                let ei = crate::store_model::entity_at(s, software_id);
                assert(0 <= ei < s.len() && s[ei].software_id == software_id);
                assert(crate::store_model::entity_wf(s[ei]));
            }
        }
        assert(!has_version(vs1, version_id)) by {
            if has_version(vs1, version_id) {
                let k = choose|k: int|
                    0 <= k < vs1.len() && (#[trigger] vs1[k]).id == version_id;
                let k2: int = if k < vi {
                    k
                } else {
                    k + 1
                };
                assert(vs1[k] == vs[k2]);
                assert(k2 != vi);
                assert(false);
            }
        }
    } else {
        assert(s1 == s);
        assert(!has_version(effective_index(s1, software_id).versions, version_id));
    }
}

} // verus!
