//! The version store: the durable, entity-partitioned snapshot archive.
//!
//! Each entity owns an ordered index of metadata records and one blob
//! per snapshot.  Saving computes a checksum, de-duplicates consecutive
//! automatic saves, appends blob-then-index, and applies retention to
//! automatic saves; lookups resolve metadata records to their blobs.

use vstd::prelude::*;

use crate::checksum::{checksum_of, checksum_spec};
use crate::errors::StorageError;
use crate::index::{views_of, MetaView, VersionIndex, VersionMetadata, DEFAULT_MAX_VERSIONS};
use crate::store_model::{
    blob_name, blob_views, dedup_applies, dedup_applies_to, dedup_snapshot, delete_spec,
    distinct_blob_names,
    effective_blobs, effective_index, entity_at, entity_views, entity_wf, get_version_spec,
    has_blob, has_entity, has_version, history_spec, lemma_blob_at_unique, lemma_delete_wf,
    lemma_entity_at_unique, lemma_remove_named, lemma_save_wf, lemma_set_max_wf,
    lemma_upsert_blob,
    lemma_version_at_unique, new_record, note_view, prune_blobs, remove_named, save_spec,
    save_outcome, set_max_spec, snap_result_view, snap_views, snapshot_view, store_wf,
    upsert_blob, version_at,
    BlobView, ConfigVersion, EntityStore, EntityView, SnapView, VersionBlob,
};
use crate::index::{retained, split_for_retention};
use crate::outside::{fresh_version_id, now_timestamp_millis};

verus! {

/// Character-wise string equality.
pub(crate) fn str_eq(a: &str, b: &str) -> (r: bool)
    ensures
        r == (a@ == b@),
{
    let sa: String = a.to_owned();
    let sb: String = b.to_owned();
    sa == sb
}

/// The file name a snapshot id's blob is stored under.
fn file_name_for(id: &str) -> (r: String)
    ensures
        r@ == blob_name(id@),
{
    id.to_owned().concat(".json")
}


/// An owned copy of an optional annotation.
fn clone_note(n: &Option<String>) -> (r: Option<String>)
    ensures
        r == *n,
{
    match n {
        Some(s) => Some(s.clone()),
        None => None,
    }
}

/// An owned copy of an optional parsed-content value.
fn clone_parsed(p: &Option<serde_json::Value>) -> (r: Option<serde_json::Value>)
    ensures
        r == *p,
{
    match p {
        Some(v) => Some(v.clone()),
        None => None,
    }
}

/// Where `version_id`'s record sits in an index, if the index holds one.
fn find_version_pos(index: &VersionIndex, version_id: &str) -> (r: Option<usize>)
    ensures
        match r {
            Some(i) => i < index@.versions.len() && index@.versions[i as int].id == version_id@,
            None => !has_version(index@.versions, version_id@),
        },
{
    let n = index.versions.len();
    let mut i: usize = 0;
    while i < n
        invariant
            n == index.versions@.len(),
            i <= n,
            index@.versions.len() == n,
            forall|j: int| 0 <= j < i ==> (#[trigger] index@.versions[j]).id != version_id@,
        decreases n - i,
    {
        if str_eq(index.versions[i].id.as_str(), version_id) {
            return Some(i);
        }
        i = i + 1;
    }
    None
}

/// Where `file_name`'s blob sits, if the list holds one.
fn find_blob_pos(blobs: &Vec<VersionBlob>, file_name: &str) -> (r: Option<usize>)
    ensures
        match r {
            Some(i) => i < blobs@.len() && blob_views(blobs@)[i as int].file_name == file_name@,
            None => !has_blob(blob_views(blobs@), file_name@),
        },
{
    let n = blobs.len();
    let mut i: usize = 0;
    while i < n
        invariant
            n == blobs@.len(),
            i <= n,
            forall|j: int| 0 <= j < i ==> (#[trigger] blob_views(blobs@)[j]).file_name != file_name@,
        decreases n - i,
    {
        if str_eq(blobs[i].file_name.as_str(), file_name) {
            return Some(i);
        }
        i = i + 1;
    }
    None
}

/// The blob stored under `file_name`, which the caller knows is present.
fn blob_in<'a>(blobs: &'a Vec<VersionBlob>, file_name: &str) -> (r: &'a VersionBlob)
    requires
        distinct_blob_names(blob_views(blobs@)),
        has_blob(blob_views(blobs@), file_name@),
    ensures
        r@ == crate::store_model::blob_named(blob_views(blobs@), file_name@),
{
    let n = blobs.len();
    let mut i: usize = 0;
    while i < n
        invariant
            n == blobs@.len(),
            i <= n,
            distinct_blob_names(blob_views(blobs@)),
            has_blob(blob_views(blobs@), file_name@),
            forall|j: int| 0 <= j < i ==> (#[trigger] blob_views(blobs@)[j]).file_name != file_name@,
        decreases n - i,
    {
        if str_eq(blobs[i].file_name.as_str(), file_name) {
            proof {
                lemma_blob_at_unique(blob_views(blobs@), file_name@, i as int);
            }
            return &blobs[i];
        }
        i = i + 1;
    }
    proof {
        assert(false);
    }
    &blobs[0]
}

/// The snapshot a metadata record and its blob assemble to.
fn snapshot_from(m: &VersionMetadata, b: &VersionBlob) -> (r: ConfigVersion)
    ensures
        r@ == snapshot_view(m@, b@.content, b@.parsed),
{
    ConfigVersion {
        id: m.id.clone(),
        software_id: m.software_id.clone(),
        content: b.content.clone(),
        parsed_content: clone_parsed(&b.parsed_content),
        timestamp: m.timestamp,
        note: clone_note(&m.note),
        is_auto_save: m.is_auto_save,
        checksum: Some(m.checksum.clone()),
    }
}


/// Removes the blob of every evicted record, in eviction order; a blob
/// already absent is skipped.
fn prune_gone_blobs(blobs: Vec<VersionBlob>, gone: &Vec<VersionMetadata>) -> (r: Vec<VersionBlob>)
    requires
        distinct_blob_names(blob_views(blobs@)),
    ensures
        blob_views(r@) == prune_blobs(blob_views(blobs@), views_of(gone@)),
{
    let ghost bs0 = blob_views(blobs@);
    let ghost gv = views_of(gone@);
    let mut bs = blobs;
    let n = gone.len();
    let mut gi: usize = 0;
    proof {
        assert(gv.skip(0) =~= gv);
    }
    while gi < n
        invariant
            gi <= n,
            n == gone@.len(),
            gv == views_of(gone@),
            distinct_blob_names(blob_views(bs@)),
            prune_blobs(bs0, gv) == prune_blobs(blob_views(bs@), gv.skip(gi as int)),
        decreases n - gi,
    {
        let ghost cur = blob_views(bs@);
        proof {
            assert(gv[gi as int] == gone@[gi as int]@);
        }
        match find_blob_pos(&bs, gone[gi].file_name.as_str()) {
            Some(bi) => {
                proof {
                    lemma_blob_at_unique(cur, gv[gi as int].file_name, bi as int);
                    lemma_remove_named(cur, gv[gi as int].file_name);
                }
                let _b = bs.remove(bi);
                proof {
                    assert(blob_views(bs@) =~= cur.remove(bi as int));
                    assert(blob_views(bs@) == remove_named(cur, gv[gi as int].file_name));
                }
            },
            None => {
                proof {
                    assert(blob_views(bs@) == remove_named(cur, gv[gi as int].file_name));
                }
            },
        }
        gi = gi + 1;
        proof {
            let rest = gv.skip(gi as int - 1);
            assert(rest.len() > 0);
            assert(rest.first() == gv[gi as int - 1]);
            assert(rest.drop_first() =~= gv.skip(gi as int));
            assert(prune_blobs(cur, rest) == prune_blobs(blob_views(bs@), gv.skip(gi as int)));
        }
    }
    proof {
        assert(gv.skip(n as int) =~= Seq::<MetaView>::empty());
    }
    bs
}

/// Checks one entity's slice for well-formedness.  A record that does
/// not belong to the entity, a duplicate id, a file name that does not
/// follow the id scheme, or duplicate blob names are malformed
/// (`Parse`); a record whose blob is missing is `Corruption`.
fn check_entity(e: &EntityStore) -> (r: Result<(), StorageError>)
    ensures
        match r {
            Ok(()) => entity_wf(e@),
            Err(err) => !entity_wf(e@) && (err == StorageError::Parse || err
                == StorageError::Corruption),
        },
{
    let vn = e.index.versions.len();
    let mut k: usize = 0;
    while k < vn
        invariant
            k <= vn,
            vn == e.index.versions@.len(),
            forall|p: int|
                0 <= p < k ==> (#[trigger] e@.index.versions[p]).software_id == e@.software_id,
            forall|p: int|
                0 <= p < k ==> (#[trigger] e@.index.versions[p]).file_name == blob_name(
                    e@.index.versions[p].id,
                ),
            forall|p: int, q: int|
                0 <= p < q < k ==> (#[trigger] e@.index.versions[p]).id
                    != (#[trigger] e@.index.versions[q]).id,
            forall|p: int|
                0 <= p < k ==> has_blob(e@.blobs, (#[trigger] e@.index.versions[p]).file_name),
        decreases vn - k,
    {
        let m = &e.index.versions[k];
        if !str_eq(m.software_id.as_str(), e.software_id.as_str()) {
            proof {
                assert(e@.index.versions[k as int].software_id != e@.software_id);
                assert(!entity_wf(e@));
            }
            return Err(StorageError::Parse);
        }
        let expected = file_name_for(m.id.as_str());
        if !str_eq(m.file_name.as_str(), expected.as_str()) {
            proof {
                assert(e@.index.versions[k as int].file_name != blob_name(
                    e@.index.versions[k as int].id,
                ));
                assert(!entity_wf(e@));
            }
            return Err(StorageError::Parse);
        }
        let mut j: usize = 0;
        while j < k
            invariant
                j <= k,
                k < vn,
                vn == e.index.versions@.len(),
                forall|q: int|
                    0 <= q < j ==> (#[trigger] e@.index.versions[q]).id
                        != e@.index.versions[k as int].id,
            decreases k - j,
        {
            if str_eq(e.index.versions[j].id.as_str(), e.index.versions[k].id.as_str()) {
                proof {
                    assert(e@.index.versions[j as int].id == e@.index.versions[k as int].id);
                    assert(!crate::index::distinct_version_ids(e@.index.versions));
                    assert(!entity_wf(e@));
                }
                return Err(StorageError::Parse);
            }
            j = j + 1;
        }
        if find_blob_pos(&e.blobs, m.file_name.as_str()).is_none() {
            proof {
                assert(!has_blob(e@.blobs, e@.index.versions[k as int].file_name));
                assert(!entity_wf(e@));
            }
            return Err(StorageError::Corruption);
        }
        k = k + 1;
    }
    let bn = e.blobs.len();
    let mut k2: usize = 0;
    while k2 < bn
        invariant
            k2 <= bn,
            bn == e.blobs@.len(),
            vn == e.index.versions@.len(),
            forall|p: int|
                0 <= p < vn ==> (#[trigger] e@.index.versions[p]).software_id == e@.software_id,
            forall|p: int|
                0 <= p < vn ==> (#[trigger] e@.index.versions[p]).file_name == blob_name(
                    e@.index.versions[p].id,
                ),
            forall|p: int, q: int|
                0 <= p < q < vn ==> (#[trigger] e@.index.versions[p]).id
                    != (#[trigger] e@.index.versions[q]).id,
            forall|p: int|
                0 <= p < vn ==> has_blob(e@.blobs, (#[trigger] e@.index.versions[p]).file_name),
            forall|p: int, q: int|
                0 <= p < q < k2 ==> (#[trigger] e@.blobs[p]).file_name
                    != (#[trigger] e@.blobs[q]).file_name,
        decreases bn - k2,
    {
        let mut j: usize = 0;
        while j < k2
            invariant
                j <= k2,
                k2 < bn,
                bn == e.blobs@.len(),
                forall|q: int|
                    0 <= q < j ==> (#[trigger] e@.blobs[q]).file_name
                        != e@.blobs[k2 as int].file_name,
            decreases k2 - j,
        {
            if str_eq(e.blobs[j].file_name.as_str(), e.blobs[k2].file_name.as_str()) {
                proof {
                    assert(e@.blobs[j as int].file_name == e@.blobs[k2 as int].file_name);
                    assert(!distinct_blob_names(e@.blobs));
                    assert(!entity_wf(e@));
                }
                return Err(StorageError::Parse);
            }
            j = j + 1;
        }
        k2 = k2 + 1;
    }
    Ok(())
}

/// The snapshot archive, partitioned by entity.
pub struct VersionStorage {
    entities: Vec<EntityStore>,
}

impl View for VersionStorage {
    type V = Seq<EntityView>;

    closed spec fn view(&self) -> Seq<EntityView> {
        entity_views(self.entities@)
    }
}

impl VersionStorage {
    /// Whether the store is well formed.  Every constructor establishes
    /// this and every operation preserves it.
    pub open spec fn wf(&self) -> bool {
        store_wf(self@)
    }

    /// An empty store.
    pub fn new() -> (s: Self)
        ensures
            s@ == Seq::<EntityView>::empty(),
            s.wf(),
    {
        let s = VersionStorage { entities: Vec::new() };
        proof {
            assert(s@ =~= Seq::<EntityView>::empty());
        }
        s
    }


    /// Builds a store from persisted per-entity records, validating
    /// them: the store is returned exactly when the records are well
    /// formed.  Duplicate entity ids, records that do not belong to
    /// their entity, duplicate version ids or blob names, and file
    /// names that do not follow the id scheme are malformed (`Parse`);
    /// an index record whose blob is missing is `Corruption`.
    pub fn from_parts(entities: Vec<EntityStore>) -> (r: Result<VersionStorage, StorageError>)
        ensures
            match r {
                Ok(s) => s@ == entity_views(entities@) && s.wf(),
                Err(err) => !store_wf(entity_views(entities@)) && (err == StorageError::Parse
                    || err == StorageError::Corruption),
            },
    {
        let ghost sv = entity_views(entities@);
        let n = entities.len();
        let mut i: usize = 0;
        while i < n
            invariant
                i <= n,
                n == entities@.len(),
                sv == entity_views(entities@),
                forall|p: int, q: int|
                    0 <= p < q < i ==> (#[trigger] sv[p]).software_id
                        != (#[trigger] sv[q]).software_id,
                forall|p: int| 0 <= p < i ==> entity_wf(#[trigger] sv[p]),
            decreases n - i,
        {
            let mut j: usize = 0;
            while j < i
                invariant
                    j <= i,
                    i < n,
                    n == entities@.len(),
                    sv == entity_views(entities@),
                    forall|q: int|
                        0 <= q < j ==> (#[trigger] sv[q]).software_id != sv[i as int].software_id,
                decreases i - j,
            {
                if str_eq(entities[j].software_id.as_str(), entities[i].software_id.as_str()) {
                    proof {
                        assert(sv[j as int].software_id == sv[i as int].software_id);
                        assert(!store_wf(sv));
                    }
                    return Err(StorageError::Parse);
                }
                j = j + 1;
            }
            match check_entity(&entities[i]) {
                Ok(()) => {},
                Err(err) => {
                    proof {
                        assert(!entity_wf(sv[i as int]));
                        assert(!store_wf(sv));
                    }
                    return Err(err);
                },
            }
            i = i + 1;
        }
        let s = VersionStorage { entities };
        proof {
            assert(store_wf(sv));
        }
        Ok(s)
    }

    /// The per-entity records the store holds, for the surrounding
    /// process to persist.
    pub fn entries(&self) -> (r: &Vec<EntityStore>)
        ensures
            entity_views(r@) == self@,
    {
        &self.entities
    }

    /// The checksum stored with a snapshot of `content`.
    pub fn calculate_checksum(content: &str) -> (r: String)
        ensures
            r@ == checksum_spec(content@),
    {
        checksum_of(content)
    }

    /// Where `software_id`'s slice sits, if the store holds one.
    fn find_entity_pos(&self, software_id: &str) -> (r: Option<usize>)
        ensures
            match r {
                Some(i) => i < self@.len() && self@[i as int].software_id == software_id@,
                None => !has_entity(self@, software_id@),
            },
    {
        let n = self.entities.len();
        let mut i: usize = 0;
        while i < n
            invariant
                n == self.entities@.len(),
                i <= n,
                self@.len() == n,
                forall|j: int| 0 <= j < i ==> (#[trigger] self@[j]).software_id != software_id@,
            decreases n - i,
        {
            if str_eq(self.entities[i].software_id.as_str(), software_id) {
                return Some(i);
            }
            i = i + 1;
        }
        None
    }

    /// The retention bound for `software_id` (the default for an entity
    /// with no history yet).
    pub fn get_max_versions(&self, software_id: &str) -> (r: Result<usize, StorageError>)
        requires
            self.wf(),
        ensures
            r matches Ok(m) && m as int == effective_index(self@, software_id@).max_versions,
    {
        match self.find_entity_pos(software_id) {
            Some(i) => {
                proof {
                    lemma_entity_at_unique(self@, software_id@, i as int);
                }
                Ok(self.entities[i].index.max_versions)
            },
            None => Ok(DEFAULT_MAX_VERSIONS),
        }
    }

    /// The snapshot stored under `version_id` for `software_id`, or
    /// `NotFound` when no entity or record carries that id.
    pub fn get_version(&self, software_id: &str, version_id: &str) -> (r: Result<
        ConfigVersion,
        StorageError,
    >)
        requires
            self.wf(),
        ensures
            match r {
                Ok(v) => get_version_spec(self@, software_id@, version_id@) == Ok::<
                    SnapView,
                    StorageError,
                >(v@),
                Err(e) => get_version_spec(self@, software_id@, version_id@) == Err::<
                    SnapView,
                    StorageError,
                >(e),
            },
    {
        match self.find_entity_pos(software_id) {
            None => Err(StorageError::NotFound),
            Some(ei) => {
                proof {
                    lemma_entity_at_unique(self@, software_id@, ei as int);
                    assert(entity_wf(self@[ei as int]));
                }
                let e = &self.entities[ei];
                match find_version_pos(&e.index, version_id) {
                    None => Err(StorageError::NotFound),
                    Some(vi) => {
                        proof {
                            lemma_version_at_unique(
                                self@[ei as int].index.versions,
                                version_id@,
                                vi as int,
                            );
                        }
                        let m = &e.index.versions[vi];
                        let b = blob_in(&e.blobs, m.file_name.as_str());
                        Ok(snapshot_from(m, b))
                    },
                }
            },
        }
    }

    /// The history for `software_id`, most recent first: the last
    /// `limit` snapshots, or all of them when no limit is given.
    pub fn get_history(&self, software_id: &str, limit: Option<usize>) -> (r: Result<
        Vec<ConfigVersion>,
        StorageError,
    >)
        requires
            self.wf(),
        ensures
            r matches Ok(h) && snap_views(h@) == history_spec(self@, software_id@, limit),
    {
        let mut out: Vec<ConfigVersion> = Vec::new();
        match self.find_entity_pos(software_id) {
            None => {
                proof {
                    assert(snap_views(out@) =~= history_spec(self@, software_id@, limit));
                }
                Ok(out)
            },
            Some(ei) => {
                proof {
                    lemma_entity_at_unique(self@, software_id@, ei as int);
                    assert(entity_wf(self@[ei as int]));
                }
                let e = &self.entities[ei];
                let ghost ev = self@[ei as int];
                let ghost vs = ev.index.versions;
                let ghost target = history_spec(self@, software_id@, limit);
                let n = e.index.versions.len();
                let start: usize = match limit {
                    Some(l) => if n > l {
                        n - l
                    } else {
                        0
                    },
                    None => 0,
                };
                proof {
                    assert(target == vs.subrange(start as int, n as int).reverse().map_values(
                        |m: MetaView| crate::store_model::resolve(ev, m),
                    ));
                }
                let mut i: usize = n;
                proof {
                    assert(snap_views(out@) =~= vs.subrange(i as int, n as int).reverse()
                        .map_values(|m: MetaView| crate::store_model::resolve(ev, m)));
                }
                while i > start
                    invariant
                        start <= i <= n,
                        n == e.index.versions@.len(),
                        vs.len() == n,
                        e == &self.entities[ei as int],
                        ei < self@.len(),
                        ev == self@[ei as int],
                        vs == ev.index.versions,
                        entity_wf(ev),
                        snap_views(out@) == vs.subrange(i as int, n as int).reverse().map_values(
                            |m: MetaView| crate::store_model::resolve(ev, m),
                        ),
                    decreases i,
                {
                    i = i - 1;
                    let m = &e.index.versions[i];
                    proof {
                        assert(m@ == vs[i as int]);
                        assert(has_blob(ev.blobs, m@.file_name));
                    }
                    let b = blob_in(&e.blobs, m.file_name.as_str());
                    let ghost pre = out@;
                    out.push(snapshot_from(m, b));
                    proof {
                        let f = |mm: MetaView| crate::store_model::resolve(ev, mm);
                        let sub = vs.subrange(i as int, n as int);
                        let sub2 = vs.subrange(i as int + 1, n as int);
                        assert(snap_views(out@) =~= snap_views(pre).push(
                            crate::store_model::resolve(ev, vs[i as int]),
                        ));
                        assert(sub.reverse() =~= sub2.reverse().push(vs[i as int]));
                        assert(sub.reverse().map_values(f) =~= sub2.reverse().map_values(f).push(
                            f(vs[i as int]),
                        ));
                    }
                }
                proof {
                    assert(snap_views(out@) == target);
                }
                Ok(out)
            },
        }
    }

    /// Removes the record and blob stored under `version_id`.  Deleting
    /// an id the store does not hold succeeds and changes nothing.
    pub fn delete_version(&mut self, software_id: &str, version_id: &str) -> (r: Result<
        (),
        StorageError,
    >)
        requires
            old(self).wf(),
        ensures
            final(self).wf(),
            final(self)@ == delete_spec(old(self)@, software_id@, version_id@),
            r == Ok::<(), StorageError>(()),
    {
        proof {
            lemma_delete_wf(old(self)@, software_id@, version_id@);
        }
        let ei = match self.find_entity_pos(software_id) {
            None => {
                return Ok(());
            },
            Some(ei) => ei,
        };
        proof {
            lemma_entity_at_unique(self@, software_id@, ei as int);
            assert(entity_wf(self@[ei as int]));
        }
        let vi = match find_version_pos(&self.entities[ei].index, version_id) {
            None => {
                return Ok(());
            },
            Some(vi) => vi,
        };
        proof {
            lemma_version_at_unique(self@[ei as int].index.versions, version_id@, vi as int);
        }
        let ghost s0 = self@;
        let ghost e0 = self@[ei as int];
        let mut e = self.entities.remove(ei);
        let m = e.index.versions.remove(vi);
        proof {
            assert(views_of(e.index.versions@) =~= e0.index.versions.remove(vi as int));
            assert(m@ == e0.index.versions[vi as int]);
        }
        let ghost bs0 = blob_views(e.blobs@);
        match find_blob_pos(&e.blobs, m.file_name.as_str()) {
            Some(bi) => {
                proof {
                    lemma_blob_at_unique(bs0, m@.file_name, bi as int);
                }
                let _b = e.blobs.remove(bi);
                proof {
                    assert(blob_views(e.blobs@) =~= bs0.remove(bi as int));
                    assert(blob_views(e.blobs@) == remove_named(bs0, m@.file_name));
                }
            },
            None => {
                proof {
                    assert(blob_views(e.blobs@) == remove_named(bs0, m@.file_name));
                }
            },
        }
        self.entities.insert(ei, e);
        proof {
            assert(self@ =~= s0.update(ei as int, e@));
            assert(e@ == delete_spec(s0, software_id@, version_id@)[ei as int]);
            assert(self@ =~= delete_spec(s0, software_id@, version_id@));
        }
        Ok(())
    }

    /// Records a new retention bound for `software_id` and applies it at
    /// once: excess automatic saves are evicted immediately.
    pub fn set_max_versions(&mut self, software_id: &str, max_versions: usize) -> (r: Result<
        (),
        StorageError,
    >)
        requires
            old(self).wf(),
        ensures
            final(self).wf(),
            final(self)@ == set_max_spec(old(self)@, software_id@, max_versions as int),
            r == Ok::<(), StorageError>(()),
    {
        proof {
            lemma_set_max_wf(old(self)@, software_id@, max_versions as int);
        }
        let ghost s0 = self@;
        let ghost target = set_max_spec(s0, software_id@, max_versions as int);
        let ei = match self.find_entity_pos(software_id) {
            Some(ei) => {
                proof {
                    lemma_entity_at_unique(s0, software_id@, ei as int);
                }
                ei
            },
            None => {
                let e_new = EntityStore {
                    software_id: software_id.to_owned(),
                    index: VersionIndex { versions: Vec::new(), max_versions },
                    blobs: Vec::new(),
                };
                proof {
                    assert(views_of(e_new.index.versions@) =~= Seq::<MetaView>::empty());
                    assert(blob_views(e_new.blobs@) =~= Seq::<BlobView>::empty());
                    assert(retained(Seq::<MetaView>::empty(), max_versions as int)
                        =~= Seq::<MetaView>::empty());
                }
                self.entities.push(e_new);
                proof {
                    assert(self@ =~= s0.push(e_new@));
                    assert(self@ =~= target);
                }
                return Ok(());
            },
        };
        let ghost e0 = s0[ei as int];
        proof {
            assert(entity_wf(e0));
        }
        let e = self.entities.remove(ei);
        let EntityStore { software_id: sid, index, blobs } = e;
        let VersionIndex { versions, max_versions: _old_bound } = index;
        let (kept, gone) = split_for_retention(versions, max_versions);
        let blobs = prune_gone_blobs(blobs, &gone);
        let e2 = EntityStore {
            software_id: sid,
            index: VersionIndex { versions: kept, max_versions },
            blobs,
        };
        proof {
            assert(e2@.index.versions == retained(e0.index.versions, max_versions as int));
            assert(e2@.blobs == prune_blobs(
                e0.blobs,
                crate::index::evicted(e0.index.versions, max_versions as int),
            ));
        }
        self.entities.insert(ei, e2);
        proof {
            assert(self@ =~= s0.update(ei as int, e2@));
            assert(self@ =~= target);
        }
        Ok(())
    }

    /// Whether a save of content with this checksum is the
    /// de-duplicated no-op against the last saved record.
    fn is_dedup(&self, software_id: &str, checksum: &str, is_auto_save: bool) -> (r: bool)
        requires
            self.wf(),
        ensures
            r == dedup_applies_to(self@, software_id@, checksum@, is_auto_save),
    {
        if !is_auto_save {
            return false;
        }
        match self.find_entity_pos(software_id) {
            None => false,
            Some(ei) => {
                proof {
                    lemma_entity_at_unique(self@, software_id@, ei as int);
                }
                let e = &self.entities[ei];
                let n = e.index.versions.len();
                if n == 0 {
                    false
                } else {
                    str_eq(e.index.versions[n - 1].checksum.as_str(), checksum)
                }
            },
        }
    }

    /// Whether the store already holds a record under `version_id` for
    /// `software_id`.
    fn holds_version(&self, software_id: &str, version_id: &str) -> (r: bool)
        requires
            self.wf(),
        ensures
            r == has_version(effective_index(self@, software_id@).versions, version_id@),
    {
        match self.find_entity_pos(software_id) {
            None => false,
            Some(ei) => {
                proof {
                    lemma_entity_at_unique(self@, software_id@, ei as int);
                }
                match find_version_pos(&self.entities[ei].index, version_id) {
                    Some(vi) => {
                        proof {
                            assert(has_version(
                                effective_index(self@, software_id@).versions,
                                version_id@,
                            ));
                        }
                        true
                    },
                    None => false,
                }
            },
        }
    }

    /// Saves a snapshot under a caller-supplied fresh identifier and
    /// capture time; everything else behaves as `save_version` does.
    /// An identifier already in use is refused as a storage failure and
    /// changes nothing.
    pub fn save_version_at(
        &mut self,
        software_id: &str,
        content: &str,
        parsed_content: Option<serde_json::Value>,
        note: Option<String>,
        is_auto_save: bool,
        version_id: &str,
        timestamp: i64,
    ) -> (r: Result<ConfigVersion, StorageError>)
        requires
            old(self).wf(),
        ensures
            final(self).wf(),
            (final(self)@, snap_result_view(r)) == save_spec(
                old(self)@,
                software_id@,
                content@,
                parsed_content,
                note_view(note),
                is_auto_save,
                version_id@,
                timestamp,
            ),
    {
        proof {
            lemma_save_wf(
                old(self)@,
                software_id@,
                content@,
                parsed_content,
                note_view(note),
                is_auto_save,
                version_id@,
                timestamp,
            );
        }
        let ghost s0 = self@;
        let checksum = Self::calculate_checksum(content);
        if self.is_dedup(software_id, checksum.as_str(), is_auto_save) {
            proof {
                assert(dedup_applies(s0, software_id@, content@, is_auto_save));
                if !has_entity(s0, software_id@) {
                    assert(effective_index(s0, software_id@).versions.len() == 0);
                    assert(false);
                }
            }
            let ei = match self.find_entity_pos(software_id) {
                Some(ei) => ei,
                None => {
                    proof {
                        assert(false);
                    }
                    0
                },
            };
            proof {
                lemma_entity_at_unique(s0, software_id@, ei as int);
            }
            let e = &self.entities[ei];
            let n = e.index.versions.len();
            let last = &e.index.versions[n - 1];
            let snap = ConfigVersion {
                id: last.id.clone(),
                software_id: software_id.to_owned(),
                content: content.to_owned(),
                parsed_content,
                timestamp: last.timestamp,
                note: clone_note(&last.note),
                is_auto_save: last.is_auto_save,
                checksum: Some(last.checksum.clone()),
            };
            proof {
                assert(last@ == effective_index(s0, software_id@).versions.last());
                assert(snap@ == dedup_snapshot(s0, software_id@, content@, parsed_content));
            }
            return Ok(snap);
        }
        if self.holds_version(software_id, version_id) {
            return Err(StorageError::Io);
        }
        let ghost idx0 = effective_index(s0, software_id@);
        let ghost bs0 = effective_blobs(s0, software_id@);
        let ei = match self.find_entity_pos(software_id) {
            Some(ei) => {
                proof {
                    lemma_entity_at_unique(s0, software_id@, ei as int);
                }
                ei
            },
            None => {
                let e_new = EntityStore {
                    software_id: software_id.to_owned(),
                    index: VersionIndex::default(),
                    blobs: Vec::new(),
                };
                proof {
                    assert(views_of(e_new.index.versions@) =~= Seq::<MetaView>::empty());
                    assert(blob_views(e_new.blobs@) =~= Seq::<BlobView>::empty());
                    assert(e_new@.index == idx0);
                    assert(e_new@.blobs == bs0);
                }
                self.entities.push(e_new);
                self.entities.len() - 1
            },
        };
        let ghost s1 = self@;
        proof {
            assert(s1[ei as int].index == idx0);
            assert(s1[ei as int].blobs == bs0);
            assert(s1[ei as int].software_id == software_id@);
        }
        let mut e = self.entities.remove(ei);
        let file_name = file_name_for(version_id);
        let meta = VersionMetadata {
            id: version_id.to_owned(),
            software_id: software_id.to_owned(),
            timestamp,
            note: clone_note(&note),
            is_auto_save,
            checksum: checksum.clone(),
            file_name: file_name.clone(),
        };
        let blob = VersionBlob {
            file_name,
            content: content.to_owned(),
            parsed_content: clone_parsed(&parsed_content),
        };
        let ghost m = new_record(
            software_id@,
            content@,
            note_view(note),
            is_auto_save,
            version_id@,
            timestamp,
        );
        let ghost nb = BlobView {
            file_name: blob_name(version_id@),
            content: content@,
            parsed: parsed_content,
        };
        proof {
            assert(meta@ == m);
            assert(blob@ == nb);
            assert(distinct_blob_names(bs0));
        }
        match find_blob_pos(&e.blobs, meta.file_name.as_str()) {
            Some(bi) => {
                proof {
                    lemma_blob_at_unique(bs0, nb.file_name, bi as int);
                }
                e.blobs.set(bi, blob);
                proof {
                    assert(blob_views(e.blobs@) =~= bs0.update(bi as int, nb));
                    assert(blob_views(e.blobs@) == upsert_blob(bs0, nb));
                }
            },
            None => {
                e.blobs.push(blob);
                proof {
                    assert(blob_views(e.blobs@) =~= bs0.push(nb));
                    assert(blob_views(e.blobs@) == upsert_blob(bs0, nb));
                }
            },
        }
        e.index.versions.push(meta);
        proof {
            assert(views_of(e.index.versions@) =~= idx0.versions.push(m));
            lemma_upsert_blob(bs0, nb);
        }
        let ghost vs2 = idx0.versions.push(m);
        let ghost bs2 = upsert_blob(bs0, nb);
        if is_auto_save {
            let EntityStore { software_id: sid, index, blobs } = e;
            let VersionIndex { versions, max_versions } = index;
            let (kept, gone) = split_for_retention(versions, max_versions);
            let blobs = prune_gone_blobs(blobs, &gone);
            let e2 = EntityStore {
                software_id: sid,
                index: VersionIndex { versions: kept, max_versions },
                blobs,
            };
            proof {
                assert(e2@.index.versions == retained(vs2, idx0.max_versions));
                assert(e2@.blobs == prune_blobs(
                    bs2,
                    crate::index::evicted(vs2, idx0.max_versions),
                ));
            }
            self.entities.insert(ei, e2);
        } else {
            self.entities.insert(ei, e);
        }
        proof {
            let spec_store = save_spec(
                s0,
                software_id@,
                content@,
                parsed_content,
                note_view(note),
                is_auto_save,
                version_id@,
                timestamp,
            ).0;
            if has_entity(s0, software_id@) {
                assert(s1 == s0);
                assert(self@ =~= s1.update(ei as int, self@[ei as int]));
                assert(self@ =~= spec_store);
            } else {
                assert(ei as int == s0.len());
                assert(self@ =~= s1.update(ei as int, self@[ei as int]));
                assert(self@ =~= s0.push(self@[ei as int]));
                assert(self@ =~= spec_store);
            }
        }
        let snap = ConfigVersion {
            id: version_id.to_owned(),
            software_id: software_id.to_owned(),
            content: content.to_owned(),
            parsed_content,
            timestamp,
            note,
            is_auto_save,
            checksum: Some(checksum),
        };
        proof {
            assert(snap@ == snapshot_view(m, content@, parsed_content));
        }
        Ok(snap)
    }

    /// Saves a snapshot of `content` for `software_id`: assigns a fresh
    /// identifier and the current time, de-duplicates a repeated
    /// automatic save, appends blob-then-index, and applies retention
    /// after an automatic save.  The drawn identifier colliding with an
    /// existing record is refused as a storage failure (`Io`) and
    /// changes nothing.
    pub fn save_version(
        &mut self,
        software_id: &str,
        content: &str,
        parsed_content: Option<serde_json::Value>,
        note: Option<String>,
        is_auto_save: bool,
    ) -> (r: Result<ConfigVersion, StorageError>)
        requires
            old(self).wf(),
        ensures
            final(self).wf(),
            exists|id: Seq<char>, ts: i64|
                #[trigger] save_outcome(
                    old(self)@,
                    software_id@,
                    content@,
                    parsed_content,
                    note_view(note),
                    is_auto_save,
                    id,
                    ts,
                    final(self)@,
                    snap_result_view(r),
                ),
            r is Err ==> final(self)@ == old(self)@,
    {
        let id = fresh_version_id();
        let ts = now_timestamp_millis();
        let r = self.save_version_at(
            software_id,
            content,
            parsed_content,
            note,
            is_auto_save,
            id.as_str(),
            ts,
        );
        proof {
            assert(save_outcome(
                old(self)@,
                software_id@,
                content@,
                parsed_content,
                note_view(note),
                is_auto_save,
                id@,
                ts,
                final(self)@,
                snap_result_view(r),
            ));
        }
        r
    }

}

} // verus!
