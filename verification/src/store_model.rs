//! The mathematical model of the version store: entity records, snapshot
//! blobs, well-formedness, and the meaning of every store operation.

use vstd::prelude::*;

use crate::checksum::checksum_spec;
use crate::errors::StorageError;
use crate::index::{
    distinct_version_ids, evicted, lemma_retained_distinct, lemma_split_from_source,
    lemma_split_id_disjoint, retained, IndexView, MetaView, VersionIndex, DEFAULT_MAX_VERSIONS,
};

verus! {

/// One snapshot blob: the persisted `{content, parsed_content}` record,
/// kept under the file name its metadata record points at.
pub struct VersionBlob {
    pub file_name: String,
    pub content: String,
    pub parsed_content: Option<serde_json::Value>,
}

/// The mathematical value of a blob.
pub ghost struct BlobView {
    pub file_name: Seq<char>,
    pub content: Seq<char>,
    pub parsed: Option<serde_json::Value>,
}

impl View for VersionBlob {
    type V = BlobView;

    open spec fn view(&self) -> BlobView {
        BlobView { file_name: self.file_name@, content: self.content@, parsed: self.parsed_content }
    }
}

/// One entity's slice of the store: its identifier, its index, and the
/// blobs living in its storage area.
pub struct EntityStore {
    pub software_id: String,
    pub index: VersionIndex,
    pub blobs: Vec<VersionBlob>,
}

/// The mathematical value of an entity's slice.
pub ghost struct EntityView {
    pub software_id: Seq<char>,
    pub index: IndexView,
    pub blobs: Seq<BlobView>,
}

impl View for EntityStore {
    type V = EntityView;

    open spec fn view(&self) -> EntityView {
        EntityView { software_id: self.software_id@, index: self.index@, blobs: blob_views(self.blobs@) }
    }
}

/// The values of a blob list.
pub open spec fn blob_views(s: Seq<VersionBlob>) -> Seq<BlobView> {
    s.map_values(|b: VersionBlob| b@)
}

/// The values of an entity list.
pub open spec fn entity_views(s: Seq<EntityStore>) -> Seq<EntityView> {
    s.map_values(|e: EntityStore| e@)
}

/// A complete configuration snapshot, as handed back to callers.
pub struct ConfigVersion {
    pub id: String,
    pub software_id: String,
    pub content: String,
    pub parsed_content: Option<serde_json::Value>,
    pub timestamp: i64,
    pub note: Option<String>,
    pub is_auto_save: bool,
    pub checksum: Option<String>,
}

/// The mathematical value of a snapshot.
pub ghost struct SnapView {
    pub id: Seq<char>,
    pub software_id: Seq<char>,
    pub content: Seq<char>,
    pub parsed: Option<serde_json::Value>,
    pub timestamp: i64,
    pub note: Option<Seq<char>>,
    pub is_auto_save: bool,
    pub checksum: Option<Seq<char>>,
}

impl View for ConfigVersion {
    type V = SnapView;

    open spec fn view(&self) -> SnapView {
        SnapView {
            id: self.id@,
            software_id: self.software_id@,
            content: self.content@,
            parsed: self.parsed_content,
            timestamp: self.timestamp,
            note: match self.note {
                Some(n) => Some(n@),
                None => None,
            },
            is_auto_save: self.is_auto_save,
            checksum: match self.checksum {
                Some(c) => Some(c@),
                None => None,
            },
        }
    }
}

/// The values of a snapshot list.
pub open spec fn snap_views(s: Seq<ConfigVersion>) -> Seq<SnapView> {
    s.map_values(|v: ConfigVersion| v@)
}

/// The file name a snapshot id's blob is stored under.
pub open spec fn blob_name(id: Seq<char>) -> Seq<char> {
    id + ".json"@
}

/// Distinct ids give distinct blob file names.
pub proof fn lemma_blob_name_injective(a: Seq<char>, b: Seq<char>)
    requires
        blob_name(a) == blob_name(b),
    ensures
        a == b,
{
    reveal_strlit(".json");
    assert((a + ".json"@).len() == a.len() + ".json"@.len());
    assert((b + ".json"@).len() == b.len() + ".json"@.len());
    assert(a.len() == b.len());
    assert(a =~= blob_name(a).subrange(0, a.len() as int));
    assert(b =~= blob_name(b).subrange(0, b.len() as int));
}

/// Whether some entity of `s` carries `software_id`.
pub open spec fn has_entity(s: Seq<EntityView>, software_id: Seq<char>) -> bool {
    exists|i: int| 0 <= i < s.len() && (#[trigger] s[i]).software_id == software_id
}

/// The position of the entity carrying `software_id` (meaningful under
/// `has_entity` and well-formedness, which makes it unique).
pub open spec fn entity_at(s: Seq<EntityView>, software_id: Seq<char>) -> int {
    choose|i: int| 0 <= i < s.len() && (#[trigger] s[i]).software_id == software_id
}

/// Whether some record of `vs` carries `id`.
pub open spec fn has_version(vs: Seq<MetaView>, id: Seq<char>) -> bool {
    exists|i: int| 0 <= i < vs.len() && (#[trigger] vs[i]).id == id
}

/// The position of the record carrying `id` (meaningful under
/// `has_version` and id distinctness).
pub open spec fn version_at(vs: Seq<MetaView>, id: Seq<char>) -> int {
    choose|i: int| 0 <= i < vs.len() && (#[trigger] vs[i]).id == id
}

/// Whether some blob of `bs` is stored under `file_name`.
pub open spec fn has_blob(bs: Seq<BlobView>, file_name: Seq<char>) -> bool {
    exists|i: int| 0 <= i < bs.len() && (#[trigger] bs[i]).file_name == file_name
}

/// The position of the blob stored under `file_name`.
pub open spec fn blob_at(bs: Seq<BlobView>, file_name: Seq<char>) -> int {
    choose|i: int| 0 <= i < bs.len() && (#[trigger] bs[i]).file_name == file_name
}

/// The blob stored under `file_name`.
pub open spec fn blob_named(bs: Seq<BlobView>, file_name: Seq<char>) -> BlobView {
    bs[blob_at(bs, file_name)]
}

/// No two blobs of `bs` share a file name.
pub open spec fn distinct_blob_names(bs: Seq<BlobView>) -> bool {
    forall|i: int, j: int|
        0 <= i < j < bs.len() ==> (#[trigger] bs[i]).file_name != (#[trigger] bs[j]).file_name
}

/// Well-formedness of one entity's slice: record ids are distinct, every
/// record belongs to the entity and points at its id's file name, blob
/// file names are distinct, and every referenced blob is present.
pub open spec fn entity_wf(e: EntityView) -> bool {
    let vs = e.index.versions;
    &&& distinct_version_ids(vs)
    &&& forall|i: int| 0 <= i < vs.len() ==> (#[trigger] vs[i]).software_id == e.software_id
    &&& forall|i: int| 0 <= i < vs.len() ==> (#[trigger] vs[i]).file_name == blob_name(vs[i].id)
    &&& distinct_blob_names(e.blobs)
    &&& forall|i: int| 0 <= i < vs.len() ==> has_blob(e.blobs, (#[trigger] vs[i]).file_name)
}

/// Well-formedness of the whole store: entity ids are distinct and every
/// entity's slice is well formed.
pub open spec fn store_wf(s: Seq<EntityView>) -> bool {
    &&& forall|i: int, j: int|
        0 <= i < j < s.len() ==> (#[trigger] s[i]).software_id != (#[trigger] s[j]).software_id
    &&& forall|i: int| 0 <= i < s.len() ==> entity_wf(#[trigger] s[i])
}

/// The index the store holds for `software_id`, or the default empty
/// index for an entity that has no history yet.
pub open spec fn effective_index(s: Seq<EntityView>, software_id: Seq<char>) -> IndexView {
    if has_entity(s, software_id) {
        s[entity_at(s, software_id)].index
    } else {
        IndexView { versions: Seq::empty(), max_versions: DEFAULT_MAX_VERSIONS as int }
    }
}

/// The blobs the store holds for `software_id`.
pub open spec fn effective_blobs(s: Seq<EntityView>, software_id: Seq<char>) -> Seq<BlobView> {
    if has_entity(s, software_id) {
        s[entity_at(s, software_id)].blobs
    } else {
        Seq::empty()
    }
}

/// The snapshot assembled from a metadata record and its content.
pub open spec fn snapshot_view(m: MetaView, content: Seq<char>, parsed: Option<serde_json::Value>) -> SnapView {
    SnapView {
        id: m.id,
        software_id: m.software_id,
        content,
        parsed,
        timestamp: m.timestamp,
        note: m.note,
        is_auto_save: m.is_auto_save,
        checksum: Some(m.checksum),
    }
}

/// The snapshot a metadata record resolves to inside its entity.
pub open spec fn resolve(e: EntityView, m: MetaView) -> SnapView {
    let b = blob_named(e.blobs, m.file_name);
    snapshot_view(m, b.content, b.parsed)
}

/// Whether a save is the de-duplicated no-op: an automatic save whose
/// checksum equals the last saved record's checksum.
pub open spec fn dedup_applies(
    s: Seq<EntityView>,
    software_id: Seq<char>,
    content: Seq<char>,
    is_auto_save: bool,
) -> bool {
    let vs = effective_index(s, software_id).versions;
    is_auto_save && vs.len() > 0 && vs.last().checksum == checksum_spec(content)
}

/// The snapshot the de-duplicated save returns: the last record's
/// identity and metadata, but the caller's content and parsed content.
pub open spec fn dedup_snapshot(
    s: Seq<EntityView>,
    software_id: Seq<char>,
    content: Seq<char>,
    parsed: Option<serde_json::Value>,
) -> SnapView {
    let m = effective_index(s, software_id).versions.last();
    SnapView {
        id: m.id,
        software_id,
        content,
        parsed,
        timestamp: m.timestamp,
        note: m.note,
        is_auto_save: m.is_auto_save,
        checksum: Some(m.checksum),
    }
}

/// A blob list with `b` stored: replacing the blob already under that
/// file name, or appended when the name is new.
pub open spec fn upsert_blob(bs: Seq<BlobView>, b: BlobView) -> Seq<BlobView> {
    if has_blob(bs, b.file_name) {
        bs.update(blob_at(bs, b.file_name), b)
    } else {
        bs.push(b)
    }
}

/// Whether `file_name` is the file name of some record in `gone`.
pub open spec fn named_in(gone: Seq<MetaView>, file_name: Seq<char>) -> bool {
    exists|i: int| 0 <= i < gone.len() && (#[trigger] gone[i]).file_name == file_name
}

/// The blob list with the blob under `file_name` removed (unchanged when
/// no blob carries that name).
pub open spec fn remove_named(bs: Seq<BlobView>, file_name: Seq<char>) -> Seq<BlobView> {
    if has_blob(bs, file_name) {
        bs.remove(blob_at(bs, file_name))
    } else {
        bs
    }
}

/// The blob list with every evicted record's blob removed, one record at
/// a time in eviction order.
pub open spec fn prune_blobs(bs: Seq<BlobView>, gone: Seq<MetaView>) -> Seq<BlobView>
    decreases gone.len(),
{
    if gone.len() == 0 {
        bs
    } else {
        prune_blobs(remove_named(bs, gone.first().file_name), gone.drop_first())
    }
}

/// `s` with the slice for `software_id` replaced (or added, for an
/// entity the store had no slice for yet).
pub open spec fn store_with(s: Seq<EntityView>, software_id: Seq<char>, e: EntityView) -> Seq<EntityView> {
    if has_entity(s, software_id) {
        s.update(entity_at(s, software_id), e)
    } else {
        s.push(e)
    }
}

/// The metadata record a non-deduplicated save appends.
pub open spec fn new_record(
    software_id: Seq<char>,
    content: Seq<char>,
    note: Option<Seq<char>>,
    is_auto_save: bool,
    id: Seq<char>,
    timestamp: i64,
) -> MetaView {
    MetaView {
        id,
        software_id,
        timestamp,
        note,
        is_auto_save,
        checksum: checksum_spec(content),
        file_name: blob_name(id),
    }
}

/// The store after a non-deduplicated save: the new record appended, the
/// new blob stored, and — for an automatic save — retention applied.
pub open spec fn saved_store(
    s: Seq<EntityView>,
    software_id: Seq<char>,
    content: Seq<char>,
    parsed: Option<serde_json::Value>,
    note: Option<Seq<char>>,
    is_auto_save: bool,
    id: Seq<char>,
    timestamp: i64,
) -> Seq<EntityView> {
    let idx = effective_index(s, software_id);
    let m = new_record(software_id, content, note, is_auto_save, id, timestamp);
    let vs2 = idx.versions.push(m);
    let kept = if is_auto_save {
        retained(vs2, idx.max_versions)
    } else {
        vs2
    };
    let gone = if is_auto_save {
        evicted(vs2, idx.max_versions)
    } else {
        Seq::empty()
    };
    let blobs = prune_blobs(
        upsert_blob(
            effective_blobs(s, software_id),
            BlobView { file_name: blob_name(id), content, parsed },
        ),
        gone,
    );
    let e2 = EntityView {
        software_id,
        index: IndexView { versions: kept, max_versions: idx.max_versions },
        blobs,
    };
    store_with(s, software_id, e2)
}

/// The meaning of a save with a given fresh id and capture time: the new
/// store and the returned snapshot.  A save whose id is already taken is
/// refused and leaves the store unchanged; the de-duplicated no-op save
/// returns the last record's identity and leaves the store unchanged.
pub open spec fn save_spec(
    s: Seq<EntityView>,
    software_id: Seq<char>,
    content: Seq<char>,
    parsed: Option<serde_json::Value>,
    note: Option<Seq<char>>,
    is_auto_save: bool,
    id: Seq<char>,
    timestamp: i64,
) -> (Seq<EntityView>, Result<SnapView, StorageError>) {
    if dedup_applies(s, software_id, content, is_auto_save) {
        (s, Ok(dedup_snapshot(s, software_id, content, parsed)))
    } else if has_version(effective_index(s, software_id).versions, id) {
        (s, Err(StorageError::Io))
    } else {
        let m = new_record(software_id, content, note, is_auto_save, id, timestamp);
        (
            saved_store(s, software_id, content, parsed, note, is_auto_save, id, timestamp),
            Ok(snapshot_view(m, content, parsed)),
        )
    }
}

/// The meaning of a lookup by version id.
pub open spec fn get_version_spec(
    s: Seq<EntityView>,
    software_id: Seq<char>,
    version_id: Seq<char>,
) -> Result<SnapView, StorageError> {
    let vs = effective_index(s, software_id).versions;
    if has_version(vs, version_id) {
        Ok(resolve(s[entity_at(s, software_id)], vs[version_at(vs, version_id)]))
    } else {
        Err(StorageError::NotFound)
    }
}

/// The records a history request reads: the last `limit` records (all of
/// them when no limit is given).
pub open spec fn history_window(vs: Seq<MetaView>, limit: Option<usize>) -> Seq<MetaView> {
    let start = match limit {
        Some(l) => if vs.len() > l { vs.len() - l } else { 0 },
        None => 0,
    };
    vs.subrange(start as int, vs.len() as int)
}

/// The meaning of a history request: the windowed records resolved to
/// snapshots, most recent first.
pub open spec fn history_spec(
    s: Seq<EntityView>,
    software_id: Seq<char>,
    limit: Option<usize>,
) -> Seq<SnapView> {
    if has_entity(s, software_id) {
        let e = s[entity_at(s, software_id)];
        history_window(e.index.versions, limit).reverse().map_values(|m: MetaView| resolve(e, m))
    } else {
        Seq::empty()
    }
}

/// The meaning of a deletion: the matching record and its blob are
/// removed; a deletion for an id the store does not hold changes
/// nothing.
pub open spec fn delete_spec(
    s: Seq<EntityView>,
    software_id: Seq<char>,
    version_id: Seq<char>,
) -> Seq<EntityView> {
    let vs = effective_index(s, software_id).versions;
    if has_version(vs, version_id) {
        let ei = entity_at(s, software_id);
        let e = s[ei];
        let vi = version_at(vs, version_id);
        let m = vs[vi];
        let e2 = EntityView {
            software_id: e.software_id,
            index: IndexView { versions: vs.remove(vi), max_versions: e.index.max_versions },
            blobs: remove_named(e.blobs, m.file_name),
        };
        s.update(ei, e2)
    } else {
        s
    }
}

/// The meaning of changing the retention bound: the bound is recorded
/// and retention runs immediately under the new bound.
pub open spec fn set_max_spec(
    s: Seq<EntityView>,
    software_id: Seq<char>,
    max_versions: int,
) -> Seq<EntityView> {
    let idx = effective_index(s, software_id);
    let kept = retained(idx.versions, max_versions);
    let gone = evicted(idx.versions, max_versions);
    let e2 = EntityView {
        software_id,
        index: IndexView { versions: kept, max_versions },
        blobs: prune_blobs(effective_blobs(s, software_id), gone),
    };
    store_with(s, software_id, e2)
}

/// Under well-formedness, an entity position that matches is the
/// position `entity_at` picks.
pub proof fn lemma_entity_at_unique(s: Seq<EntityView>, software_id: Seq<char>, i: int)
    requires
        store_wf(s),
        0 <= i < s.len(),
        s[i].software_id == software_id,
    ensures
        has_entity(s, software_id),
        entity_at(s, software_id) == i,
{
    assert(has_entity(s, software_id));
    let k = entity_at(s, software_id);
    assert(0 <= k < s.len() && s[k].software_id == software_id);
}

/// Under id distinctness, a record position that matches is the position
/// `version_at` picks.
pub proof fn lemma_version_at_unique(vs: Seq<MetaView>, id: Seq<char>, i: int)
    requires
        forall|p: int, q: int|
            0 <= p < q < vs.len() ==> (#[trigger] vs[p]).id != (#[trigger] vs[q]).id,
        0 <= i < vs.len(),
        vs[i].id == id,
    ensures
        has_version(vs, id),
        version_at(vs, id) == i,
{
    assert(has_version(vs, id));
    let k = version_at(vs, id);
    assert(0 <= k < vs.len() && vs[k].id == id);
}

/// Under file-name distinctness, a blob position that matches is the
/// position `blob_at` picks.
pub proof fn lemma_blob_at_unique(bs: Seq<BlobView>, file_name: Seq<char>, i: int)
    requires
        forall|p: int, q: int|
            0 <= p < q < bs.len() ==> (#[trigger] bs[p]).file_name != (#[trigger] bs[q]).file_name,
        0 <= i < bs.len(),
        bs[i].file_name == file_name,
    ensures
        has_blob(bs, file_name),
        blob_at(bs, file_name) == i,
{
    assert(has_blob(bs, file_name));
    let k = blob_at(bs, file_name);
    assert(0 <= k < bs.len() && bs[k].file_name == file_name);
}


/// The value of an optional annotation.
pub open spec fn note_view(n: Option<String>) -> Option<Seq<char>> {
    match n {
        Some(s) => Some(s@),
        None => None,
    }
}

/// What removing one named blob does: the name is gone, every other
/// blob is untouched, and names stay distinct.
pub proof fn lemma_remove_named(bs: Seq<BlobView>, f: Seq<char>)
    requires
        distinct_blob_names(bs),
    ensures
        distinct_blob_names(remove_named(bs, f)),
        forall|g: Seq<char>|
            #[trigger] has_blob(remove_named(bs, f), g) == (has_blob(bs, g) && g != f),
        forall|g: Seq<char>|
            g != f && has_blob(bs, g) ==> #[trigger] blob_named(remove_named(bs, f), g)
                == blob_named(bs, g),
{
    if has_blob(bs, f) {
        let i = blob_at(bs, f);
        assert(0 <= i < bs.len() && bs[i].file_name == f);
        let r = bs.remove(i);
        assert forall|k: int| 0 <= k < r.len() implies #[trigger] r[k] == (if k < i {
            bs[k]
        } else {
            bs[k + 1]
        }) by {}
        assert forall|g: Seq<char>|
            #[trigger] has_blob(r, g) == (has_blob(bs, g) && g != f) by {
            if has_blob(r, g) {
                let k = blob_at(r, g);
                assert(0 <= k < r.len() && r[k].file_name == g);
                let k2: int = if k < i { k } else { k + 1 };
                assert(bs[k2].file_name == g);
                assert(k2 != i);
                assert(g != f);
                assert(has_blob(bs, g));
            }
            if has_blob(bs, g) && g != f {
                let j = blob_at(bs, g);
                assert(0 <= j < bs.len() && bs[j].file_name == g);
                assert(j != i);
                let j2: int = if j < i { j } else { j - 1 };
                assert(r[j2].file_name == g);
                assert(has_blob(r, g));
            }
        }
        assert forall|g: Seq<char>|
            g != f && has_blob(bs, g) implies #[trigger] blob_named(r, g) == blob_named(bs, g) by {
            let j = blob_at(bs, g);
            assert(0 <= j < bs.len() && bs[j].file_name == g);
            assert(j != i);
            let j2: int = if j < i { j } else { j - 1 };
            assert(r[j2].file_name == g);
            lemma_blob_at_unique(bs, g, j);
            let k = blob_at(r, g);
            assert(0 <= k < r.len() && r[k].file_name == g);
            let k2: int = if k < i { k } else { k + 1 };
            assert(bs[k2].file_name == g);
            assert(k2 == j);
            assert(r[k] == bs[j]);
        }
    }
}

/// What pruning the evicted records' blobs does: exactly the evicted
/// names disappear, every other blob is untouched, and names stay
/// distinct.
pub proof fn lemma_prune_blobs(bs: Seq<BlobView>, gone: Seq<MetaView>)
    requires
        distinct_blob_names(bs),
    ensures
        distinct_blob_names(prune_blobs(bs, gone)),
        forall|g: Seq<char>|
            #[trigger] has_blob(prune_blobs(bs, gone), g) == (has_blob(bs, g) && !named_in(
                gone,
                g,
            )),
        forall|g: Seq<char>|
            !named_in(gone, g) && has_blob(bs, g) ==> #[trigger] blob_named(prune_blobs(bs, gone), g)
                == blob_named(bs, g),
    decreases gone.len(),
{
    if gone.len() == 0 {
        assert(forall|g: Seq<char>| !named_in(gone, g));
    } else {
        let f = gone.first().file_name;
        let rest = gone.drop_first();
        lemma_remove_named(bs, f);
        lemma_prune_blobs(remove_named(bs, f), rest);
        assert forall|g: Seq<char>|
            #[trigger] named_in(gone, g) == (f == g || named_in(rest, g)) by {
            if named_in(gone, g) {
                let i = choose|i: int| 0 <= i < gone.len() && (#[trigger] gone[i]).file_name == g;
                if i > 0 {
                    assert(rest[i - 1].file_name == g);
                    assert(named_in(rest, g));
                }
            }
            if named_in(rest, g) {
                let i = choose|i: int| 0 <= i < rest.len() && (#[trigger] rest[i]).file_name == g;
                assert(gone[i + 1].file_name == g);
                assert(named_in(gone, g));
            }
            if f == g {
                assert(gone[0].file_name == g);
                assert(named_in(gone, g));
            }
        }
    }
}

/// What storing a blob does: the blob sits under its name, every other
/// blob is untouched, and names stay distinct.
pub proof fn lemma_upsert_blob(bs: Seq<BlobView>, b: BlobView)
    requires
        distinct_blob_names(bs),
    ensures
        distinct_blob_names(upsert_blob(bs, b)),
        has_blob(upsert_blob(bs, b), b.file_name),
        blob_named(upsert_blob(bs, b), b.file_name) == b,
        forall|g: Seq<char>|
            g != b.file_name ==> #[trigger] has_blob(upsert_blob(bs, b), g) == has_blob(bs, g),
        forall|g: Seq<char>|
            g != b.file_name && has_blob(bs, g) ==> #[trigger] blob_named(upsert_blob(bs, b), g)
                == blob_named(bs, g),
{
    let r = upsert_blob(bs, b);
    if has_blob(bs, b.file_name) {
        let i = blob_at(bs, b.file_name);
        assert(0 <= i < bs.len() && bs[i].file_name == b.file_name);
        assert(r == bs.update(i, b));
        assert(forall|k: int| 0 <= k < r.len() ==> (#[trigger] r[k]).file_name == bs[k].file_name);
        assert(r[i] == b);
        lemma_blob_at_unique(r, b.file_name, i);
        assert forall|g: Seq<char>|
            g != b.file_name implies #[trigger] has_blob(r, g) == has_blob(bs, g) by {
            if has_blob(r, g) {
                let k = blob_at(r, g);
                assert(bs[k].file_name == g);
            }
            if has_blob(bs, g) {
                let k = blob_at(bs, g);
                assert(r[k].file_name == g);
            }
        }
        assert forall|g: Seq<char>|
            g != b.file_name && has_blob(bs, g) implies #[trigger] blob_named(r, g)
                == blob_named(bs, g) by {
            let j = blob_at(bs, g);
            assert(0 <= j < bs.len() && bs[j].file_name == g);
            assert(j != i);
            assert(r[j] == bs[j]);
            lemma_blob_at_unique(r, g, j);
        }
    } else {
        assert(r == bs.push(b));
        assert(forall|k: int| 0 <= k < bs.len() ==> (#[trigger] bs[k]).file_name != b.file_name);
        assert(r[bs.len() as int] == b);
        lemma_blob_at_unique(r, b.file_name, bs.len() as int);
        assert forall|g: Seq<char>|
            g != b.file_name implies #[trigger] has_blob(r, g) == has_blob(bs, g) by {
            if has_blob(r, g) {
                let k = blob_at(r, g);
                assert(0 <= k < r.len() && r[k].file_name == g);
                assert(k < bs.len());
                assert(bs[k].file_name == g);
            }
            if has_blob(bs, g) {
                let k = blob_at(bs, g);
                assert(r[k].file_name == g);
            }
        }
        assert forall|g: Seq<char>|
            g != b.file_name && has_blob(bs, g) implies #[trigger] blob_named(r, g)
                == blob_named(bs, g) by {
            let j = blob_at(bs, g);
            assert(r[j].file_name == g);
            lemma_blob_at_unique(r, g, j);
            lemma_blob_at_unique(bs, g, j);
        }
    }
}

/// Replacing (or adding) a well-formed slice under its own id keeps the
/// store well formed.
pub proof fn lemma_store_with_wf(s: Seq<EntityView>, software_id: Seq<char>, e: EntityView)
    requires
        store_wf(s),
        entity_wf(e),
        e.software_id == software_id,
    ensures
        store_wf(store_with(s, software_id, e)),
{
    let r = store_with(s, software_id, e);
    if has_entity(s, software_id) {
        let i = entity_at(s, software_id);
        assert(0 <= i < s.len() && s[i].software_id == software_id);
        assert(forall|k: int|
            0 <= k < r.len() ==> (#[trigger] r[k]).software_id == s[k].software_id);
        assert(forall|k: int| 0 <= k < r.len() && k != i ==> #[trigger] r[k] == s[k]);
    } else {
        assert(forall|k: int| 0 <= k < s.len() ==> (#[trigger] s[k]).software_id != software_id);
        assert(forall|k: int| 0 <= k < s.len() ==> #[trigger] r[k] == s[k]);
        assert(r[s.len() as int] == e);
    }
}

/// Applying retention to a well-formed slice keeps it well formed, for
/// any quota and any new bound.
pub proof fn lemma_retention_entity_wf(e: EntityView, quota: int, new_max: int)
    requires
        entity_wf(e),
    ensures
        entity_wf(
            EntityView {
                software_id: e.software_id,
                index: IndexView {
                    versions: retained(e.index.versions, quota),
                    max_versions: new_max,
                },
                blobs: prune_blobs(e.blobs, evicted(e.index.versions, quota)),
            },
        ),
{
    let vs = e.index.versions;
    let kept = retained(vs, quota);
    let gone = evicted(vs, quota);
    lemma_retained_distinct(vs, quota);
    lemma_split_from_source(vs, quota);
    lemma_split_id_disjoint(vs, quota);
    lemma_prune_blobs(e.blobs, gone);
    assert forall|i: int| 0 <= i < kept.len() implies (#[trigger] kept[i]).software_id
        == e.software_id && kept[i].file_name == blob_name(kept[i].id) by {
        assert(kept.contains(kept[i]));
        assert(vs.contains(kept[i]));
        let k = choose|k: int| 0 <= k < vs.len() && vs[k] == kept[i];
        assert(vs[k].software_id == e.software_id);
        assert(vs[k].file_name == blob_name(vs[k].id));
    }
    assert forall|j: int| 0 <= j < gone.len() implies (#[trigger] gone[j]).file_name == blob_name(
        gone[j].id,
    ) by {
        assert(gone.contains(gone[j]));
        assert(vs.contains(gone[j]));
        let k = choose|k: int| 0 <= k < vs.len() && vs[k] == gone[j];
        assert(vs[k].file_name == blob_name(vs[k].id));
    }
    assert forall|i: int| 0 <= i < kept.len() implies !named_in(
        gone,
        (#[trigger] kept[i]).file_name,
    ) by {
        if named_in(gone, kept[i].file_name) {
            let j = choose|j: int|
                0 <= j < gone.len() && (#[trigger] gone[j]).file_name == kept[i].file_name;
            lemma_blob_name_injective(gone[j].id, kept[i].id);
            assert(false);
        }
    }
    assert forall|i: int| 0 <= i < kept.len() implies has_blob(
        prune_blobs(e.blobs, gone),
        (#[trigger] kept[i]).file_name,
    ) by {
        assert(kept.contains(kept[i]));
        assert(vs.contains(kept[i]));
        let k = choose|k: int| 0 <= k < vs.len() && vs[k] == kept[i];
        assert(has_blob(e.blobs, vs[k].file_name));
    }
}


/// After replacing (or adding) a well-formed slice, lookups for its id
/// find exactly that slice.
pub proof fn lemma_store_with_lookup(s: Seq<EntityView>, software_id: Seq<char>, e: EntityView)
    requires
        store_wf(s),
        entity_wf(e),
        e.software_id == software_id,
    ensures
        has_entity(store_with(s, software_id, e), software_id),
        store_with(s, software_id, e)[entity_at(store_with(s, software_id, e), software_id)] == e,
        effective_index(store_with(s, software_id, e), software_id) == e.index,
        effective_blobs(store_with(s, software_id, e), software_id) == e.blobs,
{
    lemma_store_with_wf(s, software_id, e);
    let r = store_with(s, software_id, e);
    if has_entity(s, software_id) {
        let i = entity_at(s, software_id);
        assert(0 <= i < s.len() && s[i].software_id == software_id);
        assert(r[i] == e);
        lemma_entity_at_unique(r, software_id, i);
    } else {
        assert(r[s.len() as int] == e);
        lemma_entity_at_unique(r, software_id, s.len() as int);
    }
}

/// A save keeps the store well formed.
pub proof fn lemma_save_wf(
    s: Seq<EntityView>,
    software_id: Seq<char>,
    content: Seq<char>,
    parsed: Option<serde_json::Value>,
    note: Option<Seq<char>>,
    is_auto_save: bool,
    id: Seq<char>,
    timestamp: i64,
)
    requires
        store_wf(s),
    ensures
        store_wf(save_spec(s, software_id, content, parsed, note, is_auto_save, id, timestamp).0),
        !dedup_applies(s, software_id, content, is_auto_save) && !has_version(
            effective_index(s, software_id).versions,
            id,
        ) ==> ({
            let s2 = save_spec(s, software_id, content, parsed, note, is_auto_save, id, timestamp).0;
            let idx = effective_index(s, software_id);
            let m = new_record(software_id, content, note, is_auto_save, id, timestamp);
            let vs2 = idx.versions.push(m);
            let kept = if is_auto_save {
                retained(vs2, idx.max_versions)
            } else {
                vs2
            };
            let gone = if is_auto_save {
                evicted(vs2, idx.max_versions)
            } else {
                Seq::<MetaView>::empty()
            };
            let nb = BlobView { file_name: blob_name(id), content, parsed };
            &&& effective_index(s2, software_id) == IndexView {
                versions: kept,
                max_versions: idx.max_versions,
            }
            &&& effective_blobs(s2, software_id) == prune_blobs(
                upsert_blob(effective_blobs(s, software_id), nb),
                gone,
            )
        }),
{
    if dedup_applies(s, software_id, content, is_auto_save) {
    } else if has_version(effective_index(s, software_id).versions, id) {
    } else {
        let idx = effective_index(s, software_id);
        let vs = idx.versions;
        let bs = effective_blobs(s, software_id);
        if has_entity(s, software_id) {
            let ei = entity_at(s, software_id);
            assert(0 <= ei < s.len() && s[ei].software_id == software_id);
            assert(entity_wf(s[ei]));
        }
        let m = new_record(software_id, content, note, is_auto_save, id, timestamp);
        let vs2 = vs.push(m);
        let nb = BlobView { file_name: blob_name(id), content, parsed };
        let bs2 = upsert_blob(bs, nb);
        lemma_upsert_blob(bs, nb);
        assert(forall|k: int| 0 <= k < vs.len() ==> (#[trigger] vs[k]).id != id);
        assert(distinct_version_ids(vs2)) by {
            assert(forall|k: int| 0 <= k < vs.len() ==> #[trigger] vs2[k] == vs[k]);
            assert(vs2[vs.len() as int] == m);
        }
        let e1 = EntityView {
            software_id,
            index: IndexView { versions: vs2, max_versions: idx.max_versions },
            blobs: bs2,
        };
        assert(entity_wf(e1)) by {
            assert(forall|k: int| 0 <= k < vs.len() ==> #[trigger] vs2[k] == vs[k]);
            assert(vs2[vs.len() as int] == m);
            assert forall|k: int| 0 <= k < vs2.len() implies has_blob(
                bs2,
                (#[trigger] vs2[k]).file_name,
            ) by {
                if k < vs.len() {
                    assert(vs[k].file_name == blob_name(vs[k].id));
                    if vs[k].file_name == nb.file_name {
                        lemma_blob_name_injective(vs[k].id, id);
                        assert(false);
                    }
                    assert(has_blob(bs, vs[k].file_name));
                }
            }
        }
        let e2 = if is_auto_save {
            EntityView {
                software_id,
                index: IndexView {
                    versions: retained(vs2, idx.max_versions),
                    max_versions: idx.max_versions,
                },
                blobs: prune_blobs(bs2, evicted(vs2, idx.max_versions)),
            }
        } else {
            e1
        };
        if is_auto_save {
            lemma_retention_entity_wf(e1, idx.max_versions, idx.max_versions);
        } else {
            assert(prune_blobs(bs2, Seq::<MetaView>::empty()) == bs2);
        }
        assert(save_spec(s, software_id, content, parsed, note, is_auto_save, id, timestamp).0
            == store_with(s, software_id, e2));
        lemma_store_with_wf(s, software_id, e2);
        lemma_store_with_lookup(s, software_id, e2);
    }
}

/// Changing the retention bound keeps the store well formed.
pub proof fn lemma_set_max_wf(s: Seq<EntityView>, software_id: Seq<char>, max_versions: int)
    requires
        store_wf(s),
    ensures
        store_wf(set_max_spec(s, software_id, max_versions)),
        effective_index(set_max_spec(s, software_id, max_versions), software_id) == (IndexView {
            versions: retained(effective_index(s, software_id).versions, max_versions),
            max_versions,
        }),
        effective_blobs(set_max_spec(s, software_id, max_versions), software_id) == prune_blobs(
            effective_blobs(s, software_id),
            evicted(effective_index(s, software_id).versions, max_versions),
        ),
{
    let idx = effective_index(s, software_id);
    let bs = effective_blobs(s, software_id);
    if has_entity(s, software_id) {
        let ei = entity_at(s, software_id);
        assert(0 <= ei < s.len() && s[ei].software_id == software_id);
        assert(entity_wf(s[ei]));
    }
    let e0 = EntityView { software_id, index: idx, blobs: bs };
    assert(entity_wf(e0));
    lemma_retention_entity_wf(e0, max_versions, max_versions);
    let e2 = EntityView {
        software_id,
        index: IndexView { versions: retained(idx.versions, max_versions), max_versions },
        blobs: prune_blobs(bs, evicted(idx.versions, max_versions)),
    };
    lemma_store_with_wf(s, software_id, e2);
    lemma_store_with_lookup(s, software_id, e2);
}

/// A deletion keeps the store well formed.
pub proof fn lemma_delete_wf(s: Seq<EntityView>, software_id: Seq<char>, version_id: Seq<char>)
    requires
        store_wf(s),
    ensures
        store_wf(delete_spec(s, software_id, version_id)),
        has_version(effective_index(s, software_id).versions, version_id) ==> ({
            let s2 = delete_spec(s, software_id, version_id);
            let vs = effective_index(s, software_id).versions;
            let vi = version_at(vs, version_id);
            &&& effective_index(s2, software_id) == IndexView {
                versions: vs.remove(vi),
                max_versions: effective_index(s, software_id).max_versions,
            }
            &&& effective_blobs(s2, software_id) == remove_named(
                effective_blobs(s, software_id),
                vs[vi].file_name,
            )
        }),
{
    let vs = effective_index(s, software_id).versions;
    if has_version(vs, version_id) {
        let ei = entity_at(s, software_id);
        assert(0 <= ei < s.len() && s[ei].software_id == software_id);
        let e = s[ei];
        assert(entity_wf(e));
        let vi = version_at(vs, version_id);
        assert(0 <= vi < vs.len() && vs[vi].id == version_id);
        let m = vs[vi];
        let vs2 = vs.remove(vi);
        lemma_remove_named(e.blobs, m.file_name);
        assert forall|k: int| 0 <= k < vs2.len() implies #[trigger] vs2[k] == (if k < vi {
            vs[k]
        } else {
            vs[k + 1]
        }) by {}
        let e2 = EntityView {
            software_id: e.software_id,
            index: IndexView { versions: vs2, max_versions: e.index.max_versions },
            blobs: remove_named(e.blobs, m.file_name),
        };
        assert(entity_wf(e2)) by {
            assert forall|k: int| 0 <= k < vs2.len() implies has_blob(
                e2.blobs,
                (#[trigger] vs2[k]).file_name,
            ) by {
                let k2: int = if k < vi { k } else { k + 1 };
                assert(vs2[k] == vs[k2]);
                assert(k2 != vi);
                assert(vs[k2].id != m.id);
                if vs[k2].file_name == m.file_name {
                    lemma_blob_name_injective(vs[k2].id, m.id);
                    assert(false);
                }
                assert(has_blob(e.blobs, vs[k2].file_name));
            }
        }
        assert(delete_spec(s, software_id, version_id) == store_with(s, software_id, e2));
        lemma_store_with_wf(s, software_id, e2);
        lemma_store_with_lookup(s, software_id, e2);
    }
}



/// `dedup_applies`, phrased over the already-computed checksum.
pub open spec fn dedup_applies_to(
    s: Seq<EntityView>,
    software_id: Seq<char>,
    checksum: Seq<char>,
    is_auto_save: bool,
) -> bool {
    let vs = effective_index(s, software_id).versions;
    is_auto_save && vs.len() > 0 && vs.last().checksum == checksum
}

/// The value of a snapshot result.
pub open spec fn snap_result_view(r: Result<ConfigVersion, StorageError>) -> Result<
    SnapView,
    StorageError,
> {
    match r {
        Ok(v) => Ok(v@),
        Err(e) => Err(e),
    }
}

/// Whether a save with identifier `id` and capture time `timestamp`
/// takes `s` to `s2` and returns `res`.
pub open spec fn save_outcome(
    s: Seq<EntityView>,
    software_id: Seq<char>,
    content: Seq<char>,
    parsed: Option<serde_json::Value>,
    note: Option<Seq<char>>,
    is_auto_save: bool,
    id: Seq<char>,
    timestamp: i64,
    s2: Seq<EntityView>,
    res: Result<SnapView, StorageError>,
) -> bool {
    save_spec(s, software_id, content, parsed, note, is_auto_save, id, timestamp) == (s2, res)
}


} // verus!
