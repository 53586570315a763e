//! Per-entity version index: the ordered metadata list, the retention
//! bound, and the retention (cleanup) rule.
//!
//! The index is the source of truth for "most recent" and for cleanup.
//! Retention evicts only automatic saves: the most recent
//! `max_versions` automatic saves and every manual save are kept, in
//! their original order.

use vstd::prelude::*;

verus! {

/// The retention bound an index starts with.
pub const DEFAULT_MAX_VERSIONS: usize = 20;

/// One snapshot's metadata record, as it sits in an entity's index.
pub struct VersionMetadata {
    pub id: String,
    pub software_id: String,
    pub timestamp: i64,
    pub note: Option<String>,
    pub is_auto_save: bool,
    pub checksum: String,
    pub file_name: String,
}

/// The mathematical value of a metadata record.
pub ghost struct MetaView {
    pub id: Seq<char>,
    pub software_id: Seq<char>,
    pub timestamp: i64,
    pub note: Option<Seq<char>>,
    pub is_auto_save: bool,
    pub checksum: Seq<char>,
    pub file_name: Seq<char>,
}

impl View for VersionMetadata {
    type V = MetaView;

    open spec fn view(&self) -> MetaView {
        MetaView {
            id: self.id@,
            software_id: self.software_id@,
            timestamp: self.timestamp,
            note: match self.note {
                Some(n) => Some(n@),
                None => None,
            },
            is_auto_save: self.is_auto_save,
            checksum: self.checksum@,
            file_name: self.file_name@,
        }
    }
}

/// The values of a whole metadata list.
pub open spec fn views_of(s: Seq<VersionMetadata>) -> Seq<MetaView> {
    s.map_values(|m: VersionMetadata| m@)
}

/// An entity's ordered history (insertion order = chronological order)
/// plus its retention bound.
pub struct VersionIndex {
    pub versions: Vec<VersionMetadata>,
    pub max_versions: usize,
}

/// The mathematical value of an index.
pub ghost struct IndexView {
    pub versions: Seq<MetaView>,
    pub max_versions: int,
}

impl View for VersionIndex {
    type V = IndexView;

    open spec fn view(&self) -> IndexView {
        IndexView { versions: views_of(self.versions@), max_versions: self.max_versions as int }
    }
}

impl Default for VersionIndex {
    /// An empty history that keeps up to `DEFAULT_MAX_VERSIONS`
    /// automatic saves.
    fn default() -> (r: Self)
        ensures
            r@.versions == Seq::<MetaView>::empty(),
            r@.max_versions == DEFAULT_MAX_VERSIONS as int,
    {
        VersionIndex { versions: Vec::new(), max_versions: DEFAULT_MAX_VERSIONS }
    }
}

/// How many records of `s` are automatic saves.
pub open spec fn auto_count(s: Seq<MetaView>) -> nat {
    s.filter(|m: MetaView| m.is_auto_save).len()
}

/// The records that retention keeps: every manual save, and the last
/// `quota` automatic saves, in their original order.
pub open spec fn retained(s: Seq<MetaView>, quota: int) -> Seq<MetaView>
    decreases s.len(),
{
    if s.len() == 0 {
        Seq::empty()
    } else if !s.last().is_auto_save {
        retained(s.drop_last(), quota).push(s.last())
    } else if quota > 0 {
        retained(s.drop_last(), quota - 1).push(s.last())
    } else {
        retained(s.drop_last(), 0)
    }
}

/// The records that retention evicts: the automatic saves beyond the
/// last `quota`, in their original order.
pub open spec fn evicted(s: Seq<MetaView>, quota: int) -> Seq<MetaView>
    decreases s.len(),
{
    if s.len() == 0 {
        Seq::empty()
    } else if !s.last().is_auto_save {
        evicted(s.drop_last(), quota)
    } else if quota > 0 {
        evicted(s.drop_last(), quota - 1)
    } else {
        evicted(s.drop_last(), 0).push(s.last())
    }
}

/// Retention keeps the manual saves exactly: the manual records of the
/// kept list are the manual records of the whole list.
pub proof fn lemma_retained_keeps_manual(s: Seq<MetaView>, quota: int)
    requires
        quota >= 0,
    ensures
        retained(s, quota).filter(|m: MetaView| !m.is_auto_save)
            == s.filter(|m: MetaView| !m.is_auto_save),
    decreases s.len(),
{
    broadcast use vstd::seq_lib::group_filter_ensures;
    broadcast use Seq::lemma_filter_push;

    let pred = |m: MetaView| !m.is_auto_save;
    if s.len() == 0 {
        assert(s.filter(pred) =~= Seq::<MetaView>::empty());
        assert(retained(s, quota).filter(pred) =~= Seq::<MetaView>::empty());
    } else {
        let init = s.drop_last();
        let last = s.last();
        assert(s =~= init.push(last));
        if !last.is_auto_save {
            lemma_retained_keeps_manual(init, quota);
        } else if quota > 0 {
            lemma_retained_keeps_manual(init, quota - 1);
        } else {
            lemma_retained_keeps_manual(init, 0);
        }
    }
}

/// Retention keeps at most `quota` automatic saves.
pub proof fn lemma_retained_auto_bound(s: Seq<MetaView>, quota: int)
    requires
        quota >= 0,
    ensures
        auto_count(retained(s, quota)) <= quota,
    decreases s.len(),
{
    broadcast use vstd::seq_lib::group_filter_ensures;
    broadcast use Seq::lemma_filter_push;

    let pred = |m: MetaView| m.is_auto_save;
    if s.len() == 0 {
        assert(retained(s, quota).filter(pred) =~= Seq::<MetaView>::empty());
    } else {
        let init = s.drop_last();
        let last = s.last();
        if !last.is_auto_save {
            lemma_retained_auto_bound(init, quota);
        } else if quota > 0 {
            lemma_retained_auto_bound(init, quota - 1);
        } else {
            lemma_retained_auto_bound(init, 0);
        }
    }
}

/// Every kept record and every evicted record comes from the original
/// list.
pub proof fn lemma_split_from_source(s: Seq<MetaView>, quota: int)
    ensures
        forall|m: MetaView| retained(s, quota).contains(m) ==> s.contains(m),
        forall|m: MetaView| evicted(s, quota).contains(m) ==> s.contains(m),
    decreases s.len(),
{
    broadcast use vstd::seq_lib::group_seq_properties;

    if s.len() > 0 {
        let init = s.drop_last();
        let last = s.last();
        assert(s =~= init.push(last));
        let q2: int = if !last.is_auto_save { quota } else if quota > 0 { quota - 1 } else { 0 };
        lemma_split_from_source(init, q2);
        assert forall|m: MetaView| retained(s, quota).contains(m) implies s.contains(m) by {
            if m != last {
                if retained(init, q2).contains(m) {
                    assert(init.contains(m));
                }
            }
        };
        assert forall|m: MetaView| evicted(s, quota).contains(m) implies s.contains(m) by {
            if m != last {
                if evicted(init, q2).contains(m) {
                    assert(init.contains(m));
                }
            }
        };
    }
}

/// No two records of `s` share an id.
pub open spec fn distinct_version_ids(s: Seq<MetaView>) -> bool {
    forall|i: int, j: int|
        0 <= i < j < s.len() ==> (#[trigger] s[i]).id != (#[trigger] s[j]).id
}

/// Retention preserves id distinctness.
pub proof fn lemma_retained_distinct(s: Seq<MetaView>, quota: int)
    requires
        distinct_version_ids(s),
    ensures
        distinct_version_ids(retained(s, quota)),
    decreases s.len(),
{
    broadcast use vstd::seq_lib::group_seq_properties;

    if s.len() > 0 {
        let init = s.drop_last();
        let last = s.last();
        assert(s =~= init.push(last));
        assert(distinct_version_ids(init)) by {
            assert(forall|i: int| 0 <= i < init.len() ==> init[i] == s[i]);
        }
        let q2: int = if !last.is_auto_save {
            quota
        } else if quota > 0 {
            quota - 1
        } else {
            0
        };
        lemma_retained_distinct(init, q2);
        lemma_split_from_source(init, q2);
        if !last.is_auto_save || quota > 0 {
            let kept = retained(init, q2);
            assert forall|i: int, j: int|
                0 <= i < j < kept.push(last).len() implies (#[trigger] kept.push(last)[i]).id
                != (#[trigger] kept.push(last)[j]).id by {
                if j == kept.len() {
                    assert(kept.contains(kept[i]));
                    assert(init.contains(kept[i]));
                    let k = choose|k: int| 0 <= k < init.len() && init[k] == kept[i];
                    assert(s[k] == init[k]);
                    assert(s[k].id != last.id);
                }
            }
        }
    }
}

/// No record id is both kept and evicted.
pub proof fn lemma_split_id_disjoint(s: Seq<MetaView>, quota: int)
    requires
        distinct_version_ids(s),
    ensures
        forall|i: int, j: int|
            0 <= i < retained(s, quota).len() && 0 <= j < evicted(s, quota).len()
                ==> (#[trigger] retained(s, quota)[i]).id != (#[trigger] evicted(s, quota)[j]).id,
    decreases s.len(),
{
    broadcast use vstd::seq_lib::group_seq_properties;

    if s.len() > 0 {
        let init = s.drop_last();
        let last = s.last();
        assert(s =~= init.push(last));
        assert(distinct_version_ids(init)) by {
            assert(forall|i: int| 0 <= i < init.len() ==> init[i] == s[i]);
        }
        let q2: int = if !last.is_auto_save {
            quota
        } else if quota > 0 {
            quota - 1
        } else {
            0
        };
        lemma_split_id_disjoint(init, q2);
        lemma_split_from_source(init, q2);
        assert forall|k: int| 0 <= k < init.len() implies (#[trigger] init[k]).id != last.id by {
            assert(init[k] == s[k]);
        }
        let keptp = retained(init, q2);
        let gonep = evicted(init, q2);
        assert forall|i: int|
            0 <= i < keptp.len() implies (#[trigger] keptp[i]).id != last.id by {
            assert(keptp.contains(keptp[i]));
            assert(init.contains(keptp[i]));
            let k = choose|k: int| 0 <= k < init.len() && init[k] == keptp[i];
            assert(init[k].id != last.id);
        }
        assert forall|j: int|
            0 <= j < gonep.len() implies (#[trigger] gonep[j]).id != last.id by {
            assert(gonep.contains(gonep[j]));
            assert(init.contains(gonep[j]));
            let k = choose|k: int| 0 <= k < init.len() && init[k] == gonep[j];
            assert(init[k].id != last.id);
        }
    }
}


/// Dropping the last record commutes with taking views.
proof fn lemma_views_drop_last(s: Seq<VersionMetadata>)
    requires
        s.len() > 0,
    ensures
        views_of(s.drop_last()) == views_of(s).drop_last(),
        views_of(s).last() == s.last()@,
{
    assert(views_of(s.drop_last()) =~= views_of(s).drop_last());
}

/// Pushing a record commutes with taking views.
proof fn lemma_views_push(s: Seq<VersionMetadata>, m: VersionMetadata)
    ensures
        views_of(s.push(m)) == views_of(s).push(m@),
{
    assert(views_of(s.push(m)) =~= views_of(s).push(m@));
}

/// Reversing after a push puts the new element in front.
proof fn lemma_reverse_push(s: Seq<MetaView>, x: MetaView)
    ensures
        s.push(x).reverse() == seq![x] + s.reverse(),
{
    assert(s.push(x).reverse() =~= seq![x] + s.reverse());
}

/// Splits a history into the records retention keeps and the records it
/// evicts, preserving the original relative order of both.
///
/// This is the retention rule as a pure function of the record list and
/// the bound, so that it can be exercised on its own.
pub fn split_for_retention(versions: Vec<VersionMetadata>, max_versions: usize) -> (r: (
    Vec<VersionMetadata>,
    Vec<VersionMetadata>,
))
    ensures
        views_of(r.0@) == retained(views_of(versions@), max_versions as int),
        views_of(r.1@) == evicted(views_of(versions@), max_versions as int),
{
    let ghost target_keep = retained(views_of(versions@), max_versions as int);
    let ghost target_drop = evicted(views_of(versions@), max_versions as int);
    let mut rest = versions;
    let mut kept_rev: Vec<VersionMetadata> = Vec::new();
    let mut dropped_rev: Vec<VersionMetadata> = Vec::new();
    let mut quota = max_versions;
    proof {
        assert(views_of(kept_rev@).reverse() =~= Seq::<MetaView>::empty());
        assert(views_of(dropped_rev@).reverse() =~= Seq::<MetaView>::empty());
        assert(target_keep =~= retained(views_of(rest@), quota as int)
            + views_of(kept_rev@).reverse());
        assert(target_drop =~= evicted(views_of(rest@), quota as int)
            + views_of(dropped_rev@).reverse());
    }
    while rest.len() > 0
        invariant
            target_keep == retained(views_of(rest@), quota as int)
                + views_of(kept_rev@).reverse(),
            target_drop == evicted(views_of(rest@), quota as int)
                + views_of(dropped_rev@).reverse(),
        decreases rest.len(),
    {
        let ghost pre = rest@;
        let m = rest.pop().unwrap();
        proof {
            lemma_views_drop_last(pre);
            assert(rest@ == pre.drop_last());
            assert(m@ == views_of(pre).last());
        }
        if !m.is_auto_save {
            let ghost k = kept_rev@;
            kept_rev.push(m);
            proof {
                lemma_views_push(k, m);
                lemma_reverse_push(views_of(k), m@);
                assert(retained(views_of(pre), quota as int)
                    == retained(views_of(rest@), quota as int).push(m@));
                assert(retained(views_of(rest@), quota as int).push(m@) + views_of(k).reverse()
                    =~= retained(views_of(rest@), quota as int)
                        + (seq![m@] + views_of(k).reverse()));
            }
        } else if quota > 0 {
            quota = quota - 1;
            let ghost k = kept_rev@;
            kept_rev.push(m);
            proof {
                lemma_views_push(k, m);
                lemma_reverse_push(views_of(k), m@);
                assert(retained(views_of(pre), quota as int + 1)
                    == retained(views_of(rest@), quota as int).push(m@));
                assert(evicted(views_of(pre), quota as int + 1)
                    == evicted(views_of(rest@), quota as int));
                assert(retained(views_of(rest@), quota as int).push(m@) + views_of(k).reverse()
                    =~= retained(views_of(rest@), quota as int)
                        + (seq![m@] + views_of(k).reverse()));
            }
        } else {
            let ghost d = dropped_rev@;
            dropped_rev.push(m);
            proof {
                lemma_views_push(d, m);
                lemma_reverse_push(views_of(d), m@);
                assert(evicted(views_of(pre), quota as int)
                    == evicted(views_of(rest@), quota as int).push(m@));
                assert(evicted(views_of(rest@), quota as int).push(m@) + views_of(d).reverse()
                    =~= evicted(views_of(rest@), quota as int)
                        + (seq![m@] + views_of(d).reverse()));
            }
        }
    }
    proof {
        assert(views_of(rest@) =~= Seq::<VersionMetadata>::map_values(Seq::empty(), |m: VersionMetadata| m@));
        assert(retained(views_of(rest@), quota as int) =~= Seq::<MetaView>::empty());
        assert(evicted(views_of(rest@), quota as int) =~= Seq::<MetaView>::empty());
        assert(target_keep =~= views_of(kept_rev@).reverse());
        assert(target_drop =~= views_of(dropped_rev@).reverse());
    }
    let kept = reverse_records(kept_rev);
    let dropped = reverse_records(dropped_rev);
    (kept, dropped)
}

/// Reverses a record list.
fn reverse_records(records: Vec<VersionMetadata>) -> (r: Vec<VersionMetadata>)
    ensures
        views_of(r@) == views_of(records@).reverse(),
{
    let ghost target = views_of(records@).reverse();
    let mut rest = records;
    let mut out: Vec<VersionMetadata> = Vec::new();
    proof {
        assert(views_of(out@) =~= Seq::<MetaView>::empty());
    }
    while rest.len() > 0
        invariant
            target == views_of(out@) + views_of(rest@).reverse(),
        decreases rest.len(),
    {
        let ghost pre = rest@;
        let ghost o = out@;
        let m = rest.pop().unwrap();
        out.push(m);
        proof {
            lemma_views_drop_last(pre);
            lemma_views_push(o, m);
            lemma_reverse_push(views_of(rest@), m@);
            assert(views_of(pre).reverse() == views_of(rest@).push(m@).reverse());
            assert(views_of(o) + (seq![m@] + views_of(rest@).reverse())
                =~= views_of(o).push(m@) + views_of(rest@).reverse());
        }
    }
    proof {
        assert(views_of(rest@).reverse() =~= Seq::<MetaView>::empty());
        assert(target =~= views_of(out@));
    }
    out
}


} // verus!
