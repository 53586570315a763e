//! The per-entity preferences store: one record per entity, found by a
//! linear scan on the entity id.  Saving replaces the first matching
//! record or appends a new one; reading an entity with no record yields
//! the defaults.

use vstd::prelude::*;

use crate::errors::StorageError;

verus! {

/// One entity's editor and backup preferences.
pub struct SoftwarePreferences {
    pub software_id: String,
    pub preferred_editor: String,
    pub show_advanced: bool,
    pub auto_save: bool,
    pub auto_backup: bool,
    pub backup_count: usize,
}

/// The mathematical value of a preferences record.
pub ghost struct PrefView {
    pub software_id: Seq<char>,
    pub preferred_editor: Seq<char>,
    pub show_advanced: bool,
    pub auto_save: bool,
    pub auto_backup: bool,
    pub backup_count: usize,
}

impl View for SoftwarePreferences {
    type V = PrefView;

    open spec fn view(&self) -> PrefView {
        PrefView {
            software_id: self.software_id@,
            preferred_editor: self.preferred_editor@,
            show_advanced: self.show_advanced,
            auto_save: self.auto_save,
            auto_backup: self.auto_backup,
            backup_count: self.backup_count,
        }
    }
}

/// The default preferences for `software_id`: the form editor, no
/// advanced fields, automatic saves and backups on, twenty backups.
pub open spec fn default_preferences(software_id: Seq<char>) -> PrefView {
    PrefView {
        software_id,
        preferred_editor: "form"@,
        show_advanced: false,
        auto_save: true,
        auto_backup: true,
        backup_count: 20,
    }
}

impl Default for SoftwarePreferences {
    /// The defaults, for an entity not named yet.
    fn default() -> (r: Self)
        ensures
            r@ == default_preferences(Seq::<char>::empty()),
    {
        SoftwarePreferences {
            software_id: String::new(),
            preferred_editor: "form".to_owned(),
            show_advanced: false,
            auto_save: true,
            auto_backup: true,
            backup_count: 20,
        }
    }
}

/// The values of a record list.
pub open spec fn pref_views(s: Seq<SoftwarePreferences>) -> Seq<PrefView> {
    s.map_values(|p: SoftwarePreferences| p@)
}

/// The first record for `software_id`, scanning front to back.
pub open spec fn first_pref(s: Seq<PrefView>, software_id: Seq<char>) -> Option<PrefView>
    decreases s.len(),
{
    if s.len() == 0 {
        None
    } else if s.first().software_id == software_id {
        Some(s.first())
    } else {
        first_pref(s.drop_first(), software_id)
    }
}

/// The record list after saving `p`: the first record carrying `p`'s id
/// is replaced, or `p` is appended when there is none.
pub open spec fn upsert_pref(s: Seq<PrefView>, p: PrefView) -> Seq<PrefView>
    decreases s.len(),
{
    if s.len() == 0 {
        seq![p]
    } else if s.first().software_id == p.software_id {
        seq![p] + s.drop_first()
    } else {
        seq![s.first()] + upsert_pref(s.drop_first(), p)
    }
}

/// A matching position behind an unmatched prefix is the one the scan
/// finds.
proof fn lemma_first_pref_at(s: Seq<PrefView>, software_id: Seq<char>, i: int)
    requires
        0 <= i < s.len(),
        s[i].software_id == software_id,
        forall|j: int| 0 <= j < i ==> (#[trigger] s[j]).software_id != software_id,
    ensures
        first_pref(s, software_id) == Some(s[i]),
    decreases i,
{
    if i == 0 {
    } else {
        let rest = s.drop_first();
        assert(forall|j: int| 0 <= j < i - 1 ==> #[trigger] rest[j] == s[j + 1]);
        lemma_first_pref_at(rest, software_id, i - 1);
    }
}

/// With no matching record the scan finds none.
proof fn lemma_first_pref_none(s: Seq<PrefView>, software_id: Seq<char>)
    requires
        forall|j: int| 0 <= j < s.len() ==> (#[trigger] s[j]).software_id != software_id,
    ensures
        first_pref(s, software_id) is None,
    decreases s.len(),
{
    if s.len() > 0 {
        let rest = s.drop_first();
        assert(forall|j: int| 0 <= j < rest.len() ==> #[trigger] rest[j] == s[j + 1]);
        lemma_first_pref_none(rest, software_id);
    }
}

/// Saving over a match at `i` replaces exactly that record.
proof fn lemma_upsert_at(s: Seq<PrefView>, p: PrefView, i: int)
    requires
        0 <= i < s.len(),
        s[i].software_id == p.software_id,
        forall|j: int| 0 <= j < i ==> (#[trigger] s[j]).software_id != p.software_id,
    ensures
        upsert_pref(s, p) == s.update(i, p),
    decreases i,
{
    if i == 0 {
        assert(seq![p] + s.drop_first() =~= s.update(0, p));
    } else {
        let rest = s.drop_first();
        assert(forall|j: int| 0 <= j < rest.len() ==> #[trigger] rest[j] == s[j + 1]);
        lemma_upsert_at(rest, p, i - 1);
        assert(seq![s.first()] + rest.update(i - 1, p) =~= s.update(i, p));
    }
}

/// Saving with no match appends.
proof fn lemma_upsert_none(s: Seq<PrefView>, p: PrefView)
    requires
        forall|j: int| 0 <= j < s.len() ==> (#[trigger] s[j]).software_id != p.software_id,
    ensures
        upsert_pref(s, p) == s.push(p),
    decreases s.len(),
{
    if s.len() == 0 {
        assert(seq![p] =~= s.push(p));
    } else {
        let rest = s.drop_first();
        assert(forall|j: int| 0 <= j < rest.len() ==> #[trigger] rest[j] == s[j + 1]);
        lemma_upsert_none(rest, p);
        assert(seq![s.first()] + rest.push(p) =~= s.push(p));
    }
}

/// An owned copy of a preferences record.
fn clone_pref(p: &SoftwarePreferences) -> (r: SoftwarePreferences)
    ensures
        r@ == p@,
{
    SoftwarePreferences {
        software_id: p.software_id.clone(),
        preferred_editor: p.preferred_editor.clone(),
        show_advanced: p.show_advanced,
        auto_save: p.auto_save,
        auto_backup: p.auto_backup,
        backup_count: p.backup_count,
    }
}

/// The preferences store: the persisted record list, held in memory.
pub struct PreferencesStorage {
    records: Vec<SoftwarePreferences>,
}

impl View for PreferencesStorage {
    type V = Seq<PrefView>;

    closed spec fn view(&self) -> Seq<PrefView> {
        pref_views(self.records@)
    }
}

impl PreferencesStorage {
    /// An empty store.
    pub fn new() -> (s: Self)
        ensures
            s@ == Seq::<PrefView>::empty(),
    {
        let s = PreferencesStorage { records: Vec::new() };
        proof {
            assert(s@ =~= Seq::<PrefView>::empty());
        }
        s
    }

    /// A store over persisted records.  Duplicate ids are tolerated:
    /// the first record wins, as it does on disk.
    pub fn from_parts(records: Vec<SoftwarePreferences>) -> (s: Self)
        ensures
            s@ == pref_views(records@),
    {
        PreferencesStorage { records }
    }

    /// The records the store holds, for the surrounding process to
    /// persist.
    pub fn records(&self) -> (r: &Vec<SoftwarePreferences>)
        ensures
            pref_views(r@) == self@,
    {
        &self.records
    }

    /// The preferences for `software_id`: the first stored record, or
    /// the defaults carrying `software_id` when none is stored.
    pub fn get_preferences(&self, software_id: &str) -> (r: Result<
        SoftwarePreferences,
        StorageError,
    >)
        ensures
            r matches Ok(p) && p@ == (match first_pref(self@, software_id@) {
                Some(q) => q,
                None => default_preferences(software_id@),
            }),
    {
        let n = self.records.len();
        let mut i: usize = 0;
        while i < n
            invariant
                i <= n,
                n == self.records@.len(),
                forall|j: int| 0 <= j < i ==> (#[trigger] self@[j]).software_id != software_id@,
            decreases n - i,
        {
            if crate::version_storage::str_eq(self.records[i].software_id.as_str(), software_id) {
                proof {
                    lemma_first_pref_at(self@, software_id@, i as int);
                }
                return Ok(clone_pref(&self.records[i]));
            }
            i = i + 1;
        }
        proof {
            lemma_first_pref_none(self@, software_id@);
        }
        let mut p = SoftwarePreferences::default();
        p.software_id = software_id.to_owned();
        Ok(p)
    }

    /// Saves `preferences`: replaces the first record carrying its id,
    /// or appends it.
    pub fn save_preferences(&mut self, preferences: SoftwarePreferences) -> (r: Result<
        (),
        StorageError,
    >)
        ensures
            final(self)@ == upsert_pref(old(self)@, preferences@),
            r == Ok::<(), StorageError>(()),
    {
        let n = self.records.len();
        let mut i: usize = 0;
        while i < n
            invariant
                i <= n,
                n == self.records@.len(),
                self@ == old(self)@,
                forall|j: int|
                    0 <= j < i ==> (#[trigger] self@[j]).software_id != preferences@.software_id,
            decreases n - i,
        {
            if crate::version_storage::str_eq(
                self.records[i].software_id.as_str(),
                preferences.software_id.as_str(),
            ) {
                proof {
                    lemma_upsert_at(self@, preferences@, i as int);
                }
                self.records.set(i, preferences);
                proof {
                    assert(self@ =~= old(self)@.update(i as int, preferences@));
                }
                return Ok(());
            }
            i = i + 1;
        }
        proof {
            lemma_upsert_none(self@, preferences@);
        }
        self.records.push(preferences);
        proof {
            assert(self@ =~= old(self)@.push(preferences@));
        }
        Ok(())
    }
}

} // verus!
