//! The flag store: the current flag set, how a sync payload updates it,
//! and which flags an update changed.

use vstd::prelude::*;
use crate::cache::{entry_map, keys_distinct, lemma_entry_map_contains, lemma_entry_map_index};
use crate::cache::in_memory::find_entry;
use crate::error::{FlagdError, FlagdEvaluationError};
use crate::json::{Json, JsonValue, entries_model, obj_get, json_same, is_first_key};
use crate::model::{FeatureFlag, FlagModel, FlagParser, ParseOutcome, ParsingResult, flag_equal, flag_same,
    law_flag_same_reflexive_symmetric,
    flag_models, parse_flag_set, names};
use vstd::string::StringExecFns;

verus! {

broadcast use vstd::string::group_string_axioms;

/// The state of the flag store.
#[derive(Clone, Copy, Debug, PartialEq, Eq, Structural, Hash, Default)]
pub enum StorageState {
    /// The flags are up to date.
    #[default]
    Okay,
    /// The flags may be out of date.
    Stale,
    /// The last update failed.
    Error,
}

/// A change of the store's state and the keys of the flags it changed.
#[derive(Debug)]
pub struct StorageStateChange {
    pub storage_state: StorageState,
    pub changed_flags_keys: Vec<String>,
    pub sync_metadata: Vec<(String, JsonValue)>,
}

impl Default for StorageStateChange {
    fn default() -> (r: Self)
        ensures
            r.storage_state == StorageState::Okay,
            r.changed_flags_keys@.len() == 0,
            r.sync_metadata@.len() == 0,
    {
        StorageStateChange { storage_state: StorageState::Okay, changed_flags_keys: Vec::new(), sync_metadata: Vec::new() }
    }
}

/// What a sync payload carries: flag data, or an error.
#[derive(Clone, Copy, Debug, PartialEq, Eq, Structural)]
pub enum QueuePayloadType {
    Data,
    Error,
}

/// A sync payload: flag data (a JSON document) or an error message, with
/// the sync's metadata when it has some.
#[derive(Debug)]
pub struct QueuePayload {
    pub payload_type: QueuePayloadType,
    pub flag_data: String,
    pub metadata: Option<Vec<(String, JsonValue)>>,
}

/// The kind of a change that a file watcher reports.
#[derive(Clone, Copy, Debug, PartialEq, Eq, Structural)]
pub enum FileEventKind {
    Any,
    Access,
    Create,
    Modify,
    Remove,
    Other,
}

/// Whether a change in the watched directory calls for reading the flag
/// file again: a creation, a modification or a removal does (editors that
/// write a temporary file and rename it over the flag file cause these);
/// an access or an unclassified event does not.
pub fn reloads_on(kind: FileEventKind) -> (r: bool)
    ensures
        r == (kind == FileEventKind::Create || kind == FileEventKind::Modify || kind
            == FileEventKind::Remove),
{
    match kind {
        FileEventKind::Create | FileEventKind::Modify | FileEventKind::Remove => true,
        _ => false,
    }
}

/// The payload for a read of the flag file: its content as flag data, or
/// the read error's message as an error payload; without metadata.
pub fn file_read_payload(read: Result<String, String>) -> (r: QueuePayload)
    ensures
        match read {
            Ok(content) => r.payload_type == QueuePayloadType::Data && r.flag_data == content,
            Err(message) => r.payload_type == QueuePayloadType::Error && r.flag_data == message,
        },
        r.metadata is None,
{
    match read {
        Ok(content) => QueuePayload { payload_type: QueuePayloadType::Data, flag_data: content, metadata: None },
        Err(message) => QueuePayload { payload_type: QueuePayloadType::Error, flag_data: message, metadata: None },
    }
}

/// The keys whose flag an update added, changed or removed.
pub open spec fn changed_keys(old: Map<Seq<char>, FlagModel>, new: Map<Seq<char>, FlagModel>) -> Set<Seq<char>> {
    Set::new(
        |k: Seq<char>|
            (new.contains_key(k) && (!old.contains_key(k) || !flag_same(old[k], new[k]))) || (old.contains_key(k)
                && !new.contains_key(k)),
    )
}

/// The flag of distinct entries under an entry's key.
proof fn lemma_flag_at(s: Seq<(String, FeatureFlag)>, i: int)
    requires
        keys_distinct(s),
        0 <= i < s.len(),
    ensures
        flag_models(s).contains_key(s[i].0@),
        flag_models(s)[s[i].0@] == s[i].1@,
{
    lemma_entry_map_index(s, i);
}

/// Which keys the flags hold.
proof fn lemma_flag_keys(s: Seq<(String, FeatureFlag)>, k: Seq<char>)
    ensures
        flag_models(s).contains_key(k) <==> exists|i: int| 0 <= i < s.len() && s[i].0@ == k,
{
    lemma_entry_map_contains(s, k);
}

/// The keys whose flag an update added, changed or removed, each once.
/// The keys of added or changed flags come first, then those of removed
/// ones; the contract states which keys there are, not their order.
pub fn compute_changed_flags(old_flags: &Vec<(String, FeatureFlag)>, new_flags: &Vec<(String, FeatureFlag)>) -> (r: Vec<String>)
    requires
        keys_distinct(old_flags@),
        keys_distinct(new_flags@),
    ensures
        names(r@).no_duplicates(),
        names(r@).to_set() == changed_keys(flag_models(old_flags@), flag_models(new_flags@)),
{
    let ghost om = flag_models(old_flags@);
    let ghost nm = flag_models(new_flags@);
    let mut changed: Vec<String> = Vec::new();
    let mut i: usize = 0;
    while i < new_flags.len()
        invariant
            i <= new_flags.len(),
            om == flag_models(old_flags@),
            nm == flag_models(new_flags@),
            keys_distinct(old_flags@),
            keys_distinct(new_flags@),
            names(changed@).no_duplicates(),
            forall|x: Seq<char>|
                #[trigger] names(changed@).contains(x) <==> exists|j: int|
                    0 <= j < i && new_flags@[j].0@ == x && (!om.contains_key(x) || !flag_same(om[x], nm[x])),
        decreases new_flags.len() - i,
    {
        let ghost k = new_flags@[i as int].0@;
        proof {
            lemma_flag_at(new_flags@, i as int);
        }
        let differs = match find_entry(old_flags, &new_flags[i].0) {
            Some(j) => {
                proof {
                    lemma_flag_at(old_flags@, j as int);
                }
                !flag_equal(&old_flags[j].1, &new_flags[i].1)
            },
            None => true,
        };
        if differs {
            let ghost before = changed@;
            proof {
                assert(!names(before).contains(k)) by {
                    if names(before).contains(k) {
                        let j = choose|j: int|
                            0 <= j < i && new_flags@[j].0@ == k && (!om.contains_key(k) || !flag_same(om[k], nm[k]));
                        assert(new_flags@[j].0@ != new_flags@[i as int].0@);
                    }
                }
            }
            changed.push(new_flags[i].0.clone());
            assert(names(changed@) =~= names(before).push(k));
            assert forall|x: Seq<char>|
                #[trigger] names(changed@).contains(x) <==> exists|j: int|
                    0 <= j < i + 1 && new_flags@[j].0@ == x && (!om.contains_key(x) || !flag_same(om[x], nm[x])) by {
                if x == k {
                    assert(names(changed@)[before.len() as int] == k);
                }
                if names(before).contains(x) {
                    let q = choose|q: int| 0 <= q < names(before).len() && names(before)[q] == x;
                    assert(names(changed@)[q] == x);
                }
                if names(changed@).contains(x) && x != k {
                    let q = choose|q: int| 0 <= q < names(changed@).len() && names(changed@)[q] == x;
                    assert(names(before)[q] == x);
                }
            }
        } else {
            assert forall|x: Seq<char>|
                #[trigger] names(changed@).contains(x) <==> exists|j: int|
                    0 <= j < i + 1 && new_flags@[j].0@ == x && (!om.contains_key(x) || !flag_same(om[x], nm[x])) by {
                if exists|j: int|
                    0 <= j < i + 1 && new_flags@[j].0@ == x && (!om.contains_key(x) || !flag_same(om[x], nm[x])) {
                    let j = choose|j: int|
                        0 <= j < i + 1 && new_flags@[j].0@ == x && (!om.contains_key(x) || !flag_same(om[x], nm[x]));
                    if j == i {
                        lemma_flag_keys(old_flags@, k);
                    }
                }
            }
        }
        i = i + 1;
    }
    let ghost after_new = changed@;
    let mut i: usize = 0;
    while i < old_flags.len()
        invariant
            i <= old_flags.len(),
            om == flag_models(old_flags@),
            nm == flag_models(new_flags@),
            keys_distinct(old_flags@),
            keys_distinct(new_flags@),
            names(changed@).no_duplicates(),
            forall|x: Seq<char>|
                #[trigger] names(changed@).contains(x) <==> (exists|j: int|
                    0 <= j < new_flags@.len() && new_flags@[j].0@ == x && (!om.contains_key(x) || !flag_same(om[x], nm[x]))) || (exists|j: int|
                    0 <= j < i && old_flags@[j].0@ == x && !nm.contains_key(x)),
        decreases old_flags.len() - i,
    {
        let ghost k = old_flags@[i as int].0@;
        proof {
            lemma_flag_keys(new_flags@, k);
        }
        match find_entry(new_flags, &old_flags[i].0) {
            Some(_) => {
                assert forall|x: Seq<char>|
                    #[trigger] names(changed@).contains(x) <==> (exists|j: int|
                        0 <= j < new_flags@.len() && new_flags@[j].0@ == x && (!om.contains_key(x) || !flag_same(om[x], nm[x]))) || (exists|j: int|
                        0 <= j < i + 1 && old_flags@[j].0@ == x && !nm.contains_key(x)) by {
                    if exists|j: int| 0 <= j < i + 1 && old_flags@[j].0@ == x && !nm.contains_key(x) {
                        let j = choose|j: int| 0 <= j < i + 1 && old_flags@[j].0@ == x && !nm.contains_key(x);
                        if j == i {
                            assert(nm.contains_key(k));
                        }
                    }
                }
            },
            None => {
                let ghost before = changed@;
                proof {
                    assert(!names(before).contains(k)) by {
                        if names(before).contains(k) {
                            if exists|j: int|
                                0 <= j < new_flags@.len() && new_flags@[j].0@ == k && (!om.contains_key(k)
                                    || om[k] != nm[k]) {
                                let j = choose|j: int|
                                    0 <= j < new_flags@.len() && new_flags@[j].0@ == k && (!om.contains_key(k)
                                        || om[k] != nm[k]);
                                assert(nm.contains_key(k));
                            } else {
                                let j = choose|j: int| 0 <= j < i && old_flags@[j].0@ == k && !nm.contains_key(k);
                                assert(old_flags@[j].0@ != old_flags@[i as int].0@);
                            }
                        }
                    }
                }
                changed.push(old_flags[i].0.clone());
                assert(names(changed@) =~= names(before).push(k));
                assert forall|x: Seq<char>|
                    #[trigger] names(changed@).contains(x) <==> (exists|j: int|
                        0 <= j < new_flags@.len() && new_flags@[j].0@ == x && (!om.contains_key(x) || !flag_same(om[x], nm[x]))) || (exists|j: int|
                        0 <= j < i + 1 && old_flags@[j].0@ == x && !nm.contains_key(x)) by {
                    if x == k {
                        assert(names(changed@)[before.len() as int] == k);
                    }
                    if names(before).contains(x) {
                        let q = choose|q: int| 0 <= q < names(before).len() && names(before)[q] == x;
                        assert(names(changed@)[q] == x);
                    }
                    if names(changed@).contains(x) && x != k {
                        let q = choose|q: int| 0 <= q < names(changed@).len() && names(changed@)[q] == x;
                        assert(names(before)[q] == x);
                    }
                }
            },
        }
        i = i + 1;
    }
    assert forall|x: Seq<char>| names(changed@).to_set().contains(x) == changed_keys(om, nm).contains(x) by {
        lemma_flag_keys(new_flags@, x);
        lemma_flag_keys(old_flags@, x);
        if nm.contains_key(x) && (!om.contains_key(x) || !flag_same(om[x], nm[x])) {
            let j = choose|j: int| 0 <= j < new_flags@.len() && new_flags@[j].0@ == x;
        }
        if om.contains_key(x) && !nm.contains_key(x) {
            let j = choose|j: int| 0 <= j < old_flags@.len() && old_flags@[j].0@ == x;
        }
    }
    assert(names(changed@).to_set() =~= changed_keys(om, nm));
    changed
}


/// Whether a sync payload carries a flag configuration that parses.
pub open spec fn update_parses(payload_type: QueuePayloadType, document: Result<JsonValue, String>) -> bool {
    payload_type == QueuePayloadType::Data && match document {
        Ok(doc) => parse_flag_set(doc@, false) is Parsed,
        Err(_) => false,
    }
}

/// The flags and metadata of a document that parses.
pub open spec fn parsed_flag_set(document: Result<JsonValue, String>) -> (Map<Seq<char>, FlagModel>, Seq<(Seq<char>, Json)>) {
    match document {
        Ok(doc) => match parse_flag_set(doc@, false) {
            ParseOutcome::Parsed(fm, md) => (fm, md),
            _ => (Map::empty(), Seq::empty()),
        },
        Err(_) => (Map::empty(), Seq::empty()),
    }
}

/// A flag looked up in the store, and the flag set's metadata.
#[derive(Debug)]
pub struct StorageQueryResult {
    pub feature_flag: Option<FeatureFlag>,
    pub flag_set_metadata: Vec<(String, JsonValue)>,
}

/// The flags and flag set metadata the store holds.
pub struct FlagStoreState {
    flags: Vec<(String, FeatureFlag)>,
    flag_set_metadata: Vec<(String, JsonValue)>,
}

/// The keys of flags, in order.
fn flag_keys(flags: &Vec<(String, FeatureFlag)>) -> (r: Vec<String>)
    ensures
        names(r@) == flags@.map_values(|e: (String, FeatureFlag)| e.0@),
{
    let mut out: Vec<String> = Vec::new();
    let mut i: usize = 0;
    while i < flags.len()
        invariant
            i <= flags.len(),
            out@.len() == i,
            names(out@) == flags@.take(i as int).map_values(|e: (String, FeatureFlag)| e.0@),
        decreases flags.len() - i,
    {
        let ghost before = out@;
        out.push(flags[i].0.clone());
        assert forall|j: int| 0 <= j < i + 1 implies #[trigger] names(out@)[j] == flags@.take(i + 1).map_values(
            |e: (String, FeatureFlag)| e.0@,
        )[j] by {
            if j < i {
                assert(names(before)[j] == flags@.take(i as int).map_values(|e: (String, FeatureFlag)| e.0@)[j]);
                assert(out@[j] == before[j]);
            }
        }
        assert(names(out@) =~= flags@.take(i + 1).map_values(|e: (String, FeatureFlag)| e.0@));
        i = i + 1;
    }
    assert(flags@.take(flags.len() as int) =~= flags@);
    out
}

/// Metadata sent with a sync, or none.
fn metadata_or_empty(metadata: Option<Vec<(String, JsonValue)>>) -> (r: Vec<(String, JsonValue)>)
    ensures
        entries_model(r@) == match metadata {
            Some(m) => entries_model(m@),
            None => Seq::empty(),
        },
{
    match metadata {
        Some(m) => m,
        None => {
            let empty: Vec<(String, JsonValue)> = Vec::new();
            assert(entries_model(empty@) =~= Seq::<(Seq<char>, Json)>::empty());
            empty
        },
    }
}

/// An error state change: no changed keys, no metadata.
fn error_change() -> (r: StorageStateChange)
    ensures
        r.storage_state == StorageState::Error,
        r.changed_flags_keys@.len() == 0,
        r.sync_metadata@.len() == 0,
{
    StorageStateChange { storage_state: StorageState::Error, changed_flags_keys: Vec::new(), sync_metadata: Vec::new() }
}

impl FlagStoreState {
    #[verifier::type_invariant]
    spec fn distinct_flags(self) -> bool {
        keys_distinct(self.flags@)
    }

    /// The flags by key.
    pub closed spec fn flags_model(&self) -> Map<Seq<char>, FlagModel> {
        flag_models(self.flags@)
    }

    /// The flag set's metadata.
    pub closed spec fn metadata_model(&self) -> Seq<(Seq<char>, Json)> {
        entries_model(self.flag_set_metadata@)
    }

    /// A store without flags.
    pub fn new() -> (r: Self)
        ensures
            r.flags_model() == Map::<Seq<char>, FlagModel>::empty(),
            r.metadata_model() == Seq::<(Seq<char>, Json)>::empty(),
    {
        let r = FlagStoreState { flags: Vec::new(), flag_set_metadata: Vec::new() };
        assert(flag_models(r.flags@) =~= Map::<Seq<char>, FlagModel>::empty());
        assert(entries_model(r.flag_set_metadata@) =~= Seq::<(Seq<char>, Json)>::empty());
        r
    }

    /// The flag under `key`, if any, and the flag set's metadata.
    pub fn get_flag(&self, key: &String) -> (r: StorageQueryResult)
        ensures
            match r.feature_flag {
                Some(f) => self.flags_model().contains_key(key@) && f@ == self.flags_model()[key@],
                None => !self.flags_model().contains_key(key@),
            },
            entries_model(r.flag_set_metadata@) == self.metadata_model(),
    {
        proof {
            use_type_invariant(self);
        }
        let feature_flag = match find_entry(&self.flags, key) {
            Some(i) => {
                proof {
                    lemma_flag_at(self.flags@, i as int);
                }
                Some(self.flags[i].1.duplicate())
            },
            None => None,
        };
        StorageQueryResult { feature_flag, flag_set_metadata: crate::model::clone_entries(&self.flag_set_metadata) }
    }

    /// Takes the first sync payload. Flag data replaces the store's flags
    /// and reports every new key as changed; a document that is no JSON, or
    /// no flag configuration, is an error, as is an error payload.
    pub fn initial_sync(
        &mut self,
        payload_type: QueuePayloadType,
        flag_data: &str,
        document: Result<JsonValue, String>,
        metadata: Option<Vec<(String, JsonValue)>>,
    ) -> (r: Result<StorageStateChange, FlagdError>)
        ensures
            payload_type == QueuePayloadType::Error ==> (r matches Err(FlagdError::Sync(m)) && m@
                == "Error in initial sync: "@ + flag_data@) && final(self).flags_model() == old(self).flags_model(),
            payload_type == QueuePayloadType::Data ==> match document {
                Err(msg) => r matches Err(FlagdError::Json(m)) && m == msg && final(self).flags_model() == old(self).flags_model(),
                Ok(doc) => match parse_flag_set(doc@, false) {
                    ParseOutcome::Parsed(fm, md) => r matches Ok(c) && c.storage_state == StorageState::Okay
                        && final(self).flags_model() == fm && final(self).metadata_model() == md
                        && names(c.changed_flags_keys@).to_set() == fm.dom()
                        && entries_model(c.sync_metadata@) == match metadata {
                            Some(m) => entries_model(m@),
                            None => Seq::empty(),
                        },
                    _ => r is Err && final(self).flags_model() == old(self).flags_model(),
                },
            },
    {
        proof {
            use_type_invariant(&*self);
        }
        match payload_type {
            QueuePayloadType::Error => {
                let mut m = "Error in initial sync: ".to_string();
                m.append(flag_data);
                Err(FlagdError::Sync(m))
            },
            QueuePayloadType::Data => {
                let doc = match document {
                    Ok(d) => d,
                    Err(msg) => {
                        return Err(FlagdError::Json(msg));
                    },
                };
                let parsed: ParsingResult = match FlagParser::parse(&doc, false) {
                    Ok(p) => p,
                    Err(e) => {
                        return Err(FlagdError::from(e));
                    },
                };
                let keys = flag_keys(&parsed.flags);
                proof {
                    let ks = parsed.flags@.map_values(|e: (String, FeatureFlag)| e.0@);
                    assert forall|x: Seq<char>| ks.to_set().contains(x) == flag_models(parsed.flags@).dom().contains(x) by {
                        lemma_flag_keys(parsed.flags@, x);
                        if ks.contains(x) {
                            let i = choose|i: int| 0 <= i < ks.len() && ks[i] == x;
                            assert(parsed.flags@[i].0@ == x);
                        }
                        if flag_models(parsed.flags@).dom().contains(x) {
                            let i = choose|i: int| 0 <= i < parsed.flags@.len() && parsed.flags@[i].0@ == x;
                            assert(ks[i] == x);
                        }
                    }
                    assert(ks.to_set() =~= flag_models(parsed.flags@).dom());
                }
                self.flags = parsed.flags;
                self.flag_set_metadata = parsed.flag_set_metadata;
                Ok(StorageStateChange {
                    storage_state: StorageState::Okay,
                    changed_flags_keys: keys,
                    sync_metadata: metadata_or_empty(metadata),
                })
            },
        }
    }

    /// Takes a later sync payload. Flag data that parses replaces the
    /// store's flags and reports the keys it added, changed or removed; data
    /// that does not parse, and an error payload, leave the flags as they
    /// are and report an error.
    pub fn apply_update(
        &mut self,
        payload_type: QueuePayloadType,
        document: Result<JsonValue, String>,
        metadata: Option<Vec<(String, JsonValue)>>,
    ) -> (r: StorageStateChange)
        ensures
            update_parses(payload_type, document) ==> {
                let (fm, md) = parsed_flag_set(document);
                &&& r.storage_state == StorageState::Okay
                &&& final(self).flags_model() == fm
                &&& final(self).metadata_model() == md
                &&& names(r.changed_flags_keys@).no_duplicates()
                &&& names(r.changed_flags_keys@).to_set() == changed_keys(old(self).flags_model(), fm)
                &&& entries_model(r.sync_metadata@) == match metadata {
                    Some(m) => entries_model(m@),
                    None => Seq::empty(),
                }
            },
            !update_parses(payload_type, document) ==> {
                &&& r.storage_state == StorageState::Error
                &&& r.changed_flags_keys@.len() == 0
                &&& r.sync_metadata@.len() == 0
                &&& final(self).flags_model() == old(self).flags_model()
                &&& final(self).metadata_model() == old(self).metadata_model()
            },
    {
        proof {
            use_type_invariant(&*self);
        }
        if payload_type == QueuePayloadType::Error {
            return error_change();
        }
        let doc = match document {
            Ok(d) => d,
            Err(_) => {
                return error_change();
            },
        };
        let parsed: ParsingResult = match FlagParser::parse(&doc, false) {
            Ok(p) => p,
            Err(_) => {
                return error_change();
            },
        };
        let changed = compute_changed_flags(&self.flags, &parsed.flags);
        self.flags = parsed.flags;
        self.flag_set_metadata = parsed.flag_set_metadata;
        StorageStateChange { storage_state: StorageState::Okay, changed_flags_keys: changed, sync_metadata: metadata_or_empty(metadata) }
    }
}


/// Which flags changed does not depend on the direction of the update: a
/// key changed going from `a` to `b` exactly when it changed going from `b`
/// to `a`.
pub proof fn law_changed_keys_symmetric(a: Map<Seq<char>, FlagModel>, b: Map<Seq<char>, FlagModel>)
    ensures
        changed_keys(a, b) == changed_keys(b, a),
{
    assert forall|k: Seq<char>| a.contains_key(k) && b.contains_key(k) implies flag_same(a[k], b[k]) == flag_same(
        b[k],
        a[k],
    ) by {
        law_flag_same_reflexive_symmetric(a[k], b[k]);
    }
    assert(changed_keys(a, b) =~= changed_keys(b, a));
}

/// An update to the same flags changes nothing.
pub proof fn law_no_change_without_difference(a: Map<Seq<char>, FlagModel>)
    ensures
        changed_keys(a, a) == Set::<Seq<char>>::empty(),
{
    assert forall|k: Seq<char>| a.contains_key(k) implies flag_same(a[k], a[k]) by {
        law_flag_same_reflexive_symmetric(a[k], a[k]);
    }
    assert(changed_keys(a, a) =~= Set::<Seq<char>>::empty());
}

/// A key is reported changed exactly when the flag under it differs
/// between the two flag sets, counting a missing flag as different from a
/// present one; flags differ when they are not the same flag by
/// `flag_same`, which ignores the order of variants, metadata and object
/// members.
pub proof fn law_changed_keys_are_differences(a: Map<Seq<char>, FlagModel>, b: Map<Seq<char>, FlagModel>, k: Seq<char>)
    ensures
        changed_keys(a, b).contains(k) <==> (a.contains_key(k) != b.contains_key(k) || (a.contains_key(k)
            && !flag_same(a[k], b[k]))),
{
}
/// Whether two flags differ in a way a reader sees: one has a targeting
/// rule and the other none, their states or default variants differ, one
/// has a variant named `name` and the other not, or both have it with
/// documents that are not the same.
pub open spec fn visibly_different(a: FlagModel, b: FlagModel, name: Seq<char>) -> bool {
    ||| (a.targeting is Some) != (b.targeting is Some)
    ||| a.state != b.state
    ||| a.default_variant != b.default_variant
    ||| (obj_get(a.variants, name) is Some) != (obj_get(b.variants, name) is Some)
    ||| (obj_get(a.variants, name) matches Some(x) && obj_get(b.variants, name) matches Some(y) && !json_same(x, y))
}

/// An update reports a flag as changed when it gains or loses a targeting
/// rule, changes its state or default variant, gains or loses a variant,
/// or changes a variant's value to a different document.
pub proof fn law_changes_to_a_flag_are_reported(
    old: Map<Seq<char>, FlagModel>,
    new: Map<Seq<char>, FlagModel>,
    k: Seq<char>,
    name: Seq<char>,
)
    requires
        old.contains_key(k),
        new.contains_key(k),
        visibly_different(old[k], new[k], name),
    ensures
        changed_keys(old, new).contains(k),
{
    let a = old[k];
    let b = new[k];
    if flag_same(a, b) {
        let x = a.variants;
        let y = b.variants;
        assert(json_same(Json::Object(x), Json::Object(y)));
        if obj_get(x, name) is Some {
            crate::json::lemma_obj_get_some(x, name);
            let i = choose|i: int| is_first_key(x, name, i) && obj_get(x, name) == Some(#[trigger] x[i].1);
            assert(x[i].0 == name);
            assert(is_first_key(x, x[i].0, i));
        }
        if obj_get(y, name) is Some {
            crate::json::lemma_obj_get_some(y, name);
            let j = choose|j: int| is_first_key(y, name, j) && obj_get(y, name) == Some(#[trigger] y[j].1);
            assert(y[j].0 == name);
            assert(obj_get(x, y[j].0) is Some);
        }
        assert(false);
    }
}

} // verus!
