//! Synchronization records of encrypted profiles, optimistic revision checks, and the
//! in-memory store that follows the same rules as the database.

use std::collections::BTreeMap;
use vstd::prelude::*;
use vstd::string::*;

use crate::bytes::{bytes_equal, copy_range};
use crate::text::{trim, trim_str};

verus! {

pub const SCHEMA_NAME: &'static str = "remoteapp";

pub const CURRENT_SCHEMA_VERSION: i32 = 1;

/// One encrypted profile as it is synchronized: identities are UUIDs held as 128-bit values.
#[derive(Debug, PartialEq, Eq)]
pub struct SyncRecord {
    pub profile_id: u128,
    pub revision: i64,
    pub updated_at_ms: i64,
    pub updated_by_device: u128,
    pub deleted: bool,
    pub nonce: Vec<u8>,
    pub ciphertext: Vec<u8>,
}

/// The contents of a `SyncRecord`.
pub struct RecordView {
    pub profile_id: u128,
    pub revision: i64,
    pub updated_at_ms: i64,
    pub updated_by_device: u128,
    pub deleted: bool,
    pub nonce: Seq<u8>,
    pub ciphertext: Seq<u8>,
}

impl View for SyncRecord {
    type V = RecordView;

    open spec fn view(&self) -> RecordView {
        RecordView {
            profile_id: self.profile_id,
            revision: self.revision,
            updated_at_ms: self.updated_at_ms,
            updated_by_device: self.updated_by_device,
            deleted: self.deleted,
            nonce: self.nonce@,
            ciphertext: self.ciphertext@,
        }
    }
}

impl Clone for SyncRecord {
    fn clone(&self) -> (r: Self)
        ensures
            r@ == self@,
    {
        proof {
            assert(self.nonce@.subrange(0, self.nonce@.len() as int) =~= self.nonce@);
            assert(self.ciphertext@.subrange(0, self.ciphertext@.len() as int) =~= self.ciphertext@);
        }
        SyncRecord {
            profile_id: self.profile_id,
            revision: self.revision,
            updated_at_ms: self.updated_at_ms,
            updated_by_device: self.updated_by_device,
            deleted: self.deleted,
            nonce: copy_range(self.nonce.as_slice(), 0, self.nonce.len()),
            ciphertext: copy_range(self.ciphertext.as_slice(), 0, self.ciphertext.len()),
        }
    }
}

#[derive(Debug)]
pub enum SyncError {
    InvalidRecord(String),
    Unavailable,
    Store(String),
    Tls(String),
    Unsupported(String),
}

/// The user-facing message of a synchronization error.
pub open spec fn sync_error_text(e: SyncError) -> Seq<char> {
    match e {
        SyncError::InvalidRecord(m) => "invalid sync record: "@ + m@,
        SyncError::Unavailable => "sync store is unavailable"@,
        SyncError::Store(m) => "sync store operation failed: "@ + m@,
        SyncError::Tls(m) => "TLS configuration failed: "@ + m@,
        SyncError::Unsupported(m) => "unsupported synchronization operation: "@ + m@,
    }
}

impl SyncError {
    pub fn message(&self) -> (r: String)
        ensures
            r@ == sync_error_text(*self),
    {
        let (prefix, detail) = match self {
            SyncError::InvalidRecord(m) => ("invalid sync record: ", Some(m)),
            SyncError::Unavailable => ("sync store is unavailable", None),
            SyncError::Store(m) => ("sync store operation failed: ", Some(m)),
            SyncError::Tls(m) => ("TLS configuration failed: ", Some(m)),
            SyncError::Unsupported(m) => ("unsupported synchronization operation: ", Some(m)),
        };
        let mut out = String::from_str(prefix);
        if let Some(m) = detail {
            out.append(m.as_str());
        }
        out
    }
}

/// Why a record is refused, if it is: a revision below one, a nonce that is not 24 bytes, or a
/// ciphertext shorter than the 16-byte tag.
pub open spec fn record_problem(r: RecordView) -> Option<Seq<char>> {
    if r.revision < 1 {
        Some("revision must be positive"@)
    } else if r.nonce.len() != 24 {
        Some("nonce must be 24 bytes"@)
    } else if r.ciphertext.len() < 16 {
        Some("ciphertext is too short"@)
    } else {
        None
    }
}

pub open spec fn record_valid(r: RecordView) -> bool {
    record_problem(r) is None
}

impl SyncRecord {
    pub fn validate(&self) -> (r: Result<(), SyncError>)
        ensures
            r is Ok <==> record_valid(self@),
            r matches Err(e) ==> (e matches SyncError::InvalidRecord(m) && record_problem(self@)
                == Some(m@)),
    {
        if self.revision < 1 {
            return Err(SyncError::InvalidRecord(String::from_str("revision must be positive")));
        }
        if self.nonce.len() != 24 {
            return Err(SyncError::InvalidRecord(String::from_str("nonce must be 24 bytes")));
        }
        if self.ciphertext.len() < 16 {
            return Err(SyncError::InvalidRecord(String::from_str("ciphertext is too short")));
        }
        Ok(())
    }
}

#[derive(Clone, Debug, PartialEq, Eq)]
pub enum MergeResult {
    NoChange,
    AppliedRemote(SyncRecord),
    MissingRemote { local: SyncRecord },
    Conflict { local: SyncRecord, remote: SyncRecord },
}

/// The contents of a `MergeResult`.
pub enum MergeView {
    NoChange,
    AppliedRemote(RecordView),
    MissingRemote(RecordView),
    Conflict(RecordView, RecordView),
}

impl View for MergeResult {
    type V = MergeView;

    open spec fn view(&self) -> MergeView {
        match self {
            MergeResult::NoChange => MergeView::NoChange,
            MergeResult::AppliedRemote(r) => MergeView::AppliedRemote(r@),
            MergeResult::MissingRemote { local } => MergeView::MissingRemote(local@),
            MergeResult::Conflict { local, remote } => MergeView::Conflict(local@, remote@),
        }
    }
}

/// How a local record relates to the remote one: the same revision and payload is no change,
/// a newer remote revision is applied, and everything else (another profile, an older or
/// equally old but different remote) is a conflict.
pub open spec fn merge_decision(local: RecordView, remote: RecordView) -> MergeView {
    if local.profile_id != remote.profile_id {
        MergeView::Conflict(local, remote)
    } else if local.revision == remote.revision && local.ciphertext == remote.ciphertext {
        MergeView::NoChange
    } else if local.revision < remote.revision {
        MergeView::AppliedRemote(remote)
    } else {
        MergeView::Conflict(local, remote)
    }
}

pub fn compare_versions(local: &SyncRecord, remote: &SyncRecord) -> (r: MergeResult)
    ensures
        r@ == merge_decision(local@, remote@),
{
    if local.profile_id != remote.profile_id {
        return MergeResult::Conflict { local: local.clone(), remote: remote.clone() };
    }
    if local.revision == remote.revision && bytes_equal(
        local.ciphertext.as_slice(),
        remote.ciphertext.as_slice(),
    ) {
        MergeResult::NoChange
    } else if local.revision < remote.revision {
        MergeResult::AppliedRemote(remote.clone())
    } else {
        MergeResult::Conflict { local: local.clone(), remote: remote.clone() }
    }
}

/// Comparing two records of one profile: a remote revision newer than the local one is applied
/// as it is, however many revisions ahead it is; an older remote revision is a conflict; an
/// equal revision is no change when the payloads agree and a conflict when they differ.
pub proof fn law_newer_remote_applied(local: RecordView, remote: RecordView)
    requires
        local.profile_id == remote.profile_id,
    ensures
        local.revision < remote.revision ==> merge_decision(local, remote)
            == MergeView::AppliedRemote(remote),
        remote.revision < local.revision ==> merge_decision(local, remote) == MergeView::Conflict(
            local,
            remote,
        ),
        local.revision == remote.revision && local.ciphertext == remote.ciphertext
            ==> merge_decision(local, remote) == MergeView::NoChange,
        local.revision == remote.revision && local.ciphertext != remote.ciphertext
            ==> merge_decision(local, remote) == MergeView::Conflict(local, remote),
{
}

/// Records of two different profiles never merge: comparing them is always a conflict.
pub proof fn law_other_profile_conflicts(local: RecordView, remote: RecordView)
    requires
        local.profile_id != remote.profile_id,
    ensures
        merge_decision(local, remote) == MergeView::Conflict(local, remote),
{
}

/// Profile identities compare as integers, so the map of records behaves as a map.
proof fn lemma_keys_ordered()
    ensures
        vstd::laws_cmp::obeys_cmp::<u128>(),
{
    broadcast use vstd::laws_cmp::group_laws_cmp;
}

/// Keys in increasing order, as a map of records yields them, are strictly increasing integers.
proof fn lemma_increasing_keys(keys: Seq<u128>)
    requires
        vstd::std_specs::btree::increasing_seq(keys),
    ensures
        forall|i: int, j: int| 0 <= i < j < keys.len() ==> keys[i] < keys[j],
{
    broadcast use vstd::std_specs::btree::group_btree_axioms;
    lemma_keys_ordered();
    assert forall|i: int, j: int| 0 <= i < j < keys.len() implies keys[i] < keys[j] by {
        assert(vstd::std_specs::cmp::OrdSpec::cmp_spec(&keys[i], &keys[j]) is Less);
    }
}

/// Every stored record is valid and filed under its own profile.
pub open spec fn store_consistent(m: Map<u128, RecordView>) -> bool {
    forall|k: u128| #[trigger] m.contains_key(k) ==> m[k].profile_id == k && record_valid(m[k])
}

/// Records kept in memory by profile, with the rules of the database store.
#[derive(Debug)]
pub struct MemorySyncStore {
    records: BTreeMap<u128, SyncRecord>,
}

impl View for MemorySyncStore {
    type V = Map<u128, RecordView>;

    closed spec fn view(&self) -> Map<u128, RecordView> {
        self.records@.map_values(|r: SyncRecord| r@)
    }
}

impl MemorySyncStore {
    #[verifier::type_invariant]
    spec fn keyed_and_valid(self) -> bool {
        forall|k: u128|
            #[trigger] self.records@.contains_key(k) ==> self.records@[k].profile_id == k
                && record_valid(self.records@[k]@)
    }

    pub fn new() -> (r: Self)
        ensures
            r@ == Map::<u128, RecordView>::empty(),
            store_consistent(r@),
    {
        let r = MemorySyncStore { records: BTreeMap::new() };
        proof {
            assert(r@ =~= Map::<u128, RecordView>::empty());
        }
        r
    }

    /// The stored records, in increasing order of their profiles.
    pub fn records(&self) -> (r: Vec<&SyncRecord>)
        ensures
            exists|keys: Seq<u128>|
                {
                    &&& keys.no_duplicates()
                    &&& keys.to_set() == self@.dom()
                    &&& forall|i: int, j: int| 0 <= i < j < keys.len() ==> keys[i] < keys[j]
                    &&& r@.len() == keys.len()
                    &&& forall|i: int| 0 <= i < keys.len() ==> (#[trigger] r@[i])@ == self@[keys[i]]
                },
    {
        proof {
            broadcast use vstd::std_specs::btree::group_btree_axioms;
            lemma_keys_ordered();
        }
        let values = self.records.values();
        let ghost keys = choose|key_seq: Seq<u128>|
            {
                &&& vstd::std_specs::btree::increasing_seq(key_seq)
                &&& key_seq.to_set() == self.records@.dom()
                &&& key_seq.no_duplicates()
                &&& vstd::std_specs::iter::IteratorSpec::remaining(&values) == key_seq.map(|i: int, k: u128| &self.records@[k])
            };
        let mut out: Vec<&SyncRecord> = Vec::new();
        for v in it: values
            invariant
                it.seq() == keys.map(|i: int, k: u128| &self.records@[k]),
                out@ == it.seq().take(it.index() as int),
            ensures
                out@ == keys.map(|i: int, k: u128| &self.records@[k]),
        {
            out.push(v);
        }
        proof {
            lemma_increasing_keys(keys);
        }
        out
    }

    pub fn get(&self, profile_id: u128) -> (r: Option<&SyncRecord>)
        ensures
            store_consistent(self@),
            self@.contains_key(profile_id) ==> (r matches Some(rec) && rec@ == self@[profile_id]),
            !self@.contains_key(profile_id) ==> r is None,
    {
        proof {
            use_type_invariant(self);
            broadcast use vstd::std_specs::btree::group_btree_axioms;
            lemma_keys_ordered();
            assert forall|k: u128| #[trigger] self@.contains_key(k) implies self@[k].profile_id == k
                && record_valid(self@[k]) by {
                assert(self.records@.contains_key(k));
                assert(self@[k] == self.records@[k]@);
            }
        }
        self.records.get(&profile_id)
    }

    /// Stores a record that is valid and newer than the stored one of its profile.
    pub fn insert(&mut self, record: SyncRecord) -> (r: Result<(), SyncError>)
        ensures
            store_consistent(final(self)@),
            !record_valid(record@) ==> (r matches Err(e) && e is InvalidRecord && final(self)@
                == old(self)@),
            record_valid(record@) && old(self)@.contains_key(record.profile_id) && record.revision
                <= old(self)@[record.profile_id].revision ==> (r matches Err(e) && (e matches SyncError::Store(
                m) && m@ == "record revision is not newer"@) && final(self)@ == old(self)@),
            record_valid(record@) && !(old(self)@.contains_key(record.profile_id)
                && record.revision <= old(self)@[record.profile_id].revision) ==> (r is Ok
                && final(self)@ == old(self)@.insert(record.profile_id, record@)),
    {
        proof {
            use_type_invariant(&*self);
            broadcast use vstd::std_specs::btree::group_btree_axioms;
            lemma_keys_ordered();
        }
        if let Err(e) = record.validate() {
            return Err(e);
        }
        if let Some(existing) = self.records.get(&record.profile_id) {
            if record.revision <= existing.revision {
                return Err(SyncError::Store(String::from_str("record revision is not newer")));
            }
        }
        let ghost before = self.records@;
        let mut records = BTreeMap::new();
        std::mem::swap(&mut records, &mut self.records);
        records.insert(record.profile_id, record);
        self.records = records;
        proof {
            assert(self@ =~= old(self)@.insert(record.profile_id, record@));
        }
        Ok(())
    }

    /// Applies a local change when the stored revision is the expected one: the record is
    /// stored one revision above it, or as given when the profile is new. Another stored
    /// revision is a conflict, and an expected revision of a profile that is not stored is a
    /// missing remote; neither changes the store.
    pub fn apply_local(&mut self, record: SyncRecord, expected_revision: Option<i64>) -> (r: Result<
        MergeResult,
        SyncError,
    >)
        ensures
            store_consistent(final(self)@),
            !record_valid(record@) ==> (r matches Err(e) && e is InvalidRecord && final(self)@
                == old(self)@),
            record_valid(record@) ==> r is Ok,
            record_valid(record@) ==> match old(self)@.get(record.profile_id) {
                Some(remote) => if expected_revision != Some(remote.revision) {
                    r matches Ok(m) && m@ == MergeView::Conflict(record@, remote)
                        && final(self)@ == old(self)@
                } else {
                    let applied = RecordView {
                        revision: if remote.revision == i64::MAX {
                            i64::MAX
                        } else {
                            (remote.revision + 1) as i64
                        },
                        ..record@
                    };
                    r matches Ok(m) && m@ == MergeView::AppliedRemote(applied) && final(self)@
                        == old(self)@.insert(record.profile_id, applied)
                },
                None => if expected_revision is Some {
                    r matches Ok(m) && m@ == MergeView::MissingRemote(record@) && final(self)@
                        == old(self)@
                } else {
                    r matches Ok(m) && m@ == MergeView::AppliedRemote(record@) && final(self)@
                        == old(self)@.insert(record.profile_id, record@)
                },
            },
    {
        proof {
            use_type_invariant(&*self);
            broadcast use vstd::std_specs::btree::group_btree_axioms;
            lemma_keys_ordered();
        }
        if let Err(e) = record.validate() {
            return Err(e);
        }
        let mut record = record;
        match self.records.get(&record.profile_id) {
            Some(remote) => {
                let matches_expected = match expected_revision {
                    Some(v) => v == remote.revision,
                    None => false,
                };
                if !matches_expected {
                    return Ok(MergeResult::Conflict { local: record, remote: remote.clone() });
                }
                record.revision = if remote.revision == i64::MAX {
                    i64::MAX
                } else {
                    remote.revision + 1
                };
            },
            None => {
                if expected_revision.is_some() {
                    return Ok(MergeResult::MissingRemote { local: record });
                }
            },
        }
        let stored = record.clone();
        let mut records = BTreeMap::new();
        std::mem::swap(&mut records, &mut self.records);
        records.insert(stored.profile_id, stored);
        self.records = records;
        proof {
            assert(self@ =~= old(self)@.insert(record.profile_id, record@));
        }
        Ok(MergeResult::AppliedRemote(record))
    }
}

impl Default for MemorySyncStore {
    fn default() -> (r: Self)
        ensures
            r@ == Map::<u128, RecordView>::empty(),
    {
        MemorySyncStore::new()
    }
}

#[verifier::external_type_specification]
#[verifier::external_body]
pub struct ExSystemTime(std::time::SystemTime);

/// Calls `SystemTime::now`. The time depends on the clock; nothing is stated of it.
#[verifier::external_body]
fn clock_now() -> (r: std::time::SystemTime) {
    std::time::SystemTime::now()
}

/// Calls `SystemTime::duration_since(UNIX_EPOCH)`: the whole milliseconds since the Unix epoch
/// (through `Duration::as_millis`), or `None` for a time before it. Nothing is stated of the
/// value, which depends on the time given.
#[verifier::external_body]
fn millis_since_epoch(time: &std::time::SystemTime) -> (r: Option<u128>) {
    match time.duration_since(std::time::UNIX_EPOCH) {
        Ok(elapsed) => Some(elapsed.as_millis()),
        Err(_) => None,
    }
}

/// A timestamp column value from milliseconds since the epoch: saturated at `i64::MAX`, which
/// also stands for a clock before the epoch.
pub open spec fn timestamp_of(millis: Option<u128>) -> i64 {
    match millis {
        Some(m) => if m <= i64::MAX {
            m as i64
        } else {
            i64::MAX
        },
        None => i64::MAX,
    }
}

pub fn timestamp_ms(millis: Option<u128>) -> (r: i64)
    ensures
        r == timestamp_of(millis),
{
    match millis {
        Some(m) => if m <= i64::MAX as u128 {
            m as i64
        } else {
            i64::MAX
        },
        None => i64::MAX,
    }
}

/// The current time in milliseconds since the Unix epoch, as stored with a record.
pub fn now_ms() -> (r: i64)
    ensures
        r >= 0,
{
    let now = clock_now();
    timestamp_ms(millis_since_epoch(&now))
}

/// The password of the synchronization database. Deliberately not `Debug`.
#[derive(Clone)]
pub struct DatabasePassword(String);

impl View for DatabasePassword {
    type V = Seq<char>;

    closed spec fn view(&self) -> Seq<char> {
        self.0@
    }
}

impl DatabasePassword {
    pub fn new(value: String) -> (r: Self)
        ensures
            r@ == value@,
    {
        DatabasePassword(value)
    }

    pub fn expose(&self) -> (r: &str)
        ensures
            r@ == self@,
    {
        self.0.as_str()
    }
}

#[derive(Clone)]
pub struct PostgresConfig {
    pub host: String,
    pub port: u16,
    pub database: String,
    pub username: String,
    pub password: DatabasePassword,
}

/// Why a database configuration is refused, if it is.
pub open spec fn postgres_config_problem(c: PostgresConfig) -> Option<Seq<char>> {
    if trim(c.host@).len() == 0 || trim(c.database@).len() == 0 || trim(c.username@).len() == 0 {
        Some("PostgreSQL host, database, and username are required"@)
    } else if c.port == 0 {
        Some("PostgreSQL port must be non-zero"@)
    } else {
        None
    }
}

impl PostgresConfig {
    pub fn validate(&self) -> (r: Result<(), SyncError>)
        ensures
            r is Ok <==> postgres_config_problem(*self) is None,
            r matches Err(e) ==> (e matches SyncError::InvalidRecord(m)
                && postgres_config_problem(*self) == Some(m@)),
    {
        if trim_str(self.host.as_str()).unicode_len() == 0 || trim_str(
            self.database.as_str(),
        ).unicode_len() == 0 || trim_str(self.username.as_str()).unicode_len() == 0 {
            return Err(
                SyncError::InvalidRecord(
                    String::from_str("PostgreSQL host, database, and username are required"),
                ),
            );
        }
        if self.port == 0 {
            return Err(SyncError::InvalidRecord(String::from_str("PostgreSQL port must be non-zero")));
        }
        Ok(())
    }
}

/// How the database's TLS certificate is trusted.
#[derive(Clone, Debug)]
pub enum TlsTrust {
    WebPkiRoots,
    CustomCaPem(Vec<u8>),
    Sha256Fingerprint([u8; 32]),
}

} // verus!
