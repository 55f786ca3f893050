//! Delta-engine settings and errors, and the comparison of file-state tables.
use vstd::prelude::*;

verus! {

/// How a conflict between two edited versions is to be settled.
#[derive(Debug, Clone, Copy, PartialEq, Eq, Structural)]
pub enum ConflictResolutionMode {
    Manual,
    LocalWins,
    RemoteWins,
    Timestamp,
    Size,
}

/// Settings of the delta engine.
#[derive(Debug, Clone)]
pub struct SyncOptions {
    /// Block size of the delta generator, in bytes.
    pub chunk_size: usize,
    pub compression_enabled: bool,
    pub conflict_resolution: ConflictResolutionMode,
    /// Bytes per second.
    pub bandwidth_limit: Option<u64>,
    pub max_file_size: Option<u64>,
    pub exclude_patterns: Vec<String>,
}

/// Default block size: one mebibyte.
pub const DEFAULT_CHUNK_SIZE: usize = 1048576;

/// Default size limit: ten gibibytes.
pub const DEFAULT_MAX_FILE_SIZE: u64 = 10737418240;

impl Default for SyncOptions {
    fn default() -> (r: Self)
        ensures
            r.chunk_size == DEFAULT_CHUNK_SIZE,
            r.compression_enabled,
            r.conflict_resolution == ConflictResolutionMode::Manual,
            r.bandwidth_limit.is_none(),
            r.max_file_size == Some(DEFAULT_MAX_FILE_SIZE),
            r.exclude_patterns@.len() == 4,
            r.exclude_patterns@[0]@ == ".DS_Store"@,
            r.exclude_patterns@[1]@ == "Thumbs.db"@,
            r.exclude_patterns@[2]@ == ".tmp"@,
            r.exclude_patterns@[3]@ == ".temp"@,
    {
        let mut exclude_patterns: Vec<String> = Vec::new();
        exclude_patterns.push(".DS_Store".to_string());
        exclude_patterns.push("Thumbs.db".to_string());
        exclude_patterns.push(".tmp".to_string());
        exclude_patterns.push(".temp".to_string());
        SyncOptions {
            chunk_size: DEFAULT_CHUNK_SIZE,
            compression_enabled: true,
            conflict_resolution: ConflictResolutionMode::Manual,
            bandwidth_limit: None,
            max_file_size: Some(DEFAULT_MAX_FILE_SIZE),
            exclude_patterns,
        }
    }
}

/// Failures of the delta engine.
#[derive(Debug, Clone, PartialEq, Eq)]
pub enum SyncError {
    /// The reference content could not supply the bytes asked for.
    Io(String),
    Serialization(String),
    Conflict(String),
    FileTooLarge { size: u64 },
    Network(String),
    Compression(String),
    ChecksumMismatch,
    Engine(String),
}


/// The mathematical reading of a file's recorded state.
pub ghost struct StateView {
    pub path: Seq<char>,
    pub hash: Seq<char>,
    pub modified: int,
    pub size: int,
}

/// The recorded state of one file.
#[derive(Debug, Clone)]
pub struct SyncState {
    pub path: String,
    pub hash: String,
    /// Last modification, in milliseconds since the Unix epoch (UTC).
    pub modified: i64,
    pub size: u64,
}

impl View for SyncState {
    type V = StateView;

    open spec fn view(&self) -> StateView {
        StateView { path: self.path@, hash: self.hash@, modified: self.modified as int, size: self.size as int }
    }
}

impl SyncState {
    /// A copy with the same contents.
    pub fn duplicate(&self) -> (r: SyncState)
        ensures
            r@ == self@,
    {
        SyncState { path: self.path.clone(), hash: self.hash.clone(), modified: self.modified, size: self.size }
    }
}

/// What changed between the local and a remote set of file states.
#[derive(Debug, Clone)]
pub struct SyncDelta {
    pub added: Vec<SyncState>,
    pub modified: Vec<SyncState>,
    pub deleted: Vec<String>,
}

/// A keyed table of file states, read mathematically.
pub open spec fn entries_view(entries: Seq<(String, SyncState)>) -> Seq<(Seq<char>, StateView)> {
    entries.map_values(|e: (String, SyncState)| (e.0@, e.1@))
}

/// The index of the first entry under `key` among the first `n`.
pub open spec fn first_key(entries: Seq<(Seq<char>, StateView)>, key: Seq<char>, n: int) -> Option<int>
    decreases n,
{
    if n <= 0 {
        None
    } else {
        match first_key(entries, key, n - 1) {
            Some(i) => Some(i),
            None => if entries[n - 1].0 == key {
                Some(n - 1)
            } else {
                None
            },
        }
    }
}

/// The state recorded under `key`, if any.
pub open spec fn lookup(entries: Seq<(Seq<char>, StateView)>, key: Seq<char>) -> Option<StateView> {
    match first_key(entries, key, entries.len() as int) {
        Some(i) => Some(entries[i].1),
        None => None,
    }
}

/// Remote states, among the first `n`, whose key the local table lacks.
pub open spec fn added_states(local: Seq<(Seq<char>, StateView)>, remote: Seq<(Seq<char>, StateView)>, n: int) -> Seq<
    StateView,
>
    decreases n,
{
    if n <= 0 {
        Seq::empty()
    } else {
        let prev = added_states(local, remote, n - 1);
        if lookup(local, remote[n - 1].0) is None {
            prev.push(remote[n - 1].1)
        } else {
            prev
        }
    }
}

/// Remote states, among the first `n`, whose key the local table holds with
/// another hash.
pub open spec fn modified_states(local: Seq<(Seq<char>, StateView)>, remote: Seq<(Seq<char>, StateView)>, n: int) -> Seq<
    StateView,
>
    decreases n,
{
    if n <= 0 {
        Seq::empty()
    } else {
        let prev = modified_states(local, remote, n - 1);
        match lookup(local, remote[n - 1].0) {
            Some(l) => if l.hash != remote[n - 1].1.hash {
                prev.push(remote[n - 1].1)
            } else {
                prev
            },
            None => prev,
        }
    }
}

/// Local keys, among the first `n`, that the remote table lacks.
pub open spec fn deleted_keys(local: Seq<(Seq<char>, StateView)>, remote: Seq<(Seq<char>, StateView)>, n: int) -> Seq<
    Seq<char>,
>
    decreases n,
{
    if n <= 0 {
        Seq::empty()
    } else {
        let prev = deleted_keys(local, remote, n - 1);
        if lookup(remote, local[n - 1].0) is None {
            prev.push(local[n - 1].0)
        } else {
            prev
        }
    }
}

proof fn lemma_first_key_stable(entries: Seq<(Seq<char>, StateView)>, key: Seq<char>, n: int, m: int)
    requires
        0 <= n <= m,
        first_key(entries, key, n) is Some,
    ensures
        first_key(entries, key, m) == first_key(entries, key, n),
    decreases m - n,
{
    if m > n {
        lemma_first_key_stable(entries, key, n, m - 1);
    }
}

proof fn lemma_first_key_found(entries: Seq<(Seq<char>, StateView)>, key: Seq<char>, n: int, i: int)
    requires
        first_key(entries, key, n) == Some(i),
    ensures
        0 <= i < n,
        entries[i].0 == key,
    decreases n,
{
    if n > 0 {
        match first_key(entries, key, n - 1) {
            Some(j) => lemma_first_key_found(entries, key, n - 1, i),
            None => {},
        }
    }
}

/// The index of the first entry under `key`.
pub fn find_key(entries: &[(String, SyncState)], key: &String) -> (r: Option<usize>)
    ensures
        match r {
            Some(i) => i < entries@.len() && first_key(entries_view(entries@), key@, entries@.len() as int) == Some(
                i as int,
            ),
            None => first_key(entries_view(entries@), key@, entries@.len() as int) == None::<int>,
        },
{
    let ghost view = entries_view(entries@);
    let mut i: usize = 0;
    while i < entries.len()
        invariant
            view == entries_view(entries@),
            i <= entries@.len(),
            first_key(view, key@, i as int) == None::<int>,
        decreases entries@.len() - i,
    {
        if entries[i].0 == *key {
            proof {
                assert(view[i as int].0 == key@);
                lemma_first_key_stable(view, key@, i + 1, entries@.len() as int);
            }
            return Some(i);
        }
        proof {
            assert(view[i as int].0 != key@);
        }
        i = i + 1;
    }
    None
}

/// The local record of file states, one per key.
pub struct SyncEngine {
    local_state: Vec<(String, SyncState)>,
}

/// No key occurs twice.
pub open spec fn keys_unique(entries: Seq<(Seq<char>, StateView)>) -> bool {
    forall|i: int, j: int| 0 <= i < j < entries.len() ==> entries[i].0 != entries[j].0
}

impl SyncEngine {
    pub closed spec fn entries(&self) -> Seq<(Seq<char>, StateView)> {
        entries_view(self.local_state@)
    }

    pub open spec fn wf(&self) -> bool {
        keys_unique(self.entries())
    }

    pub fn new() -> (r: Self)
        ensures
            r.wf(),
            r.entries() == Seq::<(Seq<char>, StateView)>::empty(),
    {
        let r = SyncEngine { local_state: Vec::new() };
        proof {
            assert(r.entries() =~= Seq::<(Seq<char>, StateView)>::empty());
        }
        r
    }

    /// Compares a remote table with the local one: remote files the local
    /// table lacks are added, those it holds with another hash are modified,
    /// and local keys the remote table lacks are deleted. Each list keeps the
    /// order of the table it comes from.
    pub fn compute_delta(&self, remote_state: &[(String, SyncState)]) -> (r: SyncDelta)
        ensures
            r.added@.map_values(|s: SyncState| s@) == added_states(
                self.entries(),
                entries_view(remote_state@),
                remote_state@.len() as int,
            ),
            r.modified@.map_values(|s: SyncState| s@) == modified_states(
                self.entries(),
                entries_view(remote_state@),
                remote_state@.len() as int,
            ),
            r.deleted@.map_values(|s: String| s@) == deleted_keys(
                self.entries(),
                entries_view(remote_state@),
                self.entries().len() as int,
            ),
    {
        let ghost local = self.entries();
        let ghost remote = entries_view(remote_state@);
        let mut added: Vec<SyncState> = Vec::new();
        let mut modified: Vec<SyncState> = Vec::new();
        let mut deleted: Vec<String> = Vec::new();
        let mut i: usize = 0;
        proof {
            assert(added@.map_values(|s: SyncState| s@) =~= Seq::<StateView>::empty());
            assert(modified@.map_values(|s: SyncState| s@) =~= Seq::<StateView>::empty());
        }
        while i < remote_state.len()
            invariant
                local == self.entries(),
                remote == entries_view(remote_state@),
                i <= remote_state@.len(),
                added@.map_values(|s: SyncState| s@) == added_states(local, remote, i as int),
                modified@.map_values(|s: SyncState| s@) == modified_states(local, remote, i as int),
            decreases remote_state@.len() - i,
        {
            let (path, remote_file) = &remote_state[i];
            proof {
                assert(remote[i as int].0 == path@);
                assert(remote[i as int].1 == remote_file@);
            }
            let ghost before_added = added@.map_values(|s: SyncState| s@);
            let ghost before_modified = modified@.map_values(|s: SyncState| s@);
            match find_key(self.local_state.as_slice(), path) {
                None => {
                    added.push(remote_file.duplicate());
                    proof {
                        assert(added@.map_values(|s: SyncState| s@) =~= before_added.push(remote_file@));
                    }
                },
                Some(k) => {
                    proof {
                        assert(lookup(local, path@) == Some(local[k as int].1));
                    }
                    if self.local_state[k].1.hash != remote_file.hash {
                        modified.push(remote_file.duplicate());
                        proof {
                            assert(modified@.map_values(|s: SyncState| s@) =~= before_modified.push(
                                remote_file@,
                            ));
                        }
                    }
                },
            }
            i = i + 1;
        }
        let mut j: usize = 0;
        proof {
            assert(deleted@.map_values(|s: String| s@) =~= Seq::<Seq<char>>::empty());
        }
        while j < self.local_state.len()
            invariant
                local == self.entries(),
                remote == entries_view(remote_state@),
                j <= local.len(),
                deleted@.map_values(|s: String| s@) == deleted_keys(local, remote, j as int),
            decreases local.len() - j,
        {
            let path = &self.local_state[j].0;
            proof {
                assert(local[j as int].0 == path@);
            }
            let ghost before = deleted@.map_values(|s: String| s@);
            if find_key(remote_state, path).is_none() {
                deleted.push(path.clone());
                proof {
                    assert(deleted@.map_values(|s: String| s@) =~= before.push(path@));
                }
            }
            j = j + 1;
        }
        SyncDelta { added, modified, deleted }
    }

    /// Records `state` under `path`, replacing what was recorded there.
    pub fn update_state(&mut self, path: String, state: SyncState)
        requires
            old(self).wf(),
        ensures
            final(self).wf(),
            match first_key(old(self).entries(), path@, old(self).entries().len() as int) {
                Some(i) => final(self).entries() == old(self).entries().update(i, (path@, state@)),
                None => final(self).entries() == old(self).entries().push((path@, state@)),
            },
    {
        let ghost before = self.entries();
        let ghost key = path@;
        let ghost value = state@;
        match find_key(self.local_state.as_slice(), &path) {
            Some(i) => {
                proof {
                    lemma_first_key_found(before, key, before.len() as int, i as int);
                }
                self.local_state.set(i, (path, state));
                proof {
                    assert(self.entries() =~= before.update(i as int, (key, value)));
                }
            },
            None => {
                proof {
                    assert forall|k: int| 0 <= k < before.len() implies before[k].0 != key by {
                        if before[k].0 == key {
                            lemma_first_key_absent(before, key, before.len() as int, k);
                        }
                    }
                }
                self.local_state.push((path, state));
                proof {
                    assert(self.entries() =~= before.push((key, value)));
                }
            },
        }
    }

    /// Forgets what is recorded under `path`.
    pub fn remove_state(&mut self, path: &str)
        requires
            old(self).wf(),
        ensures
            final(self).wf(),
            match first_key(old(self).entries(), path@, old(self).entries().len() as int) {
                Some(i) => final(self).entries() == old(self).entries().remove(i),
                None => final(self).entries() == old(self).entries(),
            },
    {
        let key = path.to_string();
        let ghost before = self.entries();
        match find_key(self.local_state.as_slice(), &key) {
            Some(i) => {
                self.local_state.remove(i);
                proof {
                    assert(self.entries() =~= before.remove(i as int));
                }
            },
            None => {},
        }
    }
}

proof fn lemma_first_key_absent(entries: Seq<(Seq<char>, StateView)>, key: Seq<char>, n: int, k: int)
    requires
        first_key(entries, key, n) is None,
        0 <= k < n,
        n <= entries.len(),
    ensures
        entries[k].0 != key,
    decreases n,
{
    if k < n - 1 {
        lemma_first_key_absent(entries, key, n - 1, k);
    }
}

} // verus!
