//! Trait definitions for byte-oriented key-value stores, and a verified
//! in-memory store implementing them.
//!
//! A store maps byte keys to byte values and is written through atomic
//! batches of put, delete, and delete-by-prefix operations.  Contracts are
//! stated per key, through the `kv_lookup` view of a store's entries.

use vstd::prelude::*;

verus! {

/// The first value bound to `k`, if any.
pub open spec fn kv_lookup(s: Seq<(Vec<u8>, Vec<u8>)>, k: Seq<u8>) -> Option<Seq<u8>>
    decreases s.len(),
{
    if s.len() == 0 {
        None
    } else if s[0].0@ == k {
        Some(s[0].1@)
    } else {
        kv_lookup(s.drop_first(), k)
    }
}

/// Whether `p` is a prefix of `k`.
pub open spec fn is_prefix(p: Seq<u8>, k: Seq<u8>) -> bool {
    p.len() <= k.len() && k.subrange(0, p.len() as int) == p
}

/// A write operation of a batch.
#[derive(Debug)]
pub enum WriteOperation {
    /// Bind `key` to `value`.
    Put { key: Vec<u8>, value: Vec<u8> },
    /// Unbind `key`.
    Delete { key: Vec<u8> },
    /// Unbind every key starting with `key_prefix`.
    DeletePrefix { key_prefix: Vec<u8> },
}

/// An ordered list of write operations, applied atomically.
#[derive(Debug)]
pub struct Batch {
    pub operations: Vec<WriteOperation>,
}

impl Batch {
    /// An empty batch.
    pub fn new() -> (r: Batch)
        ensures
            r.operations@.len() == 0,
    {
        Batch { operations: Vec::new() }
    }
}

/// What one operation leaves bound to `k`, given what was bound before.
pub open spec fn op_lookup(op: &WriteOperation, k: Seq<u8>, base: Option<Seq<u8>>) -> Option<
    Seq<u8>,
> {
    match op {
        WriteOperation::Put { key, value } => if key@ == k {
            Some(value@)
        } else {
            base
        },
        WriteOperation::Delete { key } => if key@ == k {
            None
        } else {
            base
        },
        WriteOperation::DeletePrefix { key_prefix } => if is_prefix(key_prefix@, k) {
            None
        } else {
            base
        },
    }
}

/// What a whole batch leaves bound to `k`.
pub open spec fn batch_lookup(ops: Seq<WriteOperation>, k: Seq<u8>, base: Option<Seq<u8>>) -> Option<
    Seq<u8>,
>
    decreases ops.len(),
{
    if ops.len() == 0 {
        base
    } else {
        op_lookup(&ops.last(), k, batch_lookup(ops.drop_last(), k, base))
    }
}

/// The entries whose keys start with `p`, in store order.
pub open spec fn prefixed_entries(
    s: Seq<(Vec<u8>, Vec<u8>)>,
    p: Seq<u8>,
) -> Seq<(Vec<u8>, Vec<u8>)> {
    s.filter(|e: (Vec<u8>, Vec<u8>)| is_prefix(p, e.0@))
}

/// The error type of a key-value store backend.
pub trait KeyValueStoreError: Sized {
    /// The name of the backend.
    fn backend_name() -> String;
}

/// Associates a store with its error type.
pub trait WithError {
    /// The error type.
    type Error: KeyValueStoreError;
}

/// Read operations of a key-value store.
pub trait ReadableKeyValueStore: WithError {
    /// The entries of the store, for specifications.
    spec fn entries_view(&self) -> Seq<(Vec<u8>, Vec<u8>)>;

    /// The store's own well-formedness condition.
    spec fn store_wf(&self) -> bool;

    /// How many simultaneous streamed queries the store serves.
    fn max_stream_queries(&self) -> usize;

    /// Retrieves the value bound to `key`.
    fn read_value_bytes(&self, key: &Vec<u8>) -> (r: Result<Option<Vec<u8>>, Self::Error>)
        ensures
            match r {
                Ok(Some(v)) => kv_lookup(self.entries_view(), key@) == Some(v@),
                Ok(None) => kv_lookup(self.entries_view(), key@) is None,
                Err(_) => false,
            },
    ;

    /// Tests whether `key` is bound.
    fn contains_key(&self, key: &Vec<u8>) -> (r: Result<bool, Self::Error>)
        ensures
            match r {
                Ok(b) => b == (kv_lookup(self.entries_view(), key@) is Some),
                Err(_) => false,
            },
    ;

    /// Tests whether each of a list of keys is bound.
    fn contains_keys(&self, keys: &Vec<Vec<u8>>) -> (r: Result<Vec<bool>, Self::Error>)
        ensures
            match r {
                Ok(bs) => bs@.len() == keys@.len() && forall|i: int|
                    0 <= i < keys@.len() ==> (#[trigger] bs@[i]) == (kv_lookup(
                        self.entries_view(),
                        keys@[i]@,
                    ) is Some),
                Err(_) => false,
            },
    ;

    /// Retrieves the values bound to a list of keys, in order.
    fn read_multi_values_bytes(&self, keys: &Vec<Vec<u8>>) -> (r: Result<
        Vec<Option<Vec<u8>>>,
        Self::Error,
    >)
        ensures
            match r {
                Ok(vs) => vs@.len() == keys@.len() && forall|i: int|
                    0 <= i < keys@.len() ==> (match #[trigger] vs@[i] {
                        Some(v) => kv_lookup(self.entries_view(), keys@[i]@) == Some(v@),
                        None => kv_lookup(self.entries_view(), keys@[i]@) is None,
                    }),
                Err(_) => false,
            },
    ;

    /// The keys starting with `key_prefix`, with the prefix stripped: one
    /// suffix per bound key with that prefix, in store order.
    fn find_keys_by_prefix(&self, key_prefix: &Vec<u8>) -> (r: Result<Vec<Vec<u8>>, Self::Error>)
        ensures
            match r {
                Ok(ks) => {
                    &&& ks@.len() == prefixed_entries(self.entries_view(), key_prefix@).len()
                    &&& forall|i: int|
                        0 <= i < ks@.len() ==> key_prefix@ + (#[trigger] ks@[i])@
                            == prefixed_entries(self.entries_view(), key_prefix@)[i].0@
                    &&& forall|i: int|
                        0 <= i < ks@.len() ==> kv_lookup(
                            self.entries_view(),
                            key_prefix@ + (#[trigger] ks@[i])@,
                        ) is Some
                },
                Err(_) => false,
            },
    ;

    /// The key-value pairs whose keys start with `key_prefix`, the prefix
    /// stripped from each key, in store order.
    fn find_key_values_by_prefix(&self, key_prefix: &Vec<u8>) -> (r: Result<
        Vec<(Vec<u8>, Vec<u8>)>,
        Self::Error,
    >)
        ensures
            match r {
                Ok(kvs) => {
                    &&& kvs@.len() == prefixed_entries(self.entries_view(), key_prefix@).len()
                    &&& forall|i: int|
                        0 <= i < kvs@.len() ==> key_prefix@ + (#[trigger] kvs@[i]).0@
                            == prefixed_entries(self.entries_view(), key_prefix@)[i].0@
                            && kvs@[i].1@ == prefixed_entries(
                            self.entries_view(),
                            key_prefix@,
                        )[i].1@
                },
                Err(_) => false,
            },
    ;
}

/// Write operations of a key-value store.
pub trait WritableKeyValueStore: WithError + ReadableKeyValueStore {
    /// Applies a batch atomically: afterwards each key is bound to what the
    /// batch's operations, applied in order, leave for it.
    fn write_batch(&mut self, batch: Batch) -> (r: Result<(), Self::Error>)
        requires
            old(self).store_wf(),
        ensures
            final(self).store_wf(),
            match r {
                Ok(()) => forall|k: Seq<u8>|
                    #![trigger kv_lookup(final(self).entries_view(), k)]
                    kv_lookup(final(self).entries_view(), k) == batch_lookup(
                        batch.operations@,
                        k,
                        kv_lookup(old(self).entries_view(), k),
                    ),
                Err(_) => false,
            },
    ;

    /// Clears any journal entry that may remain.
    fn clear_journal(&mut self) -> (r: Result<(), Self::Error>)
        ensures
            match r {
                Ok(()) => final(self).entries_view() == old(self).entries_view(),
                Err(_) => false,
            },
    ;
}

/// Administration of stores and their namespaces.  A configuration owns the
/// registry of namespaces; creating and deleting namespaces changes it.
pub trait AdminKeyValueStore: WithError + Sized {
    /// The configuration needed to interact with a store.
    type Config;

    /// The namespaces of a configuration, for specifications.
    spec fn config_namespaces(config: &Self::Config) -> Seq<Seq<char>>;

    /// The name of this class of stores.
    fn get_name() -> String;

    /// Connects to an existing namespace.
    fn connect(config: &Self::Config, namespace: &String) -> Result<Self, Self::Error>;

    /// Opens the key partition starting at `root_key`: a connection whose
    /// entries are this store's entries under that prefix, with the prefix
    /// stripped.  The partition is assumed to have one user at a time.
    fn open_exclusive(&self, root_key: &Vec<u8>) -> Result<Self, Self::Error>;

    /// The root keys of a namespace.
    fn list_root_keys(config: &Self::Config, namespace: &String) -> (r: Result<
        Vec<Vec<u8>>,
        Self::Error,
    >);

    /// The existing namespaces.
    fn list_all(config: &Self::Config) -> (r: Result<Vec<String>, Self::Error>)
        ensures
            match r {
                Ok(ns) => ns@.len() == Self::config_namespaces(config).len() && forall|i: int|
                    0 <= i < ns@.len() ==> (#[trigger] ns@[i])@ == Self::config_namespaces(
                        config,
                    )[i],
                Err(_) => false,
            },
    ;

    /// Tests whether a namespace exists.
    fn contains_namespace(config: &Self::Config, namespace: &String) -> (r: Result<bool, Self::Error>)
        ensures
            match r {
                Ok(b) => b == Self::config_namespaces(config).contains(namespace@),
                Err(_) => false,
            },
    ;

    /// Creates a namespace; a namespace that exists is refused.
    fn create(config: &mut Self::Config, namespace: &String) -> (r: Result<(), Self::Error>)
        ensures
            r is Ok <==> !Self::config_namespaces(old(config)).contains(
                namespace@,
            ),
            r is Ok ==> Self::config_namespaces(final(config)) == Self::config_namespaces(
                old(config),
            ).push(namespace@),
            r is Err ==> Self::config_namespaces(final(config)) == Self::config_namespaces(
                old(config),
            ),
    ;

    /// Deletes a namespace; a namespace that does not exist is refused.
    fn delete(config: &mut Self::Config, namespace: &String) -> (r: Result<(), Self::Error>)
        ensures
            r is Ok <==> Self::config_namespaces(old(config)).contains(
                namespace@,
            ),
            forall|n: Seq<char>|
                #[trigger] Self::config_namespaces(final(config)).contains(n) == (
                Self::config_namespaces(old(config)).contains(n) && n != namespace@),
    ;

    /// Deletes every namespace.
    fn delete_all(config: &mut Self::Config) -> (r: Result<(), Self::Error>)
        ensures
            match r {
                Ok(()) => Self::config_namespaces(final(config)).len() == 0,
                Err(_) => false,
            },
    ;

    /// Connects to a namespace, creating it first when missing.
    fn maybe_create_and_connect(config: &mut Self::Config, namespace: &String) -> Result<
        Self,
        Self::Error,
    >;

    /// Connects to a namespace created afresh, discarding earlier contents.
    fn recreate_and_connect(config: &mut Self::Config, namespace: &String) -> Result<
        Self,
        Self::Error,
    >;
}

/// Read and write operations together.
pub trait RestrictedKeyValueStore: ReadableKeyValueStore + WritableKeyValueStore {
}

impl<T: ReadableKeyValueStore + WritableKeyValueStore> RestrictedKeyValueStore for T {

}

/// Read, write, and administration operations together.
pub trait KeyValueStore: ReadableKeyValueStore + WritableKeyValueStore + AdminKeyValueStore {
}

impl<T: ReadableKeyValueStore + WritableKeyValueStore + AdminKeyValueStore> KeyValueStore for T {

}

/// The functions needed for testing purposes.
pub trait TestKeyValueStore: KeyValueStore {
    /// A configuration for tests.
    fn new_test_config() -> Result<Self::Config, Self::Error>;

    /// A store for tests, in a fresh namespace.
    fn new_test_store() -> Result<Self, Self::Error>;
}

/// The error of the in-memory store.  No in-memory operation fails, so a
/// value of this type is never made.
#[derive(Debug)]
pub struct MemoryStoreError {
    pub code: u64,
}

impl KeyValueStoreError for MemoryStoreError {
    fn backend_name() -> String {
        "memory".to_string()
    }
}

/// The registry of in-memory namespaces.
#[derive(Debug)]
pub struct MemoryStoreConfig {
    pub names: Vec<String>,
    pub max_stream_queries: usize,
}

impl MemoryStoreConfig {
    /// A registry with no namespaces.
    pub fn new(max_stream_queries: usize) -> (r: MemoryStoreConfig)
        ensures
            r.names@.len() == 0,
            r.max_stream_queries == max_stream_queries,
    {
        MemoryStoreConfig { names: Vec::new(), max_stream_queries }
    }
}

/// An in-memory key-value store: the verified stand-in for a browser- or
/// disk-backed store.  Connections do not share data; a store value owns
/// its entries.
#[derive(Debug)]
pub struct MemoryStore {
    pub entries: Vec<(Vec<u8>, Vec<u8>)>,
    pub max_stream_queries: usize,
}

/// Compares two byte strings.
pub fn bytes_eq(a: &Vec<u8>, b: &Vec<u8>) -> (r: bool)
    ensures
        r == (a@ == b@),
{
    if a.len() != b.len() {
        proof {
            assert(a@ != b@) by {
                assert(a@.len() != b@.len());
            }
        }
        return false;
    }
    let mut i: usize = 0;
    while i < a.len()
        invariant
            a@.len() == b@.len(),
            0 <= i <= a@.len(),
            forall|j: int| 0 <= j < i ==> (#[trigger] a@[j]) == b@[j],
        decreases a@.len() - i,
    {
        if a[i] != b[i] {
            return false;
        }
        i += 1;
    }
    proof {
        assert(a@ =~= b@);
    }
    true
}

/// Tests whether `key` starts with `prefix`.
pub fn starts_with(key: &Vec<u8>, prefix: &Vec<u8>) -> (r: bool)
    ensures
        r == is_prefix(prefix@, key@),
{
    if prefix.len() > key.len() {
        return false;
    }
    let mut i: usize = 0;
    while i < prefix.len()
        invariant
            prefix@.len() <= key@.len(),
            0 <= i <= prefix@.len(),
            forall|j: int| 0 <= j < i ==> (#[trigger] key@[j]) == prefix@[j],
        decreases prefix@.len() - i,
    {
        if key[i] != prefix[i] {
            proof {
                assert(key@.subrange(0, prefix@.len() as int)[i as int] != prefix@[i as int]);
            }
            return false;
        }
        i += 1;
    }
    proof {
        assert(key@.subrange(0, prefix@.len() as int) =~= prefix@);
    }
    true
}

/// A scan that stops at the first matching key agrees with `kv_lookup`.
pub proof fn lemma_kv_at(s: Seq<(Vec<u8>, Vec<u8>)>, k: Seq<u8>, i: int)
    requires
        0 <= i < s.len(),
        s[i].0@ == k,
        forall|j: int| 0 <= j < i ==> s[j].0@ != k,
    ensures
        kv_lookup(s, k) == Some(s[i].1@),
    decreases i,
{
    if i > 0 {
        lemma_kv_at(s.drop_first(), k, i - 1);
    }
}

/// A scan that matches nowhere agrees with `kv_lookup`.
pub proof fn lemma_kv_none(s: Seq<(Vec<u8>, Vec<u8>)>, k: Seq<u8>)
    requires
        forall|j: int| 0 <= j < s.len() ==> s[j].0@ != k,
    ensures
        kv_lookup(s, k) is None,
    decreases s.len(),
{
    if s.len() > 0 {
        lemma_kv_none(s.drop_first(), k);
    }
}

/// `kv_lookup` under an update of an index holding the same key.
pub proof fn lemma_kv_update(s: Seq<(Vec<u8>, Vec<u8>)>, i: int, v: (Vec<u8>, Vec<u8>), k: Seq<u8>)
    requires
        0 <= i < s.len(),
        v.0@ == s[i].0@,
        forall|a: int, b: int| 0 <= a < b < s.len() ==> s[a].0@ != s[b].0@,
    ensures
        kv_lookup(s.update(i, v), k) == if s[i].0@ == k {
            Some(v.1@)
        } else {
            kv_lookup(s, k)
        },
    decreases s.len(),
{
    if s.len() > 0 {
        assert(s.update(i, v)[0] == if i == 0 {
            v
        } else {
            s[0]
        });
        if i == 0 {
            assert(s.update(i, v).drop_first() =~= s.drop_first());
        } else {
            assert(s.update(i, v).drop_first() =~= s.drop_first().update(i - 1, v));
            assert forall|a: int, b: int|
                0 <= a < b < s.drop_first().len() implies s.drop_first()[a].0@ != s.drop_first()[b].0@ by {
                assert(s.drop_first()[a] == s[a + 1]);
                assert(s.drop_first()[b] == s[b + 1]);
            }
            assert(s.drop_first()[i - 1] == s[i]);
            lemma_kv_update(s.drop_first(), i - 1, v, k);
        }
    }
}

/// `kv_lookup` under a push.
pub proof fn lemma_kv_push(s: Seq<(Vec<u8>, Vec<u8>)>, v: (Vec<u8>, Vec<u8>), k: Seq<u8>)
    ensures
        kv_lookup(s.push(v), k) == if kv_lookup(s, k) is Some {
            kv_lookup(s, k)
        } else if v.0@ == k {
            Some(v.1@)
        } else {
            None
        },
    decreases s.len(),
{
    assert(s.push(v).len() == s.len() + 1);
    if s.len() == 0 {
        assert(s.push(v)[0] == v);
        assert(s.push(v).drop_first() =~= Seq::<(Vec<u8>, Vec<u8>)>::empty());
        assert(kv_lookup(s.push(v), k) == if v.0@ == k {
            Some(v.1@)
        } else {
            None::<Seq<u8>>
        });
    } else {
        assert(s.push(v)[0] == s[0]);
        assert(s.push(v).drop_first() =~= s.drop_first().push(v));
        lemma_kv_push(s.drop_first(), v, k);
        assert(kv_lookup(s.push(v), k) == if s.push(v)[0].0@ == k {
            Some(s.push(v)[0].1@)
        } else {
            kv_lookup(s.push(v).drop_first(), k)
        });
    }
}

/// `kv_lookup` under a removal.
pub proof fn lemma_kv_remove(s: Seq<(Vec<u8>, Vec<u8>)>, i: int, k: Seq<u8>)
    requires
        0 <= i < s.len(),
        forall|a: int, b: int| 0 <= a < b < s.len() ==> s[a].0@ != s[b].0@,
    ensures
        kv_lookup(s.remove(i), k) == if s[i].0@ == k {
            None
        } else {
            kv_lookup(s, k)
        },
    decreases s.len(),
{
    if s.len() > 0 {
        if i == 0 {
            assert(s.remove(0) =~= s.drop_first());
            if s[0].0@ == k {
                assert forall|j: int| 0 <= j < s.drop_first().len() implies s.drop_first()[j].0@ != k by {
                    assert(s.drop_first()[j] == s[j + 1]);
                }
                lemma_kv_none(s.drop_first(), k);
            }
        } else {
            assert(s.remove(i)[0] == s[0]);
            assert(s.remove(i).drop_first() =~= s.drop_first().remove(i - 1));
            assert forall|a: int, b: int|
                0 <= a < b < s.drop_first().len() implies s.drop_first()[a].0@ != s.drop_first()[b].0@ by {
                assert(s.drop_first()[a] == s[a + 1]);
                assert(s.drop_first()[b] == s[b + 1]);
            }
            assert(s.drop_first()[i - 1] == s[i]);
            lemma_kv_remove(s.drop_first(), i - 1, k);
        }
    }
}

impl MemoryStore {
    /// Well-formedness: no key twice.
    pub open spec fn wf(&self) -> bool {
        forall|a: int, b: int|
            0 <= a < b < self.entries@.len() ==> (#[trigger] self.entries@[a]).0@ != (
            #[trigger] self.entries@[b]).0@
    }

    /// An empty store.
    pub fn new(max_stream_queries: usize) -> (r: MemoryStore)
        ensures
            r.entries@.len() == 0,
            r.wf(),
            r.max_stream_queries == max_stream_queries,
    {
        MemoryStore { entries: Vec::new(), max_stream_queries }
    }

    /// Finds the index of `key`.
    fn find_key_index(&self, key: &Vec<u8>) -> (r: Option<usize>)
        ensures
            match r {
                Some(i) => i < self.entries@.len() && self.entries@[i as int].0@ == key@
                    && kv_lookup(self.entries@, key@) == Some(self.entries@[i as int].1@),
                None => kv_lookup(self.entries@, key@) is None,
            },
    {
        let mut k: usize = 0;
        while k < self.entries.len()
            invariant
                0 <= k <= self.entries@.len(),
                forall|j: int| 0 <= j < k ==> (#[trigger] self.entries@[j]).0@ != key@,
            decreases self.entries@.len() - k,
        {
            if bytes_eq(&self.entries[k].0, key) {
                proof {
                    lemma_kv_at(self.entries@, key@, k as int);
                }
                return Some(k);
            }
            k += 1;
        }
        proof {
            lemma_kv_none(self.entries@, key@);
        }
        None
    }

    /// Applies one write operation.
    fn apply_operation(&mut self, op: WriteOperation)
        requires
            old(self).wf(),
        ensures
            forall|k: Seq<u8>|
                #![trigger kv_lookup(final(self).entries@, k)]
                kv_lookup(final(self).entries@, k) == op_lookup(
                    &op,
                    k,
                    kv_lookup(old(self).entries@, k),
                ),
            final(self).wf(),
            final(self).max_stream_queries == old(self).max_stream_queries,
    {
        match op {
            WriteOperation::Put { key, value } => {
                match self.find_key_index(&key) {
                    Some(i) => {
                        let ghost pre = self.entries@;
                        self.entries.set(i, (key, value));
                        proof {
                            let op2 = WriteOperation::Put {
                                key: self.entries@[i as int].0,
                                value: self.entries@[i as int].1,
                            };
                            assert forall|k: Seq<u8>|
                                #![trigger kv_lookup(self.entries@, k)]
                                kv_lookup(self.entries@, k) == op_lookup(
                                    &op2,
                                    k,
                                    kv_lookup(pre, k),
                                ) by {
                                lemma_kv_update(
                                    pre,
                                    i as int,
                                    (self.entries@[i as int].0, self.entries@[i as int].1),
                                    k,
                                );
                            }
                            assert forall|a: int, b: int|
                                0 <= a < b < self.entries@.len() implies (
                            #[trigger] self.entries@[a]).0@ != (#[trigger] self.entries@[b]).0@ by {
                                assert(self.entries@[a] == if a == i as int {
                                    self.entries@[i as int]
                                } else {
                                    pre[a]
                                });
                                assert(self.entries@[b] == if b == i as int {
                                    self.entries@[i as int]
                                } else {
                                    pre[b]
                                });
                                assert(pre[a].0@ != pre[b].0@);
                                assert(self.entries@[i as int].0@ == pre[i as int].0@);
                            }
                        }
                    },
                    None => {
                        let ghost pre = self.entries@;
                        let ghost kv = (key@, value@);
                        self.entries.push((key, value));
                        proof {
                            assert forall|k: Seq<u8>|
                                #![trigger kv_lookup(self.entries@, k)]
                                kv_lookup(self.entries@, k) == (if kv.0 == k {
                                    Some(kv.1)
                                } else {
                                    kv_lookup(pre, k)
                                }) by {
                                lemma_kv_push(
                                    pre,
                                    (self.entries@[pre.len() as int].0, self.entries@[
                                        pre.len() as int].1),
                                    k,
                                );
                            }
                            assert forall|a: int, b: int|
                                0 <= a < b < self.entries@.len() implies (
                            #[trigger] self.entries@[a]).0@ != (#[trigger] self.entries@[b]).0@ by {
                                if b < self.entries@.len() - 1 {
                                    assert(self.entries@[a] == pre[a]);
                                    assert(self.entries@[b] == pre[b]);
                                    assert(pre[a].0@ != pre[b].0@);
                                } else {
                                    assert(self.entries@[a] == pre[a]);
                                    assert(self.entries@[b].0@ == kv.0);
                                    if pre[a].0@ == kv.0 {
                                        lemma_kv_at(pre, kv.0, a);
                                    }
                                }
                            }
                        }
                    },
                }
            },
            WriteOperation::Delete { key } => {
                match self.find_key_index(&key) {
                    Some(i) => {
                        let ghost pre = self.entries@;
                        self.entries.remove(i);
                        proof {
                            assert forall|k: Seq<u8>|
                                #![trigger kv_lookup(self.entries@, k)]
                                kv_lookup(self.entries@, k) == (if key@ == k {
                                    None
                                } else {
                                    kv_lookup(pre, k)
                                }) by {
                                lemma_kv_remove(pre, i as int, k);
                            }
                            pre.remove_ensures(i as int);
                            assert forall|a: int, b: int|
                                0 <= a < b < self.entries@.len() implies (
                            #[trigger] self.entries@[a]).0@ != (#[trigger] self.entries@[b]).0@ by {
                                assert(pre.remove(i as int)[a] == if a < i as int {
                                    pre[a]
                                } else {
                                    pre[a + 1]
                                });
                                assert(pre.remove(i as int)[b] == if b < i as int {
                                    pre[b]
                                } else {
                                    pre[b + 1]
                                });
                                assert(self.entries@[a] == pre.remove(i as int)[a]);
                                assert(self.entries@[b] == pre.remove(i as int)[b]);
                            }
                        }
                    },
                    None => {},
                }
            },
            WriteOperation::DeletePrefix { key_prefix } => {
                let ghost pre = self.entries@;
                let mut kept: Vec<(Vec<u8>, Vec<u8>)> = Vec::new();
                let mut u: usize = 0;
                while u < self.entries.len()
                    invariant
                        self.entries@ == pre,
                        old(self).wf(),
                        pre == old(self).entries@,
                        0 <= u <= pre.len(),
                        forall|k: Seq<u8>|
                            #![trigger kv_lookup(kept@, k)]
                            kv_lookup(kept@, k) == (if is_prefix(key_prefix@, k) {
                                None
                            } else {
                                kv_lookup(pre.take(u as int), k)
                            }),
                        forall|a: int, b: int|
                            0 <= a < b < kept@.len() ==> (#[trigger] kept@[a]).0@ != (
                            #[trigger] kept@[b]).0@,
                        forall|a: int|
                            0 <= a < kept@.len() ==> exists|p: int|
                                0 <= p < u && (#[trigger] kept@[a]).0@ == pre[p].0@,
                    decreases pre.len() - u,
                {
                    let keep = !starts_with(&self.entries[u].0, &key_prefix);
                    let ghost kept_pre = kept@;
                    let ghost e = pre[u as int];
                    if keep {
                        let key_copy = self.entries[u].0.clone();
                        let value_copy = self.entries[u].1.clone();
                        kept.push((key_copy, value_copy));
                    }
                    proof {
                        lemma_kv_take_step(pre, u as int);
                        if keep {
                            assert(kept@[kept_pre.len() as int].0@ == e.0@);
                            assert(kept@[kept_pre.len() as int].1@ == e.1@);
                            assert forall|k: Seq<u8>|
                                #![trigger kv_lookup(kept@, k)]
                                kv_lookup(kept@, k) == (if is_prefix(key_prefix@, k) {
                                    None
                                } else {
                                    kv_lookup(pre.take(u as int + 1), k)
                                }) by {
                                lemma_kv_push(
                                    kept_pre,
                                    (kept@[kept_pre.len() as int].0, kept@[
                                        kept_pre.len() as int].1),
                                    k,
                                );
                            }
                            assert forall|a: int, b: int|
                                0 <= a < b < kept@.len() implies (#[trigger] kept@[a]).0@ != (
                            #[trigger] kept@[b]).0@ by {
                                if b == kept@.len() - 1 {
                                    assert(kept@[a] == kept_pre[a]);
                                    let p = choose|p: int|
                                        0 <= p < u && (#[trigger] kept_pre[a]).0@ == pre[p].0@;
                                    assert(pre[p].0@ != pre[u as int].0@);
                                    assert(kept@[b].0@ == pre[u as int].0@);
                                } else {
                                    assert(kept@[a] == kept_pre[a]);
                                    assert(kept@[b] == kept_pre[b]);
                                }
                            }
                            assert forall|a: int|
                                0 <= a < kept@.len() implies exists|p: int|
                                    0 <= p < u + 1 && (#[trigger] kept@[a]).0@ == pre[p].0@ by {
                                if a < kept@.len() - 1 {
                                    assert(kept@[a] == kept_pre[a]);
                                    let p = choose|p: int|
                                        0 <= p < u && (#[trigger] kept_pre[a]).0@ == pre[p].0@;
                                    assert(kept@[a].0@ == pre[p].0@);
                                } else {
                                    assert(kept@[a].0@ == pre[u as int].0@);
                                }
                            }
                        } else {
                            assert forall|k: Seq<u8>|
                                #![trigger kv_lookup(kept@, k)]
                                kv_lookup(kept@, k) == (if is_prefix(key_prefix@, k) {
                                    None
                                } else {
                                    kv_lookup(pre.take(u as int + 1), k)
                                }) by {
                                if !is_prefix(key_prefix@, k) {
                                    assert(e.0@ != k);
                                }
                            }
                        }
                    }
                    u += 1;
                }
                proof {
                    assert(pre.take(pre.len() as int) =~= pre);
                }
                self.entries = kept;
            },
        }
    }
}

/// Compares two strings.
pub fn string_eq(a: &String, b: &String) -> (r: bool)
    ensures
        r == (a@ == b@),
{
    *a == *b
}

/// Copies the suffix of a byte string from `start` on.
pub fn copy_suffix(v: &Vec<u8>, start: usize) -> (r: Vec<u8>)
    requires
        start <= v@.len(),
    ensures
        r@ == v@.subrange(start as int, v@.len() as int),
{
    let mut r: Vec<u8> = Vec::new();
    let mut i: usize = start;
    while i < v.len()
        invariant
            start <= i <= v@.len(),
            r@ == v@.subrange(start as int, i as int),
        decreases v@.len() - i,
    {
        r.push(v[i]);
        proof {
            assert(v@.subrange(start as int, i as int + 1) =~= v@.subrange(
                start as int,
                i as int,
            ).push(v@[i as int]));
        }
        i += 1;
    }
    r
}

impl WithError for MemoryStore {
    type Error = MemoryStoreError;
}

impl ReadableKeyValueStore for MemoryStore {
    open spec fn entries_view(&self) -> Seq<(Vec<u8>, Vec<u8>)> {
        self.entries@
    }

    open spec fn store_wf(&self) -> bool {
        self.wf()
    }

    fn max_stream_queries(&self) -> usize {
        self.max_stream_queries
    }

    fn read_value_bytes(&self, key: &Vec<u8>) -> (r: Result<Option<Vec<u8>>, MemoryStoreError>) {
        match self.find_key_index(key) {
            Some(i) => Ok(Some(self.entries[i].1.clone())),
            None => Ok(None),
        }
    }

    fn contains_key(&self, key: &Vec<u8>) -> (r: Result<bool, MemoryStoreError>) {
        match self.find_key_index(key) {
            Some(_) => Ok(true),
            None => Ok(false),
        }
    }

    fn read_multi_values_bytes(&self, keys: &Vec<Vec<u8>>) -> (r: Result<
        Vec<Option<Vec<u8>>>,
        MemoryStoreError,
    >) {
        let mut vs: Vec<Option<Vec<u8>>> = Vec::new();
        let mut i: usize = 0;
        while i < keys.len()
            invariant
                0 <= i <= keys@.len(),
                vs@.len() == i,
                forall|j: int|
                    0 <= j < i ==> (match #[trigger] vs@[j] {
                        Some(v) => kv_lookup(self.entries@, keys@[j]@) == Some(v@),
                        None => kv_lookup(self.entries@, keys@[j]@) is None,
                    }),
            decreases keys@.len() - i,
        {
            match self.find_key_index(&keys[i]) {
                Some(k) => {
                    vs.push(Some(self.entries[k].1.clone()));
                },
                None => {
                    vs.push(None);
                },
            }
            i += 1;
        }
        Ok(vs)
    }

    fn find_keys_by_prefix(&self, key_prefix: &Vec<u8>) -> (r: Result<
        Vec<Vec<u8>>,
        MemoryStoreError,
    >) {
        let mut ks: Vec<Vec<u8>> = Vec::new();
        let mut i: usize = 0;
        while i < self.entries.len()
            invariant
                0 <= i <= self.entries@.len(),
                ks@.len() == prefixed_entries(self.entries@.take(i as int), key_prefix@).len(),
                forall|j: int|
                    0 <= j < ks@.len() ==> key_prefix@ + (#[trigger] ks@[j])@
                        == prefixed_entries(self.entries@.take(i as int), key_prefix@)[j].0@,
                forall|j: int|
                    0 <= j < ks@.len() ==> kv_lookup(
                        self.entries@,
                        key_prefix@ + (#[trigger] ks@[j])@,
                    ) is Some,
            decreases self.entries@.len() - i,
        {
            proof {
                assert(self.entries@.take(i as int + 1).drop_last() =~= self.entries@.take(
                    i as int,
                ));
                assert(self.entries@.take(i as int + 1).last() == self.entries@[i as int]);
                reveal(Seq::filter);
            }
            if starts_with(&self.entries[i].0, key_prefix) {
                let suffix = copy_suffix(&self.entries[i].0, key_prefix.len());
                proof {
                    assert(key_prefix@ + suffix@ =~= self.entries@[i as int].0@);
                    lemma_kv_lookup_present(self.entries@, i as int);
                    assert(prefixed_entries(self.entries@.take(i as int + 1), key_prefix@)
                        =~= prefixed_entries(self.entries@.take(i as int), key_prefix@).push(
                        self.entries@[i as int],
                    ));
                }
                ks.push(suffix);
            } else {
                proof {
                    assert(prefixed_entries(self.entries@.take(i as int + 1), key_prefix@)
                        =~= prefixed_entries(self.entries@.take(i as int), key_prefix@));
                }
            }
            i += 1;
        }
        proof {
            assert(self.entries@.take(self.entries@.len() as int) =~= self.entries@);
        }
        Ok(ks)
    }

    fn contains_keys(&self, keys: &Vec<Vec<u8>>) -> (r: Result<Vec<bool>, MemoryStoreError>) {
        let mut bs: Vec<bool> = Vec::new();
        let mut i: usize = 0;
        while i < keys.len()
            invariant
                0 <= i <= keys@.len(),
                bs@.len() == i,
                forall|j: int|
                    0 <= j < i ==> (#[trigger] bs@[j]) == (kv_lookup(
                        self.entries@,
                        keys@[j]@,
                    ) is Some),
            decreases keys@.len() - i,
        {
            match self.find_key_index(&keys[i]) {
                Some(_) => {
                    bs.push(true);
                },
                None => {
                    bs.push(false);
                },
            }
            i += 1;
        }
        Ok(bs)
    }

    fn find_key_values_by_prefix(&self, key_prefix: &Vec<u8>) -> (r: Result<
        Vec<(Vec<u8>, Vec<u8>)>,
        MemoryStoreError,
    >) {
        let mut kvs: Vec<(Vec<u8>, Vec<u8>)> = Vec::new();
        let mut i: usize = 0;
        while i < self.entries.len()
            invariant
                0 <= i <= self.entries@.len(),
                kvs@.len() == prefixed_entries(self.entries@.take(i as int), key_prefix@).len(),
                forall|j: int|
                    0 <= j < kvs@.len() ==> key_prefix@ + (#[trigger] kvs@[j]).0@
                        == prefixed_entries(self.entries@.take(i as int), key_prefix@)[j].0@
                        && kvs@[j].1@ == prefixed_entries(
                        self.entries@.take(i as int),
                        key_prefix@,
                    )[j].1@,
            decreases self.entries@.len() - i,
        {
            proof {
                assert(self.entries@.take(i as int + 1).drop_last() =~= self.entries@.take(
                    i as int,
                ));
                assert(self.entries@.take(i as int + 1).last() == self.entries@[i as int]);
                reveal(Seq::filter);
            }
            if starts_with(&self.entries[i].0, key_prefix) {
                let suffix = copy_suffix(&self.entries[i].0, key_prefix.len());
                let value = self.entries[i].1.clone();
                proof {
                    assert(key_prefix@ + suffix@ =~= self.entries@[i as int].0@);
                    assert(prefixed_entries(self.entries@.take(i as int + 1), key_prefix@)
                        =~= prefixed_entries(self.entries@.take(i as int), key_prefix@).push(
                        self.entries@[i as int],
                    ));
                }
                kvs.push((suffix, value));
            } else {
                proof {
                    assert(prefixed_entries(self.entries@.take(i as int + 1), key_prefix@)
                        =~= prefixed_entries(self.entries@.take(i as int), key_prefix@));
                }
            }
            i += 1;
        }
        proof {
            assert(self.entries@.take(self.entries@.len() as int) =~= self.entries@);
        }
        Ok(kvs)
    }
}

/// A key that stands in the list is bound to something.
proof fn lemma_kv_lookup_present(s: Seq<(Vec<u8>, Vec<u8>)>, i: int)
    requires
        0 <= i < s.len(),
    ensures
        kv_lookup(s, s[i].0@) is Some,
    decreases i,
{
    if s.len() > 0 {
        if s[0].0@ != s[i].0@ {
            assert(s.drop_first()[i - 1] == s[i]);
            lemma_kv_lookup_present(s.drop_first(), i - 1);
        }
    }
}

impl WritableKeyValueStore for MemoryStore {
    fn write_batch(&mut self, mut batch: Batch) -> (r: Result<(), MemoryStoreError>)
        ensures
            final(self).max_stream_queries == old(self).max_stream_queries,
    {
        let ghost all = batch.operations@;
        let ghost base = self.entries@;
        proof {
            assert(all.len() == batch.operations.len());
        }
        loop
            invariant
                all.len() <= usize::MAX,
                self.wf(),
                self.max_stream_queries == old(self).max_stream_queries,
                batch.operations@.len() <= all.len(),
                all =~= all.take(all.len() - batch.operations@.len() as int) + batch.operations@,
                forall|k: Seq<u8>|
                    #![trigger kv_lookup(self.entries@, k)]
                    kv_lookup(self.entries@, k) == batch_lookup(
                        all.take(all.len() - batch.operations@.len() as int),
                        k,
                        kv_lookup(base, k),
                    ),
            ensures
                forall|k: Seq<u8>|
                    #![trigger kv_lookup(self.entries@, k)]
                    kv_lookup(self.entries@, k) == batch_lookup(all, k, kv_lookup(base, k)),
                self.wf(),
                self.max_stream_queries == old(self).max_stream_queries,
            decreases batch.operations@.len(),
        {
            if batch.operations.len() == 0 {
                proof {
                    assert(all.take(all.len() - 0) =~= all);
                }
                break;
            }
            let ghost processed = all.len() - batch.operations@.len() as int;
            let op = batch.operations.remove(0);
            proof {
                assert(op == all[processed]);
                assert(all.take(processed + 1) =~= all.take(processed).push(all[processed]));
                assert(all.take(processed + 1).drop_last() =~= all.take(processed));
            }
            let ghost mid = self.entries@;
            self.apply_operation(op);
            proof {
                assert forall|k: Seq<u8>|
                    #![trigger kv_lookup(self.entries@, k)]
                    kv_lookup(self.entries@, k) == batch_lookup(
                        all.take(processed + 1),
                        k,
                        kv_lookup(base, k),
                    ) by {
                    assert(kv_lookup(mid, k) == batch_lookup(
                        all.take(processed),
                        k,
                        kv_lookup(base, k),
                    ));
                }
            }
        }
        Ok(())
    }

    fn clear_journal(&mut self) -> (r: Result<(), MemoryStoreError>) {
        Ok(())
    }
}

impl AdminKeyValueStore for MemoryStore {
    type Config = MemoryStoreConfig;

    open spec fn config_namespaces(config: &MemoryStoreConfig) -> Seq<Seq<char>> {
        config.names@.map_values(|s: String| s@)
    }

    fn get_name() -> String {
        "memory".to_string()
    }

    /// Connecting to an existing in-memory namespace yields a fresh, empty
    /// store: this backend keeps no durable data behind a connection, so a
    /// namespace is only an entry in the registry.
    fn connect(config: &MemoryStoreConfig, namespace: &String) -> (r: Result<
        MemoryStore,
        MemoryStoreError,
    >)
        ensures
            r is Ok <==> Self::config_namespaces(config).contains(namespace@),
            match r {
                Ok(s) => s.entries@.len() == 0 && s.max_stream_queries
                    == config.max_stream_queries,
                Err(_) => true,
            },
    {
        match Self::contains_namespace(config, namespace) {
            Ok(true) => Ok(MemoryStore::new(config.max_stream_queries)),
            _ => Err(MemoryStoreError { code: 1 }),
        }
    }

    fn open_exclusive(&self, root_key: &Vec<u8>) -> (r: Result<MemoryStore, MemoryStoreError>)
        ensures
            match r {
                Ok(s) => {
                    &&& s.entries@.len() == prefixed_entries(self.entries@, root_key@).len()
                    &&& forall|i: int|
                        0 <= i < s.entries@.len() ==> root_key@ + (
                        #[trigger] s.entries@[i]).0@ == prefixed_entries(
                            self.entries@,
                            root_key@,
                        )[i].0@ && s.entries@[i].1@ == prefixed_entries(
                            self.entries@,
                            root_key@,
                        )[i].1@
                },
                Err(_) => false,
            },
    {
        let entries = match self.find_key_values_by_prefix(root_key) {
            Ok(kvs) => kvs,
            Err(e) => {
                return Err(e);
            },
        };
        Ok(MemoryStore { entries, max_stream_queries: self.max_stream_queries })
    }

    /// The in-memory backend keeps no durable data behind a namespace, so
    /// no root keys are ever listed.
    fn list_root_keys(_config: &MemoryStoreConfig, _namespace: &String) -> (r: Result<
        Vec<Vec<u8>>,
        MemoryStoreError,
    >)
        ensures
            match r {
                Ok(ks) => ks@.len() == 0,
                Err(_) => false,
            },
    {
        Ok(Vec::new())
    }

    fn list_all(config: &MemoryStoreConfig) -> (r: Result<Vec<String>, MemoryStoreError>) {
        let mut ns: Vec<String> = Vec::new();
        let mut i: usize = 0;
        while i < config.names.len()
            invariant
                0 <= i <= config.names@.len(),
                ns@.len() == i,
                forall|j: int| 0 <= j < i ==> (#[trigger] ns@[j])@ == config.names@[j]@,
            decreases config.names@.len() - i,
        {
            ns.push(config.names[i].clone());
            i += 1;
        }
        Ok(ns)
    }

    fn contains_namespace(config: &MemoryStoreConfig, namespace: &String) -> (r: Result<
        bool,
        MemoryStoreError,
    >) {
        let mut i: usize = 0;
        while i < config.names.len()
            invariant
                0 <= i <= config.names@.len(),
                forall|j: int| 0 <= j < i ==> (#[trigger] config.names@[j])@ != namespace@,
            decreases config.names@.len() - i,
        {
            if string_eq(&config.names[i], namespace) {
                proof {
                    assert(Self::config_namespaces(config)[i as int] == namespace@);
                    assert(Self::config_namespaces(config).contains(namespace@));
                }
                return Ok(true);
            }
            i += 1;
        }
        proof {
            if Self::config_namespaces(config).contains(namespace@) {
                let j = choose|j: int|
                    0 <= j < Self::config_namespaces(config).len() && Self::config_namespaces(
                        config,
                    )[j] == namespace@;
                assert(config.names@[j]@ == namespace@);
            }
        }
        Ok(false)
    }

    fn create(config: &mut MemoryStoreConfig, namespace: &String) -> (r: Result<
        (),
        MemoryStoreError,
    >) {
        match Self::contains_namespace(config, namespace) {
            Ok(true) => Err(MemoryStoreError { code: 2 }),
            _ => {
                config.names.push(namespace.clone());
                proof {
                    assert(Self::config_namespaces(config) =~= Self::config_namespaces(
                        old(config),
                    ).push(namespace@));
                }
                Ok(())
            },
        }
    }

    fn delete(config: &mut MemoryStoreConfig, namespace: &String) -> (r: Result<
        (),
        MemoryStoreError,
    >) {
        let ghost pre = config.names@;
        let mut kept: Vec<String> = Vec::new();
        let mut found: bool = false;
        let mut i: usize = 0;
        while i < config.names.len()
            invariant
                config.names@ == pre,
                0 <= i <= pre.len(),
                found == exists|j: int| 0 <= j < i && (#[trigger] pre[j])@ == namespace@,
                kept@.map_values(|s: String| s@) == keep_names(
                    pre.take(i as int).map_values(|s: String| s@),
                    namespace@,
                ),
            decreases pre.len() - i,
        {
            proof {
                assert(pre.take(i as int + 1).map_values(|s: String| s@) =~= pre.take(
                    i as int,
                ).map_values(|s: String| s@).push(pre[i as int]@));
                reveal(Seq::filter);
            }
            if string_eq(&config.names[i], namespace) {
                found = true;
                proof {
                    reveal(Seq::filter);
                    assert(pre.take(i as int + 1).map_values(|s: String| s@).drop_last()
                        == pre.take(i as int).map_values(|s: String| s@));
                    assert(pre.take(i as int + 1).map_values(|s: String| s@).last()
                        == pre[i as int]@);
                    assert(kept@.map_values(|s: String| s@) =~= keep_names(
                        pre.take(i as int + 1).map_values(|s: String| s@),
                        namespace@,
                    ));
                }
            } else {
                let ghost kept_pre = kept@;
                kept.push(config.names[i].clone());
                proof {
                    reveal(Seq::filter);
                    assert(pre.take(i as int + 1).map_values(|s: String| s@).drop_last()
                        == pre.take(i as int).map_values(|s: String| s@));
                    assert(pre.take(i as int + 1).map_values(|s: String| s@).last()
                        == pre[i as int]@);
                    assert(kept@.map_values(|s: String| s@) =~= kept_pre.map_values(
                        |s: String| s@,
                    ).push(pre[i as int]@));
                    assert(kept@.map_values(|s: String| s@) =~= keep_names(
                        pre.take(i as int + 1).map_values(|s: String| s@),
                        namespace@,
                    ));
                }
            }
            i += 1;
        }
        config.names = kept;
        proof {
            assert(pre.take(pre.len() as int) =~= pre);
            let all = pre.map_values(|s: String| s@);
            assert(Self::config_namespaces(config) == keep_names(all, namespace@));
            assert forall|n: Seq<char>|
                #[trigger] Self::config_namespaces(config).contains(n) == (
            Self::config_namespaces(old(config)).contains(n) && n != namespace@) by {
                lemma_chars_filter_membership(all, namespace@, n);
            }
            if found {
                let j = choose|j: int| 0 <= j < pre.len() && (#[trigger] pre[j])@ == namespace@;
                assert(all[j] == namespace@);
                assert(Self::config_namespaces(old(config)).contains(namespace@));
            } else {
                if Self::config_namespaces(old(config)).contains(namespace@) {
                    let j = choose|j: int| 0 <= j < all.len() && all[j] == namespace@;
                    assert(pre[j]@ == namespace@);
                }
            }
        }
        if found {
            Ok(())
        } else {
            Err(MemoryStoreError { code: 3 })
        }
    }

    fn delete_all(config: &mut MemoryStoreConfig) -> (r: Result<(), MemoryStoreError>) {
        config.names = Vec::new();
        proof {
            assert(Self::config_namespaces(config) =~= Seq::<Seq<char>>::empty());
        }
        Ok(())
    }

    fn maybe_create_and_connect(config: &mut MemoryStoreConfig, namespace: &String) -> (r: Result<
        MemoryStore,
        MemoryStoreError,
    >)
        ensures
            r is Ok,
            Self::config_namespaces(final(config)).contains(namespace@),
            match r {
                Ok(s) => s.entries@.len() == 0,
                Err(_) => true,
            },
    {
        let present = match Self::contains_namespace(config, namespace) {
            Ok(b) => b,
            Err(e) => {
                return Err(e);
            },
        };
        if !present {
            match Self::create(config, namespace) {
                Ok(()) => {},
                Err(e) => {
                    return Err(e);
                },
            }
            proof {
                assert(Self::config_namespaces(config).contains(namespace@)) by {
                    assert(Self::config_namespaces(config)[Self::config_namespaces(
                        config,
                    ).len() - 1] == namespace@);
                }
            }
        }
        Self::connect(config, namespace)
    }

    fn recreate_and_connect(config: &mut MemoryStoreConfig, namespace: &String) -> (r: Result<
        MemoryStore,
        MemoryStoreError,
    >)
        ensures
            r is Ok,
            Self::config_namespaces(final(config)).contains(namespace@),
            match r {
                Ok(s) => s.entries@.len() == 0,
                Err(_) => true,
            },
    {
        let present = match Self::contains_namespace(config, namespace) {
            Ok(b) => b,
            Err(e) => {
                return Err(e);
            },
        };
        if present {
            match Self::delete(config, namespace) {
                Ok(()) => {},
                Err(e) => {
                    return Err(e);
                },
            }
        }
        match Self::create(config, namespace) {
            Ok(()) => {},
            Err(e) => {
                return Err(e);
            },
        }
        proof {
            assert(Self::config_namespaces(config).contains(namespace@)) by {
                assert(Self::config_namespaces(config)[Self::config_namespaces(
                    config,
                ).len() - 1] == namespace@);
            }
        }
        Self::connect(config, namespace)
    }
}

impl TestKeyValueStore for MemoryStore {
    fn new_test_config() -> (r: Result<MemoryStoreConfig, MemoryStoreError>) {
        Ok(MemoryStoreConfig::new(10))
    }

    fn new_test_store() -> (r: Result<MemoryStore, MemoryStoreError>) {
        let mut config = MemoryStoreConfig::new(10);
        let namespace = "test".to_string();
        Self::recreate_and_connect(&mut config, &namespace)
    }
}

/// The names of a list other than `ns`.
pub open spec fn keep_names(s: Seq<Seq<char>>, ns: Seq<char>) -> Seq<Seq<char>> {
    s.filter(|n: Seq<char>| n != ns)
}

/// Membership in a name list filtered by inequality.
proof fn lemma_chars_filter_membership(s: Seq<Seq<char>>, ns: Seq<char>, x: Seq<char>)
    ensures
        keep_names(s, ns).contains(x) == (s.contains(x) && x != ns),
    decreases s.len(),
{
    reveal(Seq::filter);
    if s.len() > 0 {
        lemma_chars_filter_membership(s.drop_last(), ns, x);
        if s.last() != ns {
            assert(keep_names(s, ns) =~= keep_names(s.drop_last(), ns).push(s.last()));
        } else {
            assert(keep_names(s, ns) =~= keep_names(s.drop_last(), ns));
        }
        if s.contains(x) && x != ns {
            let j = choose|j: int| 0 <= j < s.len() && s[j] == x;
            if j < s.len() - 1 {
                assert(s.drop_last()[j] == x);
                assert(s.drop_last().contains(x));
                let f = keep_names(s.drop_last(), ns);
                let k = choose|k: int| 0 <= k < f.len() && f[k] == x;
                assert(keep_names(s, ns)[k] == x);
                assert(keep_names(s, ns).contains(x));
            } else {
                let f = keep_names(s, ns);
                assert(f[f.len() - 1] == x);
                assert(f.contains(x));
            }
        }
        if keep_names(s, ns).contains(x) {
            let f = keep_names(s, ns);
            let k = choose|k: int| 0 <= k < f.len() && f[k] == x;
            let fd = keep_names(s.drop_last(), ns);
            if s.last() != ns && k == f.len() - 1 {
                assert(x == s.last());
                assert(s[s.len() - 1] == x);
                assert(s.contains(x));
            } else {
                assert(fd[k] == x);
                assert(fd.contains(x));
                let j = choose|j: int| 0 <= j < s.drop_last().len() && s.drop_last()[j] == x;
                assert(s[j] == s.drop_last()[j]);
                assert(s.contains(x));
            }
        }
    } else {
        assert(keep_names(s, ns) =~= Seq::<Seq<char>>::empty());
    }
}

/// Extending a scanned prefix by one entry extends `kv_lookup` at its key.
proof fn lemma_kv_take_step(s: Seq<(Vec<u8>, Vec<u8>)>, u: int)
    requires
        0 <= u < s.len(),
        forall|a: int, b: int| 0 <= a < b < s.len() ==> s[a].0@ != s[b].0@,
    ensures
        forall|k: Seq<u8>|
            #![trigger kv_lookup(s.take(u + 1), k)]
            kv_lookup(s.take(u + 1), k) == if kv_lookup(s.take(u), k) is Some {
                kv_lookup(s.take(u), k)
            } else if s[u].0@ == k {
                Some(s[u].1@)
            } else {
                None
            },
{
    assert forall|k: Seq<u8>|
        #![trigger kv_lookup(s.take(u + 1), k)]
        kv_lookup(s.take(u + 1), k) == (if kv_lookup(s.take(u), k) is Some {
            kv_lookup(s.take(u), k)
        } else if s[u].0@ == k {
            Some(s[u].1@)
        } else {
            None
        }) by {
        assert(s.take(u + 1) =~= s.take(u).push(s[u]));
        lemma_kv_push(s.take(u), s[u], k);
    }
}

} // verus!
