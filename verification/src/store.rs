//! The `spark:capability/storage` capability: its error type, the `Storage` interface
//! that hosts and provider components implement, the host's in-process backend with
//! per-instance key namespaces, the provider components (an in-instance map and two
//! pure delegators), and the counter components that use the capability.

use vstd::prelude::*;

use crate::decimal::{decimal, parse_u32_spec};
use crate::kv::KeyValues;
use crate::text::{chars_of, extend_str, string_of};

verus! {

/// Why a storage call failed (`store-error`). A missing key is not an error.
#[derive(Debug, Clone, PartialEq, Eq)]
pub enum StoreError {
    /// The capability is not reachable.
    Unavailable(String),
    /// The capability refused the call.
    Denied(String),
}

/// The abstract value of an optional string.
pub open spec fn opt_view(o: Option<String>) -> Option<Seq<char>> {
    match o {
        Some(s) => Some(s@),
        None => None,
    }
}

/// The storage capability: `get(key)` and `set(key, value)` on string keys.
///
/// `contents` is what the store holds; `reads_ok` / `writes_ok` say that `get` / `set`
/// cannot fail on this store (a remote store may be unreachable, a read-only store
/// refuses writes).
pub trait Storage {
    spec fn contents(&self) -> Map<Seq<char>, Seq<char>>;

    spec fn reads_ok(&self) -> bool;

    spec fn writes_ok(&self) -> bool;

    /// Every write is refused (a read-only store).
    spec fn refuses_writes(&self) -> bool;

    /// Where the data really lives: the whole underlying store, which other stores may
    /// share (for the host's view of one instance, the shared backend).
    spec fn backing(&self) -> Map<Seq<char>, Seq<char>>;

    /// The key of `backing` under which `key` is kept.
    spec fn place(&self, key: Seq<char>) -> Seq<char>;

    /// `Ok(Some(v))`: the value; `Ok(None)`: no such key; `Err`: the capability failed.
    fn get(&self, key: &str) -> (r: Result<Option<String>, StoreError>)
        ensures
            self.reads_ok() ==> r is Ok,
            r matches Ok(o) ==> opt_view(o) == self.contents().get(key@),
    ;

    /// Stores `value` under `key`; on failure nothing changes. A write changes exactly
    /// one entry of the underlying store, the one at `key`'s place.
    fn set(&mut self, key: &str, value: &str) -> (r: Result<(), StoreError>)
        ensures
            final(self).reads_ok() == old(self).reads_ok(),
            final(self).writes_ok() == old(self).writes_ok(),
            final(self).refuses_writes() == old(self).refuses_writes(),
            forall|k: Seq<char>| #[trigger] final(self).place(k) == old(self).place(k),
            old(self).writes_ok() ==> r is Ok,
            old(self).refuses_writes() ==> r is Err,
            r is Ok ==> final(self).contents() == old(self).contents().insert(key@, value@),
            r is Ok ==> final(self).backing() == old(self).backing().insert(old(self).place(key@), value@),
            r is Err ==> final(self).contents() == old(self).contents(),
            r is Err ==> final(self).backing() == old(self).backing(),
    ;
}

/// The key under which the backend keeps `key` of namespace `ns`: `ns:key`.
pub open spec fn scoped_key(ns: Seq<char>, key: Seq<char>) -> Seq<char> {
    ns + ":"@ + key
}

/// The host's namespace policy: instances that share a backend are kept apart by a
/// prefix on every key.
pub fn scoped(ns: &str, key: &str) -> (s: String)
    ensures
        s@ == scoped_key(ns@, key@),
{
    let mut v: Vec<char> = Vec::new();
    extend_str(&mut v, ns);
    extend_str(&mut v, ":");
    extend_str(&mut v, key);
    string_of(v.as_slice())
}

/// The host-side implementation of the capability: an in-process map. A read-only
/// backend refuses every write with `Denied`.
pub struct Backend {
    data: KeyValues,
    deny_writes: bool,
}

impl Backend {
    /// What the backend holds, by scoped key.
    pub closed spec fn contents(&self) -> Map<Seq<char>, Seq<char>> {
        self.data@
    }

    /// Whether the backend refuses writes.
    pub closed spec fn denies_writes(&self) -> bool {
        self.deny_writes
    }

    /// A healthy, empty backend.
    pub fn new() -> (b: Self)
        ensures
            b.contents() == Map::<Seq<char>, Seq<char>>::empty(),
            !b.denies_writes(),
    {
        Backend { data: KeyValues::new(), deny_writes: false }
    }

    /// An empty backend whose `set` answers `Denied` and whose `get` works.
    pub fn read_only() -> (b: Self)
        ensures
            b.contents() == Map::<Seq<char>, Seq<char>>::empty(),
            b.denies_writes(),
    {
        Backend { data: KeyValues::new(), deny_writes: true }
    }

    /// Number of entries actually stored.
    pub fn len(&self) -> (n: usize)
        ensures
            n == self.contents().len(),
            self.contents().dom().finite(),
    {
        self.data.len()
    }

    /// Whether nothing is stored.
    pub fn is_empty(&self) -> (r: bool)
        ensures
            r == (self.contents().len() == 0),
    {
        self.len() == 0
    }

    /// The value of `key` in namespace `ns`.
    pub fn get(&self, ns: &str, key: &str) -> (r: Result<Option<String>, StoreError>)
        ensures
            r matches Ok(o) && opt_view(o) == self.contents().get(scoped_key(ns@, key@)),
    {
        let k = scoped(ns, key);
        let kc = chars_of(k.as_str());
        Ok(self.data.get(kc.as_slice()))
    }

    /// Stores `value` under `key` in namespace `ns`; a read-only backend answers
    /// `Denied("read-only backend")` and stays as it was.
    pub fn set(&mut self, ns: &str, key: &str, value: &str) -> (r: Result<(), StoreError>)
        ensures
            final(self).denies_writes() == old(self).denies_writes(),
            old(self).denies_writes() ==> (r matches Err(StoreError::Denied(m)) && m@ == "read-only backend"@)
                && final(self).contents() == old(self).contents(),
            !old(self).denies_writes() ==> r is Ok && final(self).contents()
                == old(self).contents().insert(scoped_key(ns@, key@), value@),
    {
        if self.deny_writes {
            return Err(StoreError::Denied("read-only backend".to_owned()));
        }
        let k = scoped(ns, key);
        self.data.insert(k, value.to_owned());
        Ok(())
    }
}

/// For one key, the scoped keys of two namespaces coincide only when the namespaces do.
pub proof fn lemma_scoped_key_injective(a: Seq<char>, b: Seq<char>, key: Seq<char>)
    ensures
        scoped_key(a, key) == scoped_key(b, key) ==> a == b,
{
    if scoped_key(a, key) == scoped_key(b, key) {
        assert(scoped_key(a, key).len() == a.len() + ":"@.len() + key.len());
        assert(scoped_key(b, key).len() == b.len() + ":"@.len() + key.len());
        assert(a.len() == b.len());
        assert forall|i: int| 0 <= i < a.len() implies a[i] == b[i] by {
            assert(scoped_key(a, key)[i] == a[i]);
            assert(scoped_key(b, key)[i] == b[i]);
        }
        assert(a =~= b);
    }
}

/// For one namespace, distinct keys have distinct scoped keys.
pub proof fn lemma_scoped_key_distinct(ns: Seq<char>, k1: Seq<char>, k2: Seq<char>)
    ensures
        scoped_key(ns, k1) == scoped_key(ns, k2) ==> k1 == k2,
{
    if scoped_key(ns, k1) == scoped_key(ns, k2) {
        let p = ns + ":"@;
        assert(scoped_key(ns, k1) == p + k1);
        assert(scoped_key(ns, k2) == p + k2);
        assert(k1 =~= (p + k1).skip(p.len() as int));
        assert(k2 =~= (p + k2).skip(p.len() as int));
    }
}

/// The backend as one component instance sees it: its namespace's keys, unprefixed.
pub struct HostStorage {
    pub backend: Backend,
    pub ns: String,
}

impl Storage for HostStorage {
    open spec fn contents(&self) -> Map<Seq<char>, Seq<char>> {
        Map::new(
            |k: Seq<char>| self.backend.contents().contains_key(scoped_key(self.ns@, k)),
            |k: Seq<char>| self.backend.contents()[scoped_key(self.ns@, k)],
        )
    }

    open spec fn reads_ok(&self) -> bool {
        true
    }

    open spec fn writes_ok(&self) -> bool {
        !self.backend.denies_writes()
    }

    open spec fn refuses_writes(&self) -> bool {
        self.backend.denies_writes()
    }

    open spec fn backing(&self) -> Map<Seq<char>, Seq<char>> {
        self.backend.contents()
    }

    open spec fn place(&self, key: Seq<char>) -> Seq<char> {
        scoped_key(self.ns@, key)
    }

    fn get(&self, key: &str) -> (r: Result<Option<String>, StoreError>) {
        self.backend.get(self.ns.as_str(), key)
    }

    fn set(&mut self, key: &str, value: &str) -> (r: Result<(), StoreError>) {
        let r = self.backend.set(self.ns.as_str(), key, value);
        proof {
            if r is Ok {
                assert forall|k: Seq<char>| k != key@ implies #[trigger] scoped_key(self.ns@, k) != scoped_key(self.ns@, key@) by {
                    lemma_scoped_key_distinct(self.ns@, k, key@);
                }
                assert(self.contents() =~= old(self).contents().insert(key@, value@));
            } else {
                assert(self.contents() =~= old(self).contents());
            }
        }
        r
    }
}

/// A provider component that implements the capability itself, in its own instance
/// memory: state lives and dies with the instance.
pub struct MemStore {
    data: KeyValues,
}

impl MemStore {
    /// A fresh provider instance: empty.
    pub fn new() -> (m: Self)
        ensures
            m.contents() == Map::<Seq<char>, Seq<char>>::empty(),
    {
        MemStore { data: KeyValues::new() }
    }
}

impl Storage for MemStore {
    closed spec fn contents(&self) -> Map<Seq<char>, Seq<char>> {
        self.data@
    }

    open spec fn reads_ok(&self) -> bool {
        true
    }

    open spec fn writes_ok(&self) -> bool {
        true
    }

    open spec fn refuses_writes(&self) -> bool {
        false
    }

    closed spec fn backing(&self) -> Map<Seq<char>, Seq<char>> {
        self.data@
    }

    open spec fn place(&self, key: Seq<char>) -> Seq<char> {
        key
    }

    fn get(&self, key: &str) -> (r: Result<Option<String>, StoreError>) {
        let kc = chars_of(key);
        Ok(self.data.get(kc.as_slice()))
    }

    fn set(&mut self, key: &str, value: &str) -> (r: Result<(), StoreError>) {
        self.data.insert(key.to_owned(), value.to_owned());
        Ok(())
    }
}

/// Carries an upstream storage error over to the exported interface, variant by variant.
pub fn relay(e: StoreError) -> (r: StoreError)
    ensures
        r == e,
{
    match e {
        StoreError::Unavailable(m) => StoreError::Unavailable(m),
        StoreError::Denied(m) => StoreError::Denied(m),
    }
}

/// A provider component that stores nothing itself: it forwards every call to the
/// storage it imports.
pub struct DelegatingStore<S: Storage> {
    pub upstream: S,
}

impl<S: Storage> Storage for DelegatingStore<S> {
    open spec fn contents(&self) -> Map<Seq<char>, Seq<char>> {
        self.upstream.contents()
    }

    open spec fn reads_ok(&self) -> bool {
        self.upstream.reads_ok()
    }

    open spec fn writes_ok(&self) -> bool {
        self.upstream.writes_ok()
    }

    open spec fn refuses_writes(&self) -> bool {
        self.upstream.refuses_writes()
    }

    open spec fn backing(&self) -> Map<Seq<char>, Seq<char>> {
        self.upstream.backing()
    }

    open spec fn place(&self, key: Seq<char>) -> Seq<char> {
        self.upstream.place(key)
    }

    fn get(&self, key: &str) -> (r: Result<Option<String>, StoreError>) {
        match self.upstream.get(key) {
            Ok(v) => Ok(v),
            Err(e) => Err(relay(e)),
        }
    }

    fn set(&mut self, key: &str, value: &str) -> (r: Result<(), StoreError>) {
        match self.upstream.set(key, value) {
            Ok(v) => Ok(v),
            Err(e) => Err(relay(e)),
        }
    }
}

/// A second pure delegator, the same as `DelegatingStore`, to stack one more hop.
pub struct ForwardingStore<S: Storage> {
    pub upstream: S,
}

impl<S: Storage> Storage for ForwardingStore<S> {
    open spec fn contents(&self) -> Map<Seq<char>, Seq<char>> {
        self.upstream.contents()
    }

    open spec fn reads_ok(&self) -> bool {
        self.upstream.reads_ok()
    }

    open spec fn writes_ok(&self) -> bool {
        self.upstream.writes_ok()
    }

    open spec fn refuses_writes(&self) -> bool {
        self.upstream.refuses_writes()
    }

    open spec fn backing(&self) -> Map<Seq<char>, Seq<char>> {
        self.upstream.backing()
    }

    open spec fn place(&self, key: Seq<char>) -> Seq<char> {
        self.upstream.place(key)
    }

    fn get(&self, key: &str) -> (r: Result<Option<String>, StoreError>) {
        match self.upstream.get(key) {
            Ok(v) => Ok(v),
            Err(e) => Err(relay(e)),
        }
    }

    fn set(&mut self, key: &str, value: &str) -> (r: Result<(), StoreError>) {
        match self.upstream.set(key, value) {
            Ok(v) => Ok(v),
            Err(e) => Err(relay(e)),
        }
    }
}

/// The headless button's counter: state lives in the component instance.
pub struct Counter {
    count: u32,
}

impl Counter {
    /// The count.
    pub closed spec fn value(&self) -> u32 {
        self.count
    }

    /// A new counter at 0.
    pub fn new() -> (c: Self)
        ensures
            c.value() == 0,
    {
        Counter { count: 0 }
    }

    /// One more click.
    pub fn click(&mut self)
        requires
            old(self).value() < u32::MAX,
        ensures
            final(self).value() == old(self).value() + 1,
    {
        self.count = self.count + 1;
    }

    /// The count.
    pub fn count(&self) -> (n: u32)
        ensures
            n == self.value(),
    {
        self.count
    }

    /// One instance of the button: created, clicked `clicks` times, its count. Each call
    /// is a fresh instance, so earlier calls never show.
    pub fn click_times(clicks: u32) -> (n: u32)
        ensures
            n == clicks,
    {
        let mut c = Counter::new();
        let mut i: u32 = 0;
        while i < clicks
            invariant
                i <= clicks,
                c.value() == i,
            decreases clicks - i,
        {
            c.click();
            i = i + 1;
        }
        c.count()
    }
}

/// The count a fresh store-backed counter starts from, given what `get("count")` gave:
/// the stored number when there is one that parses, 0 otherwise.
pub open spec fn restored_count(stored: Result<Option<Seq<char>>, ()>) -> u32 {
    match stored {
        Ok(Some(v)) => match parse_u32_spec(v) {
            Some(n) => n,
            None => 0,
        },
        _ => 0,
    }
}

/// The stored result as a plain value.
pub open spec fn stored_view(r: Result<Option<String>, StoreError>) -> Result<Option<Seq<char>>, ()> {
    match r {
        Ok(o) => Ok(opt_view(o)),
        Err(_) => Err(()),
    }
}

/// `s1` is `s0` after a click of a store-backed counter from `c0` to `c1`: the count goes
/// up by one and the store keeps its kind and places; the new count is written under
/// `count` (one entry of the underlying store changes) when the write succeeds, and
/// nothing changes when it fails. A store that cannot fail a write is written; a store
/// that refuses every write is left as it was.
pub open spec fn clicked<S: Storage>(s0: S, c0: u32, s1: S, c1: u32) -> bool {
    let v = decimal(c1 as nat);
    let written = s1.contents() == s0.contents().insert("count"@, v)
        && s1.backing() == s0.backing().insert(s0.place("count"@), v);
    let kept = s1.contents() == s0.contents() && s1.backing() == s0.backing();
    &&& c1 == c0 + 1
    &&& s1.reads_ok() == s0.reads_ok()
    &&& s1.writes_ok() == s0.writes_ok()
    &&& s1.refuses_writes() == s0.refuses_writes()
    &&& forall|k: Seq<char>| #[trigger] s1.place(k) == s0.place(k)
    &&& s0.writes_ok() ==> written
    &&& s0.refuses_writes() ==> kept
    &&& written || kept
}

/// A counter whose state also lives in the storage capability under the bare key
/// `count`: it starts from the stored value and writes every click through.
pub struct StoreCounter {
    count: u32,
}

impl StoreCounter {
    /// The count.
    pub closed spec fn value(&self) -> u32 {
        self.count
    }

    /// A counter starting from what reading `count` gave.
    pub fn from_stored(stored: Result<Option<String>, StoreError>) -> (c: Self)
        ensures
            c.value() == restored_count(stored_view(stored)),
    {
        let count = match stored {
            Ok(Some(v)) => {
                let cs = chars_of(v.as_str());
                match crate::decimal::parse_u32(cs.as_slice()) {
                    Some(n) => n,
                    None => 0,
                }
            },
            _ => 0,
        };
        StoreCounter { count }
    }

    /// A new counter: reads `count` from the store.
    pub fn new<S: Storage>(store: &S) -> (c: Self)
        ensures
            store.reads_ok() ==> c.value() == restored_count(Ok(store.contents().get("count"@))),
            c.value() == 0 || c.value() == restored_count(Ok(store.contents().get("count"@))),
    {
        Self::from_stored(store.get("count"))
    }

    /// One more click, written through to the store; a failed write is ignored.
    pub fn click<S: Storage>(&mut self, store: &mut S)
        requires
            old(self).value() < u32::MAX,
        ensures
            final(self).value() == old(self).value() + 1,
            clicked(*old(store), old(self).value(), *final(store), final(self).value()),
    {
        let next = self.count + 1;
        self.count = next;
        let text = crate::decimal::decimal_chars(next as u64);
        let s = string_of(text.as_slice());
        let _ = store.set("count", s.as_str());
    }

    /// The count.
    pub fn count(&self) -> (n: u32)
        ensures
            n == self.value(),
    {
        self.count
    }

    /// One instance of the store-backed counter over `store`: created (it reads `count`),
    /// clicked `clicks` times (each click written through), its count. When the store's
    /// reads cannot fail the instance continues from the stored count; when its writes
    /// cannot fail the store then holds the final count, which the next fresh instance
    /// reads back; a store that refuses writes is left as it was. No other key, and no
    /// other entry of the underlying store, changes.
    pub fn click_times<S: Storage>(store: &mut S, clicks: u32) -> (n: u32)
        requires
            restored_count(Ok(old(store).contents().get("count"@))) + clicks <= u32::MAX,
        ensures
            ({
                let start = restored_count(Ok(old(store).contents().get("count"@)));
                &&& n == clicks || n == start + clicks
                &&& old(store).reads_ok() ==> n == start + clicks
            }),
            final(store).reads_ok() == old(store).reads_ok(),
            final(store).writes_ok() == old(store).writes_ok(),
            final(store).refuses_writes() == old(store).refuses_writes(),
            forall|k: Seq<char>| #[trigger] final(store).place(k) == old(store).place(k),
            forall|k: Seq<char>| k != "count"@ ==> #[trigger] final(store).contents().get(k) == old(store).contents().get(k),
            forall|k: Seq<char>| k != old(store).place("count"@) ==> #[trigger] final(store).backing().get(k) == old(store).backing().get(k),
            clicks == 0 ==> final(store).contents() == old(store).contents() && final(store).backing() == old(store).backing(),
            clicks > 0 && old(store).writes_ok() ==> final(store).contents() == old(store).contents().insert("count"@, decimal(n as nat))
                && final(store).backing() == old(store).backing().insert(old(store).place("count"@), decimal(n as nat))
                && restored_count(Ok(final(store).contents().get("count"@))) == n,
            old(store).refuses_writes() ==> final(store).contents() == old(store).contents()
                && final(store).backing() == old(store).backing(),
    {
        let ghost s0 = *store;
        let mut c = StoreCounter::new(&*store);
        let ghost start = c.value();
        let mut i: u32 = 0;
        while i < clicks
            invariant
                i <= clicks,
                start + clicks <= u32::MAX,
                c.value() == start + i,
                store.reads_ok() == s0.reads_ok(),
                store.writes_ok() == s0.writes_ok(),
                store.refuses_writes() == s0.refuses_writes(),
                forall|k: Seq<char>| #[trigger] store.place(k) == s0.place(k),
                forall|k: Seq<char>| k != "count"@ ==> #[trigger] store.contents().get(k) == s0.contents().get(k),
                forall|k: Seq<char>| k != s0.place("count"@) ==> #[trigger] store.backing().get(k) == s0.backing().get(k),
                i == 0 ==> store.contents() == s0.contents() && store.backing() == s0.backing(),
                i > 0 && s0.writes_ok() ==> store.contents() == s0.contents().insert("count"@, decimal(c.value() as nat))
                    && store.backing() == s0.backing().insert(s0.place("count"@), decimal(c.value() as nat)),
                s0.refuses_writes() ==> store.contents() == s0.contents() && store.backing() == s0.backing(),
            decreases clicks - i,
        {
            let ghost before = *store;
            let ghost cv = c.value();
            c.click(store);
            proof {
                let v = decimal(c.value() as nat);
                assert(clicked(before, cv, *store, c.value()));
                assert(before.place("count"@) == s0.place("count"@));
                assert forall|k: Seq<char>| k != "count"@ implies #[trigger] store.contents().get(k) == s0.contents().get(k) by {
                    assert(store.contents().get(k) == before.contents().get(k));
                }
                assert forall|k: Seq<char>| k != s0.place("count"@) implies #[trigger] store.backing().get(k) == s0.backing().get(k) by {
                    assert(store.backing().get(k) == before.backing().get(k));
                }
                if s0.writes_ok() {
                    assert(store.contents() =~= s0.contents().insert("count"@, v));
                    assert(store.backing() =~= s0.backing().insert(s0.place("count"@), v));
                }
            }
            i = i + 1;
        }
        proof {
            if clicks > 0 && s0.writes_ok() {
                law_written_count_is_restored(s0.contents(), c.value());
            }
        }
        c.count()
    }

    /// One instance of the composed counter, whose storage is a provider component
    /// inside the same instance: created over a fresh, empty provider, clicked `clicks`
    /// times, its count. State does not outlive the instance.
    pub fn click_times_selfcontained(clicks: u32) -> (n: u32)
        ensures
            n == clicks,
    {
        let mut provider = MemStore::new();
        assert(provider.contents().get("count"@) is None);
        Self::click_times(&mut provider, clicks)
    }
}

/// What a store-backed counter writes is what a fresh counter restores: after a write
/// of count `n`, reading `count` back yields `n`.
pub proof fn law_written_count_is_restored(contents: Map<Seq<char>, Seq<char>>, n: u32)
    ensures
        restored_count(Ok(contents.insert("count"@, decimal(n as nat)).get("count"@))) == n,
{
    crate::decimal::lemma_parse_decimal_u32(n);
    assert(contents.insert("count"@, decimal(n as nat)).get("count"@) == Some(decimal(n as nat)));
}

/// Namespaces isolate: a write in one namespace leaves what another namespace reads
/// under the same key unchanged.
pub proof fn law_namespaces_isolate(contents: Map<Seq<char>, Seq<char>>, a: Seq<char>, b: Seq<char>, key: Seq<char>, value: Seq<char>)
    requires
        a != b,
    ensures
        contents.insert(scoped_key(a, key), value).get(scoped_key(b, key)) == contents.get(scoped_key(b, key)),
{
    lemma_scoped_key_injective(a, b, key);
}

/// Delegation keeps the state where it was: a store reached through any number of
/// pure delegators holds, reads and writes exactly what the final upstream does, in the
/// same places.
pub proof fn law_delegation_is_transparent<S: Storage>(chain: DelegatingStore<ForwardingStore<S>>)
    ensures
        chain.contents() == chain.upstream.upstream.contents(),
        chain.reads_ok() == chain.upstream.upstream.reads_ok(),
        chain.writes_ok() == chain.upstream.upstream.writes_ok(),
        chain.refuses_writes() == chain.upstream.upstream.refuses_writes(),
        chain.backing() == chain.upstream.upstream.backing(),
        forall|k: Seq<char>| #[trigger] chain.place(k) == chain.upstream.upstream.place(k),
{
}

/// A fresh button counter clicked n times counts n: `states` are a counter as created
/// and after each of its clicks.
pub proof fn law_fresh_counter_counts_clicks(states: Seq<Counter>)
    requires
        states.len() >= 1,
        states[0].value() == 0,
        forall|i: int| 0 <= i < states.len() - 1 ==> #[trigger] states[i + 1].value() == states[i].value() + 1,
    ensures
        states.last().value() == states.len() - 1,
    decreases states.len(),
{
    if states.len() > 1 {
        let d = states.drop_last();
        assert forall|i: int| 0 <= i < d.len() - 1 implies #[trigger] d[i + 1].value() == d[i].value() + 1 by {
            assert(d[i + 1] == states[i + 1] && d[i] == states[i]);
        }
        law_fresh_counter_counts_clicks(d);
        assert(states[states.len() - 1].value() == states[states.len() - 2].value() + 1);
    }
}

/// Clicks through the host's storage land in the shared backend under the instance's
/// namespace: `stores` and `counts` are the instance's view of the backend and its count
/// before and after each click of a fresh store-backed counter. A healthy backend ends up
/// with `ns:count` holding the number of clicks and nothing else changed, so a fresh
/// instance restores that number, and an empty backend then holds exactly one entry; a
/// read-only backend is left as it was, so an empty one stays empty.
pub proof fn law_host_clicks(stores: Seq<HostStorage>, counts: Seq<u32>)
    requires
        stores.len() == counts.len(),
        stores.len() >= 1,
        counts[0] == 0,
        forall|i: int| 0 <= i < stores.len() - 1 ==> #[trigger] clicked(stores[i], counts[i], stores[i + 1], counts[i + 1]),
    ensures
        counts.last() == stores.len() - 1,
        stores.last().backend.denies_writes() == stores[0].backend.denies_writes(),
        forall|k: Seq<char>| #[trigger] stores.last().place(k) == stores[0].place(k),
        !stores[0].backend.denies_writes() && stores.len() > 1 ==> stores.last().backend.contents()
            == stores[0].backend.contents().insert(scoped_key(stores[0].ns@, "count"@), decimal(counts.last() as nat)),
        !stores[0].backend.denies_writes() && stores.len() > 1 ==> restored_count(Ok(stores.last().contents().get("count"@)))
            == counts.last(),
        !stores[0].backend.denies_writes() && stores.len() > 1 && stores[0].backend.contents() == Map::<Seq<char>, Seq<char>>::empty()
            ==> stores.last().backend.contents().len() == 1,
        stores[0].backend.denies_writes() ==> stores.last().backend.contents() == stores[0].backend.contents(),
    decreases stores.len(),
{
    let n = stores.len();
    if n > 1 {
        let ds = stores.drop_last();
        let dc = counts.drop_last();
        assert forall|i: int| 0 <= i < ds.len() - 1 implies #[trigger] clicked(ds[i], dc[i], ds[i + 1], dc[i + 1]) by {
            assert(ds[i] == stores[i] && ds[i + 1] == stores[i + 1] && dc[i] == counts[i] && dc[i + 1] == counts[i + 1]);
        }
        law_host_clicks(ds, dc);
        let a = stores[n - 2];
        let b = stores[n - 1];
        assert(clicked(a, counts[n - 2], b, counts[n - 1]));
        assert(a.place("count"@) == stores[0].place("count"@));
        let first = stores[0].backend.contents();
        let key = scoped_key(stores[0].ns@, "count"@);
        let v = decimal(counts[n - 1] as nat);
        if !stores[0].backend.denies_writes() {
            assert(b.backend.contents() == a.backend.contents().insert(key, v));
            if n > 2 {
                assert(a.backend.contents() == first.insert(key, decimal(counts[n - 2] as nat)));
                assert(b.backend.contents() =~= first.insert(key, v));
            }
            assert(b.contents().get("count"@) == Some(v)) by {
                assert(b.place("count"@) == key);
            }
            crate::decimal::lemma_parse_decimal_u32(counts[n - 1]);
            if first == Map::<Seq<char>, Seq<char>>::empty() {
                assert(b.backend.contents() =~= map![key => v]);
                assert(map![key => v].len() == 1) by {
                    assert(map![key => v].dom() =~= set![key]);
                }
            }
        }
    }
}

/// What a healthy backend holds after writes `(ns, key, value)` in order, from empty.
pub open spec fn written(ws: Seq<(Seq<char>, Seq<char>, Seq<char>)>) -> Map<Seq<char>, Seq<char>>
    decreases ws.len(),
{
    if ws.len() == 0 {
        Map::empty()
    } else {
        written(ws.drop_last()).insert(scoped_key(ws.last().0, ws.last().1), ws.last().2)
    }
}

/// The distinct scoped keys that writes `(ns, key, value)` touch.
pub open spec fn scoped_keys(ws: Seq<(Seq<char>, Seq<char>, Seq<char>)>) -> Set<Seq<char>> {
    Set::new(|k: Seq<char>| exists|i: int| 0 <= i < ws.len() && #[trigger] scoped_key(ws[i].0, ws[i].1) == k)
}

/// After successful writes `ws[i] = (ns, key, value)` into a fresh backend, one
/// `Backend::set` per write (`states` holds the backend before the first write and after
/// each one), the backend's entries are exactly the distinct scoped keys written, so
/// `len` counts them: rewriting a scoped key adds no entry.
pub proof fn law_backend_counts_scoped_keys(states: Seq<Backend>, ws: Seq<(Seq<char>, Seq<char>, Seq<char>)>)
    requires
        states.len() == ws.len() + 1,
        states[0].contents() == Map::<Seq<char>, Seq<char>>::empty(),
        forall|i: int| 0 <= i < ws.len() ==> #[trigger] states[i + 1].contents()
            == states[i].contents().insert(scoped_key(ws[i].0, ws[i].1), ws[i].2),
    ensures
        states.last().contents() == written(ws),
        states.last().contents().dom() == scoped_keys(ws),
        states.last().contents().dom().finite(),
        states.last().contents().len() == scoped_keys(ws).len(),
{
    lemma_backend_states_written(states, ws);
    lemma_written_keys(ws);
}

proof fn lemma_backend_states_written(states: Seq<Backend>, ws: Seq<(Seq<char>, Seq<char>, Seq<char>)>)
    requires
        states.len() == ws.len() + 1,
        states[0].contents() == Map::<Seq<char>, Seq<char>>::empty(),
        forall|i: int| 0 <= i < ws.len() ==> #[trigger] states[i + 1].contents()
            == states[i].contents().insert(scoped_key(ws[i].0, ws[i].1), ws[i].2),
    ensures
        states.last().contents() == written(ws),
    decreases ws.len(),
{
    if ws.len() > 0 {
        let ds = states.drop_last();
        let dw = ws.drop_last();
        assert forall|i: int| 0 <= i < dw.len() implies #[trigger] ds[i + 1].contents()
            == ds[i].contents().insert(scoped_key(dw[i].0, dw[i].1), dw[i].2) by {
            assert(ds[i + 1] == states[i + 1] && ds[i] == states[i] && dw[i] == ws[i]);
        }
        lemma_backend_states_written(ds, dw);
        let j = ws.len() - 1;
        assert(states[j + 1].contents() == states[j].contents().insert(scoped_key(ws[j].0, ws[j].1), ws[j].2));
    }
}

proof fn lemma_written_keys(ws: Seq<(Seq<char>, Seq<char>, Seq<char>)>)
    ensures
        written(ws).dom() == scoped_keys(ws),
        written(ws).dom().finite(),
        written(ws).len() == scoped_keys(ws).len(),
    decreases ws.len(),
{
    if ws.len() > 0 {
        let d = ws.drop_last();
        lemma_written_keys(d);
        let k = scoped_key(ws.last().0, ws.last().1);
        assert forall|x: Seq<char>| scoped_keys(ws).contains(x) <==> #[trigger] scoped_keys(d).insert(k).contains(x) by {
            if scoped_keys(ws).contains(x) {
                let i = choose|i: int| 0 <= i < ws.len() && #[trigger] scoped_key(ws[i].0, ws[i].1) == x;
                if i < d.len() {
                    assert(d[i] == ws[i]);
                    assert(scoped_key(d[i].0, d[i].1) == x);
                }
            }
            if scoped_keys(d).contains(x) {
                let i = choose|i: int| 0 <= i < d.len() && #[trigger] scoped_key(d[i].0, d[i].1) == x;
                assert(d[i] == ws[i]);
                assert(scoped_key(ws[i].0, ws[i].1) == x);
            }
            if x == k {
                assert(scoped_key(ws[ws.len() - 1].0, ws[ws.len() - 1].1) == x);
            }
        }
        assert(scoped_keys(ws) =~= scoped_keys(d).insert(k));
        assert(written(ws).dom() =~= written(d).dom().insert(k));
    } else {
        assert(scoped_keys(ws) =~= Set::<Seq<char>>::empty());
        assert(written(ws).dom() =~= Set::<Seq<char>>::empty());
    }
}

} // verus!
