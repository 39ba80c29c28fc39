use spark_host::pipeline::plugin_files;
use spark_host::store::{scoped, relay, Backend, Counter, DelegatingStore, ForwardingStore, HostStorage, MemStore, Storage, StoreCounter, StoreError};

const NS: &str = "counter-store";

/// A fresh counter instance over `store`: built, clicked `clicks` times, its count.
fn click_times<S: Storage>(store: &mut S, clicks: u32) -> u32 {
    StoreCounter::click_times(store, clicks)
}

fn host(backend: Backend, ns: &str) -> HostStorage {
    HostStorage { backend, ns: ns.into() }
}

#[test]
fn state_survives_a_new_instance() {
    let mut store = host(Backend::new(), "counter-store");
    assert_eq!(click_times(&mut store, 3), 3);
    assert_eq!(click_times(&mut store, 0), 3);
    assert_eq!(store.backend.len(), 1);
}

#[test]
fn namespaces_isolate() {
    let mut alpha = host(Backend::new(), "alpha");
    assert_eq!(click_times(&mut alpha, 3), 3);
    assert_eq!(click_times(&mut alpha, 0), 3);
    let mut beta = host(alpha.backend, "beta");
    assert_eq!(click_times(&mut beta, 0), 0);
    assert_eq!(beta.backend.len(), 1);
}

#[test]
fn denied_writes_are_observable_through_a_fresh_instance() {
    let mut store = host(Backend::read_only(), "counter-store");
    assert_eq!(click_times(&mut store, 3), 3);
    assert_eq!(click_times(&mut store, 0), 0);
    assert!(store.backend.is_empty());
}

#[test]
fn provider_component_implements_the_capability() {
    let mut m = MemStore::new();
    assert_eq!(m.set("k", "v"), Ok(()));
    assert_eq!(m.get("k"), Ok(Some("v".to_string())));
    let mut m = MemStore::new();
    assert_eq!(m.set("empty", ""), Ok(()));
    assert_eq!(m.get("empty"), Ok(Some(String::new())));
    assert_eq!(m.get("missing"), Ok(None));
}

#[test]
fn composed_runs_on_an_empty_linker() {
    // The consumer composed with its provider needs nothing from the host.
    assert_eq!(StoreCounter::click_times_selfcontained(3), 3);
}

#[test]
fn the_capability_is_instance_scoped_in_this_implementation() {
    assert_eq!(StoreCounter::click_times_selfcontained(3), 3);
    assert_eq!(StoreCounter::click_times_selfcontained(0), 0);
    let mut first = MemStore::new();
    assert_eq!(click_times(&mut first, 3), 3);
    let mut second = MemStore::new();
    assert_eq!(click_times(&mut second, 0), 0);
}

#[test]
fn a_delegating_provider_hands_the_state_to_the_host() {
    let mut chain = DelegatingStore { upstream: host(Backend::new(), NS) };
    assert_eq!(click_times(&mut chain, 3), 3);
    assert_eq!(click_times(&mut chain, 0), 3);
    assert_eq!(chain.upstream.backend.len(), 1);
}

#[test]
fn the_selfcontained_provider_never_reaches_the_host() {
    let backend = Backend::new();
    let mut first = MemStore::new();
    assert_eq!(click_times(&mut first, 3), 3);
    let mut second = MemStore::new();
    assert_eq!(click_times(&mut second, 0), 0);
    assert_eq!(backend.len(), 0);
}

#[test]
fn two_hop_delegation_keeps_the_state_at_the_host() {
    let mut chain = DelegatingStore { upstream: ForwardingStore { upstream: host(Backend::new(), NS) } };
    assert_eq!(click_times(&mut chain, 3), 3);
    assert_eq!(click_times(&mut chain, 0), 3);
    assert_eq!(chain.upstream.upstream.backend.len(), 1);
}

#[test]
fn adding_a_provider_hop_does_not_move_the_state() {
    let mut one = ForwardingStore { upstream: host(Backend::new(), NS) };
    assert_eq!(click_times(&mut one, 3), 3);
    assert_eq!(one.upstream.backend.len(), 1);
    let mut two = DelegatingStore { upstream: ForwardingStore { upstream: one.upstream } };
    assert_eq!(click_times(&mut two, 0), 3);
    assert_eq!(two.upstream.upstream.backend.len(), 1);
}

#[test]
fn click_accumulates() {
    let c = Counter::new();
    assert_eq!(c.count(), 0);
    let mut c = Counter::new();
    for _ in 0..3 {
        c.click();
    }
    assert_eq!(c.count(), 3);
}

#[test]
fn instances_do_not_share_state() {
    assert_eq!(Counter::click_times(5), 5);
    assert_eq!(Counter::click_times(1), 1);
    assert_eq!(Counter::click_times(0), 0);
    let mut a = Counter::new();
    for _ in 0..5 {
        a.click();
    }
    assert_eq!(a.count(), 5);
    let mut b = Counter::new();
    b.click();
    assert_eq!(b.count(), 1);
}

#[test]
fn backend_keys_and_errors() {
    assert_eq!(scoped("ns", "count"), "ns:count");
    let mut b = Backend::new();
    assert_eq!(b.set("a", "k", "1"), Ok(()));
    assert_eq!(b.set("a", "k", "2"), Ok(()));
    assert_eq!(b.len(), 1);
    assert_eq!(b.get("a", "k"), Ok(Some("2".to_string())));
    assert_eq!(b.get("b", "k"), Ok(None));
    let mut r = Backend::read_only();
    assert_eq!(r.set("a", "k", "1"), Err(StoreError::Denied("read-only backend".into())));
    assert_eq!(r.get("a", "k"), Ok(None));
    assert_eq!(relay(StoreError::Unavailable("x".into())), StoreError::Unavailable("x".into()));
    let mut ro = DelegatingStore { upstream: host(Backend::read_only(), NS) };
    assert_eq!(ro.set("count", "1"), Err(StoreError::Denied("read-only backend".into())));
}

#[test]
fn stored_garbage_restarts_at_zero() {
    assert_eq!(StoreCounter::from_stored(Ok(Some("+7".into()))).count(), 7);
    assert_eq!(StoreCounter::from_stored(Ok(Some("x".into()))).count(), 0);
    assert_eq!(StoreCounter::from_stored(Ok(Some("4294967296".into()))).count(), 0);
    assert_eq!(StoreCounter::from_stored(Ok(None)).count(), 0);
    assert_eq!(StoreCounter::from_stored(Err(StoreError::Unavailable("down".into()))).count(), 0);
}

#[test]
fn backend_counts_distinct_scoped_keys() {
    let mut b = Backend::new();
    for (ns, key, value) in [("a", "k", "1"), ("b", "k", "2"), ("a", "k", "3"), ("a", "j", "4"), ("a:k", "", "5")] {
        assert_eq!(b.set(ns, key, value), Ok(()));
    }
    // a:k, b:k, a:j and a:k: (the last) are distinct; rewriting a:k adds none.
    assert_eq!(b.len(), 4);
    assert_eq!(b.get("a", "k"), Ok(Some("3".to_string())));
}

#[test]
fn fresh_counters_count_their_own_clicks() {
    for n in [0u32, 1, 5] {
        let mut c = Counter::new();
        for _ in 0..n {
            c.click();
        }
        assert_eq!(c.count(), n);
    }
}

#[test]
fn clicks_through_the_host_touch_one_entry() {
    let mut shared = Backend::new();
    assert_eq!(shared.set("other", "count", "9"), Ok(()));
    let mut store = host(shared, NS);
    assert_eq!(click_times(&mut store, 4), 4);
    assert_eq!(store.backend.len(), 2);
    assert_eq!(store.backend.get(NS, "count"), Ok(Some("4".to_string())));
    assert_eq!(store.backend.get("other", "count"), Ok(Some("9".to_string())));
}

#[test]
fn plugin_directory_listing() {
    let entries: Vec<String> =
        ["spark_plugin_rmb.wasm", "README.md", ".wasm", "a.wasm.bak", "spark_plugin.wasm", "中.wasm", "b.WASM", "Z.wasm", "x.wasm"]
            .iter()
            .map(|s| s.to_string())
            .collect();
    assert_eq!(plugin_files(&entries), ["Z.wasm", "spark_plugin.wasm", "spark_plugin_rmb.wasm", "x.wasm", "中.wasm"]);
    assert!(plugin_files(&[]).is_empty());
}
