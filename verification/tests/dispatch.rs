use confium::error::Error;
use confium::hash::{finalize_buffer, write_digest, CreateReply};
use confium::plugin::SymbolsReply;
use confium::{Confium, LoadReplies};

fn record(name: &[u8], version: u8) -> Vec<u8> {
    let mut r = name.to_vec();
    r.push(0);
    r.push(version);
    r.push(0);
    r
}

fn advert(names: &[&[u8]]) -> Vec<u8> {
    let mut a = Vec::new();
    for n in names {
        a.extend(record(n, 0));
    }
    a.push(0);
    a
}

fn replies_with(library: u64, advertisement: Vec<u8>) -> LoadReplies {
    LoadReplies {
        library: Some(library),
        interface_version: Ok(0),
        core_symbols: SymbolsReply::Bound { handle: 100 + library },
        init_status: 0,
        advertisement,
        hash_symbols: SymbolsReply::Bound { handle: 200 + library },
    }
}

/// p1 has no hash capability; p2 and p3 advertise hash version 0.
fn registry() -> Confium {
    let mut cfm = Confium::new();
    cfm.load_plugin("p1".to_string(), replies_with(1, advert(&[b"mac"]))).unwrap();
    cfm.load_plugin("p2".to_string(), replies_with(2, advert(&[b"hash"]))).unwrap();
    cfm.load_plugin("p3".to_string(), replies_with(3, advert(&[b"hash"]))).unwrap();
    cfm
}

fn declined() -> CreateReply {
    CreateReply { status: 0, handle: None }
}

fn created(h: u64) -> CreateReply {
    CreateReply { status: 0, handle: Some(h) }
}

#[test]
fn every_candidate_declining_means_unsupported_algorithm() {
    let cfm = registry();
    // no provider's create ever returns a handle
    let replies = vec![declined(), declined(), declined()];
    let err = confium::hash::Hash::new(&cfm, &"sha9000".to_string(), None, &replies).unwrap_err();
    assert!(err == Error::UnsupportedAlgorithm { name: "sha9000".to_string() });
    assert_eq!(err.code(), 50);
}

#[test]
fn a_named_provider_without_the_capability_is_missing_interface() {
    let cfm = registry();
    let replies = vec![declined(), declined(), declined()];
    let p1 = "p1".to_string();
    let err = confium::hash::Hash::new(&cfm, &"md5".to_string(), Some(&p1), &replies).unwrap_err();
    assert!(
        err == Error::PluginMissingInterface { name: "p1".to_string(), ifname: "hash".to_string() }
    );
    assert_eq!(err.code(), 25);
}

#[test]
fn a_named_provider_that_does_not_exist_is_unknown() {
    let cfm = registry();
    let replies = vec![declined(), declined(), declined()];
    let nope = "nope".to_string();
    let err = confium::hash::Hash::new(&cfm, &"md5".to_string(), Some(&nope), &replies).unwrap_err();
    assert!(err == Error::UnknownProvider { name: "nope".to_string() });
}

#[test]
fn fallback_takes_capable_providers_in_load_order() {
    let cfm = registry();
    // the first capable provider (p2) declines; the next (p3) creates
    let replies = vec![declined(), created(7)];
    let h = confium::hash::Hash::new(&cfm, &"md5".to_string(), None, &replies).unwrap();
    assert_eq!(h.obj, 7);
    assert_eq!(h.name, "md5");
    assert_eq!(h.lib, 3);
}

#[test]
fn a_preferred_ranking_overrides_load_order() {
    let mut cfm = registry();
    cfm.set_preferred_providers("hash".to_string(), vec!["p3".to_string(), "p2".to_string()]);
    // the first ranked provider answers first
    let replies = vec![created(9), created(8)];
    let h = confium::hash::Hash::new(&cfm, &"md5".to_string(), None, &replies).unwrap();
    assert_eq!(h.obj, 9);
    assert_eq!(h.lib, 3);
}

#[test]
fn an_unknown_name_in_the_ranking_is_fatal() {
    let mut cfm = registry();
    cfm.set_preferred_providers("hash".to_string(), vec!["ghost".to_string(), "p2".to_string()]);
    let replies = vec![created(9), created(8), declined()];
    let err = confium::hash::Hash::new(&cfm, &"md5".to_string(), None, &replies).unwrap_err();
    assert!(err == Error::UnknownProvider { name: "ghost".to_string() });
}

#[test]
fn a_non_zero_create_status_is_a_hard_error_not_a_skip() {
    let cfm = registry();
    let replies = vec![CreateReply { status: 5, handle: None }, created(8), declined()];
    let err = confium::hash::Hash::new(&cfm, &"md5".to_string(), None, &replies).unwrap_err();
    assert!(err == Error::PluginInternalError { name: "p2".to_string(), code: 5 });
    assert_eq!(err.code(), 26);
}

#[test]
fn instance_operations_translate_non_zero_statuses() {
    let cfm = registry();
    let replies = vec![created(7), declined()];
    let mut h = confium::hash::Hash::new(&cfm, &"md5".to_string(), None, &replies).unwrap();
    assert!(h.update(0).is_ok());
    let err = h.update(3).unwrap_err();
    assert!(err == Error::PluginInternalError { name: String::new(), code: 3 });
    assert!(h.reset(0).is_ok());
    assert!(h.reset(4).is_err());
    assert_eq!(h.output_size(0, 16).unwrap(), 16);
    assert!(h.output_size(9, 16).is_err());
    assert_eq!(h.block_size(0, 64).unwrap(), 64);
    assert!(h.block_size(9, 64).is_err());
}

// A stand-in for a plugin's hash implementation, used to play the plugin
// side of the boundary in the tests below.
#[derive(Clone)]
struct ToyHasher {
    state: u64,
}

impl ToyHasher {
    fn new() -> ToyHasher {
        ToyHasher { state: 0xcbf2_9ce4_8422_2325 }
    }

    fn update(&mut self, data: &[u8]) {
        for b in data {
            self.state = self.state.wrapping_mul(31).wrapping_add(*b as u64);
        }
    }

    fn digest(&self) -> Vec<u8> {
        self.state.to_le_bytes().to_vec()
    }
}

#[test]
fn one_shot_digest_equals_update_then_finalize() {
    let cfm = registry();
    let data = b"abc def";

    // the plugin side computes the same bytes in both runs
    let mut toy = ToyHasher::new();
    toy.update(data);
    let plugin_bytes = toy.digest();

    // staged: create, update, finalize on a fresh instance
    let replies = vec![created(7), declined()];
    let mut h = confium::hash::Hash::new(&cfm, &"toy".to_string(), None, &replies).unwrap();
    h.update(0).unwrap();
    let staged = h.finalize(0, plugin_bytes.clone()).unwrap();

    // one-shot
    let replies2 = vec![created(8), declined()];
    let oneshot = confium::hash::Hash::digest(&cfm, &"toy".to_string(), &replies2, 0, 0, plugin_bytes).unwrap();

    assert_eq!(staged, oneshot);
}

#[test]
fn a_fork_after_partial_update_stays_consistent() {
    let cfm = registry();
    let first = b"hello ";
    let rest = b"world";

    let replies = vec![created(7), declined()];
    let mut h1 = confium::hash::Hash::new(&cfm, &"toy".to_string(), None, &replies).unwrap();

    // the plugin hashes the first part, then clones its own state
    let mut toy1 = ToyHasher::new();
    toy1.update(first);
    h1.update(0).unwrap();

    let h2 = h1.clone(0, Some(9)).unwrap();
    let mut toy2 = toy1.clone();

    // the fork shares the interface and library but owns its handle
    assert!(h2.interface == h1.interface);
    assert_eq!(h2.lib, h1.lib);
    assert_eq!(h2.name, h1.name);
    assert_eq!(h2.obj, 9);
    assert_ne!(h2.obj, h1.obj);

    // both sides hash the same remainder and finish
    toy1.update(rest);
    toy2.update(rest);
    let mut h2 = h2;
    h1.update(0).unwrap();
    h2.update(0).unwrap();
    let d1 = h1.finalize(0, toy1.digest()).unwrap();
    let d2 = h2.finalize(0, toy2.digest()).unwrap();
    assert_eq!(d1, d2);
}

#[test]
fn clone_fails_on_a_bad_status_or_missing_handle() {
    let cfm = registry();
    let replies = vec![created(7), declined()];
    let h = confium::hash::Hash::new(&cfm, &"toy".to_string(), None, &replies).unwrap();
    let err = h.clone(2, None).unwrap_err();
    assert!(err == Error::PluginInternalError { name: String::new(), code: 2 });
    assert!(h.clone(0, None).is_err());
}

#[test]
fn a_short_output_buffer_is_insufficient_and_left_untouched() {
    let digest = vec![1, 2, 3, 4];
    let mut small = vec![9, 9];
    let err = write_digest(&digest, &mut small).unwrap_err();
    assert!(err == Error::InsufficientBuffer);
    assert_eq!(err.code(), 12);
    // no partial write
    assert_eq!(small, vec![9, 9]);

    let mut big = vec![9, 9, 9, 9, 9, 9];
    write_digest(&digest, &mut big).unwrap();
    assert_eq!(big, vec![1, 2, 3, 4, 9, 9]);
}

#[test]
fn the_finalize_buffer_is_sized_by_output_size_and_zeroed() {
    let buf = finalize_buffer(8);
    assert_eq!(buf, vec![0; 8]);
}
