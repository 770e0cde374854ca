use confium::error::Error;
use confium::plugin::{PluginV0, PluginVTable, SymbolsReply};
use confium::{cfm_version_component, version_string, Confium, LoadReplies};

fn record(name: &[u8], version: u8) -> Vec<u8> {
    let mut r = name.to_vec();
    r.push(0);
    r.push(version);
    r.push(0);
    r
}

fn hash_advert() -> Vec<u8> {
    let mut advert = record(b"hash", 0);
    advert.push(0);
    advert
}

fn good_replies(library: u64) -> LoadReplies {
    LoadReplies {
        library: Some(library),
        interface_version: Ok(0),
        core_symbols: SymbolsReply::Bound { handle: 100 + library },
        init_status: 0,
        advertisement: hash_advert(),
        hash_symbols: SymbolsReply::Bound { handle: 200 + library },
    }
}

#[test]
fn loading_registers_a_provider_with_a_bound_hash_interface() {
    let mut cfm = Confium::new();
    cfm.load_plugin("p1".to_string(), good_replies(1)).unwrap();
    let p = confium::hash::get_provider(&cfm, &"p1".to_string()).unwrap();
    assert_eq!(p.name, "p1");
    assert_eq!(p.plugin.library, 1);
    assert!(p.plugin.vtable == PluginVTable::V0(PluginV0 { vtable: 101 }));
    assert_eq!(p.plugin.interfaces.len(), 1);
}

#[test]
fn a_second_provider_under_the_same_name_is_a_collision() {
    let mut cfm = Confium::new();
    cfm.load_plugin("p1".to_string(), good_replies(1)).unwrap();
    let err = cfm.load_plugin("p1".to_string(), good_replies(2)).unwrap_err();
    assert!(err == Error::PluginNameCollision { name: "p1".to_string() });
    assert_eq!(err.code(), 24);
    // the registry still holds exactly the first
    let survivors = cfm.teardown();
    assert_eq!(survivors.len(), 1);
    assert_eq!(survivors[0].name, "p1");
    assert_eq!(survivors[0].plugin.library, 1);
}

#[test]
fn an_unknown_interface_generation_is_rejected_and_nothing_is_added() {
    let mut cfm = Confium::new();
    let mut replies = good_replies(1);
    replies.interface_version = Ok(1);
    let err = cfm.load_plugin("p1".to_string(), replies).unwrap_err();
    assert!(err == Error::PluginInterfaceVersionUnsupported { name: "p1".to_string() });
    assert_eq!(err.code(), 23);
    assert_eq!(cfm.teardown().len(), 0);
}

#[test]
fn no_candidate_path_opening_is_a_load_failure() {
    let mut cfm = Confium::new();
    let mut replies = good_replies(1);
    replies.library = None;
    let err = cfm.load_plugin("p1".to_string(), replies).unwrap_err();
    assert!(err == Error::PluginLoadFailed { name: "p1".to_string() });
    assert_eq!(err.code(), 20);
}

#[test]
fn a_missing_entry_point_is_a_symbol_error() {
    let mut cfm = Confium::new();
    let mut replies = good_replies(1);
    replies.core_symbols = SymbolsReply::Missing { symbol: "cfmp_initialize".to_string() };
    let err = cfm.load_plugin("p1".to_string(), replies).unwrap_err();
    assert!(
        err == Error::PluginSymbolError {
            name: "p1".to_string(),
            symbol: "cfmp_initialize".to_string(),
        }
    );
    assert_eq!(err.code(), 21);
    assert_eq!(cfm.teardown().len(), 0);
}

#[test]
fn a_failed_initialize_surfaces_the_plugin_code() {
    let mut cfm = Confium::new();
    let mut replies = good_replies(1);
    replies.init_status = 77;
    let err = cfm.load_plugin("p1".to_string(), replies).unwrap_err();
    assert!(err == Error::PluginInternalError { name: "p1".to_string(), code: 77 });
    assert_eq!(err.code(), 26);
}

#[test]
fn an_advertisement_without_hash_registers_without_interfaces() {
    let mut cfm = Confium::new();
    let mut replies = good_replies(1);
    let mut advert = record(b"mac", 0);
    advert.push(0);
    replies.advertisement = advert;
    cfm.load_plugin("p1".to_string(), replies).unwrap();
    let p = confium::hash::get_provider(&cfm, &"p1".to_string()).unwrap();
    assert_eq!(p.plugin.interfaces.len(), 0);
}

#[test]
fn an_unsupported_hash_version_is_skipped_without_error() {
    let mut cfm = Confium::new();
    let mut replies = good_replies(1);
    let mut advert = record(b"hash", 9);
    advert.push(0);
    replies.advertisement = advert;
    cfm.load_plugin("p1".to_string(), replies).unwrap();
    let p = confium::hash::get_provider(&cfm, &"p1".to_string()).unwrap();
    assert_eq!(p.plugin.interfaces.len(), 0);
}

#[test]
fn a_bad_advertisement_is_invalid_utf8() {
    let mut cfm = Confium::new();
    let mut replies = good_replies(1);
    replies.advertisement = vec![0xff, 0x00, 0x00, 0x00, 0x00];
    let err = cfm.load_plugin("p1".to_string(), replies).unwrap_err();
    assert!(err == Error::InvalidUTF8);
    assert_eq!(cfm.teardown().len(), 0);
}

#[test]
fn teardown_hands_every_provider_back_exactly_once_in_load_order() {
    let mut cfm = Confium::new();
    cfm.load_plugin("p1".to_string(), good_replies(1)).unwrap();
    cfm.load_plugin("p2".to_string(), good_replies(2)).unwrap();
    cfm.load_plugin("p3".to_string(), good_replies(3)).unwrap();
    let finalized = cfm.teardown();
    let names: Vec<String> = finalized.iter().map(|p| p.name.clone()).collect();
    assert_eq!(names, vec!["p1", "p2", "p3"]);
    // the registry is empty afterwards: a second teardown finalizes nothing
    assert_eq!(cfm.teardown().len(), 0);
}

#[test]
fn unknown_providers_are_reported_as_such() {
    let cfm = Confium::new();
    let err = confium::hash::get_provider(&cfm, &"nope".to_string()).unwrap_err();
    assert!(err == Error::UnknownProvider { name: "nope".to_string() });
    assert_eq!(err.code(), 13);
}

#[test]
fn version_components_match_the_version_string() {
    assert_eq!(version_string(), "0.1.0");
    assert_eq!(cfm_version_component(0), 0);
    assert_eq!(cfm_version_component(1), 1);
    assert_eq!(cfm_version_component(2), 0);
}
