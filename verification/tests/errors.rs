use confium::error::{Error, ErrorCode};
use confium::plugin::{
    bind_hash_interface, check_init_status, check_interface_version, HashInterface,
    HashInterfaceV0, PluginInterface, SymbolsReply,
};

#[test]
fn every_error_kind_has_its_stable_code() {
    let n = || "p".to_string();
    assert_eq!(Error::NullPointer { param: "cfm".to_string() }.code(), 2);
    assert_eq!(Error::InvalidUTF8.code(), 3);
    assert_eq!(Error::WrongType { expected: "u32".to_string() }.code(), 10);
    assert_eq!(Error::ValueNotFound.code(), 11);
    assert_eq!(Error::InsufficientBuffer.code(), 12);
    assert_eq!(Error::UnknownProvider { name: n() }.code(), 13);
    assert_eq!(Error::PluginLoadFailed { name: n() }.code(), 20);
    assert_eq!(Error::PluginSymbolError { name: n(), symbol: "s".to_string() }.code(), 21);
    assert_eq!(Error::PluginInterfaceVersionUnsupported { name: n() }.code(), 23);
    assert_eq!(Error::PluginNameCollision { name: n() }.code(), 24);
    assert_eq!(Error::PluginMissingInterface { name: n(), ifname: "hash".to_string() }.code(), 25);
    assert_eq!(Error::PluginInternalError { name: n(), code: 1 }.code(), 26);
    assert_eq!(Error::UnsupportedAlgorithm { name: n() }.code(), 50);
}

#[test]
fn code_values_cover_the_taxonomy() {
    assert_eq!(ErrorCode::UNKNOWN.as_u32(), 1);
    assert_eq!(ErrorCode::NULL_POINTER.as_u32(), 2);
    assert_eq!(ErrorCode::INVALID_UTF8.as_u32(), 3);
    assert_eq!(ErrorCode::WRONG_TYPE.as_u32(), 10);
    assert_eq!(ErrorCode::VALUE_NOT_FOUND.as_u32(), 11);
    assert_eq!(ErrorCode::INSUFFICIENT_BUFFER.as_u32(), 12);
    assert_eq!(ErrorCode::UNKNOWN_PROVIDER.as_u32(), 13);
    assert_eq!(ErrorCode::PLUGIN_LOAD_FAILED.as_u32(), 20);
    assert_eq!(ErrorCode::PLUGIN_SYMBOL_ERROR.as_u32(), 21);
    assert_eq!(ErrorCode::PLUGIN_INITIALIZATION_FAILED.as_u32(), 22);
    assert_eq!(ErrorCode::PLUGIN_INTERFACE_VERSION_UNSUPPORTED.as_u32(), 23);
    assert_eq!(ErrorCode::PLUGIN_NAME_COLLISION.as_u32(), 24);
    assert_eq!(ErrorCode::PLUGIN_MISSING_INTERFACE.as_u32(), 25);
    assert_eq!(ErrorCode::PLUGIN_INTERNAL_ERROR.as_u32(), 26);
    assert_eq!(ErrorCode::UNSUPPORTED_ALGORITHM.as_u32(), 50);
}

#[test]
fn only_generation_zero_passes_the_handshake() {
    assert!(check_interface_version(&"p".to_string(), 0).is_ok());
    let err = check_interface_version(&"p".to_string(), 3).unwrap_err();
    assert!(err == Error::PluginInterfaceVersionUnsupported { name: "p".to_string() });
}

#[test]
fn initialize_statuses_pass_or_carry_their_code() {
    assert!(check_init_status(&"p".to_string(), 0).is_ok());
    let err = check_init_status(&"p".to_string(), 42).unwrap_err();
    assert!(err == Error::PluginInternalError { name: "p".to_string(), code: 42 });
}

#[test]
fn binding_yields_the_interface_or_names_the_missing_symbol() {
    let bound = bind_hash_interface(&"p".to_string(), 0, SymbolsReply::Bound { handle: 11 });
    assert!(
        bound.unwrap()
            == PluginInterface::Hash(HashInterface::V0(HashInterfaceV0 { vtable: 11 }))
    );
    let missing = bind_hash_interface(
        &"p".to_string(),
        0,
        SymbolsReply::Missing { symbol: "cfmp_hash_update".to_string() },
    );
    let err = missing.unwrap_err();
    assert!(
        err == Error::PluginSymbolError {
            name: "p".to_string(),
            symbol: "cfmp_hash_update".to_string(),
        }
    );
}
