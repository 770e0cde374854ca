use confium::error::{Error, ErrorCode};
use confium::options::{OptionValue, Options};

#[test]
fn string_values() {
    let mut opts = Options::new();
    opts.insert("key".to_string(), OptionValue::String("value".to_string()));
    assert!(*opts.get(&"key".to_string()).unwrap() == OptionValue::String("value".to_string()));
}

#[test]
fn u32_values() {
    let mut opts = Options::new();
    opts.insert("num".to_string(), OptionValue::U32(5));
    assert!(*opts.get(&"num".to_string()).unwrap() == OptionValue::U32(5));
}

#[test]
fn options_values() {
    let mut opts = Options::new();
    let mut inner = Options::new();
    inner.insert("num".to_string(), OptionValue::U32(3535));
    opts.insert("opts".to_string(), OptionValue::Options(Box::new(inner)));
    if let OptionValue::Options(value) = opts.get(&"opts".to_string()).unwrap() {
        assert!(*value.get(&"num".to_string()).unwrap() == OptionValue::U32(3535));
    } else {
        assert!(false);
    }
}

#[test]
fn insert_replaces_and_keeps_other_keys() {
    let mut opts = Options::new();
    opts.insert("a".to_string(), OptionValue::U32(1));
    opts.insert("b".to_string(), OptionValue::U32(2));
    opts.insert("a".to_string(), OptionValue::U32(9));
    assert_eq!(opts.len(), 2);
    assert!(*opts.get(&"a".to_string()).unwrap() == OptionValue::U32(9));
    assert!(*opts.get(&"b".to_string()).unwrap() == OptionValue::U32(2));
}

#[test]
fn typed_getters_and_their_errors() {
    let mut opts = Options::new();
    opts.insert("num".to_string(), OptionValue::U32(7));
    opts.insert("text".to_string(), OptionValue::String("t".to_string()));
    assert_eq!(opts.get_u32(&"num".to_string()).unwrap(), 7);
    assert_eq!(opts.get_string(&"text".to_string()).unwrap(), "t");
    let wrong = opts.get_u32(&"text".to_string()).unwrap_err();
    assert_eq!(wrong.code(), ErrorCode::WRONG_TYPE.as_u32());
    assert_eq!(wrong.code(), 10);
    let missing = opts.get_u32(&"absent".to_string()).unwrap_err();
    assert!(missing == Error::ValueNotFound);
    assert_eq!(missing.code(), 11);
}

#[test]
fn remove_and_clear() {
    let mut opts = Options::new();
    opts.insert("a".to_string(), OptionValue::U32(1));
    opts.insert("b".to_string(), OptionValue::U32(2));
    opts.remove(&"a".to_string());
    assert!(opts.get(&"a".to_string()).is_none());
    assert!(opts.get(&"b".to_string()).is_some());
    opts.clear();
    assert_eq!(opts.len(), 0);
    assert!(opts.get(&"b".to_string()).is_none());
}
