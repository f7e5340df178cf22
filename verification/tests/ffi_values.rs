use esotereel::ffi_string::{OwnedString, StringView, TextError};
use esotereel::ffi_values::{ErrorChain, FfiOption, FfiResult, FfiResultUnion, FfiResultVoid};

#[test]
fn string_view_reads_back_its_text() {
    let v = StringView::from_str("héllo");
    assert!(!v.is_null());
    assert_eq!(v.len, "héllo".len());
    assert_eq!(v.as_str().ok(), Some("héllo"));
    assert_eq!(v.as_string_lossy(), "héllo");
}

#[test]
fn null_string_view_is_an_error() {
    let v = StringView::zero();
    assert!(v.is_null());
    match v.as_str() {
        Err(TextError::NullPointer(m)) => assert_eq!(m, "StringView pointer is null"),
        _ => panic!("expected a null pointer error"),
    }
    assert_eq!(v.as_string_lossy(), "");
}

#[test]
fn invalid_utf8_is_reported_and_replaced_lossily() {
    let v = StringView { data: Some(vec![b'a', 0xff, b'b']), len: 3 };
    assert!(matches!(v.as_str(), Err(TextError::InvalidUtf8)));
    assert_eq!(v.as_string_lossy(), "a\u{FFFD}b");
}

#[test]
fn owned_string_round_trip() {
    let s = OwnedString::from_string("abc".to_string());
    assert_eq!(s.as_str().ok(), Some("abc"));
    let z = OwnedString::zero();
    assert!(z.is_null());
    match z.as_str() {
        Err(TextError::NullPointer(m)) => assert_eq!(m, "OwnedString pointer is null"),
        _ => panic!("expected a null pointer error"),
    }
}

#[test]
fn ffi_option_from_option() {
    let o = FfiOption::from_option(Some(7i32));
    assert!(o.has_value);
    let n = FfiOption::<i32>::from_option(None);
    assert!(!n.has_value);
}

#[test]
fn ffi_result_carries_error_chain_text() {
    let e = anyhow::Error::msg("inner").context("outer");
    let r = FfiResult::<i32>::from_result(Err(e));
    assert!(!r.is_ok);
    match r.value {
        FfiResultUnion::Error(m) => assert_eq!(m.as_str().ok(), Some("outer: inner")),
        _ => panic!("expected an error"),
    }
    let v = FfiResultVoid::from_panic_result(Err("boom".to_string()));
    assert!(!v.is_ok);
    assert_eq!(v.err.as_str().ok(), Some("boom"));
}

#[test]
fn error_chain_of_an_error_lists_outermost_first() {
    let e = anyhow::Error::msg("inner").context("middle").context("outer");
    let chain = ErrorChain::of(&e);
    assert_eq!(chain.messages, vec!["outer".to_string(), "middle".to_string(), "inner".to_string()]);
    assert_eq!(chain.text(), "outer: middle: inner");
}

#[test]
fn error_chain_text_of_one_message_is_the_message() {
    let chain = ErrorChain { messages: vec!["alone".to_string()] };
    assert_eq!(chain.text(), "alone");
}

#[test]
fn ffi_result_err_carries_error_text() {
    let e = anyhow::Error::msg("inner").context("outer");
    let r = FfiResult::<i32>::err(e);
    assert!(!r.is_ok);
    match r.value {
        FfiResultUnion::Error(m) => assert_eq!(m.as_str().ok(), Some("outer: inner")),
        _ => panic!("expected an error"),
    }
}

#[test]
fn ffi_results_from_chain_results() {
    let ok = FfiResult::<i32>::from_chain_result(Ok(5));
    assert!(ok.is_ok);
    let chain = ErrorChain { messages: vec!["a".to_string(), "b".to_string()] };
    let r = FfiResult::<i32>::from_chain_result(Err(chain));
    assert!(!r.is_ok);
    match r.value {
        FfiResultUnion::Error(m) => assert_eq!(m.as_str().ok(), Some("a: b")),
        _ => panic!("expected an error"),
    }
    let chain = ErrorChain { messages: vec!["x".to_string(), "y".to_string()] };
    let v = FfiResultVoid::from_chain_result(Err(chain));
    assert!(!v.is_ok);
    assert_eq!(v.err.as_str().ok(), Some("x: y"));
    let e = anyhow::Error::msg("inner").context("outer");
    let v = FfiResultVoid::from_result(Err(e));
    assert!(!v.is_ok);
    assert_eq!(v.err.as_str().ok(), Some("outer: inner"));
    assert!(FfiResultVoid::from_chain_result(Ok(())).is_ok);
}
