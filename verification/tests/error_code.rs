use esotereel::error_code::{IntoWrapperError, LastErrorMessage, WrapperErrorCode};

#[test]
fn messages_are_classified_by_their_words() {
    let mut slot = LastErrorMessage::new();
    assert_eq!(WrapperErrorCode::from_message(&mut slot, "clip not found"), WrapperErrorCode::NotFound);
    assert_eq!(slot.text, "clip not found");
    assert_eq!(WrapperErrorCode::from_message(&mut slot, "NotFound: x"), WrapperErrorCode::NotFound);
    assert_eq!(WrapperErrorCode::from_message(&mut slot, "pointer was null"), WrapperErrorCode::NullPtr);
    assert_eq!(slot.text, "");
    assert_eq!(WrapperErrorCode::from_message(&mut slot, "NullPtr"), WrapperErrorCode::NullPtr);
    assert_eq!(WrapperErrorCode::from_message(&mut slot, "thread panicked"), WrapperErrorCode::Panic);
    assert_eq!(slot.text, "thread panicked");
    assert_eq!(WrapperErrorCode::from_message(&mut slot, "Panic!"), WrapperErrorCode::Panic);
    assert_eq!(WrapperErrorCode::from_message(&mut slot, "disk full"), WrapperErrorCode::Error);
    assert_eq!(slot.text, "disk full");
    assert_eq!(WrapperErrorCode::from_message(&mut slot, "null clip not found"), WrapperErrorCode::NotFound);
}

#[test]
fn anyhow_errors_are_classified_by_their_message() {
    let mut slot = LastErrorMessage::new();
    let e = anyhow::Error::msg("timeline not found");
    assert_eq!(WrapperErrorCode::from_anyhow(&mut slot, e), WrapperErrorCode::NotFound);
    assert_eq!(slot.text, "timeline not found");
    let e = anyhow::Error::msg("bad input");
    assert_eq!(WrapperErrorCode::from_anyhow(&mut slot, e), WrapperErrorCode::Error);
}

#[test]
fn the_last_message_is_kept_or_cleared() {
    let mut slot = LastErrorMessage::new();
    assert_eq!(WrapperErrorCode::error(&mut slot, Some("oops")), WrapperErrorCode::Error);
    assert_eq!(slot.text, "oops");
    assert_eq!(WrapperErrorCode::ok(&mut slot), WrapperErrorCode::Success);
    assert_eq!(slot.text, "");
    assert_eq!(WrapperErrorCode::not_found(&mut slot, Some("a\0b")), WrapperErrorCode::NotFound);
    assert_eq!(slot.text, "");
    assert_eq!(WrapperErrorCode::panic(&mut slot, Some("p")), WrapperErrorCode::Panic);
    assert_eq!(WrapperErrorCode::null_ptr(&mut slot), WrapperErrorCode::NullPtr);
    assert_eq!(slot.text, "");
    assert_eq!(WrapperErrorCode::invalid_string_error(&mut slot), WrapperErrorCode::Error);
    assert_eq!(slot.text, "invalid string");
    assert_eq!(WrapperErrorCode::error_from_option(&mut slot, None), WrapperErrorCode::Success);
    assert_eq!(WrapperErrorCode::error_from_option(&mut slot, Some("e")), WrapperErrorCode::Error);
    assert_eq!(slot.text, "e");
}

#[test]
fn statuses_convert_to_their_codes() {
    let mut slot = LastErrorMessage::new();
    let e = IntoWrapperError::NotFound(Some("no layer".to_string()));
    e.set_last_err_msg(&mut slot);
    assert_eq!(slot.text, "no layer");
    assert_eq!(WrapperErrorCode::from(e), WrapperErrorCode::NotFound);
    IntoWrapperError::NullPtr.set_last_err_msg(&mut slot);
    assert_eq!(slot.text, "");
    assert_eq!(WrapperErrorCode::from(IntoWrapperError::Success), WrapperErrorCode::Success);
    assert_eq!(WrapperErrorCode::from(IntoWrapperError::NullPtr), WrapperErrorCode::NullPtr);
    assert_eq!(WrapperErrorCode::from(IntoWrapperError::Error(None)), WrapperErrorCode::Error);
    assert_eq!(WrapperErrorCode::from(IntoWrapperError::Panic(None)), WrapperErrorCode::Panic);
}
