use liquid_ml::error::{DFError, LiquidError};

#[test]
fn dataframe_error_messages() {
    assert_eq!(DFError::RowIndexOutOfBounds.message(), "Row index out of bounds");
    assert_eq!(DFError::ColIndexOutOfBounds.message(), "Col index out of bounds");
    assert_eq!(DFError::NameAlreadyExists.message(), "Name already in use");
    assert_eq!(
        DFError::TypeMismatch.message(),
        "The requested operation doesn't match the schema data type"
    );
    assert_eq!(DFError::NotSet.message(), "Must set the index for the row");
}

#[test]
fn core_error_messages_differ() {
    let all = vec![
        LiquidError::IoFailure,
        LiquidError::ProtocolViolation,
        LiquidError::UnknownId,
        LiquidError::UnexpectedMessage,
        LiquidError::KeyAlreadyPresent,
        LiquidError::NotPresent,
        LiquidError::ReconnectionError,
    ];
    for (i, a) in all.iter().enumerate() {
        assert!(!a.message().is_empty());
        for b in all.iter().skip(i + 1) {
            assert_ne!(a.message(), b.message());
        }
    }
    assert_eq!(LiquidError::UnknownId.message(), "Unknown node id");
}
