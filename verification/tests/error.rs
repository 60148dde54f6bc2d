use id3::{ID3Error, SyncSafe, SyncSafeError};

#[test]
fn id3_error_messages() {
    assert_eq!(ID3Error::HeaderNotFound.message(), "Header not found in the given bytes");
    assert_eq!(ID3Error::NotEnoughBytes.message(), "Not enough bytes to parse in reader");
}

#[test]
fn sync_safe_error_message_gives_the_length() {
    assert_eq!(SyncSafeError::IncorrectLength(3).message(), "expected '4' given: '3'");
    assert_eq!(SyncSafeError::IncorrectLength(0).message(), "expected '4' given: '0'");
    assert_eq!(SyncSafeError::IncorrectLength(10).message(), "expected '4' given: '10'");
    assert_eq!(SyncSafeError::IncorrectLength(1905).message(), "expected '4' given: '1905'");
    assert_eq!(
        SyncSafeError::IncorrectLength(usize::MAX).message(),
        format!("expected '4' given: '{}'", usize::MAX)
    );
}

#[test]
fn sync_safe_error_from_a_conversion() {
    let error = SyncSafe::try_from(vec![1, 2, 3, 4, 5]).err().unwrap();
    assert_eq!(error, SyncSafeError::IncorrectLength(5));
    assert_eq!(error.message(), "expected '4' given: '5'");
}
