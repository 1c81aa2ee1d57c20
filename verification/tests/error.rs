use snn_core::{EmbeddedError, EmbeddedResult};

#[test]
fn display_messages() {
    assert_eq!(EmbeddedError::Alloc.message(), "allocation error");
    assert_eq!(EmbeddedError::Capacity.message(), "capacity exceeded");
    assert_eq!(EmbeddedError::InvalidInput("bad").message(), "invalid input: bad");
    assert_eq!(EmbeddedError::NotSupported("x").message(), "not supported: x");
    assert_eq!(EmbeddedError::Other("oops").message(), "error: oops");
}

fn may_fail(ok: bool) -> EmbeddedResult<u32> {
    if ok {
        Ok(7)
    } else {
        Err(EmbeddedError::Other("fail"))
    }
}

#[test]
fn result_round_trip() {
    assert_eq!(may_fail(true).unwrap(), 7);
    assert!(may_fail(false).is_err());
}

#[test]
fn messages_of_the_plain_kinds() {
    assert_eq!(EmbeddedError::BufferFull.message(), "buffer full");
    assert_eq!(EmbeddedError::InvalidIndex.message(), "invalid index");
    assert_eq!(EmbeddedError::InvalidConfiguration.message(), "invalid configuration");
}

#[test]
fn errors_compare_by_kind_and_text() {
    assert_eq!(EmbeddedError::Other("a"), EmbeddedError::Other("a"));
    assert_ne!(EmbeddedError::Other("a"), EmbeddedError::Other("b"));
    assert_ne!(EmbeddedError::Alloc, EmbeddedError::Capacity);
}
