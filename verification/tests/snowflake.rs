use yoctocollab::snowflake::{Error, Snowflake, DEFAULT_EPOCH, MAX_MACHINE_ID, MAX_SEQ};

#[test]
fn rejects_machine_id_out_of_range() {
    assert!(matches!(
        Snowflake::new(MAX_MACHINE_ID + 1),
        Err(Error::ExceededMaximumLimit)
    ));
    assert!(Snowflake::new(MAX_MACHINE_ID).is_ok());
    assert!(Snowflake::new(0).is_ok());
}

#[test]
fn ten_thousand_ids_strictly_increase() {
    let mut generator = Snowflake::new(5).unwrap();
    let mut last: u64 = 0;
    for _ in 0..10_000 {
        let id = generator.gen().unwrap();
        assert!(id > last, "id {} did not exceed {}", id, last);
        assert!(id % 0x1000 <= MAX_SEQ);
        last = id;
    }
}

#[test]
fn machine_id_field_is_embedded() {
    let mut generator = Snowflake::new(37).unwrap();
    let id = generator.gen().unwrap();
    assert_eq!((id >> 12) & 0x3FF, 37);
}

#[test]
fn advance_follows_the_clock_reading() {
    let mut generator = Snowflake::new(3).unwrap();
    // a reading before the epoch asks for a retry
    assert_eq!(generator.advance(0), Ok(None));
    // a fresh millisecond resets the sequence
    let id = generator.advance(DEFAULT_EPOCH + 10).unwrap().unwrap();
    assert_eq!(id, (10 << 22) | (3 << 12));
    // the same millisecond increments it
    let id = generator.advance(DEFAULT_EPOCH + 10).unwrap().unwrap();
    assert_eq!(id, (10 << 22) | (3 << 12) | 1);
    // a retreating reading asks for a retry and moves nothing
    assert_eq!(generator.advance(DEFAULT_EPOCH + 9), Ok(None));
    // a reading past the 42-bit timestamp range fails at once
    assert_eq!(
        generator.advance(DEFAULT_EPOCH + (1u64 << 42)),
        Err(Error::ExceededMaximumLimit)
    );
}
