use blink::{Timestamp, MAX_TEXT_MILLIS};

#[test]
fn epoch_text() {
    assert_eq!(Timestamp { millis: 0 }.to_text().as_deref(), Some("1970-01-01 00:00:00"));
}

#[test]
fn text_drops_milliseconds() {
    assert_eq!(Timestamp { millis: 947_638_923_004 }.to_text().as_deref(), Some("2000-01-12 01:02:03"));
}

#[test]
fn last_instant_with_text() {
    assert_eq!(Timestamp { millis: MAX_TEXT_MILLIS }.to_text().as_deref(), Some("9999-12-31 23:59:59"));
    assert_eq!(Timestamp { millis: MAX_TEXT_MILLIS + 1 }.to_text(), None);
    assert_eq!(Timestamp { millis: u64::MAX }.to_text(), None);
}
