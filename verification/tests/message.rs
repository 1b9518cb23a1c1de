use relay_control::message::{parse_payload, reading_payload};

fn parse(text: &str) -> Option<Vec<u8>> {
    parse_payload(text.as_bytes())
}

#[test]
fn received_message_carries_its_list() {
    let text = "Received { id: 1, topic: Some(\"relays\"), data: [1, 2, 3], details: Complete }";
    assert_eq!(parse(text), Some(vec![1, 2, 3]));
}

#[test]
fn message_without_data_is_skipped() {
    assert_eq!(parse("Connected(session: true)"), None);
    assert_eq!(parse(""), None);
    assert_eq!(parse("data:[1]"), None);
}

#[test]
fn entries_that_are_not_bytes_read_as_zero() {
    assert_eq!(parse("data: [1, x, 300, 255, +7, -1], details: Complete"), Some(vec![1, 0, 0, 255, 7, 0]));
    assert_eq!(parse("data: [007, 10], details:"), Some(vec![7, 10]));
}

#[test]
fn empty_list_reads_as_one_zero() {
    assert_eq!(parse("data: [], details: Complete"), Some(vec![0]));
}

#[test]
fn data_ends_at_the_next_marker() {
    assert_eq!(parse("data: [5, 6data: [9]"), Some(vec![5, 6]));
    assert_eq!(parse("data: [4, 5]"), Some(vec![4, 5]));
    assert_eq!(parse("x data: [[[8]]], details: data: [1]"), Some(vec![8]));
}

#[test]
fn quoted_text_is_not_a_list() {
    // A payload shown as quoted text is not stripped of its brackets.
    assert_eq!(
        parse("Received { id: 3, topic: None, data: Ok(\"[1, 2]\"), details: Complete }"),
        Some(vec![0, 0])
    );
}

#[test]
fn sensor_readings_in_decimal() {
    assert_eq!(reading_payload(0), b"0".to_vec());
    assert_eq!(reading_payload(7), b"7".to_vec());
    assert_eq!(reading_payload(1234), b"1234".to_vec());
    assert_eq!(reading_payload(65535), b"65535".to_vec());
    for raw in [0u16, 9, 10, 99, 100, 4095, 65535] {
        assert_eq!(reading_payload(raw), raw.to_string().into_bytes());
    }
}

#[test]
fn every_byte_list_round_trips() {
    for b in 0..=255u8 {
        let list = vec![b, 255 - b, b / 3];
        let text = format!("Received {{ id: 9, topic: Some(\"t\"), data: {:?}, details: Complete }}", list);
        assert_eq!(parse(&text), Some(list));
    }
}
