//! Capture from a video file: the probe's report and the reader's loop.
use std::path::PathBuf;

use callme::text::{chars_of, parse_u32, split, string_of, strip_prefix};
use callme::video::file_capture::{
    probe_fields, report_fields, resolve, split_rate, FileConfig, FileReader, ProbeError,
    ProbeField, ReaderEvent, ReaderStep,
};

/// The value of a frame rate whose parts are plain numbers.
fn rate_value(rate: &str) -> f64 {
    let (num, den) = split_rate(rate);
    num.parse::<f64>().unwrap() / den.unwrap().parse::<f64>().unwrap()
}

/// What a report says, if all its frame rates are usable.
fn resolved(report: &str) -> Result<(u32, u32, usize), ProbeError> {
    let fields = report_fields(report).unwrap();
    let usable = vec![true; fields.len()];
    resolve(&fields, &usable)
}

#[test]
fn parse_probe_fields() {
    let line = "stream|width=1920|height=1080|r_frame_rate=30000/1001";
    let fields = report_fields(line).unwrap();
    let (width, height, rate) = resolve(&fields, &vec![true; fields.len()]).unwrap();
    assert_eq!(width, 1920);
    assert_eq!(height, 1080);
    match &fields[rate] {
        ProbeField::Rate(text) => assert!((rate_value(text) - 29.97).abs() < 0.01),
        other => panic!("unexpected field {other:?}"),
    }
}

#[test]
fn rates_part_at_the_first_slash() {
    assert_eq!(split_rate("30/1"), (String::from("30"), Some(String::from("1"))));
    assert_eq!(split_rate("24"), (String::from("24"), None));
    assert_eq!(split_rate("30/0"), (String::from("30"), Some(String::from("0"))));
    assert_eq!(split_rate("not/a/fps"), (String::from("not"), Some(String::from("a/fps"))));
    assert_eq!(split_rate("/"), (String::new(), Some(String::new())));
    assert_eq!(split_rate(""), (String::new(), None));
}

#[test]
fn probe_output_is_read_as_text() {
    let fields = probe_fields(b"stream|width=64|height=48|r_frame_rate=10/1\n").unwrap();
    assert_eq!(fields.len(), 4);
    assert!(matches!(fields[0], ProbeField::Other));
    assert!(matches!(fields[1], ProbeField::Width(Some(64))));
    assert!(matches!(fields[2], ProbeField::Height(Some(48))));
    assert!(matches!(&fields[3], ProbeField::Rate(rate) if rate == "10/1"));
}

#[test]
fn bytes_that_are_no_text_are_replaced() {
    let fields = probe_fields(b"width=6\xff4|r_frame_rate=\xff|height=2").unwrap();
    assert!(matches!(fields[0], ProbeField::Width(None)));
    assert!(matches!(&fields[1], ProbeField::Rate(rate) if rate == "\u{fffd}"));
    assert!(matches!(fields[2], ProbeField::Height(Some(2))));
}

#[test]
fn only_the_first_line_counts() {
    assert!(report_fields("").is_none());
    assert!(probe_fields(b"").is_none());
    assert_eq!(report_fields("\nwidth=1").unwrap().len(), 1);
    assert_eq!(resolved("\nwidth=1"), Err(ProbeError::MissingWidth));
    assert_eq!(
        resolved("width=1|height=2|r_frame_rate=3\r\nwidth=7"),
        Ok((1, 2, 2))
    );
    match &report_fields("r_frame_rate=3\r\n").unwrap()[0] {
        ProbeField::Rate(rate) => assert_eq!(rate, "3"),
        other => panic!("unexpected field {other:?}"),
    }
    match &report_fields("r_frame_rate=3\r").unwrap()[0] {
        ProbeField::Rate(rate) => assert_eq!(rate, "3\r"),
        other => panic!("unexpected field {other:?}"),
    }
}

#[test]
fn each_probe_error_has_its_report() {
    assert_eq!(resolved("width=x|height=2|r_frame_rate=3"), Err(ProbeError::InvalidWidth));
    assert_eq!(resolved("width=1|height=-2|r_frame_rate=3"), Err(ProbeError::InvalidHeight));
    assert_eq!(resolved("stream|height=2|r_frame_rate=3"), Err(ProbeError::MissingWidth));
    assert_eq!(resolved("stream|width=1|r_frame_rate=3"), Err(ProbeError::MissingHeight));
    assert_eq!(resolved("stream|width=1|height=2"), Err(ProbeError::MissingRate));
    let fields = report_fields("width=1|height=2|r_frame_rate=30/0").unwrap();
    assert_eq!(resolve(&fields, &vec![true, true, false]), Err(ProbeError::InvalidRate));
}

#[test]
fn the_first_unreadable_field_decides() {
    let fields = report_fields("r_frame_rate=x|width=x|height=x").unwrap();
    assert_eq!(resolve(&fields, &vec![false; 3]), Err(ProbeError::InvalidRate));
    assert_eq!(resolve(&fields, &vec![true; 3]), Err(ProbeError::InvalidWidth));
}

#[test]
fn the_last_of_repeated_fields_counts() {
    assert_eq!(
        resolved("width=1|r_frame_rate=1|width=2|height=3|r_frame_rate=2|height=4"),
        Ok((2, 4, 4))
    );
}

fn number(text: &str) -> Option<u32> {
    parse_u32(&chars_of(text))
}

#[test]
fn numbers_are_decimal_and_fit_32_bits() {
    assert_eq!(number("42"), Some(42));
    assert_eq!(number("+5"), Some(5));
    assert_eq!(number("0007"), Some(7));
    assert_eq!(number("4294967295"), Some(u32::MAX));
    assert_eq!(number("4294967296"), None);
    assert_eq!(number("99999999999999999999999"), None);
    assert_eq!(number(""), None);
    assert_eq!(number("+"), None);
    assert_eq!(number("++1"), None);
    assert_eq!(number("-1"), None);
    assert_eq!(number(" 1"), None);
    assert_eq!(number("1x"), None);
}

#[test]
fn numbers_read_like_those_of_the_standard_library() {
    for text in ["0", "1", "10", "+10", "1+", "0x1", "4294967295", "4294967296", "\u{661}"] {
        assert_eq!(number(text), text.parse::<u32>().ok(), "{text}");
    }
    for value in [0u32, 9, 10, 99, 100, 1_000_000_007, u32::MAX] {
        assert_eq!(number(&value.to_string()), Some(value));
    }
}

#[test]
fn text_is_split_and_stripped() {
    let pieces: Vec<String> =
        split(&chars_of("a||b"), '|').iter().map(|piece| string_of(piece)).collect();
    assert_eq!(pieces, vec!["a", "", "b"]);
    assert_eq!(split(&[], '|').len(), 1);
    assert_eq!(strip_prefix(&chars_of("width=7"), "width="), Some(vec!['7']));
    assert_eq!(strip_prefix(&chars_of("width"), "width="), None);
    assert_eq!(strip_prefix(&chars_of("heigh=7"), "width="), None);
}

#[test]
fn file_config_holds_path_and_mode() {
    let config = FileConfig { path: PathBuf::from("video.mp4"), looping: true };
    assert_eq!(config.path, PathBuf::from("video.mp4"));
    assert!(config.looping);
}

const PERIOD: u64 = 40;

fn reader(looping: bool) -> FileReader {
    FileReader::new(4, 2, PERIOD, looping)
}

/// Feeds one frame that is taken at `now`; returns the pause after it.
fn pause_after_frame(reader: &mut FileReader, now: u64) -> u64 {
    match reader.step(ReaderEvent::Frame { data: vec![7; 12] }) {
        ReaderStep::Send(frame) => {
            assert_eq!((frame.width, frame.height), (4, 2));
            assert_eq!(frame.data, vec![7; 12]);
        }
        other => panic!("unexpected step {other:?}"),
    }
    match reader.step(ReaderEvent::Sent { taken: true, now }) {
        ReaderStep::Rest { nanos } => {
            assert!(matches!(reader.step(ReaderEvent::Rested), ReaderStep::Read { len: 12 }));
            nanos
        }
        other => panic!("unexpected step {other:?}"),
    }
}

#[test]
fn frames_are_paced_without_drift() {
    let mut reader = reader(false);
    assert!(matches!(
        reader.step(ReaderEvent::Begin { path_is_text: true }),
        ReaderStep::Spawn
    ));
    assert!(matches!(
        reader.step(ReaderEvent::Spawned { now: 100 }),
        ReaderStep::Read { len: 12 }
    ));
    assert_eq!(pause_after_frame(&mut reader, 110), 30);
    assert_eq!(pause_after_frame(&mut reader, 180), 0);
    assert_eq!(pause_after_frame(&mut reader, 250), 0);
    assert_eq!(pause_after_frame(&mut reader, 255), 5);
    assert_eq!(pause_after_frame(&mut reader, 261), 39);
}

#[test]
fn a_file_ends_once_or_loops() {
    let mut once = reader(false);
    assert!(matches!(once.step(ReaderEvent::Ended), ReaderStep::Wait));
    assert!(matches!(once.step(ReaderEvent::Reaped), ReaderStep::Stop));
    let mut looping = reader(true);
    assert!(matches!(looping.step(ReaderEvent::Ended), ReaderStep::Wait));
    assert!(matches!(looping.step(ReaderEvent::Reaped), ReaderStep::Spawn));
    assert!(matches!(
        looping.step(ReaderEvent::Spawned { now: 1000 }),
        ReaderStep::Read { len: 12 }
    ));
    assert_eq!(pause_after_frame(&mut looping, 1000), PERIOD);
}

#[test]
fn a_reader_without_listeners_stops() {
    let mut reader = reader(true);
    reader.step(ReaderEvent::Spawned { now: 0 });
    assert!(matches!(
        reader.step(ReaderEvent::Sent { taken: false, now: 1 }),
        ReaderStep::Kill
    ));
    assert!(matches!(reader.step(ReaderEvent::Reaped), ReaderStep::Stop));
}

#[test]
fn a_reader_that_cannot_start_stops() {
    let mut reader = reader(true);
    assert!(matches!(
        reader.step(ReaderEvent::Begin { path_is_text: false }),
        ReaderStep::Stop
    ));
    assert!(matches!(reader.step(ReaderEvent::SpawnFailed), ReaderStep::Stop));
}

#[test]
fn frames_of_odd_sizes_keep_the_layout() {
    let mut reader = FileReader::new(3, 3, PERIOD, false);
    // Nine samples of luma and two chroma planes of two by two.
    assert!(matches!(
        reader.step(ReaderEvent::Spawned { now: 0 }),
        ReaderStep::Read { len: 17 }
    ));
    match reader.step(ReaderEvent::Frame { data: (1..=17).collect() }) {
        ReaderStep::Send(frame) => {
            assert_eq!((frame.width, frame.height), (3, 3));
            assert_eq!(frame.data, vec![1, 2, 3, 4, 5, 6, 7, 8, 9, 10, 14]);
        }
        other => panic!("unexpected step {other:?}"),
    }
    let mut wide = FileReader::new(5, 2, PERIOD, false);
    assert!(matches!(
        wide.step(ReaderEvent::Spawned { now: 0 }),
        ReaderStep::Read { len: 16 }
    ));
    match wide.step(ReaderEvent::Frame { data: (1..=16).collect() }) {
        ReaderStep::Send(frame) => {
            assert_eq!(frame.data, vec![1, 2, 3, 4, 5, 6, 7, 8, 9, 10, 11, 12, 14, 15]);
        }
        other => panic!("unexpected step {other:?}"),
    }
}

#[test]
fn frames_of_even_sizes_are_passed_on() {
    let mut reader = FileReader::new(64, 64, PERIOD, false);
    assert!(matches!(
        reader.step(ReaderEvent::Spawned { now: 0 }),
        ReaderStep::Read { len: 6144 }
    ));
    let data: Vec<u8> = (0..6144).map(|i| (i % 251) as u8).collect();
    match reader.step(ReaderEvent::Frame { data: data.clone() }) {
        ReaderStep::Send(frame) => assert_eq!(frame.data, data),
        other => panic!("unexpected step {other:?}"),
    }
}
