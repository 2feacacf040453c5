use blit_server::events::log::{
    ring_size, startup_file, stream_step, DumpFormat, EventLog, StreamAction, StreamBits,
    StreamEvent, StreamPhase, DEFAULT_RING_SIZE, MIN_RING_SIZE,
};
use blit_server::events::record::{
    gap_record, payload_client, payload_frame, payload_name, RECORD_HEADER,
};
use blit_server::events::ring::Ring;

const ERROR: u16 = 5;
const FRAME_READ: u16 = 70;
const MAX: usize = 1 << 24;
const BITS: StreamBits = StreamBits { history: 1, append: 2 };

fn all() -> Vec<u64> {
    vec![u64::MAX; 2]
}

fn format() -> DumpFormat {
    DumpFormat { magic: b"BLITEVT\0".to_vec(), header_len: 68, version: 1 }
}

fn activation_bytes() -> Vec<u8> {
    vec![0xff; 16]
}

fn dump(log: &EventLog) -> Vec<u8> {
    log.dump(&format(), &activation_bytes())
}

#[test]
fn ring_wrap_preserves_complete_newest_records() {
    let mut log = EventLog::new(160, all(), 0);
    for value in 0..8u8 {
        log.record(ERROR, 0, &[value; 8], 0);
    }
    let dump = dump(&log);
    assert_eq!(&dump[..8], b"BLITEVT\0");
    let records = &dump[68..];
    assert_eq!(records.len() % (RECORD_HEADER + 8), 0);
    assert!(records.len() <= 160);
    assert_eq!(records.last().copied(), Some(7));
    assert!(log.stats().dropped > 0);
}

#[test]
fn disabled_event_building_can_be_guarded() {
    let log = EventLog::new(4096, vec![0; 2], 0);
    assert!(!log.enabled(FRAME_READ));
    assert_eq!(log.stats().records, 0);
    let log = EventLog::new(4096, vec![0, 1 << 6], 0);
    assert!(log.enabled(FRAME_READ));
    assert!(!log.enabled(ERROR));
}

#[test]
fn oversized_records_are_live_even_when_not_retained() {
    let mut log = EventLog::new(64, all(), 0);
    let (id, _) = log.client_stream(false, &format(), &activation_bytes());
    assert_eq!(id, 1);
    let record = log.record(ERROR, 0, &[7; 64], 0);
    assert_eq!(record.last().copied(), Some(7));
    assert_eq!(log.stats().records, 0);
    assert_eq!(log.stats().dropped, 1);
}

#[test]
fn a_record_larger_than_the_ring_is_counted_and_not_read() {
    let mut ring = Ring::new(64);
    assert!(!ring.append(&vec![7; 96]));
    assert_eq!((ring.records(), ring.used(), ring.dropped(), ring.capacity()), (0, 0, 1, 64));
    assert!(!ring.append(&vec![0; 65]));
    assert_eq!((ring.records(), ring.dropped()), (0, 2));
}

#[test]
fn shrinking_keeps_the_newest_records() {
    let mut log = EventLog::new(MIN_RING_SIZE * 2, all(), 0);
    for value in 0..100u8 {
        log.record(ERROR, 0, &[value; 64], 0);
    }
    log.configure(MIN_RING_SIZE, all(), MAX).unwrap();
    let dump = dump(&log);
    assert_eq!(dump.last().copied(), Some(99));
    assert!(log.stats().used <= MIN_RING_SIZE);
    assert_eq!(log.stats().records, 42);
}

#[test]
fn ring_sizes_out_of_range_change_nothing() {
    let mut log = EventLog::new(MIN_RING_SIZE, all(), 0);
    let refused = log.configure(MIN_RING_SIZE - 1, vec![0; 2], MAX);
    assert_eq!(refused.err(), Some("ring size is outside the supported range"));
    assert!(log.configure(MAX + 1, vec![0; 2], MAX).is_err());
    assert!(log.enabled(ERROR));
}

#[test]
fn records_carry_their_length_number_and_times() {
    let mut log = EventLog::new(4096, all(), 1000);
    let first = log.record(0x0102, 0x0304, &[9], 5);
    assert_eq!(&first[..4], &[33, 0, 0, 0]);
    assert_eq!(&first[4..8], &[2, 1, 4, 3]);
    assert_eq!(&first[8..16], &0u64.to_le_bytes());
    assert_eq!(&first[16..24], &5u64.to_le_bytes());
    assert_eq!(&first[24..32], &1005u64.to_le_bytes());
    assert_eq!(first[32], 9);
    let second = log.record(1, 0, &[], u64::MAX);
    assert_eq!(&second[8..16], &1u64.to_le_bytes());
    assert_eq!(&second[24..32], &u64::MAX.to_le_bytes());
    assert_eq!(log.stats().next_sequence, 2);
    assert_eq!(log.stats().used, 65);
}

#[test]
fn the_oldest_records_go_first() {
    let mut ring = Ring::new(100);
    let whole = |len: usize, fill: u8| {
        let mut r = (len as u32).to_le_bytes().to_vec();
        r.resize(len, fill);
        r
    };
    assert!(ring.append(&whole(40, 1)));
    assert!(ring.append(&whole(40, 2)));
    assert!(ring.append(&whole(50, 3)));
    assert_eq!(ring.record_vecs(), vec![whole(40, 2), whole(50, 3)]);
    assert_eq!((ring.used(), ring.records(), ring.dropped()), (90, 2, 1));
    assert!(ring.append(&whole(100, 4)));
    assert_eq!(ring.record_vecs(), vec![whole(100, 4)]);
    assert!(!ring.append(&whole(101, 5)));
    assert_eq!((ring.records(), ring.dropped()), (1, 4));
    ring.resize(200);
    assert_eq!(ring.record_vecs(), vec![whole(100, 4)]);
    ring.resize(99);
    assert_eq!((ring.records(), ring.dropped(), ring.capacity()), (0, 5, 99));
}

#[test]
fn streams_start_with_what_was_asked_for() {
    let mut log = EventLog::new(4096, all(), 0);
    log.record(ERROR, 0, &[1], 0);
    let full = dump(&log);
    assert_eq!(full.len(), 68 + 33);
    let (_, start) = log.client_stream(true, &format(), &activation_bytes());
    assert_eq!(start, Some(full.clone()));
    let (id, start) = log.client_stream(false, &format(), &activation_bytes());
    assert_eq!(id, 2);
    assert_eq!(start.map(|d| d.len()), Some(68));
    let path = "/tmp/events".to_string();
    let (id, start) =
        log.start_file_stream(path.clone(), 1, 0, &BITS, &format(), &activation_bytes());
    assert_eq!((id, start), (3, Some(full)));
    let (_, start) =
        log.start_file_stream(path.clone(), 2, 10, &BITS, &format(), &activation_bytes());
    assert_eq!(start, None);
    let (_, start) =
        log.start_file_stream(path.clone(), 2, 0, &BITS, &format(), &activation_bytes());
    assert_eq!(start.map(|d| d.len()), Some(68));
    assert_eq!(
        log.file_streams(),
        vec![(3, 1, path.clone()), (4, 2, path.clone()), (5, 2, path)]
    );
    assert!(log.stop_file_stream(4));
    assert!(!log.stop_file_stream(4));
    assert_eq!(log.file_streams().len(), 2);
    log.shutdown_file_streams();
    assert!(log.file_streams().is_empty());
}

#[test]
fn stream_ids_skip_zero() {
    let mut log = EventLog::new(64, all(), 0);
    log.next_stream_id = u32::MAX;
    assert_eq!(log.client_stream(false, &format(), &activation_bytes()).0, u32::MAX);
    assert_eq!(log.client_stream(false, &format(), &activation_bytes()).0, 1);
}

#[test]
fn file_stream_writes_what_is_left_before_it_ends() {
    let (phase, action) = stream_step(StreamPhase::Opening, StreamEvent::Written, 9);
    assert_eq!(phase, StreamPhase::Following);
    assert!(matches!(action, StreamAction::Wait));
    let (phase, action) = stream_step(phase, StreamEvent::Record(vec![1, 2]), 9);
    assert!(matches!(action, StreamAction::Write(r) if r == vec![1, 2]));
    let (phase, action) = stream_step(phase, StreamEvent::Lagged(3), 9);
    assert!(matches!(action, StreamAction::Write(r) if r == gap_record(9, 3)));
    let (phase, _) = stream_step(phase, StreamEvent::Stopped, 9);
    assert_eq!(phase, StreamPhase::Draining);
    let (phase, action) = stream_step(phase, StreamEvent::Record(vec![9]), 9);
    assert!(matches!(action, StreamAction::Write(r) if r == vec![9]));
    let (phase, action) = stream_step(phase, StreamEvent::Empty, 9);
    assert_eq!(phase, StreamPhase::Ended);
    assert!(matches!(action, StreamAction::Flush));
    let (phase, _) = stream_step(StreamPhase::Opening, StreamEvent::WriteFailed, 9);
    assert_eq!(phase, StreamPhase::Ended);
    let (phase, _) = stream_step(StreamPhase::Following, StreamEvent::WriteFailed, 9);
    assert_eq!(phase, StreamPhase::Draining);
}

#[test]
fn payloads_start_with_what_they_are_about() {
    assert_eq!(payload_name("ab"), vec![2, 0, b'a', b'b']);
    assert_eq!(payload_name(&"x".repeat(70_000)).len(), 2 + 0xffff);
    assert_eq!(payload_client(0x0102), vec![2, 1, 0, 0, 0, 0, 0, 0]);
    assert_eq!(payload_frame(1, &[7, 8]), vec![1, 0, 0, 0, 0, 0, 0, 0, 2, 0, 0, 0, 7, 8]);
    let gap = gap_record(0xfffe, 5);
    assert_eq!(gap.len(), 40);
    assert_eq!(&gap[..8], &[40, 0, 0, 0, 0xfe, 0xff, 0, 0]);
    assert_eq!(&gap[32..], &5u64.to_le_bytes());
}

#[test]
fn journal_settings_fall_back_to_defaults() {
    let set = |s: &str| Some(s.to_string());
    assert_eq!(ring_size(&None, MAX), DEFAULT_RING_SIZE);
    assert_eq!(ring_size(&set("8192"), MAX), 8192);
    assert_eq!(ring_size(&set("100"), MAX), DEFAULT_RING_SIZE);
    assert_eq!(ring_size(&set("99999999999"), MAX), DEFAULT_RING_SIZE);
    assert!(startup_file(None, &None, &None, &BITS).is_none());
    assert!(startup_file(set(""), &None, &None, &BITS).is_none());
    let file = startup_file(set("/e"), &None, &set("1"), &BITS).unwrap();
    assert_eq!((file.path.as_str(), file.flags), ("/e", 3));
    let file = startup_file(set("/e"), &set("0"), &set("yes"), &BITS).unwrap();
    assert_eq!(file.flags, 0);
}
