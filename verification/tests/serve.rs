//! The handshake, the stream and the seeder core, driven by scripted links on a simulated clock.

use motatool::attach::{
    is_attach_err, is_attach_ok, normalize_console_reply, Attach, AttachError, AttachEvent,
    AttachPolicy,
};
use motatool::format::{seeder, DEFAULT_BLOCK_SIZE};
use motatool::order::path_is_before;
use motatool::serve::{
    accept_served, deflate_slice_reply, describe, done_reply, part_is_complete, read_reply,
    stat_reply, store_name, Action, Folder, SeederCore, ServedMota,
};
use motatool::stream::{
    read_request, request_log, response_frame, LinkEvent, PumpEvent, RequestRead, StreamState,
    FRAME_MAX,
};
use motatool::{build, BuildOpts, PatchType};
use std::collections::{BTreeMap, VecDeque};
use std::path::PathBuf;

const FOLDER_ON: &[u8] = b"ota folder on\r\n";

const MS: u64 = 1_000_000;

enum ReadStep {
    Byte(u8),
    Timeout(u64),
    Closed,
}

struct ScriptedLink {
    reads: VecDeque<ReadStep>,
    writes: Vec<u8>,
    now: u64,
}

impl ScriptedLink {
    fn new(reads: impl IntoIterator<Item = ReadStep>) -> Self {
        Self {
            reads: reads.into_iter().collect(),
            writes: Vec::new(),
            now: 0,
        }
    }

    fn read(&mut self) -> LinkEvent {
        match self.reads.pop_front().unwrap_or(ReadStep::Closed) {
            ReadStep::Byte(b) => LinkEvent::Byte(b),
            ReadStep::Timeout(delay) => {
                self.now += delay;
                LinkEvent::Timeout
            }
            ReadStep::Closed => LinkEvent::Closed,
        }
    }
}

/// Runs the handshake as a program does: one event of the stream at a time.
fn attach(
    link: &mut ScriptedLink,
    core: &SeederCore,
    verbose: bool,
    lines: &mut Vec<String>,
    policy: AttachPolicy,
) -> Result<(), AttachError> {
    link.writes.extend_from_slice(FOLDER_ON);
    let mut state = Attach::start(policy, link.now);
    let mut stream = StreamState::new();
    loop {
        state.check(link.now, false)?;
        let event = loop {
            let ev = match stream.take_deferred() {
                Some(b) => LinkEvent::Byte(b),
                None => link.read(),
            };
            match stream.pump(ev) {
                PumpEvent::Reading => continue,
                other => break other,
            }
        };
        match &event {
            PumpEvent::Request(op, args) => {
                if let Some(Action::Reply(status, payload)) = core.handle(*op, args) {
                    link.writes.extend(response_frame(*op, status, &payload));
                    if verbose {
                        lines.extend(request_log(*op, args, status, &payload));
                    }
                }
            }
            PumpEvent::DeviceLine(line) => lines.push(line.clone()),
            _ => {}
        }
        let done: bool = state.on_pump(&event)?;
        if done {
            return Ok(());
        }
        if state.retry(link.now, stream.pending_m()) {
            link.writes.extend_from_slice(FOLDER_ON);
        }
    }
}

fn byte_steps(bytes: &[u8]) -> Vec<ReadStep> {
    bytes.iter().copied().map(ReadStep::Byte).collect()
}

fn count_request() -> Vec<u8> {
    vec![
        seeder::REQ_MAGIC[0],
        seeder::REQ_MAGIC[1],
        seeder::OP_COUNT,
        seeder::OP_COUNT,
    ]
}

fn test_core() -> SeederCore {
    SeederCore::new(Folder::new(Vec::new()), None)
}

fn test_policy() -> AttachPolicy {
    AttachPolicy {
        settle: 0,
        retry_after: 2 * MS,
        timeout: 100 * MS,
        max_attempts: 3,
    }
}

fn occurrences(haystack: &[u8], needle: &[u8]) -> usize {
    haystack
        .windows(needle.len())
        .filter(|w| *w == needle)
        .count()
}

#[test]
fn attach_retries_a_lost_first_command_and_serves_count_before_ack() {
    let mut reads = vec![ReadStep::Timeout(3 * MS)];
    reads.extend(byte_steps(&count_request()));
    reads.extend(byte_steps(
        b"\r\n  -> OK folder attached (serial): advertising 1/1 host mOTAs\r\n",
    ));
    let mut link = ScriptedLink::new(reads);
    let mut lines = Vec::new();

    attach(&mut link, &test_core(), true, &mut lines, test_policy()).unwrap();

    assert_eq!(occurrences(&link.writes, FOLDER_ON), 2);
    assert!(link.writes.windows(2).any(|w| w == seeder::RSP_MAGIC));
    assert!(lines.iter().any(|line| line == "COUNT -> 0"));
    assert!(lines
        .iter()
        .any(|line| line == "  -> OK folder attached (serial): advertising 1/1 host mOTAs"));
}

#[test]
fn attach_never_retries_ascii_after_binary_framing_begins() {
    let mut reads = byte_steps(&count_request());
    reads.extend([ReadStep::Timeout(3 * MS), ReadStep::Timeout(3 * MS)]);
    reads.extend(byte_steps(
        b"OK folder refreshed (serial): advertising 0/0 host mOTAs\r\n",
    ));
    let mut link = ScriptedLink::new(reads);

    attach(&mut link, &test_core(), false, &mut Vec::new(), test_policy()).unwrap();

    assert_eq!(occurrences(&link.writes, FOLDER_ON), 1);
}

#[test]
fn attach_does_not_retry_between_split_magic_bytes() {
    let mut reads = vec![
        ReadStep::Byte(seeder::REQ_MAGIC[0]),
        ReadStep::Timeout(3 * MS),
        ReadStep::Byte(seeder::REQ_MAGIC[1]),
        ReadStep::Byte(seeder::OP_COUNT),
        ReadStep::Byte(seeder::OP_COUNT),
    ];
    reads.extend(byte_steps(
        b"OK folder attached (serial): advertising 0/0 host mOTAs\r\n",
    ));
    let mut link = ScriptedLink::new(reads);

    attach(&mut link, &test_core(), false, &mut Vec::new(), test_policy()).unwrap();

    assert_eq!(occurrences(&link.writes, FOLDER_ON), 1);
}

#[test]
fn console_msg_text_does_not_suppress_a_lost_command_retry() {
    let mut reads = byte_steps(b"CHANNEL MSG -> unrelated console text\r\n");
    reads.push(ReadStep::Timeout(3 * MS));
    reads.extend(byte_steps(&count_request()));
    reads.extend(byte_steps(
        b"  -> OK folder attached (serial): advertising 1/1 host mOTAs\r\n",
    ));
    let mut link = ScriptedLink::new(reads);
    let mut lines = Vec::new();

    attach(&mut link, &test_core(), false, &mut lines, test_policy()).unwrap();

    assert_eq!(occurrences(&link.writes, FOLDER_ON), 2);
    assert!(lines
        .iter()
        .any(|line| line == "CHANNEL MSG -> unrelated console text"));
}

#[test]
fn unknown_magic_candidate_preserves_an_overlapping_valid_frame() {
    let mut reads = vec![
        ReadStep::Byte(b'M'),
        ReadStep::Byte(b'S'),
        ReadStep::Byte(b'M'),
        ReadStep::Byte(b'S'),
        ReadStep::Byte(seeder::OP_COUNT),
        ReadStep::Byte(seeder::OP_COUNT),
    ];
    reads.extend(byte_steps(
        b"OK folder attached (serial): advertising 0/0 host mOTAs\r\n",
    ));
    let mut link = ScriptedLink::new(reads);

    attach(&mut link, &test_core(), false, &mut Vec::new(), test_policy()).unwrap();

    assert_eq!(occurrences(&link.writes, FOLDER_ON), 1);
    assert!(link.writes.windows(2).any(|w| w == seeder::RSP_MAGIC));
}

#[test]
fn attach_requires_positive_reply() {
    let mut reads = byte_steps(b"ERR folder source unavailable\r\n");
    reads.push(ReadStep::Closed);
    let mut link = ScriptedLink::new(reads);

    let err = attach(&mut link, &test_core(), false, &mut Vec::new(), test_policy()).unwrap_err();

    assert!(err.to_string().contains("node rejected"));
}

#[test]
fn attach_retries_and_wait_are_bounded() {
    let reads = (0..4).map(|_| ReadStep::Timeout(3 * MS));
    let mut link = ScriptedLink::new(reads);
    let policy = AttachPolicy {
        settle: 0,
        retry_after: 2 * MS,
        timeout: 8 * MS,
        max_attempts: 2,
    };

    let err = attach(&mut link, &test_core(), false, &mut Vec::new(), policy).unwrap_err();

    assert!(err.to_string().contains("timed out"));
    assert_eq!(
        err.to_string(),
        "timed out waiting for `OK folder attached` after 2 enable attempts"
    );
    assert_eq!(occurrences(&link.writes, FOLDER_ON), 2);
}

#[test]
fn handshake_replies_and_errors() {
    assert_eq!(normalize_console_reply("  -> OK"), "OK");
    assert_eq!(normalize_console_reply(" -> OK"), " -> OK");
    assert!(is_attach_ok("OK folder attached"));
    assert!(is_attach_ok("OK folder refreshed: 1"));
    assert!(!is_attach_ok("OK folder attachedx"));
    assert!(!is_attach_ok("x OK folder attached"));
    assert!(is_attach_err("ERR") && is_attach_err("ERR: x") && is_attach_err("ERR x"));
    assert!(!is_attach_err("ERROR"));
    let mut seen = Attach::start(AttachPolicy::default(), 0);
    assert_eq!(seen.on_event(AttachEvent::Quiet), Ok(false));
    assert_eq!(seen.on_event(AttachEvent::Frame), Ok(false));
    assert!(seen.protocol_seen && !seen.retry(u64::MAX, false));
    assert_eq!(seen.on_event(AttachEvent::Line("OK folder attached")), Ok(true));
    assert_eq!(seen.on_event(AttachEvent::Closed), Err(AttachError::Closed));
    let mut damaged = Attach::start(AttachPolicy::default(), 0);
    assert_eq!(damaged.on_pump(&PumpEvent::Malformed), Ok(false));
    assert!(damaged.protocol_seen);
    let state = Attach::start(AttachPolicy::default(), 0);
    assert_eq!(state.deadline, 12_000 * MS);
    assert_eq!(state.check(0, true), Err(AttachError::Interrupted));
    assert_eq!(state.check(12_000 * MS - 1, false), Ok(()));
    assert_eq!(
        state.check(12_000 * MS, false).unwrap_err().to_string(),
        "timed out waiting for `OK folder attached` after 1 enable attempt"
    );
    assert_eq!(
        AttachError::InterruptedBefore.to_string(),
        "interrupted before enabling the serial folder source"
    );
    assert_eq!(
        AttachError::Closed.to_string(),
        "serial link closed while enabling the folder source"
    );
}

/// Feeds bytes to a stream and gives what it reports, except for plain activity.
fn feed(stream: &mut StreamState, bytes: &[u8]) -> Vec<PumpEvent> {
    let mut queue: VecDeque<u8> = bytes.iter().copied().collect();
    let mut out = Vec::new();
    loop {
        let ev = match stream.take_deferred() {
            Some(b) => LinkEvent::Byte(b),
            None => match queue.pop_front() {
                Some(b) => LinkEvent::Byte(b),
                None => return out,
            },
        };
        match stream.pump(ev) {
            PumpEvent::Reading | PumpEvent::Activity => {}
            other => out.push(other),
        }
    }
}

fn lines_of(events: Vec<PumpEvent>) -> Vec<String> {
    events
        .into_iter()
        .map(|e| match e {
            PumpEvent::DeviceLine(l) => l,
            PumpEvent::Request(op, args) => format!("<{op} {args:?}>"),
            PumpEvent::Malformed => "<malformed>".to_string(),
            _ => "<other>".to_string(),
        })
        .collect()
}

#[test]
fn text_passes_through_whatever_looks_like_magic() {
    let mut stream = StreamState::new();
    assert_eq!(
        lines_of(feed(&mut stream, b"MMS MSM\x20MS!\r\n\r\n\nMM\n")),
        ["MMS MSM MS!", "MM"]
    );
    let mut bytes = vec![b'a'; 512];
    bytes.extend_from_slice(b"MSx\n");
    assert_eq!(
        lines_of(feed(&mut stream, &bytes)),
        [format!("{}M", "a".repeat(512)), "Sx".to_string()]
    );
    let mut wide = vec![0xE9u8; 256];
    wide.push(b'!');
    assert_eq!(
        lines_of(feed(&mut stream, &wide)),
        [format!("{}!", "é".repeat(256))]
    );
    let mut delayed = vec![b'a'; 512];
    delayed.extend_from_slice(b"Mb\n");
    assert_eq!(
        lines_of(feed(&mut stream, &delayed)),
        [format!("{}M", "a".repeat(512)), "b".to_string()]
    );
}

fn frame(op: u8, args: &[u8]) -> Vec<u8> {
    let mut out = vec![b'M', b'S', op];
    out.extend_from_slice(args);
    out.push(args.iter().fold(op, |x, b| x ^ b));
    out
}

#[test]
fn requests_are_received_and_damage_is_ignored() {
    let mut stream = StreamState::new();
    let mut bytes = b"fragment".to_vec();
    bytes.extend(frame(seeder::OP_READ, &[1, 2, 3, 4, 5, 6, 7]));
    bytes.extend_from_slice(b"after\n");
    assert_eq!(
        lines_of(feed(&mut stream, &bytes)),
        ["<3 [1, 2, 3, 4, 5, 6, 7]>", "after"]
    );
    let write = frame(seeder::OP_WRITE, &[1, 2, 3, 4, 0, 0, 0, 0, 2, 0, 9, 8]);
    assert_eq!(
        lines_of(feed(&mut stream, &write)),
        ["<6 [1, 2, 3, 4, 0, 0, 0, 0, 2, 0, 9, 8]>"]
    );
    let mut bad = frame(seeder::OP_STAT, &[1, 2, 3, 4]);
    let last = bad.len() - 1;
    bad[last] ^= 1;
    assert_eq!(lines_of(feed(&mut stream, &bad)), ["<malformed>"]);
    // A WRITE that declares more data than a frame may carry.
    assert_eq!(
        lines_of(feed(&mut stream, b"MS\x06\x01\x02\x03\x04\x00\x00\x00\x00\xFF\xFF")),
        ["<malformed>"]
    );
    assert!(feed(&mut stream, b"MS\x04\x01").is_empty());
    assert!(matches!(stream.pump(LinkEvent::Timeout), PumpEvent::Malformed));
    assert!(matches!(stream.pump(LinkEvent::Timeout), PumpEvent::Timeout));
    assert!(feed(&mut stream, b"MS").is_empty());
    assert!(matches!(stream.pump(LinkEvent::Closed), PumpEvent::Malformed));
    assert!(matches!(stream.pump(LinkEvent::Closed), PumpEvent::Closed));
    assert!(matches!(read_request(&[]), RequestRead::Incomplete));
    assert!(matches!(read_request(&[0x40]), RequestRead::Unknown(0x40)));
}

#[test]
fn responses_check_out() {
    let out = response_frame(3, 0, &[1, 2]);
    assert_eq!(out, vec![b'S', b'M', 3, 0, 1, 2, b'S' ^ b'M' ^ 3 ^ 1 ^ 2]);
    assert_eq!(out.iter().fold(0u8, |x, b| x ^ b), 0);
}

#[test]
fn requests_are_logged() {
    assert_eq!(request_log(1, &[], 0, &[4]).unwrap(), "COUNT -> 4");
    assert_eq!(request_log(2, &[7], 1, &[]).unwrap(), "DESCRIBE 7 ERR");
    assert_eq!(
        request_log(3, &[1, 0, 1, 0, 0, 2, 0], 0, &[]).unwrap(),
        "READ 1 @256 OK"
    );
    assert_eq!(
        request_log(9, &[1, 2, 0, 3, 1, 4, 0], 0, &[]).unwrap(),
        "DEFLATE 1 block=2 @259 OK"
    );
    assert_eq!(request_log(4, &[0; 4], 0, &[]), None);
}

fn served(fw: Vec<u8>) -> ServedMota {
    let built = build(
        &BuildOpts {
            fw,
            base: None,
            patch_type: PatchType::Sequential,
            inplace_memory: None,
            segment_size: 0,
            target_id: Some(0x0102_0304),
            fw_version: Some(0x0111_0000),
            hw_id: Some("HW".into()),
            sign_seed: None,
            block_size: DEFAULT_BLOCK_SIZE,
            force: false,
        },
        &[],
    )
    .unwrap_or_else(|e| panic!("{}", e.to_string()));
    accept_served(vec![b"a.mota".to_vec()], built.bytes).unwrap_or_else(|e| panic!("{e}"))
}

fn reply(action: Option<Action>) -> (u8, Vec<u8>) {
    match action {
        Some(Action::Reply(status, payload)) => (status, payload),
        _ => panic!("no reply"),
    }
}

#[test]
fn folder_is_described_and_read() {
    let mota = served(vec![0x55; 5000]);
    let bytes = mota.bytes.clone();
    let manifest = mota.manifest;
    let folder = Folder::new(vec![mota]);
    assert_eq!(folder.count(), 1);
    assert!(folder.at(1).is_none());
    assert_eq!(folder.all().len(), 1);
    assert_eq!(folder.at(0).unwrap().bytes, bytes);
    let desc = describe(folder.at(0).unwrap());
    assert_eq!(desc.len(), seeder::DESC_WIRE);
    assert_eq!(&desc[..4], &manifest.merkle_root);
    assert_eq!(&desc[4..8], &[4, 3, 2, 1]);
    assert_eq!(&desc[14..18], &(bytes.len() as u32).to_le_bytes());
    assert_eq!(&desc[18..22], &205u32.to_le_bytes());
    assert_eq!(&desc[22..26], &3u32.to_le_bytes());
    assert_eq!(&desc[26..30], &217u32.to_le_bytes());
    assert_eq!(&desc[30..34], &5056u32.to_le_bytes());
    assert_eq!(&desc[34..], &[11, seeder::SOURCE_CAP_DEFLATE_BLOCK, 0, 0]);

    let core = SeederCore::new(folder, None);
    assert_eq!(core.folder().count(), 1);
    assert_eq!(reply(core.handle(seeder::OP_COUNT, &[])), (0, vec![1]));
    assert_eq!(reply(core.handle(seeder::OP_DESCRIBE, &[0])), (0, desc));
    assert_eq!(reply(core.handle(seeder::OP_DESCRIBE, &[1])), (1, vec![]));
    assert!(core.handle(seeder::OP_DESCRIBE, &[]).is_none());
    assert_eq!(
        reply(core.handle(seeder::OP_READ, &[0, 1, 0, 0, 0, 3, 0])),
        (0, bytes[1..4].to_vec())
    );
    let end = (bytes.len() as u32 - 1).to_le_bytes();
    assert_eq!(
        reply(core.handle(seeder::OP_READ, &[0, end[0], end[1], end[2], end[3], 2, 0])),
        (1, vec![])
    );
    assert!(core.handle(seeder::OP_READ, &[0, 1]).is_none());
    assert!(core.handle(0x7F, &[0; 20]).is_none());
    for op in [4u8, 5, 6, 7, 8] {
        assert_eq!(reply(core.handle(op, &[])), (1, vec![]));
    }
}

#[test]
fn compressed_blocks_are_sliced() {
    let mota = served(vec![0x55; 5000]);
    let payload = mota.bytes[217..217 + 2048].to_vec();
    let core = SeederCore::new(Folder::new(vec![mota]), None);
    let ask = |block: u16, off: u16, len: u16| {
        let mut args = vec![0u8];
        args.extend_from_slice(&block.to_le_bytes());
        args.extend_from_slice(&off.to_le_bytes());
        args.extend_from_slice(&len.to_le_bytes());
        reply(core.handle(seeder::OP_DEFLATE_BLOCK, &args))
    };
    let (status, length) = ask(0, 0, 0);
    assert_eq!(status, 0);
    let n: u16 = u16::from_le_bytes([length[0], length[1]]);
    assert!(n > 2 && (n as usize) < payload.len());
    let (_, first) = ask(0, 0, 2);
    let (_, rest) = ask(0, 2, n - 2);
    let mut joined = first[2..].to_vec();
    joined.extend_from_slice(&rest[2..]);
    assert_eq!(ask(0, 0, n).1[2..], joined[..]);
    let mut decoder = flate2::Decompress::new(false);
    let mut plain = Vec::with_capacity(4096);
    decoder
        .decompress_vec(&joined, &mut plain, flate2::FlushDecompress::Finish)
        .unwrap();
    assert_eq!(plain, payload);
    assert_eq!(ask(3, 0, 0), (1, vec![]));
    assert_eq!(ask(0, 1, 0), (1, vec![]));
    assert_eq!(ask(0, 0, n + 1), (1, vec![]));
    assert_eq!(ask(0, 0, seeder::DEFLATE_READ_MAX as u16 + 1), (1, vec![]));
    assert_eq!(reply(core.handle(seeder::OP_DEFLATE_BLOCK, &[0])), (1, vec![]));
    assert_eq!(deflate_slice_reply(&Some(vec![1, 2, 3]), 4, 1, 2), (0, vec![3, 0, 2, 3]));
    assert_eq!(deflate_slice_reply(&Some(vec![1, 2, 3]), 3, 0, 0), (1, vec![]));
    assert_eq!(deflate_slice_reply(&Some(vec![]), 3, 0, 0), (1, vec![]));
    assert_eq!(deflate_slice_reply(&None, 3, 0, 0), (1, vec![]));
    assert_eq!(deflate_slice_reply(&Some(vec![0; 3]), 9, 2, 2), (1, vec![]));
}

#[test]
fn captures_become_storage_operations() {
    let mut core = SeederCore::new(Folder::new(Vec::new()), Some(PathBuf::from("/store")));
    assert_eq!(core.store_dir(), &Some(PathBuf::from("/store")));
    let mid = [0xABu8, 0xCD, 0x01, 0x02];
    assert!(matches!(core.handle(seeder::OP_STAT, &mid), Some(Action::Stat(m)) if m == mid));
    assert!(matches!(core.handle(seeder::OP_FIN, &mid), Some(Action::Publish(m)) if m == mid));
    assert!(core.handle(seeder::OP_STAT, &mid[..3]).is_none());
    assert!(core.handle(seeder::OP_BEGIN, &mid).is_none());
    assert!(core.handle(seeder::OP_SREAD, &[0; 9]).is_none());
    let begin = [0xAB, 0xCD, 0x01, 0x02, 220, 0, 0, 0];
    assert!(matches!(
        core.handle(seeder::OP_BEGIN, &begin),
        Some(Action::Begin(m, contents)) if m == mid && contents == vec![0xFF; 220]
    ));
    core.set_seed(vec![1, 2, 3, 4, 5, 6, 7, 8, 9, 10], 2);
    match core.handle(seeder::OP_BEGIN, &begin) {
        Some(Action::Begin(_, contents)) => {
            assert!(contents[..213].iter().all(|b| *b == 0xFF));
            assert_eq!(&contents[213..], &[1, 2, 3, 4, 5, 6, 7]);
        }
        _ => panic!("no begin"),
    }
    let seed = served(vec![9; 3000]);
    assert_eq!(core.seed_from(&seed.bytes), Ok(seed.manifest));
    let large = [0xAB, 0xCD, 0x01, 0x02, 0xE8, 0x03, 0, 0];
    match core.handle(seeder::OP_BEGIN, &large) {
        Some(Action::Begin(_, contents)) => {
            assert_eq!(contents.len(), 1000);
            assert_eq!(contents[212], 0xFF);
            assert!(contents[213..].iter().all(|b| *b == 9));
        }
        _ => panic!("no begin"),
    }
    assert!(core.seed_from(b"junk").is_err());
    let write = [0xAB, 0xCD, 1, 2, 5, 0, 0, 0, 2, 0, 7, 8];
    assert!(matches!(
        core.handle(seeder::OP_WRITE, &write),
        Some(Action::Write(m, 5, data)) if m == mid && data == vec![7, 8]
    ));
    assert_eq!(reply(core.handle(seeder::OP_WRITE, &write[..11])), (1, vec![]));
    assert!(matches!(
        core.handle(seeder::OP_SREAD, &write[..10]),
        Some(Action::Read(m, 5, 2)) if m == mid
    ));
    assert_eq!(store_name(&mid, true), "abcd0102.mota.part");
    assert_eq!(store_name(&mid, false), "abcd0102.mota");
    assert_eq!(stat_reply(Some(0x1_0000_0203)), (0, vec![1, 3, 2, 0, 0]));
    assert_eq!(stat_reply(None), (0, vec![0, 0, 0, 0, 0]));
    assert_eq!(done_reply(true), (0, vec![]));
    assert_eq!(done_reply(false), (1, vec![]));
    assert_eq!(read_reply(Some(vec![3])), (0, vec![3]));
    assert_eq!(read_reply(None), (1, vec![]));
    assert!(part_is_complete(b"mOTA\x10\0\0\0", 16));
    assert!(!part_is_complete(b"mOTA\x10\0\0\0", 17));
    assert!(!part_is_complete(b"mOTB\x10\0\0\0", 16));
}

/// A store in memory that does what each action says, as a disk does.
struct MemoryStore {
    parts: BTreeMap<[u8; 4], Vec<u8>>,
    published: BTreeMap<[u8; 4], Vec<u8>>,
}

impl MemoryStore {
    fn perform(&mut self, action: Option<Action>) -> (u8, Vec<u8>) {
        match action.unwrap_or_else(|| panic!("ignored")) {
            Action::Reply(status, payload) => (status, payload),
            Action::Stat(mid) => stat_reply(
                self.published
                    .get(&mid)
                    .or(self.parts.get(&mid))
                    .map(|f| f.len() as u64),
            ),
            Action::Begin(mid, contents) => {
                self.parts.insert(mid, contents);
                done_reply(true)
            }
            Action::Write(mid, off, data) => match self.parts.get_mut(&mid) {
                Some(part) => {
                    part[off as usize..off as usize + data.len()].copy_from_slice(&data);
                    done_reply(true)
                }
                None => done_reply(false),
            },
            Action::Read(mid, off, len) => read_reply(
                self.parts
                    .get(&mid)
                    .or(self.published.get(&mid))
                    .and_then(|f| f.get(off as usize..off as usize + len))
                    .map(|d| d.to_vec()),
            ),
            Action::Publish(mid) => {
                let complete = self.parts.get(&mid).is_some_and(|f| {
                    f.len() >= 8 && part_is_complete(f[..8].try_into().unwrap(), f.len() as u64)
                });
                if complete {
                    let part = self.parts.remove(&mid).unwrap();
                    self.published.insert(mid, part);
                }
                done_reply(complete)
            }
        }
    }
}

#[test]
fn captures_give_back_what_was_written() {
    let core = SeederCore::new(Folder::new(Vec::new()), Some(PathBuf::from("/store")));
    let mut store = MemoryStore { parts: BTreeMap::new(), published: BTreeMap::new() };
    let args = |head: &[u8]| [&[1u8, 2, 3, 4], head].concat();
    let begin = args(&[16, 0, 0, 0]);
    assert_eq!(store.perform(core.handle(seeder::OP_BEGIN, &begin)), (0, vec![]));
    let write = args(&[3, 0, 0, 0, 2, 0, 7, 8]);
    assert_eq!(store.perform(core.handle(seeder::OP_WRITE, &write)), (0, vec![]));
    let read = args(&[3, 0, 0, 0, 2, 0]);
    assert_eq!(store.perform(core.handle(seeder::OP_SREAD, &read)), (0, vec![7, 8]));
    let around = args(&[2, 0, 0, 0, 4, 0]);
    assert_eq!(
        store.perform(core.handle(seeder::OP_SREAD, &around)),
        (0, vec![0xFF, 7, 8, 0xFF])
    );
    assert_eq!(
        store.perform(core.handle(seeder::OP_STAT, &args(&[]))),
        (0, vec![1, 16, 0, 0, 0])
    );
    // Not complete yet: the header is still blank.
    assert_eq!(store.perform(core.handle(seeder::OP_FIN, &args(&[]))), (1, vec![]));
    let head = args(&[0, 0, 0, 0, 8, 0, b'm', b'O', b'T', b'A', 16, 0, 0, 0]);
    assert_eq!(store.perform(core.handle(seeder::OP_WRITE, &head)), (0, vec![]));
    assert_eq!(store.perform(core.handle(seeder::OP_FIN, &args(&[]))), (0, vec![]));
    assert!(store.parts.is_empty());
    let start = args(&[0, 0, 0, 0, 4, 0]);
    assert_eq!(
        store.perform(core.handle(seeder::OP_SREAD, &start)),
        (0, b"mOTA".to_vec())
    );
    assert_eq!(store.perform(core.handle(seeder::OP_WRITE, &write)), (1, vec![]));
}

#[test]
fn a_begun_frame_always_ends() {
    for op in 1u8..=9 {
        let mut stream = StreamState::new();
        assert!(feed(&mut stream, b"MS").is_empty());
        let mut event = stream.pump(LinkEvent::Byte(op));
        let mut bytes: usize = 1;
        while let PumpEvent::Reading = event {
            event = stream.pump(LinkEvent::Byte(0));
            bytes += 1;
        }
        assert!(bytes <= FRAME_MAX);
        assert!(matches!(event, PumpEvent::Request(_, _) | PumpEvent::Malformed));
        let mut state = Attach::start(AttachPolicy::default(), 0);
        assert_eq!(state.on_pump(&event), Ok(false));
        for now in [0u64, 3_000 * MS, u64::MAX] {
            assert!(!state.retry(now, false));
        }
        assert_eq!(state.attempts, 1);
    }
}

fn served_at(path: &[&str]) -> ServedMota {
    let mut s = served(vec![5; 64]);
    s.path = path.iter().map(|name| name.as_bytes().to_vec()).collect();
    s
}

#[test]
fn a_folder_is_in_the_order_of_its_paths() {
    let sorted: [&[&str]; 6] = [
        &["dir", "A.mota"],
        &["dir", "a", "z.mota"],
        &["dir", "a.mota"],
        &["dir", "a1.mota"],
        &["dir", "a10.mota"],
        &["dir", "b", "a.mota"],
    ];
    for found in [[0usize, 1, 2, 3, 4, 5], [5, 4, 3, 2, 1, 0], [3, 0, 5, 1, 4, 2]] {
        let folder = Folder::new(found.iter().map(|i| served_at(sorted[*i])).collect());
        assert_eq!(folder.count(), 6);
        for (s, path) in folder.all().iter().zip(sorted) {
            let names: Vec<Vec<u8>> = path.iter().map(|name| name.as_bytes().to_vec()).collect();
            assert_eq!(s.path, names);
        }
    }
    let mut first = served_at(&["same.mota"]);
    first.manifest.target_id = 1;
    let mut second = served_at(&["same.mota"]);
    second.manifest.target_id = 2;
    let folder = Folder::new(vec![first, second]);
    assert_eq!(folder.at(0).unwrap().manifest.target_id, 1);
    assert_eq!(folder.at(1).unwrap().manifest.target_id, 2);
    assert!(folder.at(2).is_none());
}

#[test]
fn paths_are_ordered_by_component() {
    assert_before(&["a", "b"], &["a.x"]);
    assert_before(&["a"], &["a", "b"]);
    assert_before(&["Z"], &["a"]);
    assert_before(&[], &["a"]);
}

fn assert_before(before: &[&str], after: &[&str]) {
    let names = |path: &[&str]| -> Vec<Vec<u8>> {
        path.iter().map(|name| name.as_bytes().to_vec()).collect()
    };
    let (a, b) = (names(before), names(after));
    assert!(path_is_before(&a, &b));
    assert!(!path_is_before(&b, &a));
    assert!(!path_is_before(&a, &a));
    let (a, b): (PathBuf, PathBuf) = (before.iter().collect(), after.iter().collect());
    assert!(a < b);
}

#[test]
fn storage_requests_give_back_what_was_written() {
    let core = SeederCore::new(Folder::new(Vec::new()), Some(PathBuf::from("/store")));
    let mut store = MemoryStore { parts: BTreeMap::new(), published: BTreeMap::new() };
    let args = |head: &[u8]| [&[9u8, 8, 7, 6], head].concat();
    let begin = args(&[6, 0, 0, 0]);
    let write = args(&[1, 0, 0, 0, 3, 0, 1, 2, 3]);
    let read = args(&[1, 0, 0, 0, 3, 0]);
    let whole = args(&[0, 0, 0, 0, 6, 0]);
    let mut ask = |op: u8, args: &[u8]| store.perform(core.handle_storage(op, args));
    assert_eq!(ask(seeder::OP_WRITE, &write), (1, vec![]));
    assert_eq!(ask(seeder::OP_BEGIN, &begin), (0, vec![]));
    assert_eq!(ask(seeder::OP_WRITE, &write), (0, vec![]));
    assert_eq!(ask(seeder::OP_SREAD, &read), (0, vec![1, 2, 3]));
    assert_eq!(ask(seeder::OP_SREAD, &whole), (0, vec![0xFF, 1, 2, 3, 0xFF, 0xFF]));
    // Other operations are no storage requests, and are refused.
    assert_eq!(ask(seeder::OP_COUNT, &begin), (1, vec![]));
    assert_eq!(ask(0xEE, &begin), (1, vec![]));
    assert!(core.handle_storage(seeder::OP_WRITE, &begin).is_none());
    let serve_only = SeederCore::new(Folder::new(Vec::new()), None);
    for op in 0u8..=255 {
        assert_eq!(reply(serve_only.handle_storage(op, &write)), (1, vec![]));
        assert_eq!(reply(serve_only.handle_storage(op, &[])), (1, vec![]));
    }
}

#[test]
fn unsound_files_are_not_served() {
    let mut bytes = served(vec![1; 100]).bytes;
    let last = bytes.len() - 6;
    bytes[last] ^= 1;
    let why = match accept_served(vec![b"bad.mota".to_vec()], bytes) {
        Ok(_) => panic!("served"),
        Err(why) => why,
    };
    assert_eq!(
        why,
        "payload does not match its Merkle leaves; merkle_root does not match the payload; image_hash does not match the full payload"
    );
    assert_eq!(
        accept_served(vec![b"no.mota".to_vec()], vec![0; 3]).err().unwrap(),
        "container is shorter than its fixed parts"
    );
}
