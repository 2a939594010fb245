use std::cell::RefCell;
use std::collections::VecDeque;
use std::rc::Rc;
use std::time::Duration;

use canoe_storage::error::{Error, TransferError};
use canoe_storage::exchange::{
    Completion, Exchange, Geometry, Progress, Response, Transfer, CHUNK_BYTES,
};
use canoe_storage::qualify::{
    after, inquiry_facts, open, sample, sample_digest, to_hex_text, Next, Stage,
};
use canoe_storage::range::{
    Access, ConnectStep, RangeRun, RangeSession, RangeStep, MAX_RANGE_BYTES,
};
use canoe_storage::ready::ReadyStep;
use canoe_storage::scsi::{block_command, BulkIo, Scsi};
use canoe_storage::usb::{
    close_outcome, connect_check, connection_outcome, from_interface, get_max_lun_request,
    padded_length, parse_max_lun, release_outcome, validate_timeout, ActiveInterface,
    AlternateSetting, ControlType, EndpointInfo, Endpoints, Recipient,
};

/// A transport that a test drives.
trait Wire {
    fn write(&mut self, data: &[u8]) -> Result<usize, Error>;
    fn read(&mut self, length: usize) -> Result<Vec<u8>, Error>;
}

fn perform<T: Wire>(io: &mut T, transfer: Transfer) -> Completion {
    match transfer {
        Transfer::Write(data) => Completion::Written(io.write(&data)),
        Transfer::Read(length) => Completion::Received(io.read(length)),
    }
}

fn drive<T: Wire>(
    scsi: &mut Scsi<T>,
    open: impl Fn(&mut Scsi<T>) -> Result<Exchange, Error>,
) -> Result<Response, Error> {
    let mut exchange = open(scsi)?;
    loop {
        let completion = perform(scsi.io_mut(), exchange.transfer());
        match scsi.resume(exchange, completion) {
            Progress::More(next) => exchange = next,
            Progress::Done(reply) => return reply,
        }
    }
}

fn data(r: Result<Response, Error>) -> Result<Vec<u8>, Error> {
    match r {
        Ok(Response::Data(bytes)) => Ok(bytes),
        Ok(_) => panic!("no data"),
        Err(e) => Err(e),
    }
}

fn capacity(r: Result<Response, Error>) -> Result<Geometry, Error> {
    match r {
        Ok(Response::Capacity(g)) => Ok(g),
        Ok(_) => panic!("no capacity"),
        Err(e) => Err(e),
    }
}

fn connect<T: Wire>(scsi: Scsi<T>, access: Access) -> Result<RangeSession<T>, Error> {
    let mut step = RangeSession::connect(scsi, access);
    loop {
        match step {
            ConnectStep::More(mut run) => {
                let transfer = run.transfer();
                let completion = perform(run.io_mut(), transfer);
                step = run.resume(completion);
            }
            ConnectStep::Done(r) => return r,
        }
    }
}

fn drive_range<T: Wire>(
    session: &mut RangeSession<T>,
    step: RangeStep,
) -> Result<Response, Error> {
    let mut step = step;
    loop {
        match step {
            RangeStep::More(run) => {
                let completion = perform(session.io_mut(), transfer_of(&run));
                step = session.resume(run, completion);
            }
            RangeStep::Done(r) => return r,
        }
    }
}

fn transfer_of(run: &RangeRun) -> Transfer {
    run.transfer()
}

fn read_range<T: Wire>(
    session: &mut RangeSession<T>,
    offset: u64,
    length: usize,
) -> Result<Vec<u8>, Error> {
    let step = session.read_range(offset, length);
    data(drive_range(session, step))
}

fn write_range<T: Wire>(
    session: &mut RangeSession<T>,
    offset: u64,
    bytes: &[u8],
) -> Result<(), Error> {
    let step = session.write_range(offset, bytes);
    drive_range(session, step).map(|_| ())
}

fn sync<T: Wire>(session: &mut RangeSession<T>) -> Result<(), Error> {
    let step = session.sync();
    drive_range(session, step).map(|_| ())
}

#[test]
fn get_max_lun_targets_the_selected_interface() {
    let request = get_max_lun_request(7);
    assert_eq!(request.control_type, ControlType::Class);
    assert_eq!(request.recipient, Recipient::Interface);
    assert_eq!(
        (
            request.request,
            request.value,
            request.index,
            request.length
        ),
        (0xfe, 0, 7, 1)
    );
}

#[test]
fn max_lun_requires_a_valid_reply_or_the_standard_single_lun_stall() {
    assert_eq!(parse_max_lun(Ok(vec![0])).unwrap(), 0);
    assert_eq!(parse_max_lun(Ok(vec![15])).unwrap(), 15);
    assert_eq!(parse_max_lun(Err(TransferError::Stall)).unwrap(), 0);
    for response in [vec![], vec![16], vec![0, 0]] {
        assert!(matches!(
            parse_max_lun(Ok(response)),
            Err(Error::Protocol(_))
        ));
    }
    assert!(matches!(
        parse_max_lun(Err(TransferError::Cancelled)),
        Err(Error::Usb(TransferError::Cancelled))
    ));
    assert!(validate_timeout(Duration::ZERO.as_nanos()).is_err());
    assert!(validate_timeout(Duration::from_secs(61).as_nanos()).is_err());
    assert!(validate_timeout(Duration::from_secs(5).as_nanos()).is_ok());
    assert!(validate_timeout(Duration::from_secs(60).as_nanos()).is_ok());
    assert!(validate_timeout(Duration::from_secs(60).as_nanos() + 1).is_err());
}

#[test]
fn selected_lun_cannot_exceed_the_connected_transport() {
    struct SingleLun;
    impl BulkIo for SingleLun {
        fn max_lun(&self) -> u8 {
            0
        }
    }
    assert!(Scsi::new(SingleLun, 0).is_ok());
    assert!(matches!(Scsi::new(SingleLun, 1), Err(Error::Protocol(_))));
    assert!(Scsi::select((), 15, 15).is_ok());
    assert!(matches!(
        Scsi::select((), 16, 255),
        Err(Error::Protocol("invalid LUN"))
    ));
}

struct Fake {
    reads: VecDeque<Vec<u8>>,
    short: bool,
    writes: Vec<Vec<u8>>,
}

impl BulkIo for Fake {}

impl Wire for Fake {
    fn write(&mut self, b: &[u8]) -> Result<usize, Error> {
        self.writes.push(b.to_vec());
        Ok(b.len() - usize::from(self.short))
    }
    fn read(&mut self, _: usize) -> Result<Vec<u8>, Error> {
        self.reads
            .pop_front()
            .ok_or(Error::Protocol("unexpected read"))
    }
}

fn fake(reads: Vec<Vec<u8>>, short: bool) -> Scsi<Fake> {
    Scsi::new(
        Fake {
            reads: VecDeque::from(reads),
            short,
            writes: Vec::new(),
        },
        0,
    )
    .unwrap()
}

fn status(tag: u32, residue: u32, status: u8) -> Vec<u8> {
    let mut b = b"USBS".to_vec();
    b.extend_from_slice(&tag.to_le_bytes());
    b.extend_from_slice(&residue.to_le_bytes());
    b.push(status);
    b
}

#[test]
fn validates_csw_and_flush() {
    for bytes in [
        status(9, 0, 0),
        status(1, 1, 0),
        status(1, 0, 2),
        vec![0; 13],
    ] {
        let mut d = fake(vec![bytes], false);
        assert!(drive(&mut d, |s| s.flush()).is_err());
        assert!(!d.is_usable());
        assert!(matches!(drive(&mut d, |s| s.flush()), Err(Error::Retired)));
    }
    let mut d = fake(vec![status(1, 0, 0)], false);
    drive(&mut d, |s| s.flush()).unwrap();
    assert!(d.is_usable());
}

#[test]
fn rejects_short_writes() {
    let mut d = fake(vec![], true);
    assert!(drive(&mut d, |s| s.flush()).is_err());
    assert!(!d.is_usable());
}

#[test]
fn failed_scsi_command_remains_available_for_sense() {
    let mut d = fake(vec![status(1, 0, 1)], false);
    assert!(matches!(
        drive(&mut d, |s| s.flush()),
        Err(Error::CommandFailed)
    ));
    assert!(d.is_usable());
}

#[test]
fn rejects_invalid_ranges() {
    assert!(block_command(0x28, u32::MAX, 2, 512).is_err());
    assert!(block_command(0x28, 0, 0, 512).is_err());
}

#[test]
fn successful_eject_retires_the_session() {
    let mut device = fake(vec![status(1, 0, 0)], false);
    drive(&mut device, |s| s.eject()).unwrap();
    assert!(!device.is_usable());
    assert!(matches!(
        drive(&mut device, |s| s.test_unit_ready()),
        Err(Error::Retired)
    ));
}

struct Disk {
    bytes: Rc<RefCell<Vec<u8>>>,
    commands: Rc<RefCell<Vec<u8>>>,
    reads: VecDeque<Vec<u8>>,
    write: Option<(usize, usize, u32)>,
    fail_write: bool,
}

impl Disk {
    fn status(&mut self, tag: u32, failed: bool) {
        let mut csw = b"USBS".to_vec();
        csw.extend_from_slice(&tag.to_le_bytes());
        csw.extend_from_slice(&0u32.to_le_bytes());
        csw.push(u8::from(failed));
        self.reads.push_back(csw);
    }
}

impl BulkIo for Disk {}

impl Wire for Disk {
    fn write(&mut self, data: &[u8]) -> Result<usize, Error> {
        if let Some((offset, length, tag)) = self.write.take() {
            assert_eq!(data.len(), length);
            if self.fail_write {
                return Err(Error::Usb(TransferError::Disconnected));
            }
            self.bytes.borrow_mut()[offset..offset + length].copy_from_slice(data);
            self.status(tag, false);
            return Ok(data.len());
        }
        assert_eq!(data.len(), 31);
        let tag = u32::from_le_bytes(data[4..8].try_into().unwrap());
        let cdb = &data[15..];
        self.commands.borrow_mut().push(cdb[0]);
        match cdb[0] {
            0x00 | 0x35 | 0x1b => self.status(tag, false),
            0x25 => {
                let blocks = (self.bytes.borrow().len() / 512) as u32;
                let mut reply = (blocks - 1).to_be_bytes().to_vec();
                reply.extend_from_slice(&512u32.to_be_bytes());
                self.reads.push_back(reply);
                self.status(tag, false);
            }
            0x28 | 0x2a => {
                let offset = u32::from_be_bytes(cdb[2..6].try_into().unwrap()) as usize * 512;
                let length = u16::from_be_bytes(cdb[7..9].try_into().unwrap()) as usize * 512;
                if cdb[0] == 0x28 {
                    let found = self.bytes.borrow()[offset..offset + length].to_vec();
                    self.reads.push_back(found);
                    self.status(tag, false);
                } else {
                    self.write = Some((offset, length, tag));
                }
            }
            _ => panic!("unexpected SCSI command"),
        }
        Ok(data.len())
    }
    fn read(&mut self, _: usize) -> Result<Vec<u8>, Error> {
        self.reads
            .pop_front()
            .ok_or(Error::Protocol("unexpected bulk read"))
    }
}

fn disk(fail_write: bool) -> Disk {
    Disk {
        bytes: Rc::new(RefCell::new((0..4096).map(|n| (n % 251) as u8).collect())),
        commands: Rc::new(RefCell::new(Vec::new())),
        reads: VecDeque::new(),
        write: None,
        fail_write,
    }
}

#[test]
fn unaligned_write_preserves_other_bytes_and_fresh_reads_match() {
    let disk = disk(false);
    let bytes = disk.bytes.clone();
    let before = bytes.borrow().clone();
    let mut session = connect(Scsi::new(disk, 0).unwrap(), Access::ReadWrite).unwrap();
    write_range(&mut session, 507, &[77; 20]).unwrap();
    sync(&mut session).unwrap();
    let disk = session.into_inner().into_inner();
    let mut fresh = connect(Scsi::new(disk, 0).unwrap(), Access::ReadOnly).unwrap();
    assert_eq!(read_range(&mut fresh, 507, 20).unwrap(), vec![77; 20]);
    let after = bytes.borrow();
    assert_eq!(&after[..507], &before[..507]);
    assert_eq!(&after[527..], &before[527..]);
}

#[test]
fn invalid_and_read_only_ranges_issue_no_commands() {
    let disk = disk(false);
    let commands = disk.commands.clone();
    let mut session = connect(Scsi::new(disk, 0).unwrap(), Access::ReadOnly).unwrap();
    let baseline = commands.borrow().len();
    assert!(write_range(&mut session, 0, &[4]).is_err());
    assert!(read_range(&mut session, 4096, 1).is_err());
    assert!(read_range(&mut session, u64::MAX, 1).is_err());
    assert!(read_range(&mut session, 0, 0).is_err());
    assert_eq!(commands.borrow().len(), baseline);
    assert!(session.is_usable());
}

#[test]
fn uncertain_write_retires_without_retry_or_flush() {
    let disk = disk(true);
    let commands = disk.commands.clone();
    let mut session = connect(Scsi::new(disk, 0).unwrap(), Access::ReadWrite).unwrap();
    assert!(write_range(&mut session, 0, &[4; 512]).is_err());
    let baseline = commands.borrow().len();
    assert!(matches!(sync(&mut session), Err(Error::Retired)));
    assert_eq!(commands.borrow().len(), baseline);
}

#[test]
fn command_wrapper_has_the_documented_layout() {
    let mut d = fake(vec![vec![7; 36], status(1, 0, 0)], false);
    let reply = data(drive(&mut d, |s| s.inquiry())).unwrap();
    assert_eq!(reply, vec![7; 36]);
    let io = d.into_inner();
    let mut want = b"USBC".to_vec();
    want.extend_from_slice(&1u32.to_le_bytes());
    want.extend_from_slice(&36u32.to_le_bytes());
    want.extend_from_slice(&[0x80, 0, 6, 0x12, 0, 0, 0, 36, 0]);
    want.resize(31, 0);
    assert_eq!(io.writes, vec![want]);
}

#[test]
fn data_out_is_sent_once_and_in_chunks() {
    let blocks: u16 = 5000;
    let length = usize::from(blocks) * 512;
    let payload: Vec<u8> = (0..length).map(|n| (n % 249) as u8).collect();
    let mut d = fake(vec![status(1, 0, 0)], false);
    drive(&mut d, |s| s.write_blocks(3, blocks, 512, &payload)).unwrap();
    assert!(d.is_usable());
    let io = d.into_inner();
    assert_eq!(&io.writes[0][15..25], &[0x2a, 0, 0, 0, 0, 3, 0, 0x13, 0x88, 0]);
    assert_eq!(io.writes.len(), 1 + length.div_ceil(CHUNK_BYTES));
    let sent: Vec<u8> = io.writes[1..].concat();
    assert_eq!(sent, payload);
    assert!(io.writes[1..].iter().all(|w| w.len() <= CHUNK_BYTES));
}

#[test]
fn data_in_is_collected_from_partial_reads() {
    let mut d = fake(vec![vec![1; 500], vec![2; 12], status(1, 0, 0)], false);
    let mut want = vec![1; 500];
    want.extend_from_slice(&[2; 12]);
    assert_eq!(
        data(drive(&mut d, |s| s.read_blocks(0, 1, 512))).unwrap(),
        want
    );
    for reads in [
        vec![vec![], status(1, 0, 0)],
        vec![vec![0; 513], status(1, 0, 0)],
    ] {
        let mut d = fake(reads, false);
        assert!(matches!(
            drive(&mut d, |s| s.read_blocks(0, 1, 512)),
            Err(Error::Protocol("short or oversized data stage"))
        ));
        assert!(!d.is_usable());
    }
}

#[test]
fn command_errors_name_what_went_wrong() {
    let why = |reads: Vec<Vec<u8>>, short: bool| {
        let mut d = fake(reads, short);
        match drive(&mut d, |s| s.flush()) {
            Err(Error::Protocol(why)) => why,
            _ => panic!("expected a protocol error"),
        }
    };
    assert_eq!(why(vec![], true), "short CBW");
    assert_eq!(
        why(vec![status(2, 0, 0)], false),
        "invalid CSW length, signature or tag"
    );
    assert_eq!(why(vec![status(1, 1, 0)], false), "invalid CSW residue");
    assert_eq!(
        why(vec![status(1, 0, 3)], false),
        "CSW phase error or incomplete transfer"
    );
    let mut d = fake(vec![], false);
    assert!(matches!(
        d.write_blocks(0, 1, 512, &[0; 511]),
        Err(Error::Protocol("write length differs from sector count"))
    ));
    assert!(d.is_usable());
    // A completion of the other kind is not taken for the outstanding one.
    let exchange = d.flush().unwrap();
    assert!(!d.is_usable());
    assert!(matches!(
        d.resume(exchange, Completion::Received(Ok(vec![0; 13]))),
        Progress::Done(Err(Error::Protocol(
            "completion does not match its transfer"
        )))
    ));
    // A short write of data, as opposed to one of the wrapper.
    let mut d = fake(vec![], false);
    let exchange = d.write_blocks(0, 1, 512, &[0; 512]).unwrap();
    let Progress::More(exchange) = d.resume(exchange, Completion::Written(Ok(31))) else {
        panic!("the wrapper went out");
    };
    assert!(matches!(
        d.resume(exchange, Completion::Written(Ok(511))),
        Progress::Done(Err(Error::Protocol("short data write")))
    ));
}

#[test]
fn dropped_exchange_leaves_the_session_retired() {
    let mut d = fake(vec![], false);
    drop(d.flush().unwrap());
    assert!(!d.is_usable());
    assert!(matches!(d.inquiry(), Err(Error::Retired)));
}

#[test]
fn an_exchange_of_another_session_is_refused() {
    let foreign = |p: Progress| {
        matches!(
            p,
            Progress::Done(Err(Error::Protocol("exchange is not the one in flight")))
        )
    };
    // A session with nothing in flight keeps its state.
    let mut d = fake(vec![], false);
    let other = fake(vec![], false).flush().unwrap();
    assert!(foreign(d.resume(other, Completion::Written(Ok(31)))));
    assert!(d.is_usable());
    // One with an exchange in flight goes on with that one alone.
    let mut ahead = fake(vec![status(1, 0, 0)], false);
    drive(&mut ahead, |s| s.flush()).unwrap();
    let other = ahead.flush().unwrap();
    let own = d.flush().unwrap();
    assert_ne!(own.tag(), other.tag());
    assert!(foreign(d.resume(other, Completion::Written(Ok(31)))));
    assert!(!d.is_usable());
    let Progress::More(own) = d.resume(own, Completion::Written(Ok(31))) else {
        panic!("the wrapper went out");
    };
    assert!(matches!(
        d.resume(own, Completion::Received(Ok(status(1, 0, 0)))),
        Progress::Done(Ok(Response::Done))
    ));
    assert!(d.is_usable());
}

fn medium(blocks: u64, block_size: u32) -> Geometry {
    Geometry { blocks, block_size }
}

#[test]
fn samples_are_bounded() {
    assert_eq!(sample(medium(1000, 512)), Ok(8));
    assert_eq!(sample(medium(3, 512)), Ok(3));
    assert_eq!(sample(medium(1, 4096)), Ok(1));
    assert_eq!(sample(medium(u64::MAX, 1)), Ok(4096));
    for refused in [medium(0, 512), medium(9, 8192)] {
        assert_eq!(
            sample(refused),
            Err("sector geometry exceeds bounded sample")
        );
    }
}

#[test]
fn inquiries_are_told_in_trimmed_text() {
    let mut reply = vec![0xa5, 0x80, 4, 2, 31, 0, 0, 0];
    reply.extend_from_slice(b"  CANOE ");
    reply.extend_from_slice(b"Managed \xff export");
    reply.extend_from_slice(b"0.1\0");
    let facts = inquiry_facts(&reply);
    assert_eq!((facts.peripheral_type, facts.removable), (5, true));
    assert_eq!(facts.vendor, "CANOE");
    assert_eq!(facts.product, "Managed \u{fffd} export");
    assert_eq!(facts.revision, "0.1\0");
    let facts = inquiry_facts(&vec![0x20; 36]);
    assert_eq!((facts.peripheral_type, facts.removable), (0, false));
    assert_eq!(facts.vendor, "");
}

#[test]
fn samples_are_told_by_their_digest() {
    assert_eq!(
        sample_digest(&b"hello world".to_vec()),
        "b94d27b9934d3e08a52e52d7da7dabfac484efe37a5380ee9088f7ace2efcde9"
    );
    assert_eq!(
        sample_digest(&vec![]),
        "e3b0c44298fc1c149afbf4c8996fb92427ae41e4649b934ca495991b7852b855"
    );
    assert_eq!(to_hex_text(&vec![0, 0x0f, 0xa0, 0xff]), "000fa0ff");
}

#[test]
fn qualification_runs_each_command_once_and_writes_nothing() {
    let mut size = 99u32.to_be_bytes().to_vec();
    size.extend_from_slice(&512u32.to_be_bytes());
    let mut d = fake(
        vec![
            vec![0; 36],
            status(1, 0, 0),
            status(2, 0, 0),
            size,
            status(3, 0, 0),
            vec![7; 4096],
            status(4, 0, 0),
            status(5, 0, 0),
            status(6, 0, 0),
        ],
        false,
    );
    let mut stage = Stage::Inquiry;
    loop {
        let response = drive(&mut d, |s| open(s, stage)).unwrap();
        match after(stage, &response) {
            Next::Run(next) => stage = next,
            Next::Passed => break,
            Next::Refused(why) => panic!("{why}"),
        }
    }
    assert!(!d.is_usable());
    let io = d.into_inner();
    assert!(io.writes.iter().all(|w| w.len() == 31 && w.starts_with(b"USBC")));
    assert_eq!(&io.writes[0][15..], &[0x12, 0, 0, 0, 36, 0, 0, 0, 0, 0, 0, 0, 0, 0, 0, 0]);
    let operations: Vec<u8> = io.writes.iter().map(|w| w[15]).collect();
    assert_eq!(operations, vec![0x12, 0x00, 0x25, 0x28, 0x35, 0x1b]);
    assert_eq!(&io.writes[3][17..24], &[0, 0, 0, 0, 0, 0, 8]);
    assert_eq!(
        after(Stage::Capacity, &Response::Capacity(medium(9, 8192))),
        Next::Refused("sector geometry exceeds bounded sample")
    );
    assert_eq!(
        after(Stage::Capacity, &Response::Done),
        Next::Refused("unsupported capacity or sector size")
    );
}

#[test]
fn tags_count_up() {
    let mut d = fake(vec![status(1, 0, 0), status(2, 0, 0)], false);
    drive(&mut d, |s| s.flush()).unwrap();
    drive(&mut d, |s| s.test_unit_ready()).unwrap();
    let io = d.into_inner();
    assert_eq!(&io.writes[0][4..8], &[1, 0, 0, 0]);
    assert_eq!(&io.writes[1][4..8], &[2, 0, 0, 0]);
}

#[test]
fn capacity_replies_are_read_and_bounded() {
    let reply = |last: u32, size: u32| {
        let mut b = last.to_be_bytes().to_vec();
        b.extend_from_slice(&size.to_be_bytes());
        b
    };
    let mut d = fake(vec![reply(0x0102_0304, 4096), status(1, 0, 0)], false);
    let g = capacity(drive(&mut d, |s| s.geometry())).unwrap();
    assert_eq!((g.blocks, g.block_size), (0x0102_0305, 4096));
    for bad in [reply(u32::MAX, 512), reply(7, 0), reply(7, 513)] {
        let mut d = fake(vec![bad, status(1, 0, 0)], false);
        assert!(matches!(
            capacity(drive(&mut d, |s| s.geometry())),
            Err(Error::Protocol("unsupported capacity or sector size"))
        ));
        assert!(d.is_usable());
    }
}

#[test]
fn block_commands_encode_their_range() {
    let (cdb, length) = block_command(0x28, 0x0102_0304, 0x0506, 512).unwrap();
    assert_eq!(cdb, [0x28, 0, 1, 2, 3, 4, 0, 5, 6, 0]);
    assert_eq!(length, 0x0506 * 512);
    assert!(block_command(0x28, u32::MAX, 1, 512).is_ok());
    assert!(matches!(
        block_command(0x28, 0, 1, 768),
        Err(Error::Protocol("invalid block range"))
    ));
    assert!(block_command(0x28, 0, 1, 0).is_err());
}

/// Answers TEST UNIT READY and REQUEST SENSE from a script of statuses.
struct Unit {
    ready: VecDeque<u8>,
    sense: Vec<u8>,
    commands: Rc<RefCell<Vec<u8>>>,
    reads: VecDeque<Vec<u8>>,
}

impl BulkIo for Unit {}

impl Wire for Unit {
    fn write(&mut self, data: &[u8]) -> Result<usize, Error> {
        let tag = u32::from_le_bytes(data[4..8].try_into().unwrap());
        self.commands.borrow_mut().push(data[15]);
        match data[15] {
            0 => {
                let s = self.ready.pop_front().unwrap();
                self.reads.push_back(status(tag, 0, s));
            }
            3 => {
                self.reads.push_back(self.sense.clone());
                self.reads.push_back(status(tag, 0, 0));
            }
            _ => panic!("unexpected SCSI command"),
        }
        Ok(data.len())
    }
    fn read(&mut self, _: usize) -> Result<Vec<u8>, Error> {
        self.reads.pop_front().ok_or(Error::CommandFailed)
    }
}

fn ready(statuses: Vec<u8>, sense: Vec<u8>) -> (Result<(), Error>, Vec<u8>, bool) {
    let commands = Rc::new(RefCell::new(Vec::new()));
    let mut scsi = Scsi::new(
        Unit {
            ready: VecDeque::from(statuses),
            sense,
            commands: commands.clone(),
            reads: VecDeque::new(),
        },
        0,
    )
    .unwrap();
    let mut step = scsi.initialize_ready();
    let r = loop {
        match step {
            ReadyStep::More(run) => {
                let completion = perform(scsi.io_mut(), run.transfer());
                step = scsi.resume_ready(run, completion);
            }
            ReadyStep::Done(r) => break r,
        }
    };
    let seen = commands.borrow().clone();
    (r, seen, scsi.is_usable())
}

#[test]
fn unit_attention_after_reset_is_consumed_once() {
    let reset = [
        0x70, 0, 6, 0, 0, 0, 0, 0x0a, 0, 0, 0, 0, 0x29, 0, 0, 0, 0, 0,
    ]
    .to_vec();
    let (r, seen, usable) = ready(vec![1, 0], reset.clone());
    assert!(r.is_ok() && usable);
    assert_eq!(seen, vec![0, 3, 0]);

    let mut changed = reset.clone();
    changed[12] = 0x28;
    assert!(ready(vec![1, 0], changed).0.is_ok());

    let (r, seen, usable) = ready(vec![1, 1], reset.clone());
    assert!(matches!(r, Err(Error::CommandFailed)) && usable);
    assert_eq!(seen, vec![0, 3, 0]);

    // Deferred, of another key, or for another reason.
    for (at, value) in [(0, 0x71), (2, 2), (12, 0x2a)] {
        let mut sense = reset.clone();
        sense[at] = value;
        let (r, seen, _) = ready(vec![1, 0], sense);
        assert!(matches!(r, Err(Error::CommandFailed)));
        assert_eq!(seen, vec![0, 3]);
    }

    let (r, seen, _) = ready(vec![0], reset.clone());
    assert!(r.is_ok());
    assert_eq!(seen, vec![0]);

    let (r, seen, usable) = ready(vec![2], reset);
    assert!(r.is_err() && !usable);
    assert_eq!(seen, vec![0]);
}

#[test]
fn ranges_are_mapped_to_whole_blocks() {
    let session = connect(Scsi::new(disk(false), 0).unwrap(), Access::ReadOnly).unwrap();
    assert_eq!(session.size_bytes(), 4096);
    assert_eq!(session.access(), Access::ReadOnly);
    assert_eq!(session.geometry().blocks, 8);
    assert_eq!(session.span(507, 20).unwrap(), (0, 2, 507));
    assert_eq!(session.span(512, 512).unwrap(), (1, 1, 0));
    assert_eq!(session.span(4095, 1).unwrap(), (7, 1, 511));
    assert!(matches!(
        session.span(0, MAX_RANGE_BYTES + 1),
        Err(Error::Protocol("range length must be 1 byte through 4 MiB"))
    ));
    assert!(matches!(
        session.span(4095, 2),
        Err(Error::Protocol("range lies outside managed storage"))
    ));
}

#[test]
fn aligned_writes_read_nothing_first() {
    let disk = disk(false);
    let bytes = disk.bytes.clone();
    let commands = disk.commands.clone();
    let mut session = connect(Scsi::new(disk, 0).unwrap(), Access::ReadWrite).unwrap();
    let baseline = commands.borrow().len();
    write_range(&mut session, 1024, &[9; 1024]).unwrap();
    assert_eq!(&commands.borrow()[baseline..], &[0x2a]);
    assert_eq!(&bytes.borrow()[1024..2048], &[9; 1024]);
    let step = session.eject();
    drive_range(&mut session, step).unwrap();
    assert!(!session.is_usable());
    assert!(matches!(
        read_range(&mut session, 0, 1),
        Err(Error::Retired)
    ));
}

fn storage_setting() -> AlternateSetting {
    AlternateSetting {
        alternate: 1,
        class: 0xff,
        subclass: 6,
        protocol: 0x50,
        endpoints: vec![
            EndpointInfo {
                address: 0x83,
                bulk: false,
                max_packet_size: 8,
            },
            EndpointInfo {
                address: 0x02,
                bulk: true,
                max_packet_size: 64,
            },
            EndpointInfo {
                address: 0x81,
                bulk: true,
                max_packet_size: 512,
            },
        ],
    }
}

fn selection_error(r: Result<Endpoints, Error>) -> &'static str {
    match r {
        Err(Error::Protocol(why)) => why,
        _ => panic!("expected a refusal"),
    }
}

#[test]
fn only_the_active_storage_setting_is_used() {
    let first = AlternateSetting {
        alternate: 0,
        ..storage_setting()
    };
    let settings = vec![first, storage_setting()];
    assert_eq!(
        from_interface(1, 1, &settings).unwrap(),
        Endpoints {
            input: 0x81,
            output: 0x02,
            input_packet_size: 512
        }
    );
    assert_eq!(
        selection_error(from_interface(0, 1, &settings)),
        "selected alternate setting is not active"
    );
    assert_eq!(
        selection_error(from_interface(2, 2, &settings)),
        "selected alternate setting is missing"
    );
    for (class, subclass, protocol) in [(8, 6, 0x50), (0xff, 5, 0x50), (0xff, 6, 0x62)] {
        let other = AlternateSetting {
            class,
            subclass,
            protocol,
            ..storage_setting()
        };
        assert_eq!(
            selection_error(from_interface(1, 1, &vec![other])),
            "managed storage requires ff/06/50"
        );
    }
    let mut no_input = storage_setting();
    no_input.endpoints.truncate(2);
    assert_eq!(
        selection_error(from_interface(1, 1, &vec![no_input])),
        "bulk IN endpoint missing"
    );
    let mut no_output = storage_setting();
    no_output.endpoints.remove(1);
    assert_eq!(
        selection_error(from_interface(1, 1, &vec![no_output])),
        "bulk OUT endpoint missing"
    );
}

#[test]
fn reads_are_padded_to_whole_packets() {
    assert_eq!(padded_length(13, 512), 512);
    assert_eq!(padded_length(512, 512), 512);
    assert_eq!(padded_length(513, 512), 1024);
    assert_eq!(padded_length(0, 64), 0);
}

#[test]
fn connections_need_the_active_interface() {
    let configuration = Some(vec![
        ActiveInterface {
            number: 0,
            alternate: 0,
        },
        ActiveInterface {
            number: 3,
            alternate: 2,
        },
    ]);
    assert!(connect_check(&configuration, 3, 2).is_ok());
    assert!(matches!(
        connect_check(&None, 3, 2),
        Err(Error::Protocol("no active USB configuration"))
    ));
    assert!(matches!(
        connect_check(&configuration, 1, 0),
        Err(Error::Protocol("selected USB interface is missing"))
    ));
    assert!(matches!(
        connect_check(&configuration, 3, 0),
        Err(Error::Protocol("selected alternate setting is not active"))
    ));
}

#[test]
fn a_failed_close_never_reads_as_good() {
    assert!(close_outcome(release_outcome(Some(Ok(()))), Some(true)).is_ok());
    assert!(matches!(
        close_outcome(
            release_outcome(Some(Err(Error::CommandFailed))),
            Some(true)
        ),
        Err(Error::CommandFailed)
    ));
    assert!(matches!(
        release_outcome(None),
        Err(Error::Protocol("WebUSB interface release timed out"))
    ));
    assert!(matches!(
        close_outcome(Ok(()), Some(false)),
        Err(Error::Protocol("WebUSB device close failed"))
    ));
    assert!(matches!(
        close_outcome(Ok(()), None),
        Err(Error::Protocol("WebUSB device close timed out"))
    ));
}

#[test]
fn the_first_failure_survives_its_cleanup() {
    assert_eq!(connection_outcome(Ok(7), Ok(())).unwrap(), 7);
    let failure = connection_outcome::<u8>(
        Err(Error::InitializationTimeout),
        Err(Error::Protocol("WebUSB device close failed")),
    )
    .unwrap_err();
    assert!(matches!(failure.original, Error::InitializationTimeout));
    assert!(matches!(
        failure.cleanup,
        Some(Error::Protocol("WebUSB device close failed"))
    ));
    let failure =
        connection_outcome::<u8>(Err(Error::Open("busy".to_string())), Ok(())).unwrap_err();
    assert!(matches!(failure.original, Error::Open(why) if why == "busy"));
    assert!(failure.cleanup.is_none());
}
