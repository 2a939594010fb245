use canoe_storage::error::Error;
use canoe_storage::exchange::{Completion, Response, Transfer};
use canoe_storage::fastboot::{
    after_flash_call, digest_of, first_flash_call, hash_command, hash_digest, report_failure,
    to_hex, FastbootSession, FlashCall, FlashStep, Outcome, Settled,
};
use canoe_storage::managed::{
    access_mode, eject_report, open_report, opened, uncertain_report, Connected, Failure,
    ManagedStorageSession, Report, Verdict,
};
use canoe_storage::range::{Access, ConnectStep, RangeSession, RangeStep, MAX_RANGE_BYTES};
use canoe_storage::scsi::Scsi;

#[test]
fn fastboot_clients_come_back_only_with_intact_framing() {
    let mut s = FastbootSession::new("client");
    let c = s.take().unwrap();
    assert!(!s.usable());
    assert_eq!(
        s.take().unwrap_err(),
        "session is closed or uncertain; reconnect"
    );
    assert!(matches!(
        s.finish(c, Outcome::Finished(3)),
        Settled::Report(Ok(3))
    ));
    assert!(s.usable());
    let c = s.take().unwrap();
    assert!(matches!(
        s.finish::<u8>(c, Outcome::Refused("no".to_string())),
        Settled::Report(Err(e)) if e == "no"
    ));
    assert!(s.usable());
    let c = s.take().unwrap();
    assert!(matches!(
        s.finish::<u8>(c, Outcome::Broken("usb".to_string())),
        Settled::CloseFirst(e) if e == "usb"
    ));
    assert!(!s.usable());
    let mut s = FastbootSession::new("client");
    let c = s.take().unwrap();
    assert!(matches!(
        s.finish::<u8>(c, Outcome::TimedOut),
        Settled::CloseFirst(e) if e == "USB operation timed out; reconnect"
    ));
    assert!(!s.usable());
    assert!(FastbootSession::new(1).close().is_some());
}

#[test]
fn flashes_go_one_way() {
    let mut s = FastbootSession::new("client");
    assert_eq!(s.begin_flash(0).unwrap_err(), "empty image");
    assert!(s.usable());
    assert_eq!(
        s.begin_flash(1 << 33).unwrap_err(),
        u32::try_from(1u64 << 33).unwrap_err().to_string()
    );
    assert_eq!(s.begin_flash(9).unwrap(), ("client", 9));
    assert!(!s.usable());
    let first = first_flash_call(9, b"the image");
    let mut order = vec![first];
    loop {
        match after_flash_call(*order.last().unwrap(), "boot_a", Ok(())) {
            FlashStep::Call(next) => order.push(next),
            FlashStep::Over(Outcome::Finished(())) => break,
            FlashStep::Over(_) => panic!("failed"),
        }
    }
    assert!(matches!(
        order[..],
        [
            FlashCall::Download { size: 9, image: b"the image" },
            FlashCall::Flash { partition: "boot_a" },
        ]
    ));
    for call in order {
        assert!(matches!(
            after_flash_call(call, "boot_a", Err("lost".to_string())),
            FlashStep::Over(Outcome::Broken(e)) if e == "lost"
        ));
    }
    assert!(matches!(
        s.finish_flash("client", Outcome::Refused("no".to_string())),
        Settled::CloseFirst(e) if e == "no"
    ));
    assert!(!s.usable());
    assert!(matches!(
        s.finish_flash("client", Outcome::Finished(())),
        Settled::Report(Ok(()))
    ));
    assert!(s.usable());
}

#[test]
fn hash_commands_are_in_hexadecimal() {
    for n in [0, 9, 10, 15, 16, 255, 0x1234_5678_9abc_def0, u64::MAX] {
        assert_eq!(to_hex(n), format!("{n:x}"));
    }
    assert_eq!(
        hash_command("sha256-range-v1", "boot_a", 4096, 1 << 40).unwrap(),
        "hash:boot_a:1000:10000000000"
    );
    assert_eq!(
        hash_command("sha256-range-v2", "boot_a", 0, 1).unwrap_err(),
        "partition hash is not supported"
    );
    for (partition, offset, length) in
        [("a:b", 0, 1), ("a", 0, 0), ("a", u64::MAX, 1), ("a", 1, u64::MAX)]
    {
        assert_eq!(
            hash_command("sha256-range-v1", partition, offset, length).unwrap_err(),
            "invalid hash range"
        );
    }
}

#[test]
fn digests_are_read_from_base64() {
    let reply = "ungWv48Bz-pBQUDeXa4iI7ADYaOWF3qctBD_YfIAFa0";
    assert_eq!(reply.len(), 43);
    assert_eq!(
        hash_digest(reply).unwrap(),
        vec![
            0xba, 0x78, 0x16, 0xbf, 0x8f, 0x01, 0xcf, 0xea, 0x41, 0x41, 0x40, 0xde, 0x5d, 0xae,
            0x22, 0x23, 0xb0, 0x03, 0x61, 0xa3, 0x96, 0x17, 0x7a, 0x9c, 0xb4, 0x10, 0xff, 0x61,
            0xf2, 0x00, 0x15, 0xad
        ]
    );
    for (bad, why) in [
        ("", "invalid SHA-256 reply length"),
        ("AAAA", "invalid SHA-256 reply length"),
        ("A", "Invalid input length: 1"),
        ("AB", "Invalid last symbol 66, offset 1."),
        ("A+AA", "Invalid symbol 43, offset 1."),
        ("AA==", "Invalid padding"),
    ] {
        assert_eq!(hash_digest(bad).unwrap_err(), why, "{bad}");
    }
    assert_eq!(digest_of(Ok(vec![7; 32])).unwrap(), vec![7; 32]);
    assert!(digest_of(Ok(vec![7; 31])).is_err());
    assert_eq!(digest_of(Err("no".to_string())).unwrap_err(), "no");
}

#[test]
fn failed_initialization_keeps_its_first_failure() {
    assert_eq!(
        report_failure("no interface".to_string(), None),
        "no interface"
    );
    assert_eq!(
        report_failure("no interface".to_string(), Some("still busy".to_string())),
        "no interface; cleanup failed: still busy"
    );
    assert_eq!(open_report("gone".to_string(), None), "gone");
    assert_eq!(
        open_report("gone".to_string(), Some("still busy".to_string())),
        "gone; cleanup failed: USB close failed after managed initialization: still busy"
    );
    assert!(matches!(
        opened::<()>(Access::ReadOnly, Some(Err("gone".to_string()))),
        Err(e) if e == "gone"
    ));
    assert!(matches!(
        opened::<()>(Access::ReadOnly, None),
        Err(e) if e == "managed USB initialization timed out; reconnect"
    ));
}

#[test]
fn access_modes_have_two_names() {
    assert_eq!(access_mode("read-only").unwrap(), Access::ReadOnly);
    assert_eq!(access_mode("read-write").unwrap(), Access::ReadWrite);
    assert_eq!(
        access_mode("rw").unwrap_err(),
        "access must be read-only or read-write"
    );
}

fn status(tag: u32, status: u8) -> Vec<u8> {
    let mut b = b"USBS".to_vec();
    b.extend_from_slice(&tag.to_le_bytes());
    b.extend_from_slice(&[0; 4]);
    b.push(status);
    b
}

/// A range session over a medium of eight blocks of 512 bytes.
fn range_session(access: Access) -> RangeSession<()> {
    let mut capacity = 7u32.to_be_bytes().to_vec();
    capacity.extend_from_slice(&512u32.to_be_bytes());
    let mut reads = vec![status(2, 0), capacity, status(1, 0)];
    let mut step = RangeSession::connect(Scsi::select((), 0, 0).unwrap(), access);
    loop {
        match step {
            ConnectStep::More(run) => {
                let completion = match run.transfer() {
                    Transfer::Write(b) => Completion::Written(Ok(b.len())),
                    Transfer::Read(_) => Completion::Received(Ok(reads.pop().unwrap())),
                };
                step = run.resume(completion);
            }
            ConnectStep::Done(r) => return r.unwrap(),
        }
    }
}

fn managed(access: Access) -> ManagedStorageSession<()> {
    opened(
        access,
        Some(Ok(Connected {
            client: range_session(access),
            interface: 3,
            alternate: 1,
            max_lun: 2,
        })),
    )
    .unwrap()
}

#[test]
fn managed_sessions_tell_what_they_are() {
    let s = managed(Access::ReadWrite);
    assert!(s.usable());
    assert_eq!(s.access(), "read-write");
    let i = s.identity(0x1209, 0xca0f);
    assert_eq!((i.vendor_id, i.product_id), (0x1209, 0xca0f));
    assert_eq!((i.interface, i.alternate, i.maximum_lun), (3, 1, 2));
    assert_eq!(
        (i.interface_class, i.interface_subclass, i.interface_protocol),
        (255, 6, 80)
    );
    assert_eq!((i.selected_lun, i.transport), (0, "usb-bot-scsi"));
    assert_eq!(i.max_range_bytes, 4 * 1024 * 1024);
    let c = s.capacity().unwrap();
    assert_eq!((c.blocks, c.block_size, c.bytes), (8, 512, 4096));
    assert_eq!(s.check_write(1), Ok(()));
    assert_eq!(
        s.check_write(0),
        Err("range length must be 1 byte through 4 MiB")
    );
    assert_eq!(
        s.check_write(MAX_RANGE_BYTES + 1),
        Err("range length must be 1 byte through 4 MiB")
    );
    let s = managed(Access::ReadOnly);
    assert_eq!(s.access(), "read-only");
    assert_eq!(
        s.check_write(1),
        Err("managed storage was opened read-only")
    );
}

#[test]
fn managed_sessions_outlive_refusals_only() {
    let mut s = managed(Access::ReadOnly);
    let mut client = s.take().unwrap();
    assert!(!s.usable());
    assert!(matches!(
        s.take(),
        Err(e) if e == "managed session is closed or uncertain; reconnect"
    ));
    assert!(matches!(
        s.capacity(),
        Err(e) if e == "managed session is closed"
    ));
    // Refused before any transfer.
    let RangeStep::Done(refused) = client.read_range(4096, 1) else {
        panic!("expected a refusal");
    };
    assert!(matches!(
        s.finish(client, Some(refused)),
        Verdict::Report(Err(Error::Protocol(_)))
    ));
    assert!(s.usable());
    let client = s.take().unwrap();
    assert!(matches!(
        s.finish(client, Some(Ok(Response::Done))),
        Verdict::Report(Ok(Response::Done))
    ));
    // Broken off in the middle.
    let mut client = s.take().unwrap();
    let RangeStep::More(_) = client.sync() else {
        panic!("expected a command");
    };
    assert!(matches!(
        s.finish(client, Some(Err(Error::Retired))),
        Verdict::CloseFirst(Failure::Failed(Error::Retired))
    ));
    assert!(!s.usable());
    let mut s = managed(Access::ReadOnly);
    let client = s.take().unwrap();
    assert!(matches!(
        s.finish(client, None),
        Verdict::CloseFirst(Failure::TimedOut)
    ));
    assert!(!s.usable() && s.close().is_none());
}

#[test]
fn reports_follow_the_close() {
    assert!(matches!(
        uncertain_report(Failure::Failed(Error::CommandFailed), true),
        Report::Failed(Error::CommandFailed)
    ));
    assert!(matches!(
        uncertain_report(Failure::TimedOut, true),
        Report::Said("managed USB operation timed out; reconnect")
    ));
    assert!(matches!(
        uncertain_report(Failure::TimedOut, false),
        Report::Said("managed USB close failed after uncertain operation")
    ));
    assert!(eject_report(Some(Ok(Response::Done)), true).is_ok());
    assert!(matches!(
        eject_report(Some(Ok(Response::Done)), false),
        Err(Report::Said("managed USB close failed after eject"))
    ));
    assert!(matches!(
        eject_report(Some(Err(Error::Retired)), true),
        Err(Report::Failed(Error::Retired))
    ));
    assert!(matches!(
        eject_report(None, true),
        Err(Report::Said("managed eject timed out; reconnect"))
    ));
}
