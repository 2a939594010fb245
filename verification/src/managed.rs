//! A managed storage session: a range session that is taken for each operation
//! and given up as soon as its transport is uncertain.

use vstd::prelude::*;

use crate::error::Error;
use crate::exchange::Response;
use crate::fastboot;
use crate::range;
use crate::range::Access;
use crate::range::RangeSession;
use crate::range::RangeSessionModel;
use crate::range::MAX_RANGE_BYTES;
use crate::text;

verus! {

/// How long connecting may take as a whole, in milliseconds.
pub const OPEN_MILLISECONDS: u32 = 20_000;

/// How long a read may take, in milliseconds.
pub const READ_MILLISECONDS: u32 = 60_000;

/// How long a write may take, in milliseconds.
pub const WRITE_MILLISECONDS: u32 = 120_000;

/// How long a sync or an eject may take, in milliseconds.
pub const SYNC_MILLISECONDS: u32 = 30_000;

/// What an access mode is called.
pub open spec fn access_name(access: Access) -> Seq<char> {
    match access {
        Access::ReadOnly => "read-only"@,
        Access::ReadWrite => "read-write"@,
    }
}

/// The access mode that a name stands for, if any.
pub open spec fn access_named(name: Seq<char>) -> Option<Access> {
    if name == "read-only"@ {
        Some(Access::ReadOnly)
    } else if name == "read-write"@ {
        Some(Access::ReadWrite)
    } else {
        None
    }
}

/// Reads an access mode.
pub fn access_mode(value: &str) -> (r: Result<Access, String>)
    ensures
        match access_named(value@) {
            Some(access) => r == Ok::<Access, String>(access),
            None => r matches Err(e) && e@ == "access must be read-only or read-write"@,
        },
{
    if text::same(value, "read-only") {
        Ok(Access::ReadOnly)
    } else if text::same(value, "read-write") {
        Ok(Access::ReadWrite)
    } else {
        Err("access must be read-only or read-write".to_owned())
    }
}

/// Facts about the connection. They do not say whose device it is, nor what is
/// on it.
#[derive(Clone, Copy, Debug)]
pub struct Identity {
    pub vendor_id: u16,
    pub product_id: u16,
    pub interface: u8,
    pub alternate: u8,
    pub interface_class: u8,
    pub interface_subclass: u8,
    pub interface_protocol: u8,
    pub maximum_lun: u8,
    pub selected_lun: u8,
    pub access: Access,
    pub transport: &'static str,
    pub max_range_bytes: usize,
}

/// The size of the medium. Every field is exact in any number format.
#[derive(Clone, Copy, Debug, PartialEq, Eq, Structural)]
pub struct Capacity {
    pub blocks: u64,
    pub block_size: u32,
    pub bytes: u64,
}

/// A managed session, as mathematics.
pub struct ManagedModel<T> {
    pub client: Option<RangeSessionModel<T>>,
    pub interface: u8,
    pub alternate: u8,
    pub max_lun: u8,
    pub access: Access,
}

/// What is to be done about an operation that has ended.
pub enum Verdict {
    /// Report this.
    Report(Result<Response, Error>),
    /// Close the device, then report this.
    CloseFirst(Failure),
}

/// An operation that left the transport uncertain.
pub enum Failure {
    Failed(Error),
    TimedOut,
}

/// What is reported in the end.
pub enum Report {
    Failed(Error),
    Said(&'static str),
}

/// A managed storage session.
pub struct ManagedStorageSession<T> {
    client: Option<RangeSession<T>>,
    interface: u8,
    alternate: u8,
    max_lun: u8,
    access: Access,
}

impl<T> View for ManagedStorageSession<T> {
    type V = ManagedModel<T>;

    closed spec fn view(&self) -> ManagedModel<T> {
        ManagedModel {
            client: match self.client {
                Some(c) => Some(c@),
                None => None,
            },
            interface: self.interface,
            alternate: self.alternate,
            max_lun: self.max_lun,
            access: self.access,
        }
    }
}

/// A connection that was made: the session, its interface and setting, and the
/// highest unit of the device.
pub struct Connected<T> {
    pub client: RangeSession<T>,
    pub interface: u8,
    pub alternate: u8,
    pub max_lun: u8,
}

/// What a connection attempt amounts to: a session, or a failure after which the
/// device is to be closed. `None` is an attempt that was not over in time.
pub fn opened<T>(access: Access, attempt: Option<Result<Connected<T>, String>>) -> (r: Result<
    ManagedStorageSession<T>,
    String,
>)
    ensures
        match attempt {
            Some(Ok(c)) => r matches Ok(s) && s@ == (ManagedModel {
                client: Some(c.client@),
                interface: c.interface,
                alternate: c.alternate,
                max_lun: c.max_lun,
                access,
            }),
            Some(Err(e)) => r == Err::<ManagedStorageSession<T>, String>(e),
            None => r matches Err(e) && e@ == "managed USB initialization timed out; reconnect"@,
        },
{
    match attempt {
        Some(Ok(c)) => Ok(
            ManagedStorageSession {
                client: Some(c.client),
                interface: c.interface,
                alternate: c.alternate,
                max_lun: c.max_lun,
                access,
            },
        ),
        Some(Err(e)) => Err(e),
        None => Err("managed USB initialization timed out; reconnect".to_owned()),
    }
}

/// What is said of a device that could not be closed after an attempt that failed.
pub open spec fn close_failure(detail: Seq<char>) -> Seq<char> {
    "USB close failed after managed initialization: "@ + detail
}

/// What is reported of a connection attempt that failed, once its device was
/// closed, or could not be: then with what was said of that.
pub fn open_report(failure: String, cleanup: Option<String>) -> (report: String)
    ensures
        report@ == fastboot::failure_report(
            failure@,
            match cleanup {
                None => None,
                Some(detail) => Some(close_failure(detail@)),
            },
        ),
{
    match cleanup {
        None => fastboot::report_failure(failure, None),
        Some(detail) => fastboot::report_failure(
            failure,
            Some(
                "USB close failed after managed initialization: ".to_owned().concat(
                    detail.as_str(),
                ),
            ),
        ),
    }
}

impl<T> ManagedStorageSession<T> {
    /// Whether the session takes operations.
    pub fn usable(&self) -> (usable: bool)
        ensures
            usable == (self@.client matches Some(c) && c.scsi.usable),
    {
        match &self.client {
            Some(c) => c.is_usable(),
            None => false,
        }
    }

    /// What the session is for.
    pub fn access(&self) -> (name: String)
        ensures
            name@ == access_name(self@.access),
    {
        match self.access {
            Access::ReadOnly => "read-only".to_owned(),
            Access::ReadWrite => "read-write".to_owned(),
        }
    }

    /// Facts about the connection to this device.
    pub fn identity(&self, vendor_id: u16, product_id: u16) -> (i: Identity)
        ensures
            i == (Identity {
                vendor_id,
                product_id,
                interface: self@.interface,
                alternate: self@.alternate,
                interface_class: 255,
                interface_subclass: 6,
                interface_protocol: 80,
                maximum_lun: self@.max_lun,
                selected_lun: 0,
                access: self@.access,
                transport: "usb-bot-scsi",
                max_range_bytes: 0x40_0000,
            }),
    {
        Identity {
            vendor_id,
            product_id,
            interface: self.interface,
            alternate: self.alternate,
            interface_class: 255,
            interface_subclass: 6,
            interface_protocol: 80,
            maximum_lun: self.max_lun,
            selected_lun: 0,
            access: self.access,
            transport: "usb-bot-scsi",
            max_range_bytes: MAX_RANGE_BYTES,
        }
    }

    /// The size of the medium.
    pub fn capacity(&self) -> (r: Result<Capacity, String>)
        ensures
            match self@.client {
                Some(c) => r == Ok::<Capacity, String>(
                    Capacity {
                        blocks: c.geometry.blocks,
                        block_size: c.geometry.block_size,
                        bytes: range::bytes_of(c.geometry) as u64,
                    },
                ) && r->Ok_0.bytes == c.geometry.blocks * c.geometry.block_size && r->Ok_0.bytes
                    <= 0x1f_ffff_ffff_ffff && r->Ok_0.blocks <= 0x1f_ffff_ffff_ffff,
                None => r matches Err(e) && e@ == "managed session is closed"@,
            },
    {
        match &self.client {
            Some(c) => {
                let geometry = c.geometry();
                proof {
                    range::lemma_supported(geometry);
                }
                Ok(
                    Capacity {
                        blocks: geometry.blocks,
                        block_size: geometry.block_size,
                        bytes: c.size_bytes(),
                    },
                )
            },
            None => Err("managed session is closed".to_owned()),
        }
    }

    /// Accepts a write before its bytes are copied and the session is taken.
    pub fn check_write(&self, length: usize) -> (r: Result<(), &'static str>)
        ensures
            r == if length == 0 || length > 0x40_0000 {
                Err::<(), &'static str>("range length must be 1 byte through 4 MiB")
            } else if self@.access != Access::ReadWrite {
                Err("managed storage was opened read-only")
            } else {
                Ok(())
            },
    {
        if length == 0 || length > MAX_RANGE_BYTES {
            return Err("range length must be 1 byte through 4 MiB");
        }
        if self.access != Access::ReadWrite {
            return Err("managed storage was opened read-only");
        }
        Ok(())
    }

    /// Takes the range session for one operation.
    pub fn take(&mut self) -> (r: Result<RangeSession<T>, String>)
        ensures
            final(self)@ == (ManagedModel { client: None, ..old(self)@ }),
            match old(self)@.client {
                Some(c) => r matches Ok(client) && client@ == c,
                None => r matches Err(e) && e@
                    == "managed session is closed or uncertain; reconnect"@,
            },
    {
        match self.client.take() {
            Some(c) => Ok(c),
            None => Err("managed session is closed or uncertain; reconnect".to_owned()),
        }
    }

    /// Gives the range session up; the device is to be closed.
    pub fn close(&mut self) -> (client: Option<RangeSession<T>>)
        ensures
            final(self)@ == (ManagedModel { client: None, ..old(self)@ }),
            match old(self)@.client {
                Some(c) => client matches Some(d) && d@ == c,
                None => client is None,
            },
    {
        self.client.take()
    }

    /// Settles an operation. The range session comes back after a success, and
    /// after a failure that it outlived: a framed refusal, or one before any
    /// transfer. `None` is an operation that was not over in time.
    pub fn finish(&mut self, client: RangeSession<T>, result: Option<Result<Response, Error>>) -> (v:
        Verdict)
        ensures
            match result {
                Some(Ok(value)) => v == Verdict::Report(Ok(value)) && final(self)@ == (
                ManagedModel { client: Some(client@), ..old(self)@ }),
                Some(Err(e)) => if client@.scsi.usable {
                    v == Verdict::Report(Err(e)) && final(self)@ == (ManagedModel {
                        client: Some(client@),
                        ..old(self)@
                    })
                } else {
                    v == Verdict::CloseFirst(Failure::Failed(e)) && final(self)@ == old(self)@
                },
                None => v == Verdict::CloseFirst(Failure::TimedOut) && final(self)@ == old(self)@,
            },
    {
        match result {
            Some(Ok(value)) => {
                self.client = Some(client);
                Verdict::Report(Ok(value))
            },
            Some(Err(e)) => {
                if client.is_usable() {
                    self.client = Some(client);
                    Verdict::Report(Err(e))
                } else {
                    Verdict::CloseFirst(Failure::Failed(e))
                }
            },
            None => Verdict::CloseFirst(Failure::TimedOut),
        }
    }
}

/// What is reported of an uncertain operation, once its device was closed, or
/// could not be.
pub fn uncertain_report(failure: Failure, closed: bool) -> (r: Report)
    ensures
        r == if !closed {
            Report::Said("managed USB close failed after uncertain operation")
        } else {
            match failure {
                Failure::Failed(e) => Report::Failed(e),
                Failure::TimedOut => Report::Said("managed USB operation timed out; reconnect"),
            }
        },
{
    if !closed {
        return Report::Said("managed USB close failed after uncertain operation");
    }
    match failure {
        Failure::Failed(e) => Report::Failed(e),
        Failure::TimedOut => Report::Said("managed USB operation timed out; reconnect"),
    }
}

/// What is reported of an eject, after which the device is closed in any case.
pub fn eject_report(result: Option<Result<Response, Error>>, closed: bool) -> (r: Result<
    (),
    Report,
>)
    ensures
        r == if !closed {
            Err::<(), Report>(Report::Said("managed USB close failed after eject"))
        } else {
            match result {
                Some(Ok(_)) => Ok(()),
                Some(Err(e)) => Err(Report::Failed(e)),
                None => Err(Report::Said("managed eject timed out; reconnect")),
            }
        },
{
    if !closed {
        return Err(Report::Said("managed USB close failed after eject"));
    }
    match result {
        Some(Ok(_)) => Ok(()),
        Some(Err(e)) => Err(Report::Failed(e)),
        None => Err(Report::Said("managed eject timed out; reconnect")),
    }
}

/// The name that a session gives its access mode by is the one that opens
/// another like it.
pub proof fn law_access_names_read_back(access: Access)
    ensures
        access_named(access_name(access)) == Some(access),
{
    reveal_strlit("read-only");
    reveal_strlit("read-write");
    assert("read-only"@.len() == 9);
    assert("read-write"@.len() == 10);
}

} // verus!
