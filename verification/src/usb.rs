//! What is decided around a USB interface: which one is used, what its control
//! replies mean, and what a connection that failed amounts to.

use vstd::prelude::*;

use crate::error::Error;
use crate::error::TransferError;
use crate::range;

verus! {

/// Whose request a control transfer carries.
#[derive(Clone, Copy, Debug, PartialEq, Eq, Structural)]
pub enum ControlType {
    Standard,
    Class,
    Vendor,
}

/// What a control transfer addresses.
#[derive(Clone, Copy, Debug, PartialEq, Eq, Structural)]
pub enum Recipient {
    Device,
    Interface,
    Endpoint,
    Other,
}

/// A control transfer that reads.
#[derive(Clone, Copy, Debug, PartialEq, Eq, Structural)]
pub struct ControlIn {
    pub control_type: ControlType,
    pub recipient: Recipient,
    pub request: u8,
    pub value: u16,
    pub index: u16,
    pub length: u16,
}

/// The longest that connecting may take, in nanoseconds.
pub const MAX_TIMEOUT_NANOSECONDS: u128 = 60_000_000_000;

/// Accepts a time limit for connecting, given in nanoseconds, or refuses it.
pub fn validate_timeout(nanoseconds: u128) -> (r: Result<(), Error>)
    ensures
        r == if 0 < nanoseconds <= 60_000_000_000 {
            Ok::<(), Error>(())
        } else {
            Err(
                Error::Protocol("initialization timeout must be positive and at most 60 seconds"),
            )
        },
{
    if nanoseconds == 0 || nanoseconds > MAX_TIMEOUT_NANOSECONDS {
        return Err(
            Error::Protocol("initialization timeout must be positive and at most 60 seconds"),
        );
    }
    Ok(())
}

/// GET_MAX_LUN, to one interface.
pub fn get_max_lun_request(interface: u8) -> (request: ControlIn)
    ensures
        request == (ControlIn {
            control_type: ControlType::Class,
            recipient: Recipient::Interface,
            request: 0xfe,
            value: 0,
            index: interface as u16,
            length: 1,
        }),
{
    ControlIn {
        control_type: ControlType::Class,
        recipient: Recipient::Interface,
        request: 0xfe,
        value: 0,
        index: interface as u16,
        length: 1,
    }
}

/// What a reply to GET_MAX_LUN says. A device with one unit may stall it.
pub open spec fn max_lun_of(response: Result<Seq<u8>, TransferError>) -> Result<u8, Error> {
    match response {
        Ok(b) => if b.len() == 1 && b[0] <= 15 {
            Ok(b[0])
        } else {
            Err(Error::Protocol("invalid GET_MAX_LUN response"))
        },
        Err(TransferError::Stall) => Ok(0),
        Err(e) => Err(Error::Usb(e)),
    }
}

/// A response with its bytes taken by view.
pub open spec fn bytes_view(r: Result<Vec<u8>, TransferError>) -> Result<Seq<u8>, TransferError> {
    match r {
        Ok(b) => Ok(b@),
        Err(e) => Err(e),
    }
}

/// Reads a reply to GET_MAX_LUN.
pub fn parse_max_lun(response: Result<Vec<u8>, TransferError>) -> (r: Result<u8, Error>)
    ensures
        r == max_lun_of(bytes_view(response)),
{
    match response {
        Ok(b) => if b.len() == 1 && b[0] <= 15 {
            Ok(b[0])
        } else {
            Err(Error::Protocol("invalid GET_MAX_LUN response"))
        },
        Err(TransferError::Stall) => Ok(0),
        Err(e) => Err(Error::Usb(e)),
    }
}

/// An endpoint of an alternate setting.
#[derive(Clone, Copy, Debug, PartialEq, Eq, Structural)]
pub struct EndpointInfo {
    pub address: u8,
    pub bulk: bool,
    pub max_packet_size: usize,
}

/// An alternate setting of an interface.
#[derive(Debug)]
pub struct AlternateSetting {
    pub alternate: u8,
    pub class: u8,
    pub subclass: u8,
    pub protocol: u8,
    pub endpoints: Vec<EndpointInfo>,
}

/// The two endpoints of a storage interface.
#[derive(Clone, Copy, Debug, PartialEq, Eq, Structural)]
pub struct Endpoints {
    pub input: u8,
    pub output: u8,
    pub input_packet_size: usize,
}

impl EndpointInfo {
    /// Whether this is a bulk endpoint in the given direction; the top bit of an
    /// address is set towards the host.
    pub open spec fn serves(self, incoming: bool) -> bool {
        self.bulk && (self.address >= 0x80) == incoming
    }
}

/// The first setting with this number.
pub open spec fn find_setting(s: Seq<AlternateSetting>, alternate: u8) -> Option<AlternateSetting>
    decreases s.len(),
{
    if s.len() == 0 {
        None
    } else if s[0].alternate == alternate {
        Some(s[0])
    } else {
        find_setting(s.drop_first(), alternate)
    }
}

/// The first bulk endpoint in this direction.
pub open spec fn find_endpoint(s: Seq<EndpointInfo>, incoming: bool) -> Option<EndpointInfo>
    decreases s.len(),
{
    if s.len() == 0 {
        None
    } else if s[0].serves(incoming) {
        Some(s[0])
    } else {
        find_endpoint(s.drop_first(), incoming)
    }
}

/// The endpoints of the storage interface, or why it is not used.
pub open spec fn selection(active: u8, alternate: u8, settings: Seq<AlternateSetting>) -> Result<
    Endpoints,
    Error,
> {
    if active != alternate {
        Err(Error::Protocol("selected alternate setting is not active"))
    } else {
        match find_setting(settings, alternate) {
            None => Err(Error::Protocol("selected alternate setting is missing")),
            Some(d) => if d.class != 0xff || d.subclass != 6 || d.protocol != 0x50 {
                Err(Error::Protocol("managed storage requires ff/06/50"))
            } else {
                match (find_endpoint(d.endpoints@, true), find_endpoint(d.endpoints@, false)) {
                    (None, _) => Err(Error::Protocol("bulk IN endpoint missing")),
                    (_, None) => Err(Error::Protocol("bulk OUT endpoint missing")),
                    (Some(input), Some(output)) => Ok(
                        Endpoints {
                            input: input.address,
                            output: output.address,
                            input_packet_size: input.max_packet_size,
                        },
                    ),
                }
            },
        }
    }
}

fn search_setting(settings: &Vec<AlternateSetting>, alternate: u8) -> (at: Option<usize>)
    ensures
        match at {
            Some(i) => i < settings@.len() && find_setting(settings@, alternate) == Some(
                settings@[i as int],
            ),
            None => find_setting(settings@, alternate) is None,
        },
{
    let mut i: usize = 0;
    assert(settings@.skip(0) =~= settings@);
    while i < settings.len()
        invariant
            i <= settings@.len(),
            find_setting(settings@, alternate) == find_setting(settings@.skip(i as int), alternate),
        decreases settings@.len() - i,
    {
        if settings[i].alternate == alternate {
            return Some(i);
        }
        assert(settings@.skip(i as int).drop_first() =~= settings@.skip(i + 1));
        i = i + 1;
    }
    None
}

fn search_endpoint(endpoints: &Vec<EndpointInfo>, incoming: bool) -> (found: Option<EndpointInfo>)
    ensures
        found == find_endpoint(endpoints@, incoming),
{
    let mut i: usize = 0;
    assert(endpoints@.skip(0) =~= endpoints@);
    while i < endpoints.len()
        invariant
            i <= endpoints@.len(),
            find_endpoint(endpoints@, incoming) == find_endpoint(
                endpoints@.skip(i as int),
                incoming,
            ),
        decreases endpoints@.len() - i,
    {
        if endpoints[i].bulk && (endpoints[i].address >= 0x80) == incoming {
            return Some(endpoints[i]);
        }
        assert(endpoints@.skip(i as int).drop_first() =~= endpoints@.skip(i + 1));
        i = i + 1;
    }
    None
}

/// Picks the endpoints of the storage interface. The selected setting must be
/// active already; no other is ever chosen.
pub fn from_interface(active: u8, alternate: u8, settings: &Vec<AlternateSetting>) -> (r: Result<
    Endpoints,
    Error,
>)
    ensures
        r == selection(active, alternate, settings@),
{
    if active != alternate {
        return Err(Error::Protocol("selected alternate setting is not active"));
    }
    let d = match search_setting(settings, alternate) {
        None => {
            return Err(Error::Protocol("selected alternate setting is missing"));
        },
        Some(i) => &settings[i],
    };
    if d.class != 0xff || d.subclass != 6 || d.protocol != 0x50 {
        return Err(Error::Protocol("managed storage requires ff/06/50"));
    }
    let input = match search_endpoint(&d.endpoints, true) {
        None => {
            return Err(Error::Protocol("bulk IN endpoint missing"));
        },
        Some(e) => e,
    };
    match search_endpoint(&d.endpoints, false) {
        None => Err(Error::Protocol("bulk OUT endpoint missing")),
        Some(output) => Ok(
            Endpoints {
                input: input.address,
                output: output.address,
                input_packet_size: input.max_packet_size,
            },
        ),
    }
}

/// The buffer that a read of `length` bytes asks for: the least whole number of
/// packets that holds them.
pub fn padded_length(length: usize, packet: usize) -> (n: usize)
    requires
        0 < packet,
        range::div_up(length as int, packet as int) * packet <= usize::MAX,
    ensures
        n == range::div_up(length as int, packet as int) * packet,
{
    let rest: usize = length % packet;
    proof {
        vstd::arithmetic::div_mod::lemma_fundamental_div_mod(length as int, packet as int);
        vstd::arithmetic::mul::lemma_mul_is_commutative(
            packet as int,
            length as int / packet as int,
        );
        vstd::arithmetic::mul::lemma_mul_is_distributive_add_other_way(
            packet as int,
            length as int / packet as int,
            1,
        );
    }
    if rest == 0 {
        length
    } else {
        length - rest + packet
    }
}

/// The least whole number of packets: it holds the bytes, and one packet less
/// would not.
pub proof fn law_padding_is_least(length: int, packet: int)
    requires
        0 <= length,
        0 < packet,
    ensures
        length <= range::div_up(length, packet) * packet < length + packet,
        range::div_up(length, packet) * packet % packet == 0,
{
    let q = length / packet;
    vstd::arithmetic::div_mod::lemma_fundamental_div_mod(length, packet);
    vstd::arithmetic::mul::lemma_mul_is_commutative(packet, q);
    vstd::arithmetic::mul::lemma_mul_is_distributive_add_other_way(packet, q, 1);
    vstd::arithmetic::div_mod::lemma_mod_multiples_basic(range::div_up(length, packet), packet);
}

/// An interface of the active configuration, and the setting it stands at.
#[derive(Clone, Copy, Debug, PartialEq, Eq, Structural)]
pub struct ActiveInterface {
    pub number: u8,
    pub alternate: u8,
}

/// The first interface with this number.
pub open spec fn find_interface(s: Seq<ActiveInterface>, number: u8) -> Option<ActiveInterface>
    decreases s.len(),
{
    if s.len() == 0 {
        None
    } else if s[0].number == number {
        Some(s[0])
    } else {
        find_interface(s.drop_first(), number)
    }
}

/// Whether a connection to this interface may be made, or why not.
pub open spec fn connectable(
    configuration: Option<Seq<ActiveInterface>>,
    number: u8,
    alternate: u8,
) -> Result<(), Error> {
    match configuration {
        None => Err(Error::Protocol("no active USB configuration")),
        Some(interfaces) => match find_interface(interfaces, number) {
            None => Err(Error::Protocol("selected USB interface is missing")),
            Some(i) => if i.alternate != alternate {
                Err(Error::Protocol("selected alternate setting is not active"))
            } else {
                Ok(())
            },
        },
    }
}

/// A configuration with its interfaces taken by view.
pub open spec fn configuration_view(c: Option<Vec<ActiveInterface>>) -> Option<
    Seq<ActiveInterface>,
> {
    match c {
        Some(v) => Some(v@),
        None => None,
    }
}

/// Accepts an interface of the active configuration for a connection. No
/// configuration, setting or driver is ever changed for one.
pub fn connect_check(configuration: &Option<Vec<ActiveInterface>>, number: u8, alternate: u8) -> (r:
    Result<(), Error>)
    ensures
        r == connectable(configuration_view(*configuration), number, alternate),
{
    let interfaces = match configuration {
        None => {
            return Err(Error::Protocol("no active USB configuration"));
        },
        Some(v) => v,
    };
    let mut i: usize = 0;
    assert(interfaces@.skip(0) =~= interfaces@);
    while i < interfaces.len()
        invariant
            i <= interfaces@.len(),
            *configuration == Some(*interfaces),
            find_interface(interfaces@, number) == find_interface(
                interfaces@.skip(i as int),
                number,
            ),
        decreases interfaces@.len() - i,
    {
        if interfaces[i].number == number {
            if interfaces[i].alternate != alternate {
                return Err(Error::Protocol("selected alternate setting is not active"));
            }
            return Ok(());
        }
        assert(interfaces@.skip(i as int).drop_first() =~= interfaces@.skip(i + 1));
        i = i + 1;
    }
    Err(Error::Protocol("selected USB interface is missing"))
}

/// What a release within its time limit amounts to; `None` is one that was not
/// over by then.
pub open spec fn released_as(released: Option<Result<(), Error>>) -> Result<(), Error> {
    match released {
        None => Err(Error::Protocol("WebUSB interface release timed out")),
        Some(Ok(())) => Ok(()),
        Some(Err(e)) => Err(e),
    }
}

/// What a close amounts to, after its release. Only a close that went well has
/// anything to say of the release.
pub open spec fn closed_as(released: Result<(), Error>, closed: Option<bool>) -> Result<(), Error> {
    match closed {
        None => Err(Error::Protocol("WebUSB device close timed out")),
        Some(false) => Err(Error::Protocol("WebUSB device close failed")),
        Some(true) => released,
    }
}

/// What a release within its time limit amounts to.
pub fn release_outcome(released: Option<Result<(), Error>>) -> (r: Result<(), Error>)
    ensures
        r == released_as(released),
{
    match released {
        None => Err(Error::Protocol("WebUSB interface release timed out")),
        Some(Ok(())) => Ok(()),
        Some(Err(e)) => Err(e),
    }
}

/// What a close within its time limit amounts to, after its release.
pub fn close_outcome(released: Result<(), Error>, closed: Option<bool>) -> (r: Result<(), Error>)
    ensures
        r == closed_as(released, closed),
{
    match closed {
        None => Err(Error::Protocol("WebUSB device close timed out")),
        Some(false) => Err(Error::Protocol("WebUSB device close failed")),
        Some(true) => released,
    }
}

/// A failed release or close never yields a successful receipt: a close is
/// reported as good exactly where the interface was released and the device
/// closed, both in time.
pub proof fn law_no_failed_close_reads_as_good(
    released: Option<Result<(), Error>>,
    closed: Option<bool>,
)
    ensures
        closed_as(released_as(released), closed) is Ok <==> closed == Some(true) && released
            == Some(Ok::<(), Error>(())),
{
    if let Some(Ok(nothing)) = released {
        assert(nothing == ());
    }
}

/// Why a connection could not be made, and what went wrong when it was cleaned
/// up, if anything did. The first is never lost to the second.
#[derive(Debug)]
pub struct OpenFailure {
    pub original: Error,
    pub cleanup: Option<Error>,
}

/// What a connection attempt amounts to, once a failed one was cleaned up.
pub fn connection_outcome<C>(opened: Result<C, Error>, cleanup: Result<(), Error>) -> (r: Result<
    C,
    OpenFailure,
>)
    ensures
        match opened {
            Ok(c) => r == Ok::<C, OpenFailure>(c),
            Err(e) => r matches Err(f) && f.original == e && f.cleanup == (match cleanup {
                Ok(()) => None::<Error>,
                Err(d) => Some(d),
            }),
        },
{
    match opened {
        Ok(c) => Ok(c),
        Err(e) => Err(
            OpenFailure {
                original: e,
                cleanup: match cleanup {
                    Ok(()) => None,
                    Err(d) => Some(d),
                },
            },
        ),
    }
}

} // verus!
