//! What is decided around devices, said of bytes, positions and names: what a guard
//! admits, which interface and endpoints are used, how much is sampled, and what a
//! command for a hash says.

use vstd::prelude::*;

use crate::error::Error;
use crate::error::TransferError;
use crate::exchange::Form;
use crate::exchange::Geometry;
use crate::exchange::Response;
use crate::exchange::ResponseOf;
use crate::fastboot;
use crate::fastboot::FastbootSession;
use crate::fastboot::Outcome;
use crate::fastboot::Settled;
use crate::guard;
use crate::guard::Cursor;
use crate::guard::GuardModel;
use crate::guard::Guarded;
use crate::guard::Refusal;
use crate::guard::Whence;
use crate::journal;
use crate::journal::Inspection;
use crate::journal::MountMode;
use crate::lifecycle;
use crate::managed;
use crate::managed::Capacity;
use crate::managed::Failure;
use crate::managed::ManagedModel;
use crate::managed::ManagedStorageSession;
use crate::managed::Report;
use crate::managed::Verdict;
use crate::qualify;
use crate::qualify::InquiryFacts;
use crate::qualify::Next;
use crate::qualify::Stage;
use crate::range::Access;
use crate::range::RangeSession;
use crate::scsi::ScsiModel;
use crate::text;
use crate::usb;
use crate::usb::ActiveInterface;
use crate::usb::AlternateSetting;
use crate::usb::EndpointInfo;
use crate::usb::OpenFailure;
use crate::wire_laws;

verus! {

/// Whether all bytes of an access, and where it starts, lie on a device.
pub open spec fn on_device(size: u64, offset: int, length: int) -> bool {
    &&& 0 <= offset <= size
    &&& forall|i: int| offset <= i < offset + length ==> #[trigger] is_byte(size, i)
}

/// Whether a device has this byte.
pub open spec fn is_byte(size: u64, i: int) -> bool {
    0 <= i < size
}

/// A guard admits every access to a device in use that stays on it, for writing
/// where the device was opened for that, and says of any other what is wrong with
/// it: first that the device is retired, then that it is left, then that it is not
/// for writing.
pub proof fn law_guards_admit_what_stays_on_the_device(g: GuardModel, offset: int, length: int)
    requires
        0 <= offset,
        0 <= length,
    ensures
        g.check(offset, length) is Ok <==> !g.retired && on_device(g.size, offset, length),
        g.admit_write(offset, length) is Ok <==> !g.retired && on_device(g.size, offset, length)
            && g.writable,
        g.check(offset, length) matches Err(e) ==> e == if g.retired {
            Refusal::Retired
        } else {
            Refusal::OutOfBounds
        },
        g.admit_write(offset, length) matches Err(e) ==> e == if g.retired {
            Refusal::Retired
        } else if !on_device(g.size, offset, length) {
            Refusal::OutOfBounds
        } else {
            Refusal::ReadOnly
        },
{
    if length > 0 {
        assert(is_byte(g.size, offset + length - 1) <==> offset + length <= g.size);
    }
}

/// A read at a position moves as much of what was wanted as the device has from
/// there: never more, and less only where the device ends.
pub proof fn law_reads_stop_at_the_end(position: u64, size: u64, wanted: usize)
    ensures
        ({
            let n = guard::before_end(position, size, wanted);
            &&& 0 <= n <= wanted
            &&& 0 < n ==> position + n <= size
            &&& n < wanted ==> position + n >= size
        }),
{
}

/// A seek counts from where it says: from the start, from the position, or from the
/// end.
pub proof fn law_seeks_count_from_where_they_say(position: u64, size: u64, n: u64, d: i64)
    ensures
        guard::target(position, size, Whence::Start(n)) == n,
        guard::target(position, size, Whence::Current(d)) - position == d,
        guard::target(position, size, Whence::End(d)) - size == d,
{
}

/// The highest unit of a device is what it answers, as one byte of at most 15, or 0
/// where it has no answer; anything else is an error, and a failed transfer is
/// reported as it is.
pub proof fn law_highest_units_are_answered(response: Result<Seq<u8>, TransferError>, n: u8)
    ensures
        usb::max_lun_of(response) == Ok::<u8, Error>(n) <==> (response matches Ok(b) && b
            == seq![n] && n <= 15) || (response == Err::<Seq<u8>, TransferError>(
            TransferError::Stall,
        ) && n == 0),
        response matches Err(e) ==> e != TransferError::Stall ==> usb::max_lun_of(response) == Err::<
            u8,
            Error,
        >(Error::Usb(e)),
{
    if let Ok(b) = response {
        if b.len() == 1 {
            assert(b =~= seq![b[0]]);
        }
        assert(seq![n].len() == 1 && seq![n][0] == n);
    }
}

/// Whether a setting is the first with this number.
pub open spec fn first_setting(s: Seq<AlternateSetting>, alternate: u8, i: int) -> bool {
    &&& 0 <= i < s.len()
    &&& s[i].alternate == alternate
    &&& forall|k: int| 0 <= k < i ==> (#[trigger] s[k]).alternate != alternate
}

/// Whether an endpoint is a bulk endpoint in this direction, which the top bit of
/// its address tells.
pub open spec fn is_bulk(e: EndpointInfo, incoming: bool) -> bool {
    e.bulk && (e.address & 0x80 != 0) == incoming
}

/// Whether an endpoint is the first bulk endpoint in this direction.
pub open spec fn first_bulk(s: Seq<EndpointInfo>, incoming: bool, j: int) -> bool {
    &&& 0 <= j < s.len()
    &&& is_bulk(s[j], incoming)
    &&& forall|k: int| 0 <= k < j ==> !is_bulk(#[trigger] s[k], incoming)
}

proof fn lemma_direction(e: EndpointInfo, incoming: bool)
    ensures
        is_bulk(e, incoming) == e.serves(incoming),
{
    let a = e.address;
    assert((a & 0x80 != 0) == (a >= 0x80)) by (bit_vector);
}

proof fn lemma_settings(s: Seq<AlternateSetting>, alternate: u8) -> (i: int)
    ensures
        match usb::find_setting(s, alternate) {
            Some(d) => first_setting(s, alternate, i) && d == s[i],
            None => forall|k: int| 0 <= k < s.len() ==> (#[trigger] s[k]).alternate != alternate,
        },
    decreases s.len(),
{
    if s.len() == 0 || s[0].alternate == alternate {
        0
    } else {
        let rest = s.drop_first();
        let j = lemma_settings(rest, alternate);
        assert forall|k: int| 1 <= k < s.len() implies #[trigger] s[k] == rest[k - 1] by {}
        j + 1
    }
}

proof fn lemma_endpoints(s: Seq<EndpointInfo>, incoming: bool) -> (j: int)
    ensures
        match usb::find_endpoint(s, incoming) {
            Some(e) => first_bulk(s, incoming, j) && e == s[j],
            None => forall|k: int| 0 <= k < s.len() ==> !is_bulk(#[trigger] s[k], incoming),
        },
    decreases s.len(),
{
    if s.len() == 0 {
        0
    } else {
        lemma_direction(s[0], incoming);
        if s[0].serves(incoming) {
            0
        } else {
            let rest = s.drop_first();
            let j = lemma_endpoints(rest, incoming);
            assert forall|k: int| 1 <= k < s.len() implies #[trigger] s[k] == rest[k - 1] by {}
            j + 1
        }
    }
}

/// The endpoints that are used are the first bulk endpoints, one each way, of the
/// first setting with the number that is asked for, where that one is active and of
/// the vendor's own class, SCSI commands over bulk transfers. They are found wherever
/// such a setting has both; otherwise nothing is used.
pub proof fn law_endpoints_are_those_of_the_active_setting(
    active: u8,
    alternate: u8,
    settings: Seq<AlternateSetting>,
    i: int,
)
    requires
        first_setting(settings, alternate, i),
    ensures
        ({
            let d = settings[i];
            let r = usb::selection(active, alternate, settings);
            &&& r is Ok <==> {
                &&& active == alternate
                &&& d.class == 0xff && d.subclass == 0x06 && d.protocol == 0x50
                &&& exists|j: int| first_bulk(d.endpoints@, true, j)
                &&& exists|k: int| first_bulk(d.endpoints@, false, k)
            }
            &&& r matches Ok(used) ==> forall|j: int, k: int| #[trigger]
                first_bulk(d.endpoints@, true, j) && #[trigger] first_bulk(d.endpoints@, false, k)
                    ==> used.input == d.endpoints@[j].address && used.output
                    == d.endpoints@[k].address && used.input_packet_size
                    == d.endpoints@[j].max_packet_size
        }),
{
    let d = settings[i];
    let at = lemma_settings(settings, alternate);
    if usb::find_setting(settings, alternate) is None {
        assert(settings[i].alternate != alternate);
    } else {
        if at < i {
            assert(settings[at].alternate != alternate);
        }
        if i < at {
            assert(settings[i].alternate != alternate);
        }
    }
    let a = lemma_endpoints(d.endpoints@, true);
    let b = lemma_endpoints(d.endpoints@, false);
    assert forall|j: int| #[trigger] first_bulk(d.endpoints@, true, j) implies usb::find_endpoint(
        d.endpoints@,
        true,
    ) == Some(d.endpoints@[j]) by {
        lemma_first_is_one(d.endpoints@, true, j, a);
    }
    assert forall|k: int| #[trigger] first_bulk(d.endpoints@, false, k) implies usb::find_endpoint(
        d.endpoints@,
        false,
    ) == Some(d.endpoints@[k]) by {
        lemma_first_is_one(d.endpoints@, false, k, b);
    }
}

proof fn lemma_first_is_one(s: Seq<EndpointInfo>, incoming: bool, j: int, a: int)
    requires
        first_bulk(s, incoming, j),
        match usb::find_endpoint(s, incoming) {
            Some(e) => first_bulk(s, incoming, a) && e == s[a],
            None => forall|k: int| 0 <= k < s.len() ==> !is_bulk(#[trigger] s[k], incoming),
        },
    ensures
        usb::find_endpoint(s, incoming) == Some(s[j]),
{
    assert(is_bulk(s[j], incoming));
    if usb::find_endpoint(s, incoming) is Some {
        assert(is_bulk(s[a], incoming));
        if a < j {
            assert(!is_bulk(s[a], incoming));
        }
        if j < a {
            assert(!is_bulk(s[j], incoming));
        }
    }
}

/// Without a setting of the number that is asked for nothing is used.
pub proof fn law_missing_settings_are_not_used(
    active: u8,
    alternate: u8,
    settings: Seq<AlternateSetting>,
)
    requires
        forall|i: int| 0 <= i < settings.len() ==> (#[trigger] settings[i]).alternate != alternate,
    ensures
        usb::selection(active, alternate, settings) is Err,
{
    let at = lemma_settings(settings, alternate);
    if usb::find_setting(settings, alternate) is Some {
        assert(settings[at].alternate != alternate);
    }
}

proof fn lemma_interfaces(s: Seq<ActiveInterface>, number: u8) -> (i: int)
    ensures
        match usb::find_interface(s, number) {
            Some(d) => 0 <= i < s.len() && d == s[i] && d.number == number && forall|k: int|
                0 <= k < i ==> (#[trigger] s[k]).number != number,
            None => forall|k: int| 0 <= k < s.len() ==> (#[trigger] s[k]).number != number,
        },
    decreases s.len(),
{
    if s.len() == 0 || s[0].number == number {
        0
    } else {
        let rest = s.drop_first();
        let j = lemma_interfaces(rest, number);
        assert forall|k: int| 1 <= k < s.len() implies #[trigger] s[k] == rest[k - 1] by {}
        j + 1
    }
}

/// A connection is made to an interface exactly where a configuration is active and
/// the first interface in it with that number stands at the setting that is asked
/// for.
pub proof fn law_connections_change_no_setting(
    configuration: Option<Seq<ActiveInterface>>,
    number: u8,
    alternate: u8,
)
    ensures
        usb::connectable(configuration, number, alternate) is Ok <==> (configuration
            matches Some(s) && exists|i: int| #[trigger] stands_at(s, number, alternate, i)),
{
    if let Some(s) = configuration {
        let at = lemma_interfaces(s, number);
        if usb::connectable(configuration, number, alternate) is Ok {
            assert(stands_at(s, number, alternate, at));
        }
        assert forall|i: int| #[trigger] stands_at(s, number, alternate, i) implies
            usb::connectable(configuration, number, alternate) is Ok by {
            assert(s[i].number == number);
            if usb::find_interface(s, number) is Some {
                if at < i {
                    assert(s[at].number != number);
                }
            }
        }
    }
}

/// Whether an interface is the first with its number, and stands at this setting.
pub open spec fn stands_at(s: Seq<ActiveInterface>, number: u8, alternate: u8, i: int) -> bool {
    &&& 0 <= i < s.len()
    &&& s[i].number == number
    &&& s[i].alternate == alternate
    &&& forall|k: int| 0 <= k < i ==> (#[trigger] s[k]).number != number
}

/// A sample is taken of every medium that has a block of at most 4096 bytes, and of
/// no other. It starts at the first block, and is as large as the medium or 4096
/// bytes allow: one block more would be too many.
pub proof fn law_samples_are_as_large_as_they_may_be(g: Geometry)
    requires
        g.block_size != 0,
    ensures
        qualify::samples(g) <==> 0 < g.blocks && g.block_size <= 4096,
        qualify::samples(g) ==> {
            let n = qualify::sampled(g);
            &&& 1 <= n <= g.blocks
            &&& n * g.block_size <= 4096
            &&& n == g.blocks || (n + 1) * g.block_size > 4096
        },
{
    if qualify::samples(g) {
        qualify::law_samples_are_bounded(g);
        let size = g.block_size as int;
        assert((4096int / size + 1) * size > 4096) by (nonlinear_arith)
            requires
                1 <= size <= 4096,
        ;
    }
}

/// Each stage of a qualification is the command that it is named after; the sample
/// is read from the first block on.
pub proof fn law_stages_are_their_commands<T>(s: ScsiModel<T>, count: u16, block_size: u32)
    requires
        s.usable,
    ensures
        wire_laws::wraps(s, qualify::opens(s, Stage::Inquiry), 6, 36, seq![], Form::Data),
        wire_laws::wrapper(qualify::opens(s, Stage::Inquiry))[15] == 0x12,
        wire_laws::wraps(s, qualify::opens(s, Stage::TestUnitReady), 6, 0, seq![], Form::Status),
        wire_laws::wrapper(qualify::opens(s, Stage::TestUnitReady))[15] == 0x00,
        wire_laws::wraps(s, qualify::opens(s, Stage::Capacity), 10, 8, seq![], Form::Capacity),
        wire_laws::wrapper(qualify::opens(s, Stage::Capacity))[15] == 0x25,
        wire_laws::wraps(
            s,
            qualify::opens(s, Stage::SynchronizeCache),
            10,
            0,
            seq![],
            Form::Status,
        ),
        wire_laws::names_blocks(
            wire_laws::wrapper(qualify::opens(s, Stage::SynchronizeCache)),
            0x35,
            0,
            0,
        ),
        wire_laws::wraps(s, qualify::opens(s, Stage::Eject), 6, 0, seq![], Form::Eject),
        wire_laws::wrapper(qualify::opens(s, Stage::Eject))[15] == 0x1b,
        wire_laws::nameable(0, count, block_size) ==> wire_laws::wraps(
            s,
            qualify::opens(s, Stage::ReadBlocks { count, block_size }),
            10,
            count * block_size,
            seq![],
            Form::Data,
        ) && wire_laws::names_blocks(
            wire_laws::wrapper(qualify::opens(s, Stage::ReadBlocks { count, block_size })),
            0x28,
            0,
            count as int,
        ),
{
    wire_laws::law_questions_name_themselves(s);
    wire_laws::law_syncs_cover_the_medium(s);
    wire_laws::law_ejects_take_the_medium_out(s);
    wire_laws::law_block_commands_move_their_blocks(s, 0, count, block_size, seq![]);
}

/// The white space of Unicode: tab to carriage return, space, next line, the spaces
/// that do not break, those of Ogham and of general punctuation, and the one as wide
/// as an ideograph.
pub open spec fn blank(c: char) -> bool {
    seq![
        0x09u32,
        0x0a,
        0x0b,
        0x0c,
        0x0d,
        0x20,
        0x85,
        0xa0,
        0x1680,
        0x2028,
        0x2029,
        0x202f,
        0x205f,
        0x3000,
    ].contains(c as u32) || 0x2000 <= c as u32 <= 0x200a
}

proof fn lemma_blank(c: char)
    ensures
        blank(c) == text::white_space(c),
{
    let list = seq![
        0x09u32,
        0x0a,
        0x0b,
        0x0c,
        0x0d,
        0x20,
        0x85,
        0xa0,
        0x1680,
        0x2028,
        0x2029,
        0x202f,
        0x205f,
        0x3000,
    ];
    let v = c as u32;
    assert(list[0] == 0x09 && list[1] == 0x0a && list[2] == 0x0b && list[3] == 0x0c && list[4]
        == 0x0d && list[5] == 0x20 && list[6] == 0x85 && list[7] == 0xa0 && list[8] == 0x1680
        && list[9] == 0x2028 && list[10] == 0x2029 && list[11] == 0x202f && list[12] == 0x205f
        && list[13] == 0x3000);
    if list.contains(v) {
        let i = choose|i: int| 0 <= i < list.len() && list[i] == v;
        assert(list[i] == v);
    }
}

/// A trimmed text is what is left of a text once the white space at both its ends is
/// gone, and nothing else.
pub proof fn law_trimming_takes_the_ends(s: Seq<char>) -> (ends: (int, int))
    ensures
        ({
            let (from, to) = ends;
            &&& 0 <= from <= to <= s.len()
            &&& text::trim(s) == s.subrange(from, to)
            &&& forall|i: int| 0 <= i < from ==> blank(#[trigger] s[i])
            &&& forall|i: int| to <= i < s.len() ==> blank(#[trigger] s[i])
            &&& from < to ==> !blank(s[from]) && !blank(s[to - 1])
        }),
    decreases s.len(),
{
    assert forall|c: char| text::white_space(c) == #[trigger] blank(c) by {
        lemma_blank(c);
    }
    if s.len() > 0 && text::white_space(s[0]) {
        let rest = s.drop_first();
        let (from, to) = law_trimming_takes_the_ends(rest);
        assert(rest.subrange(from, to) =~= s.subrange(from + 1, to + 1));
        assert forall|i: int| 1 <= i < s.len() implies #[trigger] s[i] == rest[i - 1] by {}
        assert forall|i: int| 0 <= i < from + 1 implies blank(#[trigger] s[i]) by {
            if i > 0 {
                assert(blank(rest[i - 1]));
            }
        }
        assert forall|i: int| to + 1 <= i < s.len() implies blank(#[trigger] s[i]) by {
            assert(blank(rest[i - 1]));
        }
        (from + 1, to + 1)
    } else if s.len() > 0 && text::white_space(s.last()) {
        let rest = s.drop_last();
        let (from, to) = law_trimming_takes_the_ends(rest);
        assert(rest.subrange(from, to) =~= s.subrange(from, to));
        assert forall|i: int| 0 <= i < from implies blank(#[trigger] s[i]) by {
            assert(blank(rest[i]));
        }
        assert forall|i: int| to <= i < s.len() implies blank(#[trigger] s[i]) by {
            if i < rest.len() {
                assert(blank(rest[i]));
            }
        }
        (from, to)
    } else {
        assert(s.subrange(0, s.len() as int) =~= s);
        (0, s.len() as int)
    }
}

/// Whether a character is a digit of a number in hexadecimal, in lower case.
pub open spec fn is_digit(c: char) -> bool {
    '0' <= c <= '9' || 'a' <= c <= 'f'
}

proof fn lemma_hex_is_shortest(n: nat)
    ensures
        0 < fastboot::hex(n).len(),
        fastboot::hex(n)[0] == '0' ==> n == 0,
        n == 0 ==> fastboot::hex(n) == seq!['0'],
        forall|i: int| 0 <= i < fastboot::hex(n).len() ==> is_digit(#[trigger] fastboot::hex(n)[i]),
    decreases n,
{
    if n >= 16 {
        lemma_hex_is_shortest(n / 16);
        let head = fastboot::hex(n / 16);
        let s = fastboot::hex(n);
        assert(s[0] == head[0]);
        assert forall|i: int| 0 <= i < s.len() implies is_digit(#[trigger] s[i]) by {
            if i < head.len() {
                assert(s[i] == head[i]);
            }
        }
    }
}

/// Whether digits write a number in hexadecimal, in lower case and without a zero in
/// front.
pub open spec fn writes(s: Seq<char>, n: nat) -> bool {
    &&& 0 < s.len()
    &&& forall|i: int| 0 <= i < s.len() ==> is_digit(#[trigger] s[i])
    &&& s[0] == '0' ==> s.len() == 1
    &&& fastboot::hex_value(s) == n
}

/// The command for a hash names the partition, the offset and the length, in this
/// order. It is there exactly where the device offers it, the name has no colon, and
/// the range is not empty and ends below 2 to the 64.
pub proof fn law_hash_commands_name_their_range(
    capability: Seq<char>,
    partition: Seq<char>,
    offset: u64,
    length: u64,
) -> (numbers: (Seq<char>, Seq<char>))
    ensures
        ({
            let r = fastboot::hash_request(capability, partition, offset, length);
            let (x, y) = numbers;
            &&& r is Ok <==> capability == "sha256-range-v1"@ && !partition.contains(':') && 0
                < length && offset + length <= 0xffff_ffff_ffff_ffff
            &&& writes(x, offset as nat)
            &&& writes(y, length as nat)
            &&& r matches Ok(command) ==> command == "hash:"@ + partition + seq![':'] + x + seq![
                ':',
            ] + y
        }),
{
    let x = fastboot::hex(offset as nat);
    let y = fastboot::hex(length as nat);
    reveal_strlit(":");
    assert(":"@ =~= seq![':']);
    lemma_hex_is_shortest(offset as nat);
    lemma_hex_is_shortest(length as nat);
    fastboot::law_hex_reads_back(offset as nat);
    fastboot::law_hex_reads_back(length as nat);
    (x, y)
}

/// An image is taken exactly where it is not empty and its length is a number of 32
/// bits, and that number is its length.
pub proof fn law_image_lengths_are_kept(length: usize)
    ensures
        fastboot::image_length(length) is Ok <==> 0 < length && length <= 0xffff_ffff,
        fastboot::image_length(length) matches Ok(n) ==> n == length,
{
}

/// Bytes in hexadecimal read back, two digits each.
pub proof fn law_hex_texts_read_back(bytes: Seq<u8>, i: int)
    requires
        0 <= i < bytes.len(),
    ensures
        qualify::hex_text(bytes).len() == 2 * bytes.len(),
        ({
            let high = qualify::hex_text(bytes)[2 * i];
            let low = qualify::hex_text(bytes)[2 * i + 1];
            &&& is_digit(high) && is_digit(low)
            &&& 16 * fastboot::hex_digit_value(high) + fastboot::hex_digit_value(low) == bytes[i]
        }),
{
    assert((2 * i) / 2 == i && (2 * i) % 2 == 0);
    assert((2 * i + 1) / 2 == i && (2 * i + 1) % 2 == 1);
}

/// An access mode has one of two names, and each name is of one mode.
pub proof fn law_access_modes_have_their_names(name: Seq<char>)
    ensures
        managed::access_named(name) == Some(Access::ReadOnly) <==> name == "read-only"@,
        managed::access_named(name) == Some(Access::ReadWrite) <==> name == "read-write"@,
        managed::access_name(Access::ReadOnly) == "read-only"@,
        managed::access_name(Access::ReadWrite) == "read-write"@,
{
    managed::law_access_names_read_back(Access::ReadOnly);
    managed::law_access_names_read_back(Access::ReadWrite);
}

/// After its capacity is known, a medium is sampled from the first block on, in its
/// own blocks and as far as it may be, or the qualification stops there.
pub proof fn law_qualifications_sample_the_medium<B>(g: Geometry, other: ResponseOf<B>)
    requires
        g.block_size != 0,
    ensures
        match qualify::follows(Stage::Capacity, ResponseOf::<B>::Capacity(g)) {
            Next::Run(stage) => {
                &&& 0 < g.blocks && g.block_size <= 4096
                &&& stage matches Stage::ReadBlocks { count, block_size }
                &&& block_size == g.block_size
                &&& 1 <= count <= g.blocks
                &&& count * block_size <= 4096
                &&& count == g.blocks || (count + 1) * block_size > 4096
            },
            Next::Refused(_) => g.blocks == 0 || g.block_size > 4096,
            Next::Passed => false,
        },
        !(other is Capacity) ==> qualify::follows(Stage::Capacity, other) is Refused,
{
    law_samples_are_as_large_as_they_may_be(g);
    if qualify::samples(g) {
        let n = qualify::sampled(g);
        assert(n <= 4096) by (nonlinear_arith)
            requires
                n * g.block_size <= 4096,
                1 <= g.block_size,
                0 <= n,
        ;
    }
}

/// What a close reports is the first thing that went wrong with the device, and
/// behind a good close what went wrong with the release.
pub proof fn law_closes_report_what_went_wrong(released: Result<(), Error>, e: Error)
    ensures
        usb::closed_as(released, Some(true)) == released,
        usb::closed_as(released, Some(false)) is Err,
        usb::closed_as(released, None) is Err,
        usb::released_as(Some(Err(e))) == Err::<(), Error>(e),
        usb::released_as(Some(Ok(()))) == Ok::<(), Error>(()),
        usb::released_as(None) is Err,
{
}

/// Every time limit for connecting of more than nothing and at most a minute is
/// taken, and no other.
pub proof fn law_time_limits_are_up_to_a_minute(nanoseconds: u128, r: Result<(), Error>)
    requires
        call_ensures(usb::validate_timeout, (nanoseconds,), r),
    ensures
        r is Ok <==> 1 <= nanoseconds && nanoseconds <= 60 * 1_000_000_000,
{
}

/// A connection that was made is handed on, and one that was not is reported with
/// what kept it from being made, whatever its cleanup came to, and with that.
pub proof fn law_failed_connections_keep_their_reason<C>(
    opened: Result<C, Error>,
    cleanup: Result<(), Error>,
    r: Result<C, OpenFailure>,
)
    requires
        call_ensures(usb::connection_outcome::<C>, (opened, cleanup), r),
    ensures
        r is Ok == opened is Ok,
        opened matches Ok(c) ==> r->Ok_0 == c,
        opened matches Err(e) ==> r->Err_0.original == e && r->Err_0.cleanup is Some == cleanup
            is Err,
        opened is Err && cleanup is Err ==> r->Err_0.cleanup == Some(cleanup->Err_0),
{
}

/// An eject went well exactly where the unit did it in time and the device was closed
/// after it.
pub proof fn law_ejects_go_well_in_both(
    result: Option<Result<Response, Error>>,
    closed: bool,
    r: Result<(), Report>,
)
    requires
        call_ensures(managed::eject_report, (result, closed), r),
    ensures
        r is Ok <==> closed && (result matches Some(Ok(_))),
        closed ==> (result matches Some(Err(e)) ==> r == Err::<(), Report>(Report::Failed(e))),
{
}

/// A client is there for one operation at a time: taking it leaves none, and where
/// there is none nothing is taken. Closing gives it up as well.
pub proof fn law_clients_are_taken_once<C>(
    s: Ghost<&mut FastbootSession<C>>,
    taken: Result<C, String>,
    t: Ghost<&mut FastbootSession<C>>,
    closed: Option<C>,
)
    requires
        call_ensures(FastbootSession::<C>::take, (s@,), taken),
        call_ensures(FastbootSession::<C>::close, (t@,), closed),
    ensures
        taken is Ok <==> old(s@)@ is Some,
        taken matches Ok(c) ==> old(s@)@ == Some(c),
        final(s@)@ is None,
        closed == old(t@)@,
        final(t@)@ is None,
{
}

/// The client comes back exactly where the framing holds, after a success and after a
/// complete refusal; after anything else the device is to be closed, and the session
/// is as it was.
pub proof fn law_clients_come_back_where_the_framing_holds<C, V>(
    s: Ghost<&mut FastbootSession<C>>,
    client: C,
    outcome: Outcome<V>,
    r: Settled<V>,
)
    requires
        call_ensures(FastbootSession::<C>::finish::<V>, (s@, client, outcome), r),
    ensures
        outcome is Finished || outcome is Refused ==> final(s@)@ == Some(client),
        outcome is Broken || outcome is TimedOut ==> final(s@)@ == old(s@)@ && r is CloseFirst,
        outcome matches Outcome::Finished(v) ==> r == Settled::Report(Ok::<V, String>(v)),
        outcome matches Outcome::Refused(e) ==> r == Settled::<V>::Report(Err(e)),
        outcome matches Outcome::Broken(e) ==> r == Settled::<V>::CloseFirst(e),
{
}

/// A flash is told apart: only a success brings the client back, since a refusal
/// leaves it unknown what was written.
pub proof fn law_flashes_bring_the_client_back_on_success_only<C>(
    s: Ghost<&mut FastbootSession<C>>,
    client: C,
    outcome: Outcome<()>,
    r: Settled<()>,
)
    requires
        call_ensures(FastbootSession::<C>::finish_flash, (s@, client, outcome), r),
    ensures
        r is Report <==> outcome is Finished,
        outcome is Finished ==> final(s@)@ == Some(client) && r->Report_0 is Ok,
        !(outcome is Finished) ==> final(s@)@ == old(s@)@,
        outcome matches Outcome::Refused(e) ==> r == Settled::<()>::CloseFirst(e),
        outcome matches Outcome::Broken(e) ==> r == Settled::<()>::CloseFirst(e),
{
}

/// A flash begins exactly where there is a client and an image of 1 to 2 to the 32
/// minus 1 bytes; it takes the client, and the length goes with it. An image of
/// another length leaves the session as it was.
pub proof fn law_flashes_begin_with_an_image<C>(
    s: Ghost<&mut FastbootSession<C>>,
    length: usize,
    r: Result<(C, u32), String>,
)
    requires
        call_ensures(FastbootSession::<C>::begin_flash, (s@, length), r),
    ensures
        r is Ok <==> old(s@)@ is Some && 0 < length && length <= 0xffff_ffff,
        r matches Ok((client, size)) ==> old(s@)@ == Some(client) && size == length
            && final(s@)@ is None,
        length == 0 || length > 0xffff_ffff ==> final(s@)@ == old(s@)@,
{
    law_image_lengths_are_kept(length);
}

/// The range session of a managed one is there for one operation at a time: taking it
/// leaves none, and where there is none nothing is taken. Closing gives it up as well.
/// What else the session knows stays.
pub proof fn law_range_sessions_are_taken_once<T>(
    s: Ghost<&mut ManagedStorageSession<T>>,
    taken: Result<RangeSession<T>, String>,
    t: Ghost<&mut ManagedStorageSession<T>>,
    closed: Option<RangeSession<T>>,
)
    requires
        call_ensures(ManagedStorageSession::<T>::take, (s@,), taken),
        call_ensures(ManagedStorageSession::<T>::close, (t@,), closed),
    ensures
        taken is Ok <==> old(s@)@.client is Some,
        taken matches Ok(c) ==> old(s@)@.client == Some(c@),
        final(s@)@ == (ManagedModel { client: None, ..old(s@)@ }),
        closed is Some <==> old(t@)@.client is Some,
        closed matches Some(c) ==> old(t@)@.client == Some(c@),
        final(t@)@ == (ManagedModel { client: None, ..old(t@)@ }),
{
}

/// The range session comes back exactly where its transport is certain: after a
/// success, and after a failure that it outlived, which is reported. After any other
/// the device is to be closed first.
pub proof fn law_range_sessions_come_back_where_they_are_certain<T>(
    s: Ghost<&mut ManagedStorageSession<T>>,
    client: RangeSession<T>,
    result: Option<Result<Response, Error>>,
    v: Verdict,
)
    requires
        call_ensures(ManagedStorageSession::<T>::finish, (s@, client, result), v),
    ensures
        ({
            let certain = match result {
                Some(Ok(_)) => true,
                Some(Err(_)) => client@.scsi.usable,
                None => false,
            };
            &&& v is Report <==> certain
            &&& v matches Verdict::Report(r) ==> result == Some(r)
            &&& final(s@)@ == if certain {
                ManagedModel { client: Some(client@), ..old(s@)@ }
            } else {
                old(s@)@
            }
            &&& v matches Verdict::CloseFirst(Failure::Failed(e)) ==> result == Some(
                Err::<Response, Error>(e),
            )
            &&& v matches Verdict::CloseFirst(Failure::TimedOut) ==> result is None
        }),
{
}

/// An operation that left the transport uncertain is never reported as good: with its
/// own failure where the device was closed, and otherwise with that it was not.
pub proof fn law_uncertain_operations_are_reported(failure: Failure, closed: bool, r: Report)
    requires
        call_ensures(managed::uncertain_report, (failure, closed), r),
    ensures
        r is Failed <==> closed && failure is Failed,
        r matches Report::Failed(e) ==> failure == Failure::Failed(e),
{
}

/// One failed access puts a device out of use, and nothing else does; what came of the
/// access is handed on.
pub proof fn law_failed_accesses_retire_the_device<E>(
    g: Ghost<&mut Guarded>,
    result: Result<(), E>,
    r: Result<(), E>,
)
    requires
        call_ensures(Guarded::complete::<E>, (g@, result), r),
    ensures
        r == result,
        final(g@)@.retired == (old(g@)@.retired || result is Err),
        final(g@)@.size == old(g@)@.size,
        final(g@)@.writable == old(g@)@.writable,
{
}

/// A seek goes where it says if that is on the device or at its end, and nowhere
/// otherwise.
pub proof fn law_seeks_stay_on_the_device(
    c: Ghost<&mut Cursor>,
    size: u64,
    whence: Whence,
    r: Result<u64, &'static str>,
)
    requires
        call_ensures(Cursor::seek, (c@, size, whence), r),
    ensures
        ({
            let wanted = match whence {
                Whence::Start(n) => n as int,
                Whence::Current(d) => old(c@)@ + d,
                Whence::End(d) => size + d,
            };
            &&& r is Ok <==> 0 <= wanted <= size
            &&& r matches Ok(now) ==> now == wanted && final(c@)@ == wanted
            &&& r is Err ==> final(c@)@ == old(c@)@
        }),
{
}

/// A volume whose device takes no writes is mounted as it is; one that was inspected
/// is mounted with recovery exactly where nothing stops writing, and otherwise not
/// at all, for the reason that the inspection gave.
pub proof fn law_mounts_follow_the_inspection(
    inspection: Option<Inspection>,
    r: Result<MountMode, &'static str>,
)
    requires
        call_ensures(journal::mount, (inspection,), r),
    ensures
        r == Ok::<MountMode, &'static str>(MountMode::Plain) <==> inspection is None,
        r == Ok::<MountMode, &'static str>(MountMode::Recovering) <==> (inspection matches Some(i)
            && i.write_blocker is None),
        r matches Err(why) ==> (inspection matches Some(i) && i.write_blocker == Some(why)),
{
}

/// A capacity is taken exactly where it is more than nothing and every number format
/// holds it: below 2 to the 53. A write is taken up to 4 MiB.
pub proof fn law_capacities_and_writes_are_bounded(
    capacity: u64,
    a: Result<(), String>,
    length: usize,
    b: Result<(), String>,
)
    requires
        call_ensures(lifecycle::check_capacity, (capacity,), a),
        call_ensures(lifecycle::check_write_length, (length,), b),
    ensures
        a is Ok <==> 0 < capacity && capacity < 0x20_0000_0000_0000,
        b is Ok <==> length <= 4 * 1024 * 1024,
{
}

/// A managed session takes writes of 1 byte to 4 MiB, where it was opened for writing;
/// it takes operations while its range session is there and usable, and its capacity
/// is that of its medium.
pub proof fn law_managed_sessions_are_as_they_were_opened<T>(
    s: ManagedStorageSession<T>,
    length: usize,
    checked: Result<(), &'static str>,
    usable: bool,
    capacity: Result<Capacity, String>,
)
    requires
        call_ensures(ManagedStorageSession::<T>::check_write, (&s, length), checked),
        call_ensures(ManagedStorageSession::<T>::usable, (&s,), usable),
        call_ensures(ManagedStorageSession::<T>::capacity, (&s,), capacity),
    ensures
        checked is Ok <==> 1 <= length && length <= 4 * 1024 * 1024 && s@.access
            == Access::ReadWrite,
        usable <==> (s@.client matches Some(c) && c.scsi.usable),
        capacity is Ok <==> s@.client is Some,
        capacity matches Ok(n) ==> {
            let g = s@.client->0.geometry;
            n.blocks == g.blocks && n.block_size == g.block_size && n.bytes == g.blocks
                * g.block_size
        },
{
}

/// A digest is exactly the bytes that were decoded, where they are 32.
pub proof fn law_digests_are_32_bytes(decoded: Result<Vec<u8>, String>, r: Result<Vec<u8>, String>)
    requires
        call_ensures(fastboot::digest_of, (decoded,), r),
    ensures
        r is Ok <==> (decoded matches Ok(v) && v@.len() == 32),
        r matches Ok(v) ==> decoded == Ok::<Vec<u8>, String>(v),
        decoded is Err ==> r == decoded,
{
}

/// What an inquiry tells of a device: its kind in the low five bits of the first
/// byte, whether its medium can be removed in the top bit of the second, and three
/// texts.
pub proof fn law_inquiries_are_read_by_field(inquiry: Vec<u8>, facts: InquiryFacts)
    requires
        inquiry@.len() >= 36,
        call_ensures(qualify::inquiry_facts, (&inquiry,), facts),
    ensures
        facts.peripheral_type == inquiry@[0] & 0x1f,
        facts.removable == (inquiry@[1] & 0x80 != 0),
        facts.vendor@ == text::trim(text::lossy_text(inquiry@.subrange(8, 16))),
        facts.product@ == text::trim(text::lossy_text(inquiry@.subrange(16, 32))),
        facts.revision@ == text::trim(text::lossy_text(inquiry@.subrange(32, 36))),
{
    let a = inquiry@[0];
    let b = inquiry@[1];
    assert(a & 0x1f == a % 32) by (bit_vector);
    assert((b & 0x80 != 0) == (b >= 128)) by (bit_vector);
}

} // verus!
