//! Qualifying a managed export without writing to it: which command follows
//! which, how much of the medium is sampled, and what is told of the replies.

use vstd::prelude::*;

use crate::error::Error;
use crate::exchange::Exchange;
use crate::exchange::Geometry;
use crate::exchange::Response;
use crate::exchange::ResponseOf;
use crate::fastboot;
use crate::scsi;
use crate::scsi::Opened;
use crate::scsi::Scsi;
use crate::scsi::ScsiModel;
use crate::text;

verus! {

/// How many bytes a qualification samples at most.
pub const SAMPLE_BYTES: u32 = 4096;

/// How many milliseconds a stage may take.
pub const STAGE_MILLISECONDS: u32 = 5_000;

/// A command of a qualification.
#[derive(Clone, Copy, Debug, PartialEq, Eq, Structural)]
pub enum Stage {
    Inquiry,
    TestUnitReady,
    Capacity,
    ReadBlocks { count: u16, block_size: u32 },
    SynchronizeCache,
    Eject,
}

/// What follows a stage that the device reported as good.
#[derive(Clone, Copy, Debug, PartialEq, Eq)]
pub enum Next {
    Run(Stage),
    Passed,
    Refused(&'static str),
}

/// Whether a medium is sampled at all.
pub open spec fn samples(g: Geometry) -> bool {
    g.block_size <= SAMPLE_BYTES && 0 < g.blocks
}

/// How many blocks from the first are sampled.
pub open spec fn sampled(g: Geometry) -> int {
    if SAMPLE_BYTES as int / g.block_size as int <= g.blocks {
        SAMPLE_BYTES as int / g.block_size as int
    } else {
        g.blocks as int
    }
}

/// What follows `stage` once the device reported it as good, with this reply.
pub open spec fn follows<B>(stage: Stage, response: ResponseOf<B>) -> Next {
    match stage {
        Stage::Inquiry => Next::Run(Stage::TestUnitReady),
        Stage::TestUnitReady => Next::Run(Stage::Capacity),
        Stage::Capacity => match response {
            ResponseOf::Capacity(g) => if samples(g) {
                Next::Run(
                    Stage::ReadBlocks { count: sampled(g) as u16, block_size: g.block_size },
                )
            } else {
                Next::Refused("sector geometry exceeds bounded sample")
            },
            _ => Next::Refused("unsupported capacity or sector size"),
        },
        Stage::ReadBlocks { .. } => Next::Run(Stage::SynchronizeCache),
        Stage::SynchronizeCache => Next::Run(Stage::Eject),
        Stage::Eject => Next::Passed,
    }
}

/// How many blocks from the first are sampled, or why none are.
pub fn sample(g: Geometry) -> (r: Result<u16, &'static str>)
    requires
        g.block_size != 0,
    ensures
        samples(g) ==> (r matches Ok(n) && n == sampled(g)),
        !samples(g) ==> r == Err::<u16, &'static str>("sector geometry exceeds bounded sample"),
{
    if g.block_size > SAMPLE_BYTES || g.blocks == 0 {
        return Err("sector geometry exceeds bounded sample");
    }
    let fit: u32 = SAMPLE_BYTES / g.block_size;
    assert(fit <= SAMPLE_BYTES) by (nonlinear_arith)
        requires
            g.block_size != 0,
            fit == SAMPLE_BYTES / g.block_size,
    ;
    if fit as u64 <= g.blocks {
        Ok(fit as u16)
    } else {
        Ok(g.blocks as u16)
    }
}

/// What follows `stage` once the device reported it as good, with this reply.
pub fn after(stage: Stage, response: &Response) -> (next: Next)
    requires
        response matches ResponseOf::Capacity(g) ==> g.block_size != 0,
    ensures
        next == follows(stage, response@),
{
    match stage {
        Stage::Inquiry => Next::Run(Stage::TestUnitReady),
        Stage::TestUnitReady => Next::Run(Stage::Capacity),
        Stage::Capacity => match response {
            ResponseOf::Capacity(g) => match sample(*g) {
                Ok(count) => Next::Run(Stage::ReadBlocks { count, block_size: g.block_size }),
                Err(why) => Next::Refused(why),
            },
            _ => Next::Refused("unsupported capacity or sector size"),
        },
        Stage::ReadBlocks { .. } => Next::Run(Stage::SynchronizeCache),
        Stage::SynchronizeCache => Next::Run(Stage::Eject),
        Stage::Eject => Next::Passed,
    }
}

/// What a device says of itself in answer to INQUIRY.
#[derive(Debug)]
pub struct InquiryFacts {
    pub peripheral_type: u8,
    pub removable: bool,
    pub vendor: String,
    pub product: String,
    pub revision: String,
}

/// A field of text of an INQUIRY reply.
pub open spec fn text_field(inquiry: Seq<u8>, from: int, to: int) -> Seq<char> {
    text::trim(text::lossy_text(inquiry.subrange(from, to)))
}

fn read_text_field(inquiry: &Vec<u8>, from: usize, to: usize) -> (field: String)
    requires
        from <= to <= inquiry@.len(),
    ensures
        field@ == text_field(inquiry@, from as int, to as int),
{
    let bytes = vstd::slice::slice_subrange(inquiry.as_slice(), from, to);
    text::trimmed(text::from_utf8_lossy(bytes).as_str())
}

/// Reads a standard INQUIRY reply.
pub fn inquiry_facts(inquiry: &Vec<u8>) -> (facts: InquiryFacts)
    requires
        36 <= inquiry@.len(),
    ensures
        facts.peripheral_type == inquiry@[0] % 32,
        facts.removable == (inquiry@[1] >= 128),
        facts.vendor@ == text::trim(text::lossy_text(inquiry@.subrange(8, 16))),
        facts.product@ == text::trim(text::lossy_text(inquiry@.subrange(16, 32))),
        facts.revision@ == text::trim(text::lossy_text(inquiry@.subrange(32, 36))),
{
    InquiryFacts {
        peripheral_type: inquiry[0] % 32,
        removable: inquiry[1] >= 128,
        vendor: read_text_field(inquiry, 8, 16),
        product: read_text_field(inquiry, 16, 32),
        revision: read_text_field(inquiry, 32, 36),
    }
}

/// The SHA-256 digest of some bytes: the name of what `sha2::Sha256::digest` returns.
pub uninterp spec fn digest(bytes: Seq<u8>) -> Seq<u8>;

/// `sha2::Sha256::digest`: the digest of the bytes, which is 32 bytes long.
#[verifier::external_body]
fn sha256(bytes: &[u8]) -> (d: Vec<u8>)
    ensures
        d@ == digest(bytes@),
        d@.len() == 32,
{
    <sha2::Sha256 as sha2::Digest>::digest(bytes).to_vec()
}

/// Bytes in hexadecimal, two digits each.
pub open spec fn hex_text(bytes: Seq<u8>) -> Seq<char> {
    Seq::new(
        2 * bytes.len(),
        |i: int|
            fastboot::hex_digit(
                if i % 2 == 0 {
                    bytes[i / 2] as int / 16
                } else {
                    bytes[i / 2] as int % 16
                },
            ),
    )
}

/// Writes bytes in hexadecimal, two digits each.
pub fn to_hex_text(bytes: &Vec<u8>) -> (out: String)
    ensures
        out@ == hex_text(bytes@),
{
    let mut out = String::new();
    let mut i: usize = 0;
    while i < bytes.len()
        invariant
            i <= bytes@.len(),
            out@ == hex_text(bytes@.take(i as int)),
        decreases bytes@.len() - i,
    {
        out.append(fastboot::hex_digit_text((bytes[i] / 16) as u64));
        out.append(fastboot::hex_digit_text((bytes[i] % 16) as u64));
        i = i + 1;
        assert(out@ =~= hex_text(bytes@.take(i as int)));
    }
    assert(bytes@.take(i as int) =~= bytes@);
    out
}

/// The digest of a sample, in hexadecimal.
pub fn sample_digest(sample: &Vec<u8>) -> (out: String)
    ensures
        out@ == hex_text(digest(sample@)),
        out@.len() == 64,
{
    to_hex_text(&sha256(sample.as_slice()))
}

/// The command of a stage, opened on a session.
pub open spec fn opens<T>(s: ScsiModel<T>, stage: Stage) -> Opened<T> {
    match stage {
        Stage::Inquiry => s.inquiry(),
        Stage::TestUnitReady => s.test_unit_ready(),
        Stage::Capacity => s.geometry(),
        Stage::ReadBlocks { count, block_size } => s.read_blocks(0, count, block_size),
        Stage::SynchronizeCache => s.flush(),
        Stage::Eject => s.eject(),
    }
}

/// Opens the command of a stage.
pub fn open<T>(session: &mut Scsi<T>, stage: Stage) -> (r: Result<Exchange, Error>)
    ensures
        (final(session)@, scsi::opened_view(r)) == opens(old(session)@, stage),
{
    match stage {
        Stage::Inquiry => session.inquiry(),
        Stage::TestUnitReady => session.test_unit_ready(),
        Stage::Capacity => session.geometry(),
        Stage::ReadBlocks { count, block_size } => session.read_blocks(0, count, block_size),
        Stage::SynchronizeCache => session.flush(),
        Stage::Eject => session.eject(),
    }
}

/// A sample is of at least one block, lies on the medium and is no longer than its
/// bound.
pub proof fn law_samples_are_bounded(g: Geometry)
    requires
        g.block_size != 0,
        samples(g),
    ensures
        1 <= sampled(g) <= g.blocks,
        sampled(g) * g.block_size <= SAMPLE_BYTES,
{
    let size = g.block_size as int;
    let n = sampled(g);
    assert(1 <= 4096int / size && (4096int / size) * size <= 4096) by (nonlinear_arith)
        requires
            1 <= size <= 4096,
    ;
    assert(n * size <= (4096int / size) * size) by (nonlinear_arith)
        requires
            n <= 4096int / size,
            1 <= size,
    ;
}

/// No stage writes: none sends data behind its command, and the operation code in
/// its command wrapper is not that of WRITE(10).
pub proof fn law_qualification_writes_nothing<T>(s: ScsiModel<T>, stage: Stage)
    ensures
        opens(s, stage).1 matches Ok(x) ==> x.outgoing.len() == 0 && x.cbw[15] != 0x2a,
{
}

/// Where every stage is reported as good, a qualification runs each command once,
/// in this order, and passes.
pub proof fn law_qualification_runs_each_stage_once(g: Geometry, sent: Response)
    requires
        samples(g),
    ensures
        follows(Stage::Inquiry, sent) == Next::Run(Stage::TestUnitReady),
        follows(Stage::TestUnitReady, sent) == Next::Run(Stage::Capacity),
        follows(Stage::Capacity, Response::Capacity(g)) matches Next::Run(read) && (read
            is ReadBlocks && follows(read, sent) == Next::Run(Stage::SynchronizeCache)),
        follows(Stage::SynchronizeCache, sent) == Next::Run(Stage::Eject),
        follows(Stage::Eject, sent) == Next::Passed,
{
}

} // verus!
