//! A fastboot session: when its client may be used again, and the partition
//! hash that one kind of device offers.

use vstd::prelude::*;
use vstd::string::StringExecFns;

use crate::path;
use crate::text;

verus! {

/// How long a variable may take to be read, in milliseconds.
pub const GET_VAR_MILLISECONDS: u32 = 15_000;

/// How long a command may take, in milliseconds.
pub const COMMAND_MILLISECONDS: u32 = 120_000;

/// How long a fetch may take, in milliseconds.
pub const FETCH_MILLISECONDS: u32 = 60_000;

/// How long a flash may take, in milliseconds.
pub const FLASH_MILLISECONDS: u32 = 120_000;

/// The length of a SHA-256 digest.
pub const DIGEST_BYTES: usize = 32;

/// How a fastboot operation ended.
pub enum Outcome<V> {
    /// It succeeded.
    Finished(V),
    /// The device answered with a complete failure, so the framing holds.
    Refused(String),
    /// It broke off.
    Broken(String),
    /// It was not over in time.
    TimedOut,
}

/// What is to be done about it.
pub enum Settled<V> {
    /// Report this.
    Report(Result<V, String>),
    /// Close the device, then report this failure.
    CloseFirst(String),
}

/// A fastboot session. Its client is taken for each operation and put back only
/// where the operation left the framing intact.
pub struct FastbootSession<C> {
    client: Option<C>,
}

impl<C> View for FastbootSession<C> {
    type V = Option<C>;

    closed spec fn view(&self) -> Option<C> {
        self.client
    }
}

impl<C> FastbootSession<C> {
    /// A session with its client.
    pub fn new(client: C) -> (s: Self)
        ensures
            s@ == Some(client),
    {
        FastbootSession { client: Some(client) }
    }

    /// Whether the session takes operations.
    pub fn usable(&self) -> (usable: bool)
        ensures
            usable == (self@ is Some),
    {
        self.client.is_some()
    }

    /// Takes the client for one operation.
    pub fn take(&mut self) -> (r: Result<C, String>)
        ensures
            final(self)@ is None,
            match old(self)@ {
                Some(c) => r == Ok::<C, String>(c),
                None => r matches Err(e) && e@ == "session is closed or uncertain; reconnect"@,
            },
    {
        match self.client.take() {
            Some(c) => Ok(c),
            None => Err("session is closed or uncertain; reconnect".to_owned()),
        }
    }

    /// Gives the client up; the device is to be closed.
    pub fn close(&mut self) -> (client: Option<C>)
        ensures
            client == old(self)@,
            final(self)@ is None,
    {
        self.client.take()
    }

    /// Settles an operation: the client comes back after a success and after a
    /// complete refusal, and after nothing else.
    pub fn finish<V>(&mut self, client: C, outcome: Outcome<V>) -> (r: Settled<V>)
        ensures
            match outcome {
                Outcome::Finished(v) => r == Settled::Report(Ok::<V, String>(v)) && final(self)@
                    == Some(client),
                Outcome::Refused(e) => r == Settled::<V>::Report(Err(e)) && final(self)@ == Some(
                    client,
                ),
                Outcome::Broken(e) => r == Settled::<V>::CloseFirst(e) && final(self)@ == old(
                    self,
                )@,
                Outcome::TimedOut => r matches Settled::CloseFirst(e) && e@
                    == "USB operation timed out; reconnect"@ && final(self)@ == old(self)@,
            },
    {
        match outcome {
            Outcome::Finished(v) => {
                self.client = Some(client);
                Settled::Report(Ok(v))
            },
            Outcome::Refused(e) => {
                self.client = Some(client);
                Settled::Report(Err(e))
            },
            Outcome::Broken(e) => Settled::CloseFirst(e),
            Outcome::TimedOut => Settled::CloseFirst(
                "USB operation timed out; reconnect".to_owned(),
            ),
        }
    }

    /// Starts a flash of an image: its length is accepted before the client is
    /// taken.
    pub fn begin_flash(&mut self, length: usize) -> (r: Result<(C, u32), String>)
        ensures
            match image_length(length) {
                Err(why) => r matches Err(e) && e@ == why && final(self)@ == old(self)@,
                Ok(size) => final(self)@ is None && match old(self)@ {
                    Some(c) => r == Ok::<(C, u32), String>((c, size)),
                    None => r matches Err(e) && e@ == "session is closed or uncertain; reconnect"@,
                },
            },
    {
        if length as u64 > 0xffff_ffff {
            return Err("out of range integral type conversion attempted".to_owned());
        }
        if length == 0 {
            return Err("empty image".to_owned());
        }
        match self.take() {
            Ok(c) => Ok((c, length as u32)),
            Err(e) => Err(e),
        }
    }

    /// Settles a flash. Even a complete refusal leaves it unknown what was
    /// written, so that only a success brings the client back.
    pub fn finish_flash(&mut self, client: C, outcome: Outcome<()>) -> (r: Settled<()>)
        ensures
            match outcome {
                Outcome::Finished(_) => r == Settled::Report(Ok::<(), String>(())) && final(self)@
                    == Some(client),
                Outcome::Refused(e) => r == Settled::<()>::CloseFirst(e) && final(self)@ == old(
                    self,
                )@,
                Outcome::Broken(e) => r == Settled::<()>::CloseFirst(e) && final(self)@ == old(
                    self,
                )@,
                Outcome::TimedOut => r matches Settled::CloseFirst(e) && e@
                    == "USB operation timed out; reconnect"@ && final(self)@ == old(self)@,
            },
    {
        match outcome {
            Outcome::Refused(e) => Settled::CloseFirst(e),
            other => self.finish(client, other),
        }
    }
}

/// One of the calls that make up a flash.
#[derive(Clone, Copy, Debug)]
pub enum FlashCall<'a> {
    /// Announce a download of so many bytes, send the image and complete it.
    Download { size: u32, image: &'a [u8] },
    /// Write what was downloaded to the partition.
    Flash { partition: &'a str },
}

/// What follows a call of a flash.
pub enum FlashStep<'a> {
    /// The next call.
    Call(FlashCall<'a>),
    /// The flash is over.
    Over(Outcome<()>),
}

/// What follows a call of a flash to this partition.
pub open spec fn flash_follows<'a>(
    call: FlashCall<'a>,
    partition: &'a str,
    result: Result<(), String>,
) -> FlashStep<'a> {
    match result {
        Err(e) => FlashStep::Over(Outcome::Broken(e)),
        Ok(()) => match call {
            FlashCall::Download { .. } => FlashStep::Call(FlashCall::Flash { partition }),
            FlashCall::Flash { .. } => FlashStep::Over(Outcome::Finished(())),
        },
    }
}

/// The first call of a flash, for an image whose length was accepted: its download.
pub fn first_flash_call<'a>(size: u32, image: &'a [u8]) -> (call: FlashCall<'a>)
    ensures
        call == (FlashCall::Download { size, image }),
{
    FlashCall::Download { size, image }
}

/// What follows a call of a flash to this partition. Nothing is written before the
/// download is complete, and nothing is tried twice.
pub fn after_flash_call<'a>(
    call: FlashCall<'a>,
    partition: &'a str,
    result: Result<(), String>,
) -> (step: FlashStep<'a>)
    ensures
        step == flash_follows(call, partition, result),
{
    match result {
        Err(e) => FlashStep::Over(Outcome::Broken(e)),
        Ok(()) => match call {
            FlashCall::Download { .. } => FlashStep::Call(FlashCall::Flash { partition }),
            FlashCall::Flash { .. } => FlashStep::Over(Outcome::Finished(())),
        },
    }
}

/// A flash whose calls succeed downloads the whole image, writes it to the partition
/// once, and is over; one whose call fails is over with that failure, and no call
/// follows.
pub proof fn law_flashes_go_one_way<'a>(size: u32, image: &'a [u8], partition: &'a str, why: String)
    requires
        image_length(image@.len() as usize) == Ok::<u32, Seq<char>>(size),
        image@.len() <= usize::MAX,
    ensures
        size == image@.len(),
        ({
            let download = FlashCall::Download { size, image };
            let flash = FlashCall::Flash { partition };
            &&& flash_follows(download, partition, Ok(())) == FlashStep::Call(flash)
            &&& flash_follows(flash, partition, Ok(())) == FlashStep::Over(Outcome::Finished(()))
            &&& flash_follows(download, partition, Err(why)) == FlashStep::Over(
                Outcome::Broken(why),
            )
            &&& flash_follows(flash, partition, Err(why)) == FlashStep::Over(Outcome::Broken(why))
        }),
{
}

/// The length of an image as the protocol carries it, or why it does not.
pub open spec fn image_length(length: usize) -> Result<u32, Seq<char>> {
    if length > u32::MAX {
        Err("out of range integral type conversion attempted"@)
    } else if length == 0 {
        Err("empty image"@)
    } else {
        Ok(length as u32)
    }
}

/// The hexadecimal digit for a number below 16.
pub open spec fn hex_digit(n: int) -> char {
    if n == 0 {
        '0'
    } else if n == 1 {
        '1'
    } else if n == 2 {
        '2'
    } else if n == 3 {
        '3'
    } else if n == 4 {
        '4'
    } else if n == 5 {
        '5'
    } else if n == 6 {
        '6'
    } else if n == 7 {
        '7'
    } else if n == 8 {
        '8'
    } else if n == 9 {
        '9'
    } else if n == 10 {
        'a'
    } else if n == 11 {
        'b'
    } else if n == 12 {
        'c'
    } else if n == 13 {
        'd'
    } else if n == 14 {
        'e'
    } else {
        'f'
    }
}

/// A number in hexadecimal, without leading zeros.
pub open spec fn hex(n: nat) -> Seq<char>
    decreases n,
{
    if n < 16 {
        seq![hex_digit(n as int)]
    } else {
        hex(n / 16).push(hex_digit((n % 16) as int))
    }
}

/// The number that hexadecimal digits write.
pub open spec fn hex_value(s: Seq<char>) -> nat
    decreases s.len(),
{
    if s.len() == 0 {
        0
    } else {
        16 * hex_value(s.drop_last()) + hex_digit_value(s.last())
    }
}

/// The number that a hexadecimal digit writes.
pub open spec fn hex_digit_value(c: char) -> nat {
    if c as u32 <= 0x39 {
        (c as u32 - 0x30) as nat
    } else {
        (c as u32 - 0x57) as nat
    }
}

pub(crate) fn hex_digit_text(n: u64) -> (s: &'static str)
    requires
        n < 16,
    ensures
        s@ == seq![hex_digit(n as int)],
{
    proof {
        reveal_strlit("0");
        reveal_strlit("1");
        reveal_strlit("2");
        reveal_strlit("3");
        reveal_strlit("4");
        reveal_strlit("5");
        reveal_strlit("6");
        reveal_strlit("7");
        reveal_strlit("8");
        reveal_strlit("9");
        reveal_strlit("a");
        reveal_strlit("b");
        reveal_strlit("c");
        reveal_strlit("d");
        reveal_strlit("e");
        reveal_strlit("f");
    }
    match n {
        0 => "0",
        1 => "1",
        2 => "2",
        3 => "3",
        4 => "4",
        5 => "5",
        6 => "6",
        7 => "7",
        8 => "8",
        9 => "9",
        10 => "a",
        11 => "b",
        12 => "c",
        13 => "d",
        14 => "e",
        _ => "f",
    }
}

/// Writes a number in hexadecimal.
pub fn to_hex(n: u64) -> (s: String)
    ensures
        s@ == hex(n as nat),
    decreases n,
{
    let last = hex_digit_text(n % 16);
    if n < 16 {
        last.to_owned()
    } else {
        let s = to_hex(n / 16).concat(last);
        assert(s@ =~= hex(n as nat));
        s
    }
}

/// Different numbers are written differently, and reading gives the number back.
pub proof fn law_hex_reads_back(n: nat)
    ensures
        hex_value(hex(n)) == n,
    decreases n,
{
    let s = hex(n);
    if n >= 16 {
        law_hex_reads_back(n / 16);
        assert(s.drop_last() =~= hex(n / 16));
    } else {
        assert(s.drop_last() =~= seq![]);
        assert(hex_value(s.drop_last()) == 0);
    }
}

/// The command that asks for the hash of a range, or why there is none.
pub open spec fn hash_request(
    capability: Seq<char>,
    partition: Seq<char>,
    offset: u64,
    length: u64,
) -> Result<Seq<char>, Seq<char>> {
    if capability != "sha256-range-v1"@ {
        Err("partition hash is not supported"@)
    } else if partition.contains(':') || length == 0 || offset + length > u64::MAX {
        Err("invalid hash range"@)
    } else {
        Ok("hash:"@ + partition + ":"@ + hex(offset as nat) + ":"@ + hex(length as nat))
    }
}

/// A text or a complaint, by their views.
pub open spec fn text_view(r: Result<String, String>) -> Result<Seq<char>, Seq<char>> {
    match r {
        Ok(s) => Ok(s@),
        Err(e) => Err(e@),
    }
}

fn has_colon(s: &str) -> (yes: bool)
    ensures
        yes == s@.contains(':'),
{
    let chars = text::characters(s);
    let mut i: usize = 0;
    while i < chars.len()
        invariant
            i <= chars@.len(),
            chars@ == s@,
            forall|k: int| 0 <= k < i ==> chars@[k] != ':',
        decreases chars@.len() - i,
    {
        if chars[i] == ':' {
            assert(s@[i as int] == ':');
            return true;
        }
        i = i + 1;
    }
    false
}

/// The command that asks for the hash of a range of a partition, where the
/// device says that it can.
pub fn hash_command(capability: &str, partition: &str, offset: u64, length: u64) -> (r: Result<
    String,
    String,
>)
    ensures
        text_view(r) == hash_request(capability@, partition@, offset, length),
{
    if !text::same(capability, "sha256-range-v1") {
        return Err("partition hash is not supported".to_owned());
    }
    if has_colon(partition) || length == 0 || offset > u64::MAX - length {
        return Err("invalid hash range".to_owned());
    }
    let mut command = "hash:".to_owned();
    command.append(partition);
    command.append(":");
    command.append(to_hex(offset).as_str());
    command.append(":");
    command.append(to_hex(length).as_str());
    Ok(command)
}

/// The six bits that a symbol of the URL-safe alphabet stands for, or -1.
pub open spec fn symbol(b: u8) -> int {
    if 0x41 <= b <= 0x5a {
        b - 0x41
    } else if 0x61 <= b <= 0x7a {
        b - 0x61 + 26
    } else if 0x30 <= b <= 0x39 {
        b - 0x30 + 52
    } else if b == 0x2d {
        62
    } else if b == 0x5f {
        63
    } else {
        -1
    }
}

/// Whether bytes are unpadded URL-safe Base64: symbols throughout, never one
/// alone at the end, and no bits left over but zeros.
pub open spec fn is_base64(s: Seq<u8>) -> bool {
    &&& forall|i: int| 0 <= i < s.len() ==> symbol(#[trigger] s[i]) >= 0
    &&& s.len() % 4 != 1
    &&& s.len() % 4 == 2 ==> symbol(s.last()) % 16 == 0
    &&& s.len() % 4 == 3 ==> symbol(s.last()) % 4 == 0
}

/// What Base64 decodes to: each byte is eight bits of two neighbouring symbols.
pub open spec fn base64_bytes(s: Seq<u8>) -> Seq<u8> {
    Seq::new(
        s.len() * 3 / 4,
        |i: int|
            {
                let pair = symbol(s[i * 4 / 3]) * 64 + symbol(s[i * 4 / 3 + 1]);
                (if i % 3 == 0 {
                    pair / 16
                } else if i % 3 == 1 {
                    pair / 4 % 256
                } else {
                    pair % 256
                }) as u8
            },
    )
}

/// What is said of bytes that are not Base64: the name of the message of the
/// error that the decoder returns.
pub uninterp spec fn base64_complaint(s: Seq<u8>) -> Seq<char>;

/// `base64::engine::general_purpose::URL_SAFE_NO_PAD.decode`: the bytes that
/// unpadded URL-safe Base64 stands for, or a message about what is wrong.
#[verifier::external_body]
fn decode_base64(reply: &str) -> (r: Result<Vec<u8>, String>)
    ensures
        r is Ok <==> is_base64(vstd::utf8::encode_utf8(reply@)),
        r matches Ok(v) ==> v@ == base64_bytes(vstd::utf8::encode_utf8(reply@)),
        r matches Err(e) ==> e@ == base64_complaint(vstd::utf8::encode_utf8(reply@)),
{
    base64::Engine::decode(&base64::engine::general_purpose::URL_SAFE_NO_PAD, reply)
        .map_err(|e| e.to_string())
}

/// Accepts a decoded reply of the length of a digest.
pub fn digest_of(decoded: Result<Vec<u8>, String>) -> (r: Result<Vec<u8>, String>)
    ensures
        match decoded {
            Err(e) => r == Err::<Vec<u8>, String>(e),
            Ok(v) => if v@.len() == 32 {
                r == Ok::<Vec<u8>, String>(v)
            } else {
                r matches Err(e) && e@ == "invalid SHA-256 reply length"@
            },
        },
{
    match decoded {
        Err(e) => Err(e),
        Ok(v) => if v.len() != DIGEST_BYTES {
            Err("invalid SHA-256 reply length".to_owned())
        } else {
            Ok(v)
        },
    }
}

/// Reads the digest out of a reply.
pub fn hash_digest(reply: &str) -> (r: Result<Vec<u8>, String>)
    ensures
        ({
            let b = vstd::utf8::encode_utf8(reply@);
            match r {
                Ok(v) => is_base64(b) && v@ == base64_bytes(b) && v@.len() == 32,
                Err(e) => if is_base64(b) {
                    base64_bytes(b).len() != 32 && e@ == "invalid SHA-256 reply length"@
                } else {
                    e@ == base64_complaint(b)
                },
            }
        }),
{
    digest_of(decode_base64(reply))
}

/// A digest is 32 bytes, which is what 43 symbols stand for, and no other number
/// of them.
pub proof fn law_digests_are_43_symbols(reply: Seq<char>)
    ensures
        base64_bytes(vstd::utf8::encode_utf8(reply)).len() == 32 <==> path::byte_length(reply)
            == 43,
{
}

/// A command names a partition without a colon, and so can be taken apart again
/// into its partition, offset and length.
pub proof fn law_hash_commands_are_unambiguous(
    partition: Seq<char>,
    offset: u64,
    length: u64,
    other: Seq<char>,
    other_offset: u64,
    other_length: u64,
)
    requires
        hash_request("sha256-range-v1"@, partition, offset, length) is Ok,
        hash_request("sha256-range-v1"@, partition, offset, length) == hash_request(
            "sha256-range-v1"@,
            other,
            other_offset,
            other_length,
        ),
    ensures
        partition == other,
        offset == other_offset,
        length == other_length,
{
    let head = "hash:"@;
    let x = hex(offset as nat);
    let y = hex(length as nat);
    let u = hex(other_offset as nat);
    let v = hex(other_length as nat);
    reveal_strlit(":");
    let colon = ":"@;
    assert(colon =~= seq![':']);
    let tail = colon + (x + (colon + y));
    let other_tail = colon + (u + (colon + v));
    let whole = hash_request("sha256-range-v1"@, partition, offset, length)->Ok_0;
    assert(whole =~= head + (partition + tail));
    assert(whole =~= head + (other + other_tail));
    assert((head + (partition + tail)).skip(head.len() as int) =~= partition + tail);
    assert((head + (other + other_tail)).skip(head.len() as int) =~= other + other_tail);
    lemma_split_at_colon(partition, x + (colon + y), other, u + (colon + v));
    lemma_hex_has_no_colon(offset as nat);
    lemma_hex_has_no_colon(other_offset as nat);
    lemma_split_at_colon(x, y, u, v);
    law_hex_reads_back(offset as nat);
    law_hex_reads_back(other_offset as nat);
    law_hex_reads_back(length as nat);
    law_hex_reads_back(other_length as nat);
}

proof fn lemma_hex_has_no_colon(n: nat)
    ensures
        !hex(n).contains(':'),
    decreases n,
{
    if n >= 16 {
        lemma_hex_has_no_colon(n / 16);
        let s = hex(n / 16);
        assert forall|i: int| 0 <= i < hex(n).len() implies hex(n)[i] != ':' by {
            if i < s.len() {
                assert(hex(n)[i] == s[i]);
                assert(s.contains(s[i]));
            }
        }
    }
}

/// Two texts that agree up to their first colon agree on both sides of it.
proof fn lemma_split_at_colon(a: Seq<char>, b: Seq<char>, c: Seq<char>, d: Seq<char>)
    requires
        !a.contains(':'),
        !c.contains(':'),
        a + (seq![':'] + b) == c + (seq![':'] + d),
    ensures
        a == c,
        b == d,
{
    let s = a + (seq![':'] + b);
    let t = c + (seq![':'] + d);
    assert(s[a.len() as int] == ':');
    assert(t[c.len() as int] == ':');
    if a.len() < c.len() {
        assert(t[a.len() as int] == c[a.len() as int]);
        assert(c.contains(c[a.len() as int]));
    }
    if c.len() < a.len() {
        assert(s[c.len() as int] == a[c.len() as int]);
        assert(a.contains(a[c.len() as int]));
    }
    assert(a =~= s.take(a.len() as int));
    assert(c =~= t.take(c.len() as int));
    assert(b =~= s.skip(a.len() + 1int));
    assert(d =~= t.skip(c.len() + 1int));
}

/// What is reported of an initialization that failed: always the failure itself,
/// with what went wrong in cleaning up behind it, if anything did.
pub open spec fn failure_report(original: Seq<char>, cleanup: Option<Seq<char>>) -> Seq<char> {
    match cleanup {
        None => original,
        Some(detail) => original + "; cleanup failed: "@ + detail,
    }
}

/// What is reported of an initialization that failed.
pub fn report_failure(original: String, cleanup: Option<String>) -> (report: String)
    ensures
        report@ == failure_report(
            original@,
            match cleanup {
                Some(d) => Some(d@),
                None => None,
            },
        ),
{
    match cleanup {
        None => original,
        Some(detail) => original.concat("; cleanup failed: ").concat(detail.as_str()),
    }
}

/// The first failure survives a failed cleanup.
pub proof fn law_first_failure_survives(original: Seq<char>, cleanup: Option<Seq<char>>)
    ensures
        original.is_prefix_of(failure_report(original, cleanup)),
        cleanup matches Some(detail) ==> detail.is_suffix_of(failure_report(original, cleanup)),
{
    let report = failure_report(original, cleanup);
    assert(report.subrange(0, original.len() as int) =~= original);
    if let Some(detail) = cleanup {
        assert(report.subrange(report.len() - detail.len(), report.len() as int) =~= detail);
    }
}

} // verus!
