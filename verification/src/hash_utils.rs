//! Fingerprints and timestamps of files.
use vstd::prelude::*;

verus! {

/// The state of a digest computation of the `md5` crate.
#[verifier::external_type_specification]
#[verifier::external_body]
pub struct ExMd5Context(md5::Context);

/// The data that a digest computation has consumed so far, in order.
pub uninterp spec fn consumed(context: md5::Context) -> Seq<u8>;

/// The MD5 digest of the given data.
pub uninterp spec fn md5_digest(data: Seq<u8>) -> Seq<u8>;

/// `md5::Context::new`: a computation that has consumed nothing.
pub assume_specification[ md5::Context::new ]() -> (context: md5::Context)
    ensures
        consumed(context) == Seq::<u8>::empty(),
;

/// `md5::Context::consume`: adds the data to what was consumed before.
#[verifier::external_body]
fn md5_consume(context: &mut md5::Context, data: &[u8])
    ensures
        consumed(*final(context)) == consumed(*old(context)) + data@,
{
    context.consume(data)
}

/// `md5::Context::finalize`: the digest of all that was consumed, a function
/// of that data alone, in sixteen bytes.
#[verifier::external_body]
fn md5_finalize(context: md5::Context) -> (digest: [u8; 16])
    ensures
        digest@ == md5_digest(consumed(context)),
{
    context.finalize().0
}

/// What `chrono` writes for a time in UTC, given in seconds since the Unix
/// epoch and nanoseconds, in the format of RFC 3339; nothing where there is no
/// such time.
pub uninterp spec fn rfc3339_text(secs: i64, nanos: u32) -> Option<Seq<char>>;

/// `chrono::DateTime::from_timestamp`, written by `to_rfc3339`: a function of
/// the two numbers alone. There is a text for every whole time that the crate
/// can represent, which is from the year -262143 to the year 262142. How the
/// text reads is left to the name.
#[verifier::external_body]
fn rfc3339_utc(secs: i64, nanos: u32) -> (text: Option<String>)
    ensures
        text is Some <==> rfc3339_text(secs, nanos) is Some,
        text is Some ==> text->0@ == rfc3339_text(secs, nanos)->0,
        -8_334_601_228_800 <= secs <= 8_210_266_876_799 && nanos < 1_000_000_000 ==> text is Some,
{
    chrono::DateTime::from_timestamp(secs, nanos).map(|time| time.to_rfc3339())
}

/// The hexadecimal digit of value `n`, in lower case.
pub open spec fn hex_digit(n: int) -> char {
    if n < 10 {
        (('0' as u32 + n) as u32) as char
    } else {
        (('a' as u32 + n - 10) as u32) as char
    }
}

/// The bytes in hexadecimal, two digits for each.
pub open spec fn hex_text(bytes: Seq<u8>) -> Seq<char> {
    Seq::new(
        2 * bytes.len(),
        |i: int|
            if i % 2 == 0 {
                hex_digit(bytes[i / 2] as int / 16)
            } else {
                hex_digit(bytes[i / 2] as int % 16)
            },
    )
}

/// The fingerprint of a file's content: its MD5 digest in hexadecimal.
pub open spec fn fingerprint(content: Seq<u8>) -> Seq<char> {
    hex_text(md5_digest(content))
}

/// The character of a hexadecimal digit.
fn to_hex_digit(n: u8) -> (c: char)
    requires
        n < 16,
    ensures
        c == hex_digit(n as int),
{
    match n {
        0 => '0',
        1 => '1',
        2 => '2',
        3 => '3',
        4 => '4',
        5 => '5',
        6 => '6',
        7 => '7',
        8 => '8',
        9 => '9',
        10 => 'a',
        11 => 'b',
        12 => 'c',
        13 => 'd',
        14 => 'e',
        _ => 'f',
    }
}

/// Writes bytes in hexadecimal.
pub fn to_hex(bytes: &[u8]) -> (s: String)
    ensures
        s@ == hex_text(bytes@),
{
    let mut s: String = String::new();
    let mut i: usize = 0;
    while i < bytes.len()
        invariant
            i <= bytes.len(),
            s@ == hex_text(bytes@).take(2 * i),
        decreases bytes.len() - i,
    {
        let ghost before = s@;
        s.push(to_hex_digit(bytes[i] / 16));
        s.push(to_hex_digit(bytes[i] % 16));
        assert(hex_text(bytes@).take(2 * (i + 1)) == before.push(
            hex_digit(bytes@[i as int] as int / 16),
        ).push(hex_digit(bytes@[i as int] as int % 16)));
        i += 1;
    }
    assert(hex_text(bytes@).take(2 * i) == hex_text(bytes@));
    s
}

/// A fingerprint in the making, for content that comes piece by piece.
pub struct ContentHasher {
    context: md5::Context,
}

impl ContentHasher {
    /// The content taken in so far.
    pub closed spec fn content(&self) -> Seq<u8> {
        consumed(self.context)
    }

    /// A fingerprint of nothing yet.
    pub fn new() -> (r: Self)
        ensures
            r.content() == Seq::<u8>::empty(),
    {
        ContentHasher { context: md5::Context::new() }
    }

    /// Takes in the next piece of the content.
    pub fn consume(&mut self, piece: &[u8])
        ensures
            final(self).content() == old(self).content() + piece@,
    {
        md5_consume(&mut self.context, piece);
    }

    /// The fingerprint of the content taken in, in thirty-two digits.
    pub fn finish(self) -> (s: String)
        ensures
            s@ == fingerprint(self.content()),
            s@.len() == 32,
    {
        let digest = md5_finalize(self.context);
        to_hex(&digest)
    }
}

/// The fingerprint of a whole content, in thirty-two digits.
pub fn compute_md5(content: &[u8]) -> (s: String)
    ensures
        s@ == fingerprint(content@),
        s@.len() == 32,
{
    let mut hasher = ContentHasher::new();
    hasher.consume(content);
    assert(hasher.content() == content@);
    hasher.finish()
}

/// Why a file has no timestamp.
#[derive(Debug, Clone, Copy, PartialEq, Eq, Structural)]
pub enum TimestampError {
    /// The time lies before the Unix epoch.
    BeforeEpoch,
}

/// Unix seconds as the database keeps them, in two's complement.
pub open spec fn signed_seconds(secs: u64) -> int {
    if secs <= i64::MAX {
        secs as int
    } else {
        secs - 0x1_0000_0000_0000_0000
    }
}

/// The timestamp of a file that was modified the given whole seconds after the
/// Unix epoch (`None` if it was before).
pub fn modified_unix_timestamp(since_epoch: Option<u64>) -> (r: Result<i64, TimestampError>)
    ensures
        match since_epoch {
            Some(secs) => r is Ok && r->Ok_0 == signed_seconds(secs),
            None => r is Err && r->Err_0 == TimestampError::BeforeEpoch,
        },
{
    match since_epoch {
        Some(secs) => {
            let t: i64 = secs as i64;
            assert(secs <= 0x7fff_ffff_ffff_ffff ==> secs as i64 == secs) by (bit_vector);
            assert(secs > 0x7fff_ffff_ffff_ffff ==> secs as i64 == secs - 0x1_0000_0000_0000_0000)
                by (bit_vector);
            Ok(t)
        },
        None => Err(TimestampError::BeforeEpoch),
    }
}

/// The time a file was modified, in the format of RFC 3339, from its seconds
/// since the Unix epoch and the nanoseconds on top. There is one for every
/// whole time from the year -262143 to the year 262142.
pub fn modified_rfc3339(secs: i64, nanos: u32) -> (text: Option<String>)
    ensures
        text is Some <==> rfc3339_text(secs, nanos) is Some,
        text is Some ==> text->0@ == rfc3339_text(secs, nanos)->0,
        -8_334_601_228_800 <= secs <= 8_210_266_876_799 && nanos < 1_000_000_000 ==> text is Some,
{
    rfc3339_utc(secs, nanos)
}

} // verus!
