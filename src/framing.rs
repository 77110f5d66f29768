//! Length-prefixed message framing: `Content-Length: <n>\r\n`, optional
//! further header lines, a blank `\r\n` line, then exactly `n` bytes of UTF-8.
use vstd::prelude::*;
use vstd::string::StringSliceAdditionalSpecFns;
use vstd::utf8::*;

verus! {

broadcast use vstd::utf8::group_utf8_lib;

/// The bytes `Content-Length: ` that open the first header line.
pub open spec fn length_prefix() -> Seq<u8> {
    seq![67u8, 111, 110, 116, 101, 110, 116, 45, 76, 101, 110, 103, 116, 104, 58, 32]
}

pub open spec fn crlf() -> Seq<u8> {
    seq![13u8, 10]
}

pub open spec fn is_digit(b: u8) -> bool {
    48 <= b <= 57
}

pub open spec fn all_digits(d: Seq<u8>) -> bool {
    forall|i: int| 0 <= i < d.len() ==> is_digit(#[trigger] d[i])
}

/// The number that a sequence of decimal digits denotes.
pub open spec fn digits_value(d: Seq<u8>) -> nat
    decreases d.len(),
{
    if d.len() == 0 {
        0
    } else {
        digits_value(d.drop_last()) * 10 + (d.last() - 48) as nat
    }
}

/// The shortest decimal writing of `n`.
pub open spec fn decimal(n: nat) -> Seq<u8>
    decreases n,
{
    if n < 10 {
        seq![(48 + n) as u8]
    } else {
        decimal(n / 10).push((48 + n % 10) as u8)
    }
}

/// A whole message on the wire for a body of the given bytes.
pub open spec fn frame(body: Seq<u8>) -> Seq<u8> {
    length_prefix() + decimal(body.len()) + crlf() + crlf() + body
}

/// Index of the first line feed at or after `i`, or the length when there is none.
pub open spec fn newline_from(s: Seq<u8>, i: int) -> int
    decreases s.len() - i,
{
    if i < 0 || i >= s.len() {
        s.len() as int
    } else if s[i] == 10 {
        i
    } else {
        newline_from(s, i + 1)
    }
}

/// An empty `\r\n` line starts at `q`.
pub open spec fn blank_line_at(s: Seq<u8>, q: int) -> bool {
    1 <= q && q + 1 < s.len() && s[q - 1] == 10 && s[q] == 13 && s[q + 1] == 10
}

/// Index of the first empty line starting at or after `q`, or the length when there is none.
pub open spec fn blank_from(s: Seq<u8>, q: int) -> int
    decreases s.len() - q,
{
    if q < 1 || q + 1 >= s.len() {
        s.len() as int
    } else if blank_line_at(s, q) {
        q
    } else {
        blank_from(s, q + 1)
    }
}

/// Where the digits of a header line (ending in a line feed) stop.
pub open spec fn digits_end(line: Seq<u8>) -> int {
    if line.len() >= 2 && line[line.len() - 2] == 13 {
        line.len() - 2
    } else {
        line.len() - 1
    }
}

/// The line is `Content-Length: <digits>` ended by `\r\n` or `\n`.
pub open spec fn length_line(line: Seq<u8>) -> bool {
    &&& line.len() >= 17
    &&& line.subrange(0, 16) == length_prefix()
    &&& digits_end(line) > 16
    &&& all_digits(line.subrange(16, digits_end(line)))
}

pub open spec fn length_value(line: Seq<u8>) -> nat {
    digits_value(line.subrange(16, digits_end(line)))
}

/// How far a buffer goes towards one message.
pub enum Scan {
    /// The first header line is not complete.
    PartialLine,
    /// The first header line is not a content length.
    BadHeader,
    /// The content length does not fit in a `usize`.
    BadLength,
    /// The blank line that ends the header has not arrived.
    PartialHeaders,
    /// The body starts at `start` and has `len` bytes.
    Body { start: int, len: int },
}

pub open spec fn scan(s: Seq<u8>) -> Scan {
    let e = newline_from(s, 0);
    if e >= s.len() {
        Scan::PartialLine
    } else {
        let line = s.subrange(0, e + 1);
        if !length_line(line) {
            Scan::BadHeader
        } else if length_value(line) > usize::MAX {
            Scan::BadLength
        } else {
            let q = blank_from(s, e + 1);
            if q >= s.len() {
                Scan::PartialHeaders
            } else {
                Scan::Body { start: q + 2, len: length_value(line) as int }
            }
        }
    }
}

/// What one attempt to read a message from the buffered input gives.
#[derive(Debug)]
pub enum ReadOutcome {
    /// A whole message: its body, and how many input bytes it took.
    Message { body: String, consumed: usize },
    /// The input holds part of a message; more bytes are needed.
    NeedMore,
    /// The stream closed before any byte of another message: no more messages.
    Closed,
}

/// Faults of the framing, each fatal to the connection.
#[derive(Debug, Clone, Copy, PartialEq, Eq, Structural)]
pub enum ReadError {
    /// The first header line is not `Content-Length: <digits>`.
    UnexpectedHeader,
    /// The content length does not fit in a `usize`.
    InvalidLength,
    /// The stream closed in the middle of a message.
    UnexpectedEof,
    /// The body is not valid UTF-8.
    InvalidUtf8,
}

/// What reading a message from the bytes `s` gives, `closed` saying whether
/// the stream has ended.
pub enum Expected {
    Closed,
    NeedMore,
    Fail(ReadError),
    Message { start: int, len: int },
}

pub open spec fn expected_read(s: Seq<u8>, closed: bool) -> Expected {
    if s.len() == 0 {
        if closed {
            Expected::Closed
        } else {
            Expected::NeedMore
        }
    } else {
        match scan(s) {
            Scan::PartialLine => if closed {
                Expected::Fail(ReadError::UnexpectedHeader)
            } else {
                Expected::NeedMore
            },
            Scan::BadHeader => Expected::Fail(ReadError::UnexpectedHeader),
            Scan::BadLength => Expected::Fail(ReadError::InvalidLength),
            Scan::PartialHeaders => if closed {
                Expected::Fail(ReadError::UnexpectedEof)
            } else {
                Expected::NeedMore
            },
            Scan::Body { start, len } => if start + len > s.len() {
                if closed {
                    Expected::Fail(ReadError::UnexpectedEof)
                } else {
                    Expected::NeedMore
                }
            } else if valid_utf8(s.subrange(start, start + len)) {
                Expected::Message { start, len }
            } else {
                Expected::Fail(ReadError::InvalidUtf8)
            },
        }
    }
}

/// `r` is the outcome of reading a message from `s`.
pub open spec fn reads_as(s: Seq<u8>, closed: bool, r: Result<ReadOutcome, ReadError>) -> bool {
    match expected_read(s, closed) {
        Expected::Closed => r matches Ok(ReadOutcome::Closed),
        Expected::NeedMore => r matches Ok(ReadOutcome::NeedMore),
        Expected::Fail(e) => r == Err::<ReadOutcome, ReadError>(e),
        Expected::Message { start, len } => {
            &&& r matches Ok(ReadOutcome::Message { body, consumed })
            &&& r->Ok_0->body@ == decode_utf8(s.subrange(start, start + len))
            &&& r->Ok_0->consumed == start + len
        },
    }
}

/// Relies on `String::from_utf8`: it accepts exactly the valid UTF-8 byte
/// sequences and then holds the characters that they encode.
#[verifier::external_body]
fn decode_utf8_bytes(bytes: Vec<u8>) -> (r: Option<String>)
    ensures
        r is Some <==> valid_utf8(bytes@),
        r is Some ==> r->0@ == decode_utf8(bytes@),
{
    String::from_utf8(bytes).ok()
}

fn prefix_bytes() -> (r: Vec<u8>)
    ensures
        r@ == length_prefix(),
{
    let r: Vec<u8> = vec![67u8, 111, 110, 116, 101, 110, 116, 45, 76, 101, 110, 103, 116, 104, 58, 32];
    assert(r@ =~= length_prefix());
    r
}

/// The decimal digits of `n`.
pub fn decimal_digits(n: usize) -> (r: Vec<u8>)
    ensures
        r@ == decimal(n as nat),
    decreases n,
{
    if n < 10 {
        let r: Vec<u8> = vec![(48 + n) as u8];
        assert(r@ =~= decimal(n as nat));
        r
    } else {
        let mut r = decimal_digits(n / 10);
        r.push((48 + n % 10) as u8);
        r
    }
}

/// Frames a body as a message: header with the body's exact byte length,
/// blank line, body.
pub fn frame_message(body: &str) -> (r: Vec<u8>)
    ensures
        r@ == frame(body.spec_bytes()),
{
    let bytes = body.as_bytes();
    let mut r = prefix_bytes();
    let mut digits = decimal_digits(bytes.len());
    r.append(&mut digits);
    r.push(13u8);
    r.push(10u8);
    r.push(13u8);
    r.push(10u8);
    let ghost head = r@;
    let mut i: usize = 0;
    while i < bytes.len()
        invariant
            i <= bytes@.len(),
            r@ == head + bytes@.subrange(0, i as int),
        decreases bytes@.len() - i,
    {
        r.push(bytes[i]);
        i += 1;
        assert(r@ =~= head + bytes@.subrange(0, i as int));
    }
    assert(r@ =~= frame(body.spec_bytes()));
    r
}

proof fn lemma_digits_value_step(d: Seq<u8>, i: int)
    requires
        0 <= i < d.len(),
    ensures
        digits_value(d.subrange(0, i + 1)) == digits_value(d.subrange(0, i)) * 10 + (d[i]
            - 48) as nat,
{
    assert(d.subrange(0, i + 1).drop_last() =~= d.subrange(0, i));
}

/// Extending a digit sequence never makes its value smaller.
proof fn lemma_digits_value_grows(d: Seq<u8>, k: int)
    requires
        0 <= k <= d.len(),
        all_digits(d),
    ensures
        digits_value(d.subrange(0, k)) <= digits_value(d),
    decreases d.len() - k,
{
    if k < d.len() {
        lemma_digits_value_step(d, k);
        assert(is_digit(d[k]));
        lemma_digits_value_grows(d, k + 1);
        assert(d.subrange(0, d.len() as int) =~= d);
    } else {
        assert(d.subrange(0, k) =~= d);
    }
}

proof fn lemma_decimal(n: nat)
    ensures
        decimal(n).len() >= 1,
        all_digits(decimal(n)),
        digits_value(decimal(n)) == n,
    decreases n,
{
    let d = decimal(n);
    if n < 10 {
        assert(d.drop_last() =~= Seq::<u8>::empty());
        assert(digits_value(d.drop_last()) == 0);
        assert(d.last() - 48 == n);
    } else {
        lemma_decimal(n / 10);
        assert(d.drop_last() =~= decimal(n / 10));
        assert(d.last() - 48 == n % 10);
        assert(n == (n / 10) * 10 + n % 10);
        assert forall|i: int| 0 <= i < d.len() implies is_digit(#[trigger] d[i]) by {
            if i < d.len() - 1 {
                assert(d[i] == decimal(n / 10)[i]);
            }
        }
    }
}

proof fn lemma_newline_skip(s: Seq<u8>, a: int, b: int)
    requires
        0 <= a <= b <= s.len(),
        forall|i: int| a <= i < b ==> s[i] != 10,
    ensures
        newline_from(s, a) == newline_from(s, b),
    decreases b - a,
{
    if a < b {
        lemma_newline_skip(s, a + 1, b);
    }
}

proof fn lemma_newline_bounds(s: Seq<u8>, a: int)
    requires
        0 <= a,
    ensures
        a <= newline_from(s, a) <= s.len() || (a > s.len() && newline_from(s, a) == s.len()),
    decreases s.len() - a,
{
    if a < s.len() && s[a] != 10 {
        lemma_newline_bounds(s, a + 1);
    }
}

proof fn lemma_newline_extend(s: Seq<u8>, rest: Seq<u8>, a: int)
    requires
        0 <= a,
        newline_from(s, a) < s.len(),
    ensures
        newline_from(s + rest, a) == newline_from(s, a),
    decreases s.len() - a,
{
    if s[a] != 10 {
        lemma_newline_extend(s, rest, a + 1);
    }
}

/// A framed body reads back as the same characters, whatever bytes follow the
/// frame: the body starts right after the header and has the body's length.
pub proof fn lemma_frame_round_trip(body: Seq<char>, rest: Seq<u8>, closed: bool)
    requires
        encode_utf8(body).len() <= usize::MAX,
    ensures
        ({
            let b = encode_utf8(body);
            let s = frame(b) + rest;
            &&& expected_read(s, closed) == (Expected::Message {
                start: frame(b).len() - b.len(),
                len: b.len() as int,
            })
            &&& scan(s) == (Scan::Body {
                start: frame(b).len() - b.len(),
                len: b.len() as int,
            })
            &&& s.subrange(frame(b).len() - b.len(), frame(b).len() as int) == b
            &&& valid_utf8(b)
            &&& decode_utf8(b) == body
        }),
{
    let b = encode_utf8(body);
    let d = decimal(b.len());
    let s = frame(b) + rest;
    lemma_decimal(b.len());
    let e: int = 16 + d.len() as int + 1;
    assert(s[e] == 10);
    assert forall|i: int| 0 <= i < e implies s[i] != 10 by {
        if i < 16 {
            assert(s[i] == length_prefix()[i]);
        } else if i < 16 + d.len() {
            assert(s[i] == d[i - 16]);
            assert(is_digit(d[i - 16]));
        } else {
            assert(s[i] == 13);
        }
    }
    lemma_newline_skip(s, 0, e);
    let line = s.subrange(0, e + 1);
    assert(line.subrange(0, 16) =~= length_prefix());
    assert(digits_end(line) == 16 + d.len());
    assert(line.subrange(16, digits_end(line)) =~= d);
    assert(blank_line_at(s, e + 1));
    assert(s.subrange(frame(b).len() - b.len(), frame(b).len() as int) =~= b);
}

/// The first header line alone decides a header fault: once it is complete
/// and is not a content length, no later byte changes the outcome.
pub proof fn lemma_bad_header_decides(s: Seq<u8>, rest: Seq<u8>, closed: bool)
    requires
        newline_from(s, 0) < s.len(),
        !length_line(s.subrange(0, newline_from(s, 0) + 1)),
    ensures
        scan(s) == Scan::BadHeader,
        scan(s + rest) == Scan::BadHeader,
        expected_read(s + rest, closed) == Expected::Fail(ReadError::UnexpectedHeader),
{
    let e = newline_from(s, 0);
    lemma_newline_bounds(s, 0);
    lemma_newline_extend(s, rest, 0);
    assert((s + rest).subrange(0, e + 1) =~= s.subrange(0, e + 1));
}

/// Reads the content length from the first header line, `s[0..=e]`.
fn parse_length_line(input: &[u8], e: usize) -> (r: Result<usize, ReadError>)
    requires
        e < input@.len(),
        input@[e as int] == 10,
    ensures
        ({
            let line = input@.subrange(0, e + 1);
            &&& !length_line(line) ==> r == Err::<usize, ReadError>(ReadError::UnexpectedHeader)
            &&& length_line(line) && length_value(line) > usize::MAX ==> r == Err::<
                usize,
                ReadError,
            >(ReadError::InvalidLength)
            &&& length_line(line) && length_value(line) <= usize::MAX ==> r == Ok::<
                usize,
                ReadError,
            >(length_value(line) as usize)
        }),
{
    let ghost s = input@;
    let ghost line = s.subrange(0, e + 1);
    if e < 16 {
        return Err(ReadError::UnexpectedHeader);
    }
    let prefix = prefix_bytes();
    let mut i: usize = 0;
    while i < 16
        invariant
            i <= 16,
            e >= 16,
            e < s.len(),
            s == input@,
            line == s.subrange(0, e + 1),
            prefix@ == length_prefix(),
            forall|j: int| 0 <= j < i ==> s[j] == length_prefix()[j],
        decreases 16 - i,
    {
        if input[i] != prefix[i] {
            assert(line[i as int] != length_prefix()[i as int]);
            assert(line.subrange(0, 16)[i as int] != length_prefix()[i as int]);
            return Err(ReadError::UnexpectedHeader);
        }
        i += 1;
    }
    assert(line.subrange(0, 16) =~= length_prefix());
    let t: usize = if input[e - 1] == 13 {
        e - 1
    } else {
        e
    };
    assert(t == digits_end(line));
    if t <= 16 {
        return Err(ReadError::UnexpectedHeader);
    }
    let ghost digits = line.subrange(16, t as int);
    let mut k: usize = 16;
    while k < t
        invariant
            16 <= k <= t,
            t <= e,
            e < s.len(),
            s == input@,
            line == s.subrange(0, e + 1),
            t == digits_end(line),
            digits == line.subrange(16, t as int),
            forall|j: int| 16 <= j < k ==> is_digit(s[j]),
        decreases t - k,
    {
        if input[k] < 48 || input[k] > 57 {
            assert(!is_digit(digits[k - 16]));
            return Err(ReadError::UnexpectedHeader);
        }
        k += 1;
    }
    assert(all_digits(digits));
    assert(length_line(line));
    let mut v: usize = 0;
    let mut k: usize = 16;
    while k < t
        invariant
            16 <= k <= t,
            t <= e,
            e < s.len(),
            s == input@,
            line == s.subrange(0, e + 1),
            t == digits_end(line),
            digits == line.subrange(16, t as int),
            all_digits(digits),
            length_line(line),
            v as nat == digits_value(digits.subrange(0, k - 16)),
        decreases t - k,
    {
        assert(is_digit(digits[k - 16]));
        assert(digits[k - 16] == s[k as int]);
        let d: usize = (input[k] - 48) as usize;
        proof {
            lemma_digits_value_step(digits, k - 16);
        }
        if v > (usize::MAX - d) / 10 {
            proof {
                lemma_digits_value_grows(digits, k - 16 + 1);
                assert(v * 10 + d > usize::MAX) by (nonlinear_arith)
                    requires
                        v > (usize::MAX - d) / 10,
                        d <= 9,
                ;
                assert(digits_value(digits.subrange(0, k - 16 + 1)) == v * 10 + d);
                assert(length_value(line) == digits_value(digits));
            }
            return Err(ReadError::InvalidLength);
        }
        assert(v * 10 + d <= usize::MAX) by (nonlinear_arith)
            requires
                v <= (usize::MAX - d) / 10,
                d <= 9,
        ;
        v = v * 10 + d;
        k += 1;
    }
    assert(digits.subrange(0, t - 16) =~= digits);
    Ok(v)
}

/// Reads one message from the bytes buffered so far; `closed` says that the
/// stream has ended and no byte will follow them.
pub fn read_message(input: &[u8], closed: bool) -> (r: Result<ReadOutcome, ReadError>)
    ensures
        reads_as(input@, closed, r),
        input@.len() == 0 && closed ==> r matches Ok(ReadOutcome::Closed),
{
    let ghost s = input@;
    let len = input.len();
    if len == 0 {
        return if closed {
            Ok(ReadOutcome::Closed)
        } else {
            Ok(ReadOutcome::NeedMore)
        };
    }
    let mut e: usize = 0;
    while e < len && input[e] != 10u8
        invariant
            e <= len,
            s == input@,
            len == s.len(),
            newline_from(s, 0) == newline_from(s, e as int),
        decreases len - e,
    {
        e += 1;
    }
    if e == len {
        return if closed {
            Err(ReadError::UnexpectedHeader)
        } else {
            Ok(ReadOutcome::NeedMore)
        };
    }
    let n = match parse_length_line(input, e) {
        Ok(n) => n,
        Err(err) => {
            return Err(err);
        },
    };
    let mut q: usize = e + 1;
    while q < len - 1 && !(input[q - 1] == 10u8 && input[q] == 13u8 && input[q + 1] == 10u8)
        invariant
            e < q <= len,
            s == input@,
            len == s.len(),
            blank_from(s, e + 1) == blank_from(s, q as int),
        decreases len - q,
    {
        q += 1;
    }
    if q >= len - 1 {
        return if closed {
            Err(ReadError::UnexpectedEof)
        } else {
            Ok(ReadOutcome::NeedMore)
        };
    }
    let start = q + 2;
    if n > len - start {
        return if closed {
            Err(ReadError::UnexpectedEof)
        } else {
            Ok(ReadOutcome::NeedMore)
        };
    }
    let end = start + n;
    let mut bytes: Vec<u8> = Vec::new();
    let mut i: usize = start;
    while i < end
        invariant
            start <= i <= end,
            end <= len,
            s == input@,
            len == s.len(),
            bytes@ == s.subrange(start as int, i as int),
        decreases end - i,
    {
        bytes.push(input[i]);
        i += 1;
        assert(bytes@ =~= s.subrange(start as int, i as int));
    }
    match decode_utf8_bytes(bytes) {
        Some(body) => Ok(ReadOutcome::Message { body, consumed: end }),
        None => Err(ReadError::InvalidUtf8),
    }
}

} // verus!
