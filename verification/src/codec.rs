//! Byte-level encodings used by the consensus protocol: the compact JSON form
//! of a client request (the input of its digest) and decimal node identifiers.
use vstd::prelude::*;
use vstd::string::StringSliceAdditionalSpecFns;

verus! {

// ---------------------------------------------------------------------------
// Decimal numbers
// ---------------------------------------------------------------------------

/// ASCII digit for a value below ten.
pub open spec fn digit_byte(d: nat) -> u8 {
    (48 + d) as u8
}

/// Decimal representation of `n` as ASCII bytes, without leading zeros.
pub open spec fn decimal(n: nat) -> Seq<u8>
    decreases n,
{
    if n < 10 {
        seq![digit_byte(n)]
    } else {
        decimal(n / 10).push(digit_byte(n % 10))
    }
}

/// Appends the decimal representation of `n` to `out`.
pub fn write_decimal(out: &mut Vec<u8>, n: u64)
    ensures
        final(out)@ == old(out)@ + decimal(n as nat),
    decreases n,
{
    if n < 10 {
        out.push(48u8 + (n as u8));
        assert(decimal(n as nat) =~= seq![digit_byte(n as nat)]);
    } else {
        write_decimal(out, n / 10);
        out.push(48u8 + ((n % 10) as u8));
    }
}

/// Appends every byte of `s` to `out`.
pub fn push_slice(out: &mut Vec<u8>, s: &[u8])
    ensures
        final(out)@ == old(out)@ + s@,
{
    let mut i: usize = 0;
    while i < s.len()
        invariant
            i <= s@.len(),
            out@ == old(out)@ + s@.take(i as int),
        decreases s@.len() - i,
    {
        out.push(s[i]);
        i = i + 1;
        assert(s@.take(i as int) =~= s@.take(i - 1).push(s@[i - 1]));
    }
    assert(s@.take(s@.len() as int) =~= s@);
}

// ---------------------------------------------------------------------------
// JSON strings and arrays, as serde_json writes them in compact form
// ---------------------------------------------------------------------------

/// Lower-case hexadecimal digit for a value below sixteen.
pub open spec fn hex_digit(d: nat) -> u8 {
    if d < 10 {
        (48 + d) as u8
    } else {
        (87 + d) as u8
    }
}

/// The JSON escape of one byte of a UTF-8 string: quote, backslash and the
/// control characters are escaped, every other byte is written as it is.
pub open spec fn escape_byte(b: u8) -> Seq<u8> {
    if b == 34 {
        seq![92u8, 34u8]
    } else if b == 92 {
        seq![92u8, 92u8]
    } else if b == 8 {
        seq![92u8, 98u8]
    } else if b == 9 {
        seq![92u8, 116u8]
    } else if b == 10 {
        seq![92u8, 110u8]
    } else if b == 12 {
        seq![92u8, 102u8]
    } else if b == 13 {
        seq![92u8, 114u8]
    } else if b < 32 {
        seq![92u8, 117u8, 48u8, 48u8, hex_digit((b / 16) as nat), hex_digit((b % 16) as nat)]
    } else {
        seq![b]
    }
}

/// The escaped body of a JSON string holding the bytes `s`.
pub open spec fn escape_bytes(s: Seq<u8>) -> Seq<u8>
    decreases s.len(),
{
    if s.len() == 0 {
        Seq::empty()
    } else {
        escape_bytes(s.drop_last()) + escape_byte(s.last())
    }
}

/// A JSON string literal holding the UTF-8 bytes `s`.
pub open spec fn json_string(s: Seq<u8>) -> Seq<u8> {
    seq![34u8] + escape_bytes(s) + seq![34u8]
}

/// The comma-separated decimal elements of a JSON array of bytes.
pub open spec fn byte_list(s: Seq<u8>) -> Seq<u8>
    decreases s.len(),
{
    if s.len() == 0 {
        Seq::empty()
    } else if s.len() == 1 {
        decimal(s[0] as nat)
    } else {
        byte_list(s.drop_last()).push(44u8) + decimal(s.last() as nat)
    }
}

/// Appends the JSON escape of one byte.
fn write_escaped_byte(out: &mut Vec<u8>, b: u8)
    ensures
        final(out)@ == old(out)@ + escape_byte(b),
{
    if b == 34u8 {
        push_slice(out, &[92u8, 34u8]);
    } else if b == 92u8 {
        push_slice(out, &[92u8, 92u8]);
    } else if b == 8u8 {
        push_slice(out, &[92u8, 98u8]);
    } else if b == 9u8 {
        push_slice(out, &[92u8, 116u8]);
    } else if b == 10u8 {
        push_slice(out, &[92u8, 110u8]);
    } else if b == 12u8 {
        push_slice(out, &[92u8, 102u8]);
    } else if b == 13u8 {
        push_slice(out, &[92u8, 114u8]);
    } else if b < 32u8 {
        let hi: u8 = b / 16;
        let lo: u8 = b % 16;
        let hi_digit: u8 = if hi < 10 { 48 + hi } else { 87 + hi };
        let lo_digit: u8 = if lo < 10 { 48 + lo } else { 87 + lo };
        push_slice(out, &[92u8, 117u8, 48u8, 48u8, hi_digit, lo_digit]);
    } else {
        out.push(b);
        assert(old(out)@.push(b) =~= old(out)@ + seq![b]);
    }
}

/// Appends a JSON string literal holding the UTF-8 bytes `s`.
pub fn write_json_string(out: &mut Vec<u8>, s: &[u8])
    ensures
        final(out)@ == old(out)@ + json_string(s@),
{
    out.push(34u8);
    let ghost start = out@;
    let mut i: usize = 0;
    while i < s.len()
        invariant
            i <= s@.len(),
            out@ == start + escape_bytes(s@.take(i as int)),
        decreases s@.len() - i,
    {
        write_escaped_byte(out, s[i]);
        i = i + 1;
        assert(s@.take(i as int).drop_last() =~= s@.take(i - 1));
        assert(out@ =~= start + escape_bytes(s@.take(i as int)));
    }
    assert(s@.take(s@.len() as int) =~= s@);
    out.push(34u8);
    assert(out@ =~= old(out)@ + json_string(s@));
}

/// Appends the elements of a JSON array of bytes (without the brackets).
pub fn write_byte_list(out: &mut Vec<u8>, s: &[u8])
    ensures
        final(out)@ == old(out)@ + byte_list(s@),
{
    let ghost start = out@;
    let mut i: usize = 0;
    while i < s.len()
        invariant
            i <= s@.len(),
            out@ == start + byte_list(s@.take(i as int)),
        decreases s@.len() - i,
    {
        if i > 0 {
            out.push(44u8);
        }
        write_decimal(out, s[i] as u64);
        i = i + 1;
        assert(s@.take(i as int).drop_last() =~= s@.take(i - 1));
        assert(out@ =~= start + byte_list(s@.take(i as int)));
    }
    assert(s@.take(s@.len() as int) =~= s@);
}

/// The compact JSON text of a client request with the given timestamp,
/// client identifier (as UTF-8 bytes) and operation, fields in declaration
/// order: `{"timestamp":..,"client_id":"..","operation":[..]}`.
pub open spec fn request_json(timestamp: u64, client_id: Seq<u8>, operation: Seq<u8>) -> Seq<u8> {
    seq![123u8, 34u8, 116u8, 105u8, 109u8, 101u8, 115u8, 116u8, 97u8, 109u8, 112u8, 34u8, 58u8]
        + decimal(timestamp as nat)
        + seq![44u8, 34u8, 99u8, 108u8, 105u8, 101u8, 110u8, 116u8, 95u8, 105u8, 100u8, 34u8, 58u8]
        + json_string(client_id)
        + seq![44u8, 34u8, 111u8, 112u8, 101u8, 114u8, 97u8, 116u8, 105u8, 111u8, 110u8, 34u8, 58u8, 91u8]
        + byte_list(operation)
        + seq![93u8, 125u8]
}

/// Encodes a client request as compact JSON.
pub fn encode_request_json(timestamp: u64, client_id: &str, operation: &[u8]) -> (out: Vec<u8>)
    ensures
        out@ == request_json(timestamp, client_id.spec_bytes(), operation@),
{
    let mut out: Vec<u8> = Vec::new();
    push_slice(
        &mut out,
        &[123u8, 34u8, 116u8, 105u8, 109u8, 101u8, 115u8, 116u8, 97u8, 109u8, 112u8, 34u8, 58u8],
    );
    write_decimal(&mut out, timestamp);
    push_slice(
        &mut out,
        &[44u8, 34u8, 99u8, 108u8, 105u8, 101u8, 110u8, 116u8, 95u8, 105u8, 100u8, 34u8, 58u8],
    );
    write_json_string(&mut out, client_id.as_bytes());
    push_slice(
        &mut out,
        &[44u8, 34u8, 111u8, 112u8, 101u8, 114u8, 97u8, 116u8, 105u8, 111u8, 110u8, 34u8, 58u8, 91u8],
    );
    write_byte_list(&mut out, operation);
    push_slice(&mut out, &[93u8, 125u8]);
    assert(out@ =~= request_json(timestamp, client_id.spec_bytes(), operation@));
    out
}

// ---------------------------------------------------------------------------
// Parsing unsigned decimal numbers, as `str::parse::<u64>` does
// ---------------------------------------------------------------------------

/// Every byte of `s` is an ASCII digit.
pub open spec fn all_digits(s: Seq<u8>) -> bool {
    forall|i: int| 0 <= i < s.len() ==> 48 <= #[trigger] s[i] <= 57
}

/// The value of a sequence of ASCII digits read in base ten.
pub open spec fn digits_value(s: Seq<u8>) -> nat
    decreases s.len(),
{
    if s.len() == 0 {
        0
    } else {
        digits_value(s.drop_last()) * 10 + (s.last() - 48) as nat
    }
}

/// The digits that `str::parse::<u64>` reads: one leading `+` is skipped.
pub open spec fn unsigned_digits(s: Seq<u8>) -> Seq<u8> {
    if s.len() > 0 && s[0] == 43 {
        s.drop_first()
    } else {
        s
    }
}

/// What `str::parse::<u64>` gives for the UTF-8 bytes `s`: a value when the
/// text is an optional `+` followed by at least one digit and the number fits
/// in 64 bits, nothing otherwise.
pub open spec fn parse_u64_spec(s: Seq<u8>) -> Option<u64> {
    let d = unsigned_digits(s);
    if d.len() > 0 && all_digits(d) && digits_value(d) <= u64::MAX {
        Some(digits_value(d) as u64)
    } else {
        None
    }
}

/// The value of a longer run of digits is at least that of its prefix.
pub proof fn lemma_digits_value_monotone(s: Seq<u8>, j: int, k: int)
    requires
        all_digits(s),
        0 <= j <= k <= s.len(),
    ensures
        digits_value(s.take(j)) <= digits_value(s.take(k)),
    decreases k - j,
{
    if j < k {
        lemma_digits_value_monotone(s, j, k - 1);
        assert(s.take(k).drop_last() =~= s.take(k - 1));
    }
}

/// Parses a node identifier as an unsigned decimal number.
pub fn parse_u64(text: &str) -> (r: Option<u64>)
    ensures
        r == parse_u64_spec(text.spec_bytes()),
{
    let s = text.as_bytes();
    let ghost d = unsigned_digits(s@);
    let start: usize = if s.len() > 0 && s[0] == 43u8 { 1 } else { 0 };
    if start >= s.len() {
        return None;
    }
    assert(d =~= s@.skip(start as int));
    let mut acc: u64 = 0;
    let mut i: usize = start;
    while i < s.len()
        invariant
            start <= i <= s@.len(),
            s@ == text.spec_bytes(),
            d == unsigned_digits(s@),
            d =~= s@.skip(start as int),
            all_digits(d.take(i - start)),
            acc as nat == digits_value(d.take(i - start)),
        decreases s@.len() - i,
    {
        let b = s[i];
        assert(d[i - start] == b);
        if b < 48u8 || b > 57u8 {
            assert(!all_digits(d)) by {
                assert(!(48 <= d[i - start] <= 57));
            }
            return None;
        }
        let digit: u64 = (b - 48u8) as u64;
        assert(d.take(i - start + 1).drop_last() =~= d.take(i - start));
        assert(d.take(i - start + 1).last() == b);
        assert(digits_value(d.take(i - start + 1)) == acc * 10 + digit);
        if acc > (u64::MAX - digit) / 10 {
            proof {
                assert(acc * 10 + digit > u64::MAX) by (nonlinear_arith)
                    requires
                        acc > (u64::MAX - digit) / 10,
                        digit <= 9,
                ;
                if all_digits(d) {
                    lemma_digits_value_monotone(d, i - start + 1, d.len() as int);
                    assert(d.take(d.len() as int) =~= d);
                }
            }
            return None;
        }
        acc = acc * 10 + digit;
        i = i + 1;
    }
    assert(d.take(i - start) =~= d);
    Some(acc)
}

/// The decimal form of a number has no leading `+` and only digits, and its
/// digits read back to the number.
proof fn lemma_decimal_digits(n: nat)
    ensures
        decimal(n).len() > 0,
        all_digits(decimal(n)),
        decimal(n)[0] != 43,
        digits_value(decimal(n)) == n,
    decreases n,
{
    if n >= 10 {
        lemma_decimal_digits(n / 10);
        let d = decimal(n);
        assert(d.drop_last() =~= decimal(n / 10));
        assert(d[0] == decimal(n / 10)[0]);
        assert(d.last() == digit_byte(n % 10));
        assert(d.last() - 48 == n % 10);
        assert(digits_value(d) == digits_value(decimal(n / 10)) * 10 + n % 10);
        assert(n == (n / 10) * 10 + n % 10);
    } else {
        assert(decimal(n).drop_last() =~= Seq::<u8>::empty());
        assert(digits_value(Seq::<u8>::empty()) == 0);
    }
}

/// Parsing the decimal form of a number gives the number back: what a node
/// writes as its identifier is what `parse_u64` reads.
pub proof fn lemma_parse_decimal(n: u64)
    ensures
        parse_u64_spec(decimal(n as nat)) == Some(n),
{
    lemma_decimal_digits(n as nat);
    assert(unsigned_digits(decimal(n as nat)) == decimal(n as nat));
}

} // verus!
