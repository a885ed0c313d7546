//! The host-protocol wire codec: ASCII hex length prefixes, the sync
//! sub-protocol's little-endian lengths, and the numeric conversions the
//! protocol needs.

use vstd::prelude::*;
use vstd::string::StringSliceAdditionalSpecFns;

use crate::error::DeviceError;

verus! {

/// The uppercase hex digit for a value below 16.
pub open spec fn hex_digit_char(d: int) -> char {
    if d == 0 {
        '0'
    } else if d == 1 {
        '1'
    } else if d == 2 {
        '2'
    } else if d == 3 {
        '3'
    } else if d == 4 {
        '4'
    } else if d == 5 {
        '5'
    } else if d == 6 {
        '6'
    } else if d == 7 {
        '7'
    } else if d == 8 {
        '8'
    } else if d == 9 {
        '9'
    } else if d == 10 {
        'A'
    } else if d == 11 {
        'B'
    } else if d == 12 {
        'C'
    } else if d == 13 {
        'D'
    } else if d == 14 {
        'E'
    } else {
        'F'
    }
}

/// The four uppercase hex digits of a value below 0x10000, zero-padded.
pub open spec fn spec_hex4(n: int) -> Seq<char> {
    seq![
        hex_digit_char((n / 0x1000) % 16),
        hex_digit_char((n / 0x100) % 16),
        hex_digit_char((n / 0x10) % 16),
        hex_digit_char(n % 16),
    ]
}

/// The numeric value of a hex digit character, or -1 for any other character.
pub open spec fn spec_digit_val(c: char) -> int {
    let u = (c as u32) as int;
    if 0x30 <= u && u <= 0x39 {
        u - 0x30
    } else if 0x41 <= u && u <= 0x46 {
        u - 0x41 + 10
    } else if 0x61 <= u && u <= 0x66 {
        u - 0x61 + 10
    } else {
        -1
    }
}

/// Whether `c` is a hex digit.
pub open spec fn is_hex_digit_char(c: char) -> bool {
    spec_digit_val(c) >= 0
}

/// Whether `c` is a decimal digit.
pub open spec fn is_dec_digit_char(c: char) -> bool {
    0 <= spec_digit_val(c) < 10
}

fn hex_digit_str(d: u16) -> (r: &'static str)
    requires
        d < 16,
    ensures
        r@ == seq![hex_digit_char(d as int)],
{
    let s: &'static str = if d == 0 {
        "0"
    } else if d == 1 {
        "1"
    } else if d == 2 {
        "2"
    } else if d == 3 {
        "3"
    } else if d == 4 {
        "4"
    } else if d == 5 {
        "5"
    } else if d == 6 {
        "6"
    } else if d == 7 {
        "7"
    } else if d == 8 {
        "8"
    } else if d == 9 {
        "9"
    } else if d == 10 {
        "A"
    } else if d == 11 {
        "B"
    } else if d == 12 {
        "C"
    } else if d == 13 {
        "D"
    } else if d == 14 {
        "E"
    } else {
        "F"
    };
    proof {
        reveal_strlit("0");
        reveal_strlit("1");
        reveal_strlit("2");
        reveal_strlit("3");
        reveal_strlit("4");
        reveal_strlit("5");
        reveal_strlit("6");
        reveal_strlit("7");
        reveal_strlit("8");
        reveal_strlit("9");
        reveal_strlit("A");
        reveal_strlit("B");
        reveal_strlit("C");
        reveal_strlit("D");
        reveal_strlit("E");
        reveal_strlit("F");
        assert(s@ =~= seq![hex_digit_char(d as int)]);
    }
    s
}

/// Renders a 16-bit value as four uppercase, zero-padded hex digits.
pub fn hex4_string(n: u16) -> (r: String)
    ensures
        r@ == spec_hex4(n as int),
{
    let d0 = hex_digit_str((n / 0x1000) % 16);
    let d1 = hex_digit_str((n / 0x100) % 16);
    let d2 = hex_digit_str((n / 0x10) % 16);
    let d3 = hex_digit_str(n % 16);
    let r = String::from_str(d0).concat(d1).concat(d2).concat(d3);
    proof {
        assert(r@ =~= spec_hex4(n as int));
    }
    r
}

/// Frames a host-protocol request: four uppercase hex digits holding the
/// payload's byte length, then the payload itself.  Fails exactly when the
/// payload is longer than 0xFFFF bytes.
pub fn encode_message(payload: &str) -> (r: Result<String, DeviceError>)
    ensures
        payload.spec_bytes().len() <= 0xFFFF ==> (r matches Ok(s) && s@ == spec_hex4(
            payload.spec_bytes().len() as int,
        ) + payload@),
        payload.spec_bytes().len() > 0xFFFF ==> (r matches Err(e) && e == DeviceError::FromInt),
{
    let len = payload.as_bytes().len();
    if len > 0xFFFF {
        return Err(DeviceError::FromInt);
    }
    let prefix = hex4_string(len as u16);
    Ok(prefix.concat(payload))
}

/// The first four bytes of `bytes` are ASCII hex digits.
pub open spec fn four_hex_bytes(bytes: Seq<u8>) -> bool {
    forall|i: int| 0 <= i < 4 ==> is_hex_digit_char(#[trigger] (bytes[i] as char))
}

/// The value of the four hex digit bytes that start `bytes`.
pub open spec fn spec_hex4_value(bytes: Seq<u8>) -> int {
    spec_digit_val(bytes[0] as char) * 0x1000 + spec_digit_val(bytes[1] as char) * 0x100
        + spec_digit_val(bytes[2] as char) * 0x10 + spec_digit_val(bytes[3] as char)
}

fn hex_val(b: u8) -> (r: Option<u8>)
    ensures
        (r is Some) == is_hex_digit_char(b as char),
        r matches Some(v) ==> v as int == spec_digit_val(b as char) && v < 16,
{
    if b >= 0x30 && b <= 0x39 {
        Some(b - 0x30)
    } else if b >= 0x41 && b <= 0x46 {
        Some(b - 0x41 + 10)
    } else if b >= 0x61 && b <= 0x66 {
        Some(b - 0x61 + 10)
    } else {
        None
    }
}

/// Reads the payload length of a host message: the first four bytes must be
/// ASCII hex digits.  Fewer than four bytes is an I/O-level truncation;
/// any non-hex byte among the four is a parse failure.
pub fn read_length(bytes: &[u8]) -> (r: Result<usize, DeviceError>)
    ensures
        bytes@.len() < 4 ==> (r matches Err(e) && e matches DeviceError::Io(_)),
        bytes@.len() >= 4 && four_hex_bytes(bytes@) ==> (r matches Ok(n) && n == spec_hex4_value(
            bytes@,
        )),
        bytes@.len() >= 4 && !four_hex_bytes(bytes@) ==> (r matches Err(e) && e
            == DeviceError::ParseInt),
{
    if bytes.len() < 4 {
        return Err(DeviceError::Io(String::from_str("failed to fill whole buffer")));
    }
    let v0 = hex_val(bytes[0]);
    let v1 = hex_val(bytes[1]);
    let v2 = hex_val(bytes[2]);
    let v3 = hex_val(bytes[3]);
    match (v0, v1, v2, v3) {
        (Some(a), Some(b), Some(c), Some(d)) => {
            let n: usize = (a as usize) * 0x1000 + (b as usize) * 0x100 + (c as usize) * 0x10 + (
            d as usize);
            Ok(n)
        },
        _ => Err(DeviceError::ParseInt),
    }
}

/// Reads the payload length of a sync-mode message: four bytes,
/// little-endian.
pub fn read_length_little_endian(bytes: &[u8]) -> (r: usize)
    requires
        bytes@.len() >= 4,
    ensures
        r == bytes@[0] + bytes@[1] * 0x100 + bytes@[2] * 0x1_0000 + bytes@[3] * 0x100_0000,
{
    let n: u32 = (bytes[0] as u32) + (bytes[1] as u32) * 0x100 + (bytes[2] as u32) * 0x1_0000 + (
    bytes[3] as u32) * 0x100_0000;
    n as usize
}

/// Writes a sync-mode length: the low 32 bits of `n`, little-endian.
pub fn write_length_little_endian(n: usize) -> (r: Vec<u8>)
    ensures
        r@.len() == 4,
        r@[0] == (n % 0x100) as u8,
        r@[1] == ((n / 0x100) % 0x100) as u8,
        r@[2] == ((n / 0x1_0000) % 0x100) as u8,
        r@[3] == ((n / 0x100_0000) % 0x100) as u8,
{
    let mut r: Vec<u8> = Vec::new();
    r.push((n % 0x100) as u8);
    r.push(((n / 0x100) % 0x100) as u8);
    r.push(((n / 0x1_0000) % 0x100) as u8);
    r.push(((n / 0x100_0000) % 0x100) as u8);
    r
}

/// A 32-bit value decomposes into its four little-endian bytes and back.
pub proof fn lemma_le32_decompose(n: int)
    requires
        0 <= n < 0x1_0000_0000,
    ensures
        (n % 0x100) + ((n / 0x100) % 0x100) * 0x100 + ((n / 0x1_0000) % 0x100) * 0x1_0000 + ((n
            / 0x100_0000) % 0x100) * 0x100_0000 == n,
{
    assert((n % 0x100) + ((n / 0x100) % 0x100) * 0x100 + ((n / 0x1_0000) % 0x100) * 0x1_0000 + ((n
        / 0x100_0000) % 0x100) * 0x100_0000 == n) by (nonlinear_arith)
        requires
            0 <= n < 0x1_0000_0000,
    ;
}

/// Round trip of the sync-mode length codec: for any value below 2^32,
/// reading back the four written bytes restores the value.
pub proof fn lemma_length_little_endian_round_trip(n: int, bytes: Seq<u8>)
    requires
        0 <= n < 0x1_0000_0000,
        bytes.len() == 4,
        bytes[0] == (n % 0x100) as u8,
        bytes[1] == ((n / 0x100) % 0x100) as u8,
        bytes[2] == ((n / 0x1_0000) % 0x100) as u8,
        bytes[3] == ((n / 0x100_0000) % 0x100) as u8,
    ensures
        bytes[0] + bytes[1] * 0x100 + bytes[2] * 0x1_0000 + bytes[3] * 0x100_0000 == n,
{
    lemma_le32_decompose(n);
}

/// Each uppercase hex digit parses back to its value.
proof fn lemma_hex_digit_val(d: int)
    requires
        0 <= d < 16,
    ensures
        spec_digit_val(hex_digit_char(d)) == d,
{
}

/// Inverse of the hex length prefix: the four digits written for a value
/// below 0x10000 are hex digits, and parsing them restores the value.
pub proof fn lemma_hex4_round_trip(n: int)
    requires
        0 <= n <= 0xFFFF,
    ensures
        forall|i: int| 0 <= i < 4 ==> is_hex_digit_char(#[trigger] spec_hex4(n)[i]),
        spec_digit_val(spec_hex4(n)[0]) * 0x1000 + spec_digit_val(spec_hex4(n)[1]) * 0x100
            + spec_digit_val(spec_hex4(n)[2]) * 0x10 + spec_digit_val(spec_hex4(n)[3]) == n,
{
    lemma_hex_digit_val((n / 0x1000) % 16);
    lemma_hex_digit_val((n / 0x100) % 16);
    lemma_hex_digit_val((n / 0x10) % 16);
    lemma_hex_digit_val(n % 16);
    assert(((n / 0x1000) % 16) * 0x1000 + ((n / 0x100) % 16) * 0x100 + ((n / 0x10) % 16) * 0x10 + n
        % 16 == n) by (nonlinear_arith)
        requires
            0 <= n <= 0xFFFF,
    ;
}

/// The value of a digit string read most-significant first, one digit at a
/// time: `spec_radix_val(s, base)` is meaningful when every character of
/// `s` is a digit below `base`.
pub open spec fn spec_radix_val(s: Seq<char>, base: int) -> int
    decreases s.len(),
{
    if s.len() == 0 {
        0
    } else {
        spec_radix_val(s.drop_last(), base) * base + spec_digit_val(s.last())
    }
}

/// Every character of `s` is a digit below `base`.
pub open spec fn all_digits(s: Seq<char>, base: int) -> bool {
    forall|i: int| 0 <= i < s.len() ==> 0 <= spec_digit_val(#[trigger] s[i]) < base
}

proof fn lemma_radix_val_nonneg(s: Seq<char>, base: int)
    requires
        all_digits(s, base),
        base >= 2,
    ensures
        spec_radix_val(s, base) >= 0,
    decreases s.len(),
{
    if s.len() > 0 {
        assert(all_digits(s.drop_last(), base));
        lemma_radix_val_nonneg(s.drop_last(), base);
        assert(spec_radix_val(s.drop_last(), base) * base >= 0) by (nonlinear_arith)
            requires
                spec_radix_val(s.drop_last(), base) >= 0,
                base >= 2,
        ;
    }
}

proof fn lemma_radix_val_prefix_le(s: Seq<char>, i: int, base: int)
    requires
        all_digits(s, base),
        base >= 2,
        0 <= i <= s.len(),
    ensures
        spec_radix_val(s.take(i), base) <= spec_radix_val(s, base),
    decreases s.len() - i,
{
    if i < s.len() {
        lemma_radix_val_prefix_le(s, i + 1, base);
        assert(s.take(i + 1).drop_last() =~= s.take(i));
        assert(s.take(i + 1).last() == s[i]);
        assert(all_digits(s.take(i), base)) by {
            assert(forall|j: int| 0 <= j < i ==> s.take(i)[j] == s[j]);
        }
        lemma_radix_val_nonneg(s.take(i), base);
        let p = spec_radix_val(s.take(i), base);
        assert(p <= p * base) by (nonlinear_arith)
            requires
                p >= 0,
                base >= 2,
        ;
    } else {
        assert(s.take(i) =~= s);
    }
}

/// Parses a non-empty all-decimal string as a 16-bit port number; rejects
/// anything else, including values above 0xFFFF.
pub fn parse_dec_u16(s: &str) -> (r: Result<u16, DeviceError>)
    ensures
        r matches Ok(n) ==> s@.len() > 0 && all_digits(s@, 10) && n as int == spec_radix_val(
            s@,
            10,
        ) && spec_radix_val(s@, 10) <= 0xFFFF,
        r is Err ==> !(s@.len() > 0 && all_digits(s@, 10) && spec_radix_val(s@, 10) <= 0xFFFF),
        r matches Err(e) ==> e == DeviceError::ParseInt,
{
    let len = s.unicode_len();
    if len == 0 {
        return Err(DeviceError::ParseInt);
    }
    let mut acc: u16 = 0;
    let mut i: usize = 0;
    while i < len
        invariant
            len == s@.len(),
            0 <= i <= len,
            all_digits(s@.take(i as int), 10),
            acc as int == spec_radix_val(s@.take(i as int), 10),
        decreases len - i,
    {
        let c = s.get_char(i);
        let u = c as u32;
        if !(u >= 0x30 && u <= 0x39) {
            proof {
                assert(!(0 <= spec_digit_val(s@[i as int]) < 10));
            }
            return Err(DeviceError::ParseInt);
        }
        let d = (u - 0x30) as u16;
        proof {
            assert(d as int == spec_digit_val(s@[i as int]));
            assert(s@.take(i as int + 1).drop_last() =~= s@.take(i as int));
            assert(s@.take(i as int + 1).last() == s@[i as int]);
        }
        if acc > (0xFFFF - d) / 10 {
            proof {
                assert(spec_radix_val(s@.take(i as int + 1), 10) > 0xFFFF) by (nonlinear_arith)
                    requires
                        spec_radix_val(s@.take(i as int + 1), 10) == spec_radix_val(
                            s@.take(i as int),
                            10,
                        ) * 10 + spec_digit_val(s@[i as int]),
                        spec_radix_val(s@.take(i as int), 10) == acc as int,
                        spec_digit_val(s@[i as int]) == d as int,
                        acc > (0xFFFF - d) / 10,
                        0 <= d < 10,
                ;
                if all_digits(s@, 10) {
                    assert(all_digits(s@.take(i as int + 1), 10)) by {
                        assert(forall|j: int|
                            0 <= j < i + 1 ==> s@.take(i as int + 1)[j] == s@[j]);
                    }
                    lemma_radix_val_prefix_le(s@, i as int + 1, 10);
                }
            }
            return Err(DeviceError::ParseInt);
        }
        acc = acc * 10 + d;
        i = i + 1;
    }
    proof {
        assert(s@.take(len as int) =~= s@);
    }
    Ok(acc)
}

/// Parses a non-empty all-hex string as a 64-bit value, the way the host
/// version reply is read; rejects anything else, including overflow.
pub fn parse_hex_u64(s: &str) -> (r: Result<u64, DeviceError>)
    ensures
        r matches Ok(n) ==> s@.len() > 0 && all_digits(s@, 16) && n as int == spec_radix_val(
            s@,
            16,
        ) && spec_radix_val(s@, 16) <= u64::MAX,
        r is Err ==> !(s@.len() > 0 && all_digits(s@, 16) && spec_radix_val(s@, 16) <= u64::MAX),
        r matches Err(e) ==> e == DeviceError::ParseInt,
{
    let len = s.unicode_len();
    if len == 0 {
        return Err(DeviceError::ParseInt);
    }
    let mut acc: u64 = 0;
    let mut i: usize = 0;
    while i < len
        invariant
            len == s@.len(),
            0 <= i <= len,
            all_digits(s@.take(i as int), 16),
            acc as int == spec_radix_val(s@.take(i as int), 16),
        decreases len - i,
    {
        let c = s.get_char(i);
        let u = c as u32;
        let d: u64 = if u >= 0x30 && u <= 0x39 {
            (u - 0x30) as u64
        } else if u >= 0x41 && u <= 0x46 {
            (u - 0x41 + 10) as u64
        } else if u >= 0x61 && u <= 0x66 {
            (u - 0x61 + 10) as u64
        } else {
            proof {
                assert(!(0 <= spec_digit_val(s@[i as int]) < 16));
            }
            return Err(DeviceError::ParseInt);
        };
        proof {
            assert(d as int == spec_digit_val(s@[i as int]));
            assert(s@.take(i as int + 1).drop_last() =~= s@.take(i as int));
            assert(s@.take(i as int + 1).last() == s@[i as int]);
        }
        if acc > (u64::MAX - d) / 16 {
            proof {
                assert(spec_radix_val(s@.take(i as int + 1), 16) > u64::MAX) by (nonlinear_arith)
                    requires
                        spec_radix_val(s@.take(i as int + 1), 16) == spec_radix_val(
                            s@.take(i as int),
                            16,
                        ) * 16 + spec_digit_val(s@[i as int]),
                        spec_radix_val(s@.take(i as int), 16) == acc as int,
                        spec_digit_val(s@[i as int]) == d as int,
                        acc > (u64::MAX - d) / 16,
                        0 <= d < 16,
                ;
                if all_digits(s@, 16) {
                    assert(all_digits(s@.take(i as int + 1), 16)) by {
                        assert(forall|j: int|
                            0 <= j < i + 1 ==> s@.take(i as int + 1)[j] == s@[j]);
                    }
                    lemma_radix_val_prefix_le(s@, i as int + 1, 16);
                }
            }
            return Err(DeviceError::ParseInt);
        }
        acc = acc * 16 + d;
        i = i + 1;
    }
    proof {
        assert(s@.take(len as int) =~= s@);
    }
    Ok(acc)
}

/// The decimal rendering of a non-negative value, most significant digit
/// first, without leading zeros.
pub open spec fn spec_udec(n: nat) -> Seq<char>
    decreases n,
{
    if n < 10 {
        seq![hex_digit_char(n as int)]
    } else {
        spec_udec(n / 10) + seq![hex_digit_char((n % 10) as int)]
    }
}

fn dec_digit_str(d: u64) -> (r: &'static str)
    requires
        d < 10,
    ensures
        r@ == seq![hex_digit_char(d as int)],
{
    let s: &'static str = if d == 0 {
        "0"
    } else if d == 1 {
        "1"
    } else if d == 2 {
        "2"
    } else if d == 3 {
        "3"
    } else if d == 4 {
        "4"
    } else if d == 5 {
        "5"
    } else if d == 6 {
        "6"
    } else if d == 7 {
        "7"
    } else if d == 8 {
        "8"
    } else {
        "9"
    };
    proof {
        reveal_strlit("0");
        reveal_strlit("1");
        reveal_strlit("2");
        reveal_strlit("3");
        reveal_strlit("4");
        reveal_strlit("5");
        reveal_strlit("6");
        reveal_strlit("7");
        reveal_strlit("8");
        reveal_strlit("9");
        assert(s@ =~= seq![hex_digit_char(d as int)]);
    }
    s
}

/// Renders a value in decimal, the way the protocol writes ports and
/// file modes.
pub fn u64_to_dec(n: u64) -> (r: String)
    ensures
        r@ == spec_udec(n as nat),
    decreases n,
{
    if n < 10 {
        String::from_str(dec_digit_str(n))
    } else {
        let r = u64_to_dec(n / 10).concat(dec_digit_str(n % 10));
        proof {
            assert(r@ =~= spec_udec(n as nat));
        }
        r
    }
}

/// The lowercase hex digit for a value below 16.
pub open spec fn hex_digit_char_lower(d: int) -> char {
    if d < 10 {
        hex_digit_char(d)
    } else if d == 10 {
        'a'
    } else if d == 11 {
        'b'
    } else if d == 12 {
        'c'
    } else if d == 13 {
        'd'
    } else if d == 14 {
        'e'
    } else {
        'f'
    }
}

/// The lowercase hex rendering of a value, without leading zeros.
pub open spec fn spec_uhex_lower(n: nat) -> Seq<char>
    decreases n,
{
    if n < 16 {
        seq![hex_digit_char_lower(n as int)]
    } else {
        spec_uhex_lower(n / 16) + seq![hex_digit_char_lower((n % 16) as int)]
    }
}

fn hex_digit_str_lower(d: u32) -> (r: &'static str)
    requires
        d < 16,
    ensures
        r@ == seq![hex_digit_char_lower(d as int)],
{
    let s: &'static str = if d < 10 {
        dec_digit_str(d as u64)
    } else if d == 10 {
        "a"
    } else if d == 11 {
        "b"
    } else if d == 12 {
        "c"
    } else if d == 13 {
        "d"
    } else if d == 14 {
        "e"
    } else {
        "f"
    };
    proof {
        reveal_strlit("a");
        reveal_strlit("b");
        reveal_strlit("c");
        reveal_strlit("d");
        reveal_strlit("e");
        reveal_strlit("f");
        assert(s@ =~= seq![hex_digit_char_lower(d as int)]);
    }
    s
}

/// Renders a value in lowercase hex, the way `{:#x}` does after its `0x`.
pub fn u32_to_hex_lower(n: u32) -> (r: String)
    ensures
        r@ == spec_uhex_lower(n as nat),
    decreases n,
{
    if n < 16 {
        String::from_str(hex_digit_str_lower(n))
    } else {
        let r = u32_to_hex_lower(n / 16).concat(hex_digit_str_lower(n % 16));
        proof {
            assert(r@ =~= spec_uhex_lower(n as nat));
        }
        r
    }
}

/// The command words of the sync sub-protocol and the host status words.
#[derive(Debug, Clone, Copy, PartialEq, Eq)]
pub enum SyncCommand {
    List,
    Recv,
    Send,
    Stat,
    Dent,
    Done,
    Data,
    Okay,
    Fail,
}

impl SyncCommand {
    /// The four ASCII bytes this command puts on the wire.
    pub open spec fn spec_code(self) -> Seq<u8> {
        match self {
            SyncCommand::List => seq!['L' as u8, 'I' as u8, 'S' as u8, 'T' as u8],
            SyncCommand::Recv => seq!['R' as u8, 'E' as u8, 'C' as u8, 'V' as u8],
            SyncCommand::Send => seq!['S' as u8, 'E' as u8, 'N' as u8, 'D' as u8],
            SyncCommand::Stat => seq!['S' as u8, 'T' as u8, 'A' as u8, 'T' as u8],
            SyncCommand::Dent => seq!['D' as u8, 'E' as u8, 'N' as u8, 'T' as u8],
            SyncCommand::Done => seq!['D' as u8, 'O' as u8, 'N' as u8, 'E' as u8],
            SyncCommand::Data => seq!['D' as u8, 'A' as u8, 'T' as u8, 'A' as u8],
            SyncCommand::Okay => seq!['O' as u8, 'K' as u8, 'A' as u8, 'Y' as u8],
            SyncCommand::Fail => seq!['F' as u8, 'A' as u8, 'I' as u8, 'L' as u8],
        }
    }

    /// The four ASCII bytes this command puts on the wire.
    pub fn code(&self) -> (r: Vec<u8>)
        ensures
            r@ == self.spec_code(),
    {
        let (a, b, c, d): (u8, u8, u8, u8) = match self {
            SyncCommand::List => (0x4C, 0x49, 0x53, 0x54),
            SyncCommand::Recv => (0x52, 0x45, 0x43, 0x56),
            SyncCommand::Send => (0x53, 0x45, 0x4E, 0x44),
            SyncCommand::Stat => (0x53, 0x54, 0x41, 0x54),
            SyncCommand::Dent => (0x44, 0x45, 0x4E, 0x54),
            SyncCommand::Done => (0x44, 0x4F, 0x4E, 0x45),
            SyncCommand::Data => (0x44, 0x41, 0x54, 0x41),
            SyncCommand::Okay => (0x4F, 0x4B, 0x41, 0x59),
            SyncCommand::Fail => (0x46, 0x41, 0x49, 0x4C),
        };
        let mut r: Vec<u8> = Vec::new();
        r.push(a);
        r.push(b);
        r.push(c);
        r.push(d);
        proof {
            assert(r@ =~= self.spec_code());
        }
        r
    }
}

/// The first four bytes of `bytes` spell the given command word.
pub open spec fn spec_code_at(bytes: Seq<u8>, cmd: SyncCommand) -> bool {
    bytes.len() >= 4 && bytes.subrange(0, 4) == cmd.spec_code()
}

/// Whether the four bytes read from the wire spell the given command word.
pub fn code_matches(bytes: &[u8], cmd: SyncCommand) -> (r: bool)
    requires
        bytes@.len() >= 4,
    ensures
        r == spec_code_at(bytes@, cmd),
{
    let code = cmd.code();
    let r = bytes[0] == code[0] && bytes[1] == code[1] && bytes[2] == code[2] && bytes[3]
        == code[3];
    proof {
        if r {
            assert(bytes@.subrange(0, 4) =~= cmd.spec_code());
        } else {
            assert(bytes@.subrange(0, 4)[0] == bytes@[0]);
            assert(bytes@.subrange(0, 4)[1] == bytes@[1]);
            assert(bytes@.subrange(0, 4)[2] == bytes@[2]);
            assert(bytes@.subrange(0, 4)[3] == bytes@[3]);
        }
    }
    r
}

} // verus!
