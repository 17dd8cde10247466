//! The canonical text form of a hash pair: 32 hexadecimal characters,
//! the high half then the low half, each zero-padded to 16 digits and
//! rendered uppercase. Parsing accepts either letter case; rendering is
//! always uppercase.

use vstd::prelude::*;

use crate::pair::HashPair;

verus! {

/// Malformed hash text: wrong length or a non-hexadecimal character.
#[derive(PartialEq, Eq, Structural, Clone, Copy, Debug)]
pub enum FormatError {
    InvalidHashFormat,
}

/// The uppercase hexadecimal character of a digit value.
pub open spec fn hex_char(d: int) -> char {
    if d == 0 {
        '0'
    } else if d == 1 {
        '1'
    } else if d == 2 {
        '2'
    } else if d == 3 {
        '3'
    } else if d == 4 {
        '4'
    } else if d == 5 {
        '5'
    } else if d == 6 {
        '6'
    } else if d == 7 {
        '7'
    } else if d == 8 {
        '8'
    } else if d == 9 {
        '9'
    } else if d == 10 {
        'A'
    } else if d == 11 {
        'B'
    } else if d == 12 {
        'C'
    } else if d == 13 {
        'D'
    } else if d == 14 {
        'E'
    } else if d == 15 {
        'F'
    } else {
        '0'
    }
}

/// The digit value of a hexadecimal character of either case, or -1
/// for any other character.
pub open spec fn hex_char_val(c: char) -> int {
    if c == '0' {
        0
    } else if c == '1' {
        1
    } else if c == '2' {
        2
    } else if c == '3' {
        3
    } else if c == '4' {
        4
    } else if c == '5' {
        5
    } else if c == '6' {
        6
    } else if c == '7' {
        7
    } else if c == '8' {
        8
    } else if c == '9' {
        9
    } else if c == 'A' || c == 'a' {
        10
    } else if c == 'B' || c == 'b' {
        11
    } else if c == 'C' || c == 'c' {
        12
    } else if c == 'D' || c == 'd' {
        13
    } else if c == 'E' || c == 'e' {
        14
    } else if c == 'F' || c == 'f' {
        15
    } else {
        -1
    }
}

pub open spec fn is_hex_digit(c: char) -> bool {
    hex_char_val(c) >= 0
}

/// 16 to the power `n`.
pub open spec fn pow16(n: nat) -> int
    decreases n,
{
    if n == 0 {
        1
    } else {
        16 * pow16((n - 1) as nat)
    }
}

/// The `n`-digit hexadecimal rendering of `x`, most significant digit
/// first (the low digit of `x` becomes the last character).
pub open spec fn hex_digits(x: int, n: nat) -> Seq<char>
    decreases n,
{
    if n == 0 {
        Seq::empty()
    } else {
        hex_digits(x / 16, (n - 1) as nat).push(hex_char(x % 16))
    }
}

/// The numeric value of a sequence of hexadecimal characters, most
/// significant first.
pub open spec fn hex_val_seq(s: Seq<char>) -> int
    decreases s.len(),
{
    if s.len() == 0 {
        0
    } else {
        16 * hex_val_seq(s.drop_last()) + hex_char_val(s.last())
    }
}

/// A whole hash line: exactly 32 characters, all hexadecimal.
pub open spec fn valid_hash_text(s: Seq<char>) -> bool {
    s.len() == 32 && (forall|i: int| 0 <= i < s.len() ==> is_hex_digit(#[trigger] s[i]))
}

/// The hash pair a valid 32-character line denotes.
pub open spec fn pair_of_text(s: Seq<char>) -> HashPair {
    HashPair {
        high: hex_val_seq(s.subrange(0, 16)) as u64,
        low: hex_val_seq(s.subrange(16, 32)) as u64,
    }
}

/// The canonical 32-character text of a hash pair.
pub open spec fn text_of(p: HashPair) -> Seq<char> {
    hex_digits(p.high as int, 16) + hex_digits(p.low as int, 16)
}

pub proof fn lemma_pow16_pos(n: nat)
    ensures
        pow16(n) >= 1,
    decreases n,
{
    if n > 0 {
        lemma_pow16_pos((n - 1) as nat);
    }
}

pub proof fn lemma_pow16_16()
    ensures
        pow16(16) == 0x1_0000_0000_0000_0000,
{
    assert(pow16(0) == 1);
    assert(pow16(1) == 16);
    assert(pow16(2) == 0x100);
    assert(pow16(3) == 0x1000);
    assert(pow16(4) == 0x1_0000);
    assert(pow16(5) == 0x10_0000);
    assert(pow16(6) == 0x100_0000);
    assert(pow16(7) == 0x1000_0000);
    assert(pow16(8) == 0x1_0000_0000);
    assert(pow16(9) == 0x10_0000_0000);
    assert(pow16(10) == 0x100_0000_0000);
    assert(pow16(11) == 0x1000_0000_0000);
    assert(pow16(12) == 0x1_0000_0000_0000);
    assert(pow16(13) == 0x10_0000_0000_0000);
    assert(pow16(14) == 0x100_0000_0000_0000);
    assert(pow16(15) == 0x1000_0000_0000_0000);
    assert(pow16(16) == 0x1_0000_0000_0000_0000);
}

/// Rendering `x` in `n` digits gives `n` hexadecimal characters whose
/// value is `x` again, provided `x` fits in `n` digits.
pub proof fn lemma_hex_digits_val(x: int, n: nat)
    requires
        0 <= x < pow16(n),
    ensures
        hex_digits(x, n).len() == n,
        forall|i: int| 0 <= i < n ==> is_hex_digit(#[trigger] hex_digits(x, n)[i]),
        hex_val_seq(hex_digits(x, n)) == x,
    decreases n,
{
    if n == 0 {
    } else {
        let m = (n - 1) as nat;
        assert(pow16(n) == 16 * pow16(m));
        lemma_pow16_pos(m);
        assert(x / 16 < pow16(m)) by {
            if x / 16 >= pow16(m) {
                assert(x >= 16 * (x / 16)) by (nonlinear_arith)
                    requires x >= 0;
                assert(16 * (x / 16) >= 16 * pow16(m)) by (nonlinear_arith)
                    requires x / 16 >= pow16(m);
            }
        }
        lemma_hex_digits_val(x / 16, m);
        let d = x % 16;
        let rest = hex_digits(x / 16, m);
        let whole = hex_digits(x, n);
        assert(whole == rest.push(hex_char(d)));
        assert(whole.drop_last() =~= rest);
        assert(whole.last() == hex_char(d));
        assert(hex_char_val(hex_char(d)) == d);
        assert(hex_val_seq(whole) == 16 * hex_val_seq(rest) + d);
        assert(16 * (x / 16) + x % 16 == x);
        assert forall|i: int| 0 <= i < n implies is_hex_digit(#[trigger] whole[i]) by {
            if i < m {
                assert(whole[i] == rest[i]);
            } else {
                assert(whole[i] == hex_char(d));
            }
        }
    }
}

/// Round trip: parsing the canonical text of a pair yields the pair.
pub proof fn lemma_text_round_trip(h: HashPair)
    ensures
        valid_hash_text(text_of(h)),
        pair_of_text(text_of(h)) == h,
{
    lemma_pow16_16();
    lemma_hex_digits_val(h.high as int, 16);
    lemma_hex_digits_val(h.low as int, 16);
    let hi = hex_digits(h.high as int, 16);
    let lo = hex_digits(h.low as int, 16);
    let t = text_of(h);
    assert(t.subrange(0, 16) =~= hi);
    assert(t.subrange(16, 32) =~= lo);
    assert forall|i: int| 0 <= i < t.len() implies is_hex_digit(#[trigger] t[i]) by {
        if i < 16 {
            assert(t[i] == hi[i]);
        } else {
            assert(t[i] == lo[i - 16]);
        }
    }
}

/// The single-character string of one hexadecimal digit.
pub(crate) fn hex_digit_str(d: u64) -> (r: &'static str)
    requires
        d < 16,
    ensures
        r@ =~= seq![hex_char(d as int)],
{
    proof {
        reveal_strlit("0");
        reveal_strlit("1");
        reveal_strlit("2");
        reveal_strlit("3");
        reveal_strlit("4");
        reveal_strlit("5");
        reveal_strlit("6");
        reveal_strlit("7");
        reveal_strlit("8");
        reveal_strlit("9");
        reveal_strlit("A");
        reveal_strlit("B");
        reveal_strlit("C");
        reveal_strlit("D");
        reveal_strlit("E");
        reveal_strlit("F");
    }
    match d {
        0 => "0",
        1 => "1",
        2 => "2",
        3 => "3",
        4 => "4",
        5 => "5",
        6 => "6",
        7 => "7",
        8 => "8",
        9 => "9",
        10 => "A",
        11 => "B",
        12 => "C",
        13 => "D",
        14 => "E",
        _ => "F",
    }
}

/// Renders `x` as `n` uppercase hexadecimal digits, zero-padded.
fn hex_digits_string(x: u64, n: usize) -> (s: String)
    ensures
        s@ =~= hex_digits(x as int, n as nat),
    decreases n,
{
    if n == 0 {
        String::new()
    } else {
        let mut s = hex_digits_string(x / 16, n - 1);
        s.append(hex_digit_str(x % 16));
        s
    }
}

/// The canonical 32-character uppercase text line of a hash pair.
pub fn to_text_line(p: &HashPair) -> (s: String)
    ensures
        s@ =~= text_of(*p),
{
    let mut s = hex_digits_string(p.high, 16);
    let lo = hex_digits_string(p.low, 16);
    s.append(lo.as_str());
    s
}

/// The digit value of one hexadecimal character, either case.
fn hex_char_val_exec(c: char) -> (r: Option<u64>)
    ensures
        match r {
            Some(v) => v < 16 && hex_char_val(c) == v as int,
            None => !is_hex_digit(c),
        },
{
    match c {
        '0' => Some(0),
        '1' => Some(1),
        '2' => Some(2),
        '3' => Some(3),
        '4' => Some(4),
        '5' => Some(5),
        '6' => Some(6),
        '7' => Some(7),
        '8' => Some(8),
        '9' => Some(9),
        'A' | 'a' => Some(10),
        'B' | 'b' => Some(11),
        'C' | 'c' => Some(12),
        'D' | 'd' => Some(13),
        'E' | 'e' => Some(14),
        'F' | 'f' => Some(15),
        _ => None,
    }
}

/// Parses 16 hexadecimal characters of `line` starting at `start`.
fn parse_hex16(line: &str, start: usize) -> (r: Option<u64>)
    requires
        start <= usize::MAX - 16,
        start + 16 <= line@.len(),
    ensures
        match r {
            Some(v) => {
                &&& forall|i: int|
                    start <= i < start + 16 ==> is_hex_digit(#[trigger] line@[i])
                &&& v as int == hex_val_seq(line@.subrange(start as int, start as int + 16))
            },
            None => exists|i: int| start <= i < start + 16 && !is_hex_digit(#[trigger] line@[i]),
        },
{
    let ghost whole = line@.subrange(start as int, start as int + 16);
    let mut acc: u64 = 0;
    let mut i: usize = 0;
    while i < 16
        invariant
            i <= 16,
            start <= usize::MAX - 16,
            start + 16 <= line@.len(),
            forall|k: int| start <= k < start + i ==> is_hex_digit(#[trigger] line@[k]),
            acc as int == hex_val_seq(line@.subrange(start as int, start as int + i as int)),
            (acc as int) < pow16(i as nat),
        decreases 16 - i,
    {
        let c = line.get_char(start + i);
        match hex_char_val_exec(c) {
            Some(v) => {
                proof {
                    let pre = line@.subrange(start as int, start as int + i as int);
                    let post = line@.subrange(start as int, start as int + i as int + 1);
                    assert(post.drop_last() =~= pre);
                    assert(post.last() == c);
                    lemma_pow16_16();
                    lemma_pow16_mono(i as nat + 1, 16);
                    assert(16 * (acc as int) + 16 <= 16 * pow16(i as nat)) by (nonlinear_arith)
                        requires (acc as int) < pow16(i as nat);
                }
                acc = acc * 16 + v;
            },
            None => {
                return None;
            },
        }
        i += 1;
    }
    Some(acc)
}

proof fn lemma_pow16_mono(a: nat, b: nat)
    requires
        a <= b,
    ensures
        pow16(a) <= pow16(b),
    decreases b,
{
    if a < b {
        lemma_pow16_mono(a, (b - 1) as nat);
        lemma_pow16_pos((b - 1) as nat);
    }
}

/// Parses one canonical text line into a hash pair. Succeeds exactly
/// when the line is 32 characters long and entirely hexadecimal.
pub fn parse_text_line(line: &str) -> (r: Result<HashPair, FormatError>)
    ensures
        r is Ok <==> valid_hash_text(line@),
        r is Ok ==> r->Ok_0 == pair_of_text(line@),
{
    let len = line.unicode_len();
    if len != 32 {
        return Err(FormatError::InvalidHashFormat);
    }
    let high = match parse_hex16(line, 0) {
        Some(v) => v,
        None => {
            return Err(FormatError::InvalidHashFormat);
        },
    };
    let low = match parse_hex16(line, 16) {
        Some(v) => v,
        None => {
            return Err(FormatError::InvalidHashFormat);
        },
    };
    Ok(HashPair { high, low })
}

/// Renders each pair of a batch as its canonical text line, in the
/// batch's order: how a sorted journal batch or a store dump becomes
/// file lines.
pub fn render_text_lines(pairs: &Vec<HashPair>) -> (r: Vec<String>)
    ensures
        r@.len() == pairs@.len(),
        forall|i: int| 0 <= i < pairs@.len() ==> (#[trigger] r@[i])@ == text_of(pairs@[i]),
{
    let mut r: Vec<String> = Vec::new();
    let mut i: usize = 0;
    while i < pairs.len()
        invariant
            i <= pairs@.len(),
            r@.len() == i,
            forall|k: int| 0 <= k < i ==> (#[trigger] r@[k])@ == text_of(pairs@[k]),
        decreases pairs@.len() - i,
    {
        r.push(to_text_line(&pairs[i]));
        i += 1;
    }
    r
}

/// 256 to the power `n`.
pub open spec fn pow256(n: nat) -> int
    decreases n,
{
    if n == 0 {
        1
    } else {
        256 * pow256((n - 1) as nat)
    }
}

/// The numeric value of a big-endian byte sequence.
pub open spec fn be_val(s: Seq<u8>) -> int
    decreases s.len(),
{
    if s.len() == 0 {
        0
    } else {
        256 * be_val(s.drop_last()) + s.last()
    }
}

/// The hash pair carried by 16 wire bytes: the high half first, each
/// half eight big-endian bytes.
pub open spec fn wire_pair_of(s: Seq<u8>) -> HashPair {
    HashPair { high: be_val(s.subrange(0, 8)) as u64, low: be_val(s.subrange(8, 16)) as u64 }
}

pub proof fn lemma_pow256_pos(n: nat)
    ensures
        pow256(n) >= 1,
    decreases n,
{
    if n > 0 {
        lemma_pow256_pos((n - 1) as nat);
    }
}

pub proof fn lemma_pow256_8()
    ensures
        pow256(8) == 0x1_0000_0000_0000_0000,
{
    assert(pow256(0) == 1);
    assert(pow256(1) == 0x100);
    assert(pow256(2) == 0x1_0000);
    assert(pow256(3) == 0x100_0000);
    assert(pow256(4) == 0x1_0000_0000);
    assert(pow256(5) == 0x100_0000_0000);
    assert(pow256(6) == 0x1_0000_0000_0000);
    assert(pow256(7) == 0x100_0000_0000_0000);
    assert(pow256(8) == 0x1_0000_0000_0000_0000);
}

proof fn lemma_pow256_mono(a: nat, b: nat)
    requires
        a <= b,
    ensures
        pow256(a) <= pow256(b),
    decreases b,
{
    if a < b {
        lemma_pow256_mono(a, (b - 1) as nat);
        lemma_pow256_pos((b - 1) as nat);
    }
}

/// Reads eight big-endian bytes of `bytes` starting at `start` as an
/// unsigned 64-bit integer.
fn u64_from_be(bytes: &Vec<u8>, start: usize) -> (r: u64)
    requires
        start <= usize::MAX - 8,
        start + 8 <= bytes@.len(),
    ensures
        r as int == be_val(bytes@.subrange(start as int, start as int + 8)),
{
    let mut acc: u64 = 0;
    let mut i: usize = 0;
    while i < 8
        invariant
            i <= 8,
            start <= usize::MAX - 8,
            start + 8 <= bytes@.len(),
            acc as int == be_val(bytes@.subrange(start as int, start as int + i as int)),
            (acc as int) < pow256(i as nat),
        decreases 8 - i,
    {
        let b = bytes[start + i];
        proof {
            let pre = bytes@.subrange(start as int, start as int + i as int);
            let post = bytes@.subrange(start as int, start as int + i as int + 1);
            assert(post.drop_last() =~= pre);
            assert(post.last() == b);
            lemma_pow256_8();
            lemma_pow256_mono(i as nat + 1, 8);
            assert(256 * (acc as int) + 256 <= 256 * pow256(i as nat)) by (nonlinear_arith)
                requires (acc as int) < pow256(i as nat);
        }
        acc = acc * 256 + (b as u64);
        i += 1;
    }
    acc
}

/// Decodes 16 wire bytes into a hash pair: two big-endian 64-bit
/// halves, high then low.
pub fn pair_from_be_bytes(bytes: &Vec<u8>) -> (r: HashPair)
    requires
        bytes@.len() == 16,
    ensures
        r == wire_pair_of(bytes@),
{
    let high = u64_from_be(bytes, 0);
    let low = u64_from_be(bytes, 8);
    HashPair { high, low }
}

/// Decodes a big-endian 16-bit field, such as the batch length of a
/// request.
pub fn u16_from_be_bytes(b0: u8, b1: u8) -> (r: u16)
    ensures
        r as int == 256 * (b0 as int) + (b1 as int),
{
    (b0 as u16) * 256 + (b1 as u16)
}

/// Encodes a 16-bit count as two big-endian bytes.
pub fn u16_be_bytes(n: u16) -> (r: (u8, u8))
    ensures
        r.0 as int == (n as int) / 256,
        r.1 as int == (n as int) % 256,
        256 * (r.0 as int) + (r.1 as int) == n as int,
{
    ((n / 256) as u8, (n % 256) as u8)
}

} // verus!
