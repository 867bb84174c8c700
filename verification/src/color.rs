//! Colours written as hex strings in the config files: `#rrggbb` or `#aarrggbb`.
use vstd::prelude::*;
use crate::strs::{byte_len, byte_len_of, char_width, chars_of, lemma_byte_len_prefix_inj,
    lemma_byte_len_prefix_mono, unsigned_body};
use crate::widgets::is_boundary;

verus! {

/// `s` without its leading `#` characters (`trim_start_matches('#')`).
pub open spec fn strip_hashes(s: Seq<char>) -> Seq<char>
    decreases s.len(),
{
    if s.len() > 0 && s[0] == '#' {
        strip_hashes(s.drop_first())
    } else {
        s
    }
}

pub open spec fn hex_digit_value(c: char) -> int {
    if '0' <= c <= '9' {
        c as int - '0' as int
    } else if 'a' <= c <= 'f' {
        c as int - 'a' as int + 10
    } else if 'A' <= c <= 'F' {
        c as int - 'A' as int + 10
    } else {
        -1
    }
}

pub open spec fn hex_value(d: Seq<char>) -> nat
    decreases d.len(),
{
    if d.len() == 0 {
        0
    } else {
        hex_value(d.drop_last()) * 16 + hex_digit_value(d.last()) as nat
    }
}

/// `u8::from_str_radix(s, 16)`: an optional `+`, then one or more hex digits of
/// either case whose value is at most 255.
pub open spec fn parse_hex_u8(s: Seq<char>) -> Option<u8> {
    let body = unsigned_body(s);
    if body.len() == 0 || exists|i: int| 0 <= i < body.len() && hex_digit_value(#[trigger] body[i]) < 0 {
        None
    } else if hex_value(body) > 255 {
        None
    } else {
        Some(hex_value(body) as u8)
    }
}

/// The characters of `s` between byte offsets `a` and `b` (both character boundaries).
pub open spec fn byte_slice(s: Seq<char>, a: int, b: int) -> Seq<char> {
    let i = choose|i: int| 0 <= i <= s.len() && byte_len(s.take(i)) == a;
    let j = choose|j: int| 0 <= j <= s.len() && byte_len(s.take(j)) == b;
    s.subrange(i, j)
}

/// The colour `(r, g, b, a)` a hex string stands for: six hex digits give an opaque
/// colour, eight give alpha first; a pair that does not parse gives 0 (255 for the
/// alpha), and any other length gives opaque black.
pub open spec fn hex_rgba_spec(s: Seq<char>) -> (u8, u8, u8, u8) {
    let h = strip_hashes(s);
    let n = byte_len(h);
    let pair = |a: int, dflt: u8| match parse_hex_u8(byte_slice(h, a, a + 2)) {
        Some(v) => v,
        None => dflt,
    };
    if n == 6 {
        (pair(0, 0), pair(2, 0), pair(4, 0), 255)
    } else if n == 8 {
        (pair(2, 0), pair(4, 0), pair(6, 0), pair(0, 255))
    } else {
        (0, 0, 0, 255)
    }
}

/// Slicing a six- or eight-byte colour into pairs cuts at character boundaries.
pub open spec fn hex_slices_ok(s: Seq<char>) -> bool {
    let h = strip_hashes(s);
    &&& byte_len(h) == 6 ==> is_boundary(h, 2) && is_boundary(h, 4)
    &&& byte_len(h) == 8 ==> is_boundary(h, 2) && is_boundary(h, 4) && is_boundary(h, 6)
}

fn hex_digit_exec(c: char) -> (v: i32)
    ensures
        v == hex_digit_value(c),
{
    if '0' <= c && c <= '9' {
        (c as u32 - '0' as u32) as i32
    } else if 'a' <= c && c <= 'f' {
        (c as u32 - 'a' as u32 + 10) as i32
    } else if 'A' <= c && c <= 'F' {
        (c as u32 - 'A' as u32 + 10) as i32
    } else {
        -1
    }
}

proof fn lemma_hex_value_grows(d: Seq<char>, i: int)
    requires
        0 <= i <= d.len(),
        forall|j: int| 0 <= j < d.len() ==> hex_digit_value(#[trigger] d[j]) >= 0,
    ensures
        hex_value(d.take(i)) <= hex_value(d),
    decreases d.len() - i,
{
    if i < d.len() {
        lemma_hex_value_grows(d, i + 1);
        assert(d.take(i + 1).drop_last() == d.take(i));
    } else {
        assert(d.take(i) == d);
    }
}

/// `u8::from_str_radix(s, 16)` on the characters `v[lo..hi]`.
fn parse_hex_u8_exec(v: &[char], lo: usize, hi: usize) -> (r: Option<u8>)
    requires
        lo <= hi <= v@.len(),
    ensures
        r == parse_hex_u8(v@.subrange(lo as int, hi as int)),
{
    let ghost s = v@.subrange(lo as int, hi as int);
    let ghost body = unsigned_body(s);
    let start: usize = if lo < hi && v[lo] == '+' { lo + 1 } else { lo };
    assert(v@.subrange(start as int, hi as int) == body);
    if start >= hi {
        return None;
    }
    let mut acc: u32 = 0;
    let mut i: usize = start;
    while i < hi
        invariant
            lo <= start <= i <= hi <= v@.len(),
            v@.subrange(start as int, hi as int) == body,
            body == unsigned_body(v@.subrange(lo as int, hi as int)),
            acc == hex_value(body.take(i - start)),
            acc <= 255,
            forall|j: int| 0 <= j < i - start ==> hex_digit_value(#[trigger] body[j]) >= 0,
        decreases hi - i,
    {
        let d = hex_digit_exec(v[i]);
        assert(body[i - start] == v@[i as int]);
        if d < 0 {
            assert(hex_digit_value(body[i - start]) < 0);
            return None;
        }
        assert(body.take(i - start + 1).drop_last() == body.take(i - start));
        let next = acc * 16 + d as u32;
        if next > 255 {
            proof {
                if forall|j: int| 0 <= j < body.len() ==> hex_digit_value(#[trigger] body[j]) >= 0 {
                    lemma_hex_value_grows(body, i - start + 1);
                }
            }
            return None;
        }
        acc = next;
        i = i + 1;
    }
    assert(body.take(body.len() as int) == body);
    Some(acc as u8)
}

/// The character position of byte offset `b` of `v` (a boundary).
fn char_at_byte(v: &[char], b: usize) -> (k: usize)
    requires
        is_boundary(v@, b as int),
    ensures
        k <= v@.len(),
        byte_len(v@.take(k as int)) == b,
{
    let ghost s = v@;
    let ghost kk = choose|k: int| 0 <= k <= s.len() && byte_len(#[trigger] s.take(k)) == b;
    let mut acc: usize = 0;
    let mut k: usize = 0;
    while acc < b
        invariant
            0 <= kk <= s.len(),
            byte_len(s.take(kk)) == b,
            v@ == s,
            k <= kk,
            acc == byte_len(s.take(k as int)),
            acc <= b,
        decreases kk - k,
    {
        assert(k < kk);
        proof {
            lemma_byte_len_prefix_mono(s, k + 1, kk);
        }
        assert(s.take(k + 1).drop_last() == s.take(k as int));
        acc = acc + char_width(v[k]);
        k = k + 1;
    }
    k
}

fn pair_at(h: &[char], a: usize, dflt: u8) -> (r: u8)
    requires
        a <= 6,
        is_boundary(h@, a as int),
        is_boundary(h@, a + 2),
    ensures
        r == match parse_hex_u8(byte_slice(h@, a as int, a + 2)) {
            Some(v) => v,
            None => dflt,
        },
{
    let i = char_at_byte(h, a);
    let j = char_at_byte(h, a + 2);
    proof {
        let ci = choose|i: int| 0 <= i <= h@.len() && byte_len(h@.take(i)) == a;
        let cj = choose|j: int| 0 <= j <= h@.len() && byte_len(h@.take(j)) == a + 2;
        lemma_byte_len_prefix_inj(h@, i as int, ci);
        lemma_byte_len_prefix_inj(h@, j as int, cj);
        if j < i {
            lemma_byte_len_prefix_mono(h@, j as int, i as int);
        }
    }
    match parse_hex_u8_exec(h, i, j) {
        Some(v) => v,
        None => dflt,
    }
}

/// The `(r, g, b, a)` of a `#rrggbb` or `#aarrggbb` colour string (see `hex_rgba_spec`).
pub fn hex_rgba(s: &str) -> (c: (u8, u8, u8, u8))
    requires
        hex_slices_ok(s@),
        byte_len(s@) <= usize::MAX,
    ensures
        c == hex_rgba_spec(s@),
{
    let v = chars_of(s);
    let mut start: usize = 0;
    assert(v@.skip(0) == v@);
    while start < v.len() && v[start] == '#'
        invariant
            start <= v@.len(),
            v@ == s@,
            strip_hashes(s@) == strip_hashes(v@.skip(start as int)),
        decreases v.len() - start,
    {
        assert(v@.skip(start as int).drop_first() == v@.skip(start + 1));
        start = start + 1;
    }
    let mut h: Vec<char> = Vec::new();
    let mut i = start;
    while i < v.len()
        invariant
            start <= i <= v@.len(),
            h@ == v@.subrange(start as int, i as int),
        decreases v.len() - i,
    {
        h.push(v[i]);
        assert(v@.subrange(start as int, i + 1) == v@.subrange(start as int, i as int).push(v@[i as int]));
        i = i + 1;
    }
    assert(h@ == v@.skip(start as int));
    assert(h@ == strip_hashes(s@));
    proof {
        assert(h@.take(h@.len() as int) == h@);
        assert(s@ == v@.take(start as int) + h@);
        crate::strs::lemma_byte_len_concat(v@.take(start as int), h@);
    }
    let n = byte_len_of(h.as_slice(), h.len());
    proof {
        assert(h@.take(0) == Seq::<char>::empty());
        assert(byte_len(h@.take(0)) == 0);
        assert(is_boundary(h@, 0));
        assert(is_boundary(h@, n as int));
    }
    if n == 6 {
        (pair_at(h.as_slice(), 0, 0), pair_at(h.as_slice(), 2, 0), pair_at(h.as_slice(), 4, 0), 255)
    } else if n == 8 {
        (pair_at(h.as_slice(), 2, 0), pair_at(h.as_slice(), 4, 0), pair_at(h.as_slice(), 6, 0),
            pair_at(h.as_slice(), 0, 255))
    } else {
        (0, 0, 0, 255)
    }
}

} // verus!
