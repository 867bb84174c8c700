//! Character-level string helpers shared by the parsers: trimming, splitting,
//! searching and building strings, each with the specification it meets.
use vstd::prelude::*;

verus! {

/// Unicode `White_Space` (the set that `char::is_whitespace` tests).
pub open spec fn is_ws(c: char) -> bool {
    let u = c as u32;
    (0x09 <= u <= 0x0d) || u == 0x20 || u == 0x85 || u == 0xa0 || u == 0x1680 || (0x2000 <= u
        <= 0x200a) || u == 0x2028 || u == 0x2029 || u == 0x202f || u == 0x205f || u == 0x3000
}

/// `s` without its leading white space.
pub open spec fn trim_start(s: Seq<char>) -> Seq<char>
    decreases s.len(),
{
    if s.len() > 0 && is_ws(s[0]) {
        trim_start(s.drop_first())
    } else {
        s
    }
}

/// `s` without its trailing white space.
pub open spec fn trim_end(s: Seq<char>) -> Seq<char>
    decreases s.len(),
{
    if s.len() > 0 && is_ws(s.last()) {
        trim_end(s.drop_last())
    } else {
        s
    }
}

/// `s` without leading and trailing white space.
pub open spec fn trim(s: Seq<char>) -> Seq<char> {
    trim_end(trim_start(s))
}

/// `p` is a prefix of `s`.
pub open spec fn starts_with(s: Seq<char>, p: Seq<char>) -> bool {
    p.len() <= s.len() && s.take(p.len() as int) == p
}

/// `p` is a suffix of `s`.
pub open spec fn ends_with(s: Seq<char>, p: Seq<char>) -> bool {
    p.len() <= s.len() && s.skip(s.len() - p.len()) == p
}

/// `p` occurs in `s` starting at position `i`.
pub open spec fn occurs_at(s: Seq<char>, p: Seq<char>, i: int) -> bool {
    0 <= i && i + p.len() <= s.len() && s.subrange(i, i + p.len()) == p
}

/// `p` occurs somewhere in `s`.
pub open spec fn contains(s: Seq<char>, p: Seq<char>) -> bool {
    exists|i: int| occurs_at(s, p, i)
}

/// The pieces of `s` between occurrences of `d` (as `str::split` with a char).
pub open spec fn split(s: Seq<char>, d: char) -> Seq<Seq<char>>
    decreases s.len(),
{
    if s.len() == 0 {
        seq![Seq::<char>::empty()]
    } else {
        let rest = split(s.drop_last(), d);
        if s.last() == d {
            rest.push(Seq::<char>::empty())
        } else {
            rest.update(rest.len() - 1, rest.last().push(s.last()))
        }
    }
}

/// Splitting always gives at least one piece.
pub proof fn lemma_split_nonempty(s: Seq<char>, d: char)
    ensures
        split(s, d).len() >= 1,
    decreases s.len(),
{
    if s.len() > 0 {
        lemma_split_nonempty(s.drop_last(), d);
    }
}

/// The white-space separated words of `s` (as `str::split_whitespace`).
pub open spec fn words(s: Seq<char>) -> Seq<Seq<char>>
    decreases s.len(),
{
    if s.len() == 0 {
        Seq::<Seq<char>>::empty()
    } else {
        let w = words(s.drop_last());
        let c = s.last();
        if is_ws(c) {
            w
        } else if s.len() >= 2 && !is_ws(s[s.len() - 2]) {
            w.update(w.len() - 1, w.last().push(c))
        } else {
            w.push(seq![c])
        }
    }
}

/// The pieces joined with `sep` between consecutive pieces.
pub open spec fn join(ps: Seq<Seq<char>>, sep: Seq<char>) -> Seq<char>
    decreases ps.len(),
{
    if ps.len() == 0 {
        Seq::<char>::empty()
    } else if ps.len() == 1 {
        ps[0]
    } else {
        join(ps.drop_last(), sep) + sep + ps.last()
    }
}

/// Index of the first occurrence of `d` in `s`, if any.
pub open spec fn find_char(s: Seq<char>, d: char) -> Option<int>
    decreases s.len(),
{
    if s.len() == 0 {
        None
    } else if s[0] == d {
        Some(0)
    } else {
        match find_char(s.drop_first(), d) {
            Some(i) => Some(i + 1),
            None => None,
        }
    }
}

/// `str::split_once` with a char: the text before and after the first `d`.
pub open spec fn split_once(s: Seq<char>, d: char) -> Option<(Seq<char>, Seq<char>)> {
    match find_char(s, d) {
        Some(i) => Some((s.take(i), s.skip(i + 1))),
        None => None,
    }
}

/// Appends `c` to `s` (`String::push`).
#[verifier::external_body]
pub(crate) fn push_char(s: &mut String, c: char)
    ensures
        final(s)@ == old(s)@.push(c),
{
    s.push(c);
}

/// The characters of `s`, in order.
pub fn chars_of(s: &str) -> (v: Vec<char>)
    ensures
        v@ == s@,
{
    broadcast use vstd::string::group_string_axioms;

    let mut v: Vec<char> = Vec::new();
    for c in it: s.chars()
        invariant
            v@ == it.seq().take(it.index() as int),
    {
        v.push(c);
    }
    v
}

/// A string holding the characters `v[lo..hi]`.
pub fn string_of(v: &[char], lo: usize, hi: usize) -> (s: String)
    requires
        lo <= hi <= v@.len(),
    ensures
        s@ == v@.subrange(lo as int, hi as int),
{
    let mut s = String::new();
    let mut i = lo;
    while i < hi
        invariant
            lo <= i <= hi <= v@.len(),
            s@ == v@.subrange(lo as int, i as int),
        decreases hi - i,
    {
        push_char(&mut s, v[i]);
        assert(v@.subrange(lo as int, i + 1) == v@.subrange(lo as int, i as int).push(v@[i as int]));
        i = i + 1;
    }
    s
}

/// Appends all of `t` to `s`.
pub fn push_str(s: &mut String, t: &str)
    ensures
        final(s)@ == old(s)@ + t@,
{
    let v = chars_of(t);
    let ghost s0 = s@;
    let mut i: usize = 0;
    while i < v.len()
        invariant
            0 <= i <= v@.len(),
            v@ == t@,
            s@ == s0 + v@.take(i as int),
        decreases v.len() - i,
    {
        push_char(s, v[i]);
        assert(v@.take(i + 1) == v@.take(i as int).push(v@[i as int]));
        i = i + 1;
    }
    assert(v@.take(v@.len() as int) == v@);
}

/// `char::is_whitespace`.
pub fn is_whitespace(c: char) -> (b: bool)
    ensures
        b == is_ws(c),
{
    let u = c as u32;
    (0x09 <= u && u <= 0x0d) || u == 0x20 || u == 0x85 || u == 0xa0 || u == 0x1680 || (0x2000
        <= u && u <= 0x200a) || u == 0x2028 || u == 0x2029 || u == 0x202f || u == 0x205f || u
        == 0x3000
}

/// Positions `lo..hi` of `v[from..to]` after trimming white space on both sides.
pub fn trim_range(v: &[char], from: usize, to: usize) -> (r: (usize, usize))
    requires
        from <= to <= v@.len(),
    ensures
        from <= r.0 <= r.1 <= to,
        v@.subrange(r.0 as int, r.1 as int) == trim(v@.subrange(from as int, to as int)),
{
    let ghost s = v@.subrange(from as int, to as int);
    let mut lo = from;
    while lo < to && is_whitespace(v[lo])
        invariant
            from <= lo <= to <= v@.len(),
            trim_start(s) == trim_start(v@.subrange(lo as int, to as int)),
        decreases to - lo,
    {
        assert(v@.subrange(lo as int, to as int).drop_first() == v@.subrange(lo + 1, to as int));
        lo = lo + 1;
    }
    assert(trim_start(v@.subrange(lo as int, to as int)) == v@.subrange(lo as int, to as int));
    let mut hi = to;
    while hi > lo && is_whitespace(v[hi - 1])
        invariant
            from <= lo <= hi <= to <= v@.len(),
            trim(s) == trim_end(v@.subrange(lo as int, hi as int)),
        decreases hi - lo,
    {
        assert(v@.subrange(lo as int, hi as int).drop_last() == v@.subrange(lo as int, hi - 1));
        hi = hi - 1;
    }
    assert(trim_end(v@.subrange(lo as int, hi as int)) == v@.subrange(lo as int, hi as int));
    (lo, hi)
}

/// Whether `a` and `b` hold the same characters.
pub fn eq_chars(a: &[char], b: &[char]) -> (r: bool)
    ensures
        r == (a@ == b@),
{
    if a.len() != b.len() {
        return false;
    }
    let mut i: usize = 0;
    while i < a.len()
        invariant
            0 <= i <= a@.len(),
            a@.len() == b@.len(),
            forall|j: int| 0 <= j < i ==> a@[j] == b@[j],
        decreases a.len() - i,
    {
        if a[i] != b[i] {
            return false;
        }
        i = i + 1;
    }
    assert(a@ =~= b@);
    true
}

/// Whether `v[lo..hi]` holds exactly the characters of `t`.
pub fn range_eq_str(v: &[char], lo: usize, hi: usize, t: &str) -> (r: bool)
    requires
        lo <= hi <= v@.len(),
    ensures
        r == (v@.subrange(lo as int, hi as int) == t@),
{
    let tv = chars_of(t);
    if hi - lo != tv.len() {
        return false;
    }
    let mut i: usize = 0;
    while i < tv.len()
        invariant
            0 <= i <= tv@.len(),
            tv@ == t@,
            lo <= hi <= v@.len(),
            hi - lo == tv@.len(),
            forall|j: int| 0 <= j < i ==> v@[lo + j] == tv@[j],
        decreases tv.len() - i,
    {
        if v[lo + i] != tv[i] {
            return false;
        }
        i = i + 1;
    }
    assert(v@.subrange(lo as int, hi as int) =~= tv@);
    true
}

/// Whether `s` and `t` are equal strings.
pub fn str_eq(s: &str, t: &str) -> (r: bool)
    ensures
        r == (s@ == t@),
{
    let v = chars_of(s);
    assert(v@.subrange(0, v@.len() as int) == v@);
    range_eq_str(&v, 0, v.len(), t)
}

/// Positions of the pieces of `v[from..to]` between occurrences of `d`.
pub fn split_ranges(v: &[char], from: usize, to: usize, d: char) -> (r: Vec<(usize, usize)>)
    requires
        from <= to <= v@.len(),
    ensures
        r@.len() == split(v@.subrange(from as int, to as int), d).len(),
        forall|i: int|
            0 <= i < r@.len() ==> from <= (#[trigger] r@[i]).0 <= r@[i].1 <= to && v@.subrange(
                r@[i].0 as int,
                r@[i].1 as int,
            ) == split(v@.subrange(from as int, to as int), d)[i],
{
    let mut r: Vec<(usize, usize)> = Vec::new();
    let mut start = from;
    let mut pos = from;
    while pos < to
        invariant
            from <= start <= pos <= to <= v@.len(),
            r@.len() + 1 == split(v@.subrange(from as int, pos as int), d).len(),
            forall|i: int|
                0 <= i < r@.len() ==> from <= (#[trigger] r@[i]).0 <= r@[i].1 <= to
                    && v@.subrange(r@[i].0 as int, r@[i].1 as int) == split(
                    v@.subrange(from as int, pos as int),
                    d,
                )[i],
            v@.subrange(start as int, pos as int) == split(
                v@.subrange(from as int, pos as int),
                d,
            ).last(),
        decreases to - pos,
    {
        let ghost pre = v@.subrange(from as int, pos as int);
        let ghost nxt = v@.subrange(from as int, pos + 1);
        assert(nxt.drop_last() == pre);
        assert(nxt.last() == v@[pos as int]);
        if v[pos] == d {
            r.push((start, pos));
            start = pos + 1;
            assert(v@.subrange(start as int, pos + 1) =~= Seq::<char>::empty());
        } else {
            assert(v@.subrange(start as int, pos + 1) == v@.subrange(start as int, pos as int).push(
                v@[pos as int],
            ));
        }
        pos = pos + 1;
    }
    r.push((start, pos));
    r
}

/// Positions of the white-space separated words of `v[from..to]`.
pub fn word_ranges(v: &[char], from: usize, to: usize) -> (r: Vec<(usize, usize)>)
    requires
        from <= to <= v@.len(),
    ensures
        r@.len() == words(v@.subrange(from as int, to as int)).len(),
        forall|i: int|
            0 <= i < r@.len() ==> from <= (#[trigger] r@[i]).0 <= r@[i].1 <= to && v@.subrange(
                r@[i].0 as int,
                r@[i].1 as int,
            ) == words(v@.subrange(from as int, to as int))[i],
{
    let mut r: Vec<(usize, usize)> = Vec::new();
    let mut in_word = false;
    let mut start = from;
    let mut pos = from;
    while pos < to
        invariant
            from <= start <= pos <= to <= v@.len(),
            in_word == (pos > from && !is_ws(v@[pos - 1])),
            in_word ==> r@.len() + 1 == words(v@.subrange(from as int, pos as int)).len(),
            !in_word ==> r@.len() == words(v@.subrange(from as int, pos as int)).len(),
            forall|i: int|
                0 <= i < r@.len() ==> from <= (#[trigger] r@[i]).0 <= r@[i].1 <= to
                    && v@.subrange(r@[i].0 as int, r@[i].1 as int) == words(
                    v@.subrange(from as int, pos as int),
                )[i],
            in_word ==> v@.subrange(start as int, pos as int) == words(
                v@.subrange(from as int, pos as int),
            ).last(),
        decreases to - pos,
    {
        let ghost pre = v@.subrange(from as int, pos as int);
        let ghost nxt = v@.subrange(from as int, pos + 1);
        assert(nxt.drop_last() == pre);
        assert(nxt.last() == v@[pos as int]);
        if pos > from {
            assert(nxt[nxt.len() - 2] == v@[pos - 1]);
        }
        if is_whitespace(v[pos]) {
            if in_word {
                r.push((start, pos));
            }
            in_word = false;
        } else {
            if in_word {
                assert(v@.subrange(start as int, pos + 1) == v@.subrange(start as int, pos as int).push(
                    v@[pos as int],
                ));
            } else {
                start = pos;
                in_word = true;
                assert(v@.subrange(start as int, pos + 1) =~= seq![v@[pos as int]]);
            }
        }
        pos = pos + 1;
    }
    if in_word {
        r.push((start, pos));
    }
    r
}

/// Position of the first `d` in `v[from..to]`, relative to `from`.
pub fn find_char_in(v: &[char], from: usize, to: usize, d: char) -> (r: Option<usize>)
    requires
        from <= to <= v@.len(),
    ensures
        r is None <==> find_char(v@.subrange(from as int, to as int), d) is None,
        r matches Some(i) ==> i < to - from && find_char(v@.subrange(from as int, to as int), d)
            == Some(i as int),
{
    let mut i = from;
    while i < to
        invariant
            from <= i <= to <= v@.len(),
            find_char(v@.subrange(from as int, to as int), d) == (match find_char(
                v@.subrange(i as int, to as int),
                d,
            ) {
                Some(j) => Some(j + (i - from)),
                None => None::<int>,
            }),
        decreases to - i,
    {
        if v[i] == d {
            return Some(i - from);
        }
        assert(v@.subrange(i as int, to as int).drop_first() == v@.subrange(i + 1, to as int));
        i = i + 1;
    }
    None
}

/// Whether `p` occurs in `s` at position `i`.
pub fn occurs_at_exec(s: &[char], p: &[char], i: usize) -> (r: bool)
    ensures
        r == occurs_at(s@, p@, i as int),
{
    if p.len() > s.len() || i > s.len() - p.len() {
        return false;
    }
    let mut j: usize = 0;
    while j < p.len()
        invariant
            0 <= j <= p@.len(),
            i + p@.len() <= s@.len(),
            i + p.len() <= s.len(),
            forall|k: int| 0 <= k < j ==> s@[i + k] == p@[k],
        decreases p.len() - j,
    {
        if s[i + j] != p[j] {
            assert(s@.subrange(i as int, i + p@.len())[j as int] != p@[j as int]);
            return false;
        }
        j = j + 1;
    }
    assert(s@.subrange(i as int, i + p@.len()) =~= p@);
    true
}

/// Whether `s` starts with `p`.
pub fn starts_with_chars(s: &[char], p: &[char]) -> (r: bool)
    ensures
        r == starts_with(s@, p@),
{
    let r = occurs_at_exec(s, p, 0);
    proof {
        if p@.len() <= s@.len() {
            assert(s@.subrange(0, p@.len() as int) == s@.take(p@.len() as int));
        }
    }
    r
}

/// Whether `p` occurs anywhere in `s`.
pub fn contains_chars(s: &[char], p: &[char]) -> (r: bool)
    ensures
        r == contains(s@, p@),
{
    if p.len() > s.len() {
        return false;
    }
    let last = s.len() - p.len();
    let mut i: usize = 0;
    while i < last
        invariant
            0 <= i <= last,
            last == s@.len() - p@.len(),
            forall|k: int| 0 <= k < i ==> !occurs_at(s@, p@, k),
        decreases last - i,
    {
        if occurs_at_exec(s, p, i) {
            return true;
        }
        i = i + 1;
    }
    if occurs_at_exec(s, p, last) {
        return true;
    }
    assert forall|k: int| !occurs_at(s@, p@, k) by {
        if 0 <= k <= last {
        }
    }
    false
}

/// The lower-case form of `s`, as `str::to_lowercase` computes it (full Unicode case mapping).
pub uninterp spec fn lowercase(s: Seq<char>) -> Seq<char>;

/// `str::to_lowercase`: the result is `lowercase` of the argument.
#[verifier::external_body]
pub(crate) fn to_lowercase(s: &str) -> (r: String)
    ensures
        r@ == lowercase(s@),
{
    s.to_lowercase()
}

/// Number of bytes in the UTF-8 encoding of `c`.
pub open spec fn utf8_width(c: char) -> nat {
    if (c as u32) < 0x80 {
        1
    } else if (c as u32) < 0x800 {
        2
    } else if (c as u32) < 0x10000 {
        3
    } else {
        4
    }
}

/// Number of bytes in the UTF-8 encoding of `s` (what `str::len` reports).
pub open spec fn byte_len(s: Seq<char>) -> nat
    decreases s.len(),
{
    if s.len() == 0 {
        0
    } else {
        byte_len(s.drop_last()) + utf8_width(s.last())
    }
}

/// `byte_len` adds up over concatenation.
pub proof fn lemma_byte_len_concat(a: Seq<char>, b: Seq<char>)
    ensures
        byte_len(a + b) == byte_len(a) + byte_len(b),
    decreases b.len(),
{
    if b.len() == 0 {
        assert(a + b == a);
    } else {
        assert((a + b).drop_last() == a + b.drop_last());
        lemma_byte_len_concat(a, b.drop_last());
    }
}

/// Byte lengths of prefixes grow strictly with the prefix.
pub proof fn lemma_byte_len_prefix_mono(s: Seq<char>, i: int, j: int)
    requires
        0 <= i <= j <= s.len(),
    ensures
        byte_len(s.take(i)) + (j - i) <= byte_len(s.take(j)),
    decreases j - i,
{
    if i < j {
        lemma_byte_len_prefix_mono(s, i, j - 1);
        assert(s.take(j).drop_last() == s.take(j - 1));
    }
}

/// A byte offset names at most one character position.
pub proof fn lemma_byte_len_prefix_inj(s: Seq<char>, i: int, j: int)
    requires
        0 <= i <= s.len(),
        0 <= j <= s.len(),
        byte_len(s.take(i)) == byte_len(s.take(j)),
    ensures
        i == j,
{
    if i < j {
        lemma_byte_len_prefix_mono(s, i, j);
    } else if j < i {
        lemma_byte_len_prefix_mono(s, j, i);
    }
}

/// `char::len_utf8`.
pub fn char_width(c: char) -> (w: usize)
    ensures
        w == utf8_width(c),
{
    let u = c as u32;
    if u < 0x80 {
        1
    } else if u < 0x800 {
        2
    } else if u < 0x10000 {
        3
    } else {
        4
    }
}

/// Byte length of the UTF-8 encoding of `v[..n]`.
pub fn byte_len_of(v: &[char], n: usize) -> (b: usize)
    requires
        n <= v@.len(),
        byte_len(v@.take(n as int)) <= usize::MAX,
    ensures
        b == byte_len(v@.take(n as int)),
{
    let mut b: usize = 0;
    let mut i: usize = 0;
    while i < n
        invariant
            i <= n <= v@.len(),
            b == byte_len(v@.take(i as int)),
            byte_len(v@.take(n as int)) <= usize::MAX,
        decreases n - i,
    {
        assert(v@.take(i + 1).drop_last() == v@.take(i as int));
        proof {
            lemma_byte_len_prefix_mono(v@, i + 1, n as int);
        }
        b = b + char_width(v[i]);
        i = i + 1;
    }
    b
}

// ── decimal numbers ───────────────────────────────────────────────────────────

pub open spec fn digit_char(d: int) -> char {
    (('0' as int) + d) as char
}

/// Decimal digits of `n`, without leading zeros (`n.to_string()`).
pub open spec fn dec_text(n: nat) -> Seq<char>
    decreases n,
{
    if n < 10 {
        seq![digit_char(n as int)]
    } else {
        dec_text(n / 10).push(digit_char((n % 10) as int))
    }
}

/// Reading back a number's decimal text gives the number.
pub proof fn lemma_dec_text_parses(n: nat, max: nat)
    requires
        n <= max,
    ensures
        trim(dec_text(n)) == dec_text(n),
        parse_unsigned(trim(dec_text(n)), max) == Some(n),
{
    lemma_dec_text_digits(n);
    let d = dec_text(n);
    assert(trim_start(d) == d);
    assert(trim_end(d) == d);
    assert(unsigned_body(d) == d);
}

proof fn lemma_dec_text_digits(n: nat)
    ensures
        dec_text(n).len() > 0,
        all_digits(dec_text(n)),
        digits_value(dec_text(n)) == n,
        !is_ws(dec_text(n)[0]),
        !is_ws(dec_text(n).last()),
        dec_text(n)[0] != '+',
    decreases n,
{
    if n < 10 {
        let d = dec_text(n);
        assert(d.drop_last().len() == 0);
        assert(digits_value(d.drop_last()) == 0);
        assert((d.last() as int) - ('0' as int) == n);
    } else {
        lemma_dec_text_digits(n / 10);
        let d = dec_text(n);
        assert(d.drop_last() == dec_text(n / 10));
        assert(d[0] == dec_text(n / 10)[0]);
        assert(d.last() == digit_char((n % 10) as int));
        assert((d.last() as int) - ('0' as int) == n % 10);
        assert(digits_value(d) == digits_value(dec_text(n / 10)) * 10 + n % 10);
        assert((n / 10) * 10 + n % 10 == n);
        assert forall|i: int| 0 <= i < d.len() implies is_digit_char(#[trigger] d[i]) by {
            if i < d.len() - 1 {
                assert(d[i] == dec_text(n / 10)[i]);
            }
        }
    }
}

/// The decimal text of a `u32` has at most ten digits, one byte each.
pub proof fn lemma_dec_text_u32(n: u32)
    ensures
        dec_text(n as nat).len() <= 10,
        byte_len(dec_text(n as nat)) == dec_text(n as nat).len(),
{
    assert(power10_below(10) == 1_000_000_000) by {
        reveal_with_fuel(power10_below, 10);
    }
    lemma_dec_text_len(n as nat, 10, 10_000_000_000);
}

proof fn lemma_dec_text_len(n: nat, k: nat, p: nat)
    requires
        k >= 1,
        n < p,
        p <= 10 * power10_below(k),
    ensures
        dec_text(n).len() <= k,
        byte_len(dec_text(n)) == dec_text(n).len(),
    decreases n,
{
    if n < 10 {
        assert(byte_len(dec_text(n).drop_last()) == 0);
    } else {
        assert(power10_below(k) >= 1) by {
            lemma_power10_positive(k);
        }
        assert(k >= 2) by {
            if k == 1 {
                assert(power10_below(1) == 1);
            }
        }
        assert(n / 10 < power10_below(k)) by (nonlinear_arith)
            requires
                n < p,
                p <= 10 * power10_below(k),
        ;
        assert(power10_below(k) == 10 * power10_below((k - 1) as nat));
        lemma_dec_text_len(n / 10, (k - 1) as nat, power10_below(k));
        let d = dec_text(n);
        assert(d.drop_last() == dec_text(n / 10));
        assert((d.last() as u32) < 0x80);
    }
}

/// `10` to the power `k - 1`.
pub open spec fn power10_below(k: nat) -> nat
    decreases k,
{
    if k <= 1 {
        1
    } else {
        10 * power10_below((k - 1) as nat)
    }
}

proof fn lemma_power10_positive(k: nat)
    ensures
        power10_below(k) >= 1,
    decreases k,
{
    if k > 1 {
        lemma_power10_positive((k - 1) as nat);
    }
}

fn digit_exec(d: u64) -> (c: char)
    requires
        d < 10,
    ensures
        c == digit_char(d as int),
{
    let digits = ['0', '1', '2', '3', '4', '5', '6', '7', '8', '9'];
    assert(digits@ == seq!['0', '1', '2', '3', '4', '5', '6', '7', '8', '9']);
    digits[d as usize]
}

/// `n` in decimal.
pub fn decimal(n: u64) -> (s: String)
    ensures
        s@ == dec_text(n as nat),
    decreases n,
{
    if n < 10 {
        let mut s = String::new();
        push_char(&mut s, digit_exec(n));
        s
    } else {
        let mut s = decimal(n / 10);
        push_char(&mut s, digit_exec(n % 10));
        s
    }
}

pub open spec fn is_digit_char(c: char) -> bool {
    '0' <= c <= '9'
}

/// The number written by the decimal digits `d`.
pub open spec fn digits_value(d: Seq<char>) -> nat
    decreases d.len(),
{
    if d.len() == 0 {
        0
    } else {
        digits_value(d.drop_last()) * 10 + ((d.last() as int) - ('0' as int)) as nat
    }
}

/// The text after an optional leading `+`.
pub open spec fn unsigned_body(s: Seq<char>) -> Seq<char> {
    if s.len() > 0 && s[0] == '+' {
        s.drop_first()
    } else {
        s
    }
}

pub open spec fn all_digits(b: Seq<char>) -> bool {
    forall|i: int| 0 <= i < b.len() ==> is_digit_char(#[trigger] b[i])
}

/// What `str::parse` gives for an unsigned integer type whose largest value is `max`:
/// an optional `+`, then one or more decimal digits, whose value must not exceed `max`.
pub open spec fn parse_unsigned(s: Seq<char>, max: nat) -> Option<nat> {
    let body = unsigned_body(s);
    if body.len() == 0 || !all_digits(body) {
        None
    } else if digits_value(body) > max {
        None
    } else {
        Some(digits_value(body))
    }
}

proof fn lemma_digits_value_grows(d: Seq<char>, i: int)
    requires
        0 <= i <= d.len(),
        forall|j: int| 0 <= j < d.len() ==> is_digit_char(#[trigger] d[j]),
    ensures
        digits_value(d.take(i)) <= digits_value(d),
    decreases d.len() - i,
{
    if i < d.len() {
        lemma_digits_value_grows(d, i + 1);
        assert(d.take(i + 1).drop_last() == d.take(i));
    } else {
        assert(d.take(i) == d);
    }
}

/// `str::parse` into an unsigned integer no larger than `max` (`u64::MAX` for `u64`,
/// `u32::MAX` for `u32`).
pub fn parse_unsigned_exec(s: &str, max: u64) -> (r: Option<u64>)
    ensures
        match parse_unsigned(s@, max as nat) {
            Some(n) => r == Some(n as u64),
            None => r is None,
        },
{
    let v = chars_of(s);
    let start: usize = if v.len() > 0 && v[0] == '+' { 1 } else { 0 };
    let ghost body = unsigned_body(s@);
    assert(v@.skip(start as int) == body);
    if start >= v.len() {
        return None;
    }
    let mut acc: u64 = 0;
    let mut i: usize = start;
    while i < v.len()
        invariant
            start <= i <= v@.len(),
            v@ == s@,
            v@.skip(start as int) == body,
            body == unsigned_body(s@),
            acc == digits_value(body.take(i - start)),
            acc <= max,
            forall|j: int| 0 <= j < i - start ==> is_digit_char(#[trigger] body[j]),
        decreases v.len() - i,
    {
        let c = v[i];
        assert(body[i - start] == c);
        if !('0' <= c && c <= '9') {
            assert(!is_digit_char(body[i - start]));
            assert(!all_digits(body));
            return None;
        }
        let d = (c as u32 - '0' as u32) as u64;
        assert(body.take(i - start + 1).drop_last() == body.take(i - start));
        if d > max || acc > (max - d) / 10 {
            proof {
                if d <= max {
                    assert(acc * 10 + d > max) by (nonlinear_arith)
                        requires acc > (max - d) / 10, d <= max;
                }
                assert(digits_value(body.take(i - start + 1)) == acc * 10 + d);
                if all_digits(body) {
                    lemma_digits_value_grows(body, i - start + 1);
                }
            }
            return None;
        }
        proof {
            assert(acc * 10 + d <= max) by (nonlinear_arith)
                requires acc <= (max - d) / 10, d <= max;
        }
        acc = acc * 10 + d;
        i = i + 1;
    }
    assert(body.take(body.len() as int) == body);
    Some(acc)
}

} // verus!
