//! Editing state of the settings panel's small widgets: a single-line text input
//! whose cursor is a byte offset into its UTF-8 text, a key-combo capture slot,
//! and a boolean toggle.
use vstd::prelude::*;
use crate::strs::{byte_len, byte_len_of, chars_of, char_width, lemma_byte_len_concat,
    lemma_byte_len_prefix_inj, lemma_byte_len_prefix_mono, push_char, utf8_width};

verus! {

/// `b` is a character boundary of `s`: the byte length of some prefix of `s`.
pub open spec fn is_boundary(s: Seq<char>, b: int) -> bool {
    exists|k: int| 0 <= k <= s.len() && byte_len(#[trigger] s.take(k)) == b
}

/// The character position `k` that byte offset `b` stands for in `s`.
pub open spec fn at_char(s: Seq<char>, b: int, k: int) -> bool {
    0 <= k <= s.len() && byte_len(s.take(k)) == b
}

/// Index one past the last space in `s[..e]`, or 0 when there is none.
pub open spec fn word_start(s: Seq<char>, e: int) -> int
    decreases e,
{
    if e <= 0 {
        0
    } else if s[e - 1] == ' ' {
        e
    } else {
        word_start(s, e - 1)
    }
}

/// Where `delete_word` leaves the cursor, as a character position, from position `k`.
pub open spec fn delete_word_to(s: Seq<char>, k: int) -> int {
    if k == 0 {
        0
    } else if s[k - 1] == ' ' && k != s.len() {
        k
    } else {
        word_start(s, k - 1)
    }
}

/// `b` is `a` after typing `ch`: `ch` is inserted at the cursor, which moves past it.
pub open spec fn pushed(a: TextInput, b: TextInput, ch: char) -> bool {
    &&& b.focused == a.focused
    &&& b.cursor == a.cursor + utf8_width(ch)
    &&& forall|k: int| #[trigger] at_char(a.value@, a.cursor as int, k)
        ==> b.value@ == a.value@.take(k).push(ch) + a.value@.skip(k)
}

/// `b` is `a` after a backspace: the character before the cursor is gone and the
/// cursor sits where it began; at the start nothing changes.
pub open spec fn backspaced(a: TextInput, b: TextInput) -> bool {
    &&& b.focused == a.focused
    &&& a.cursor == 0 ==> b.value@ == a.value@ && b.cursor == 0
    &&& forall|k: int| #[trigger] at_char(a.value@, a.cursor as int, k) && k > 0
        ==> b.value@ == a.value@.take(k - 1) + a.value@.skip(k) && b.cursor == byte_len(a.value@.take(k - 1))
}

/// Single-line text input state.
pub struct TextInput {
    pub value: String,
    pub cursor: usize,
    pub focused: bool,
}

impl TextInput {
    /// The cursor sits on a character boundary of the value.
    pub open spec fn wf(&self) -> bool {
        is_boundary(self.value@, self.cursor as int)
    }

    /// A text input holding `value`, unfocused, with the cursor at the end.
    pub fn new(value: String) -> (t: TextInput)
        requires
            byte_len(value@) <= usize::MAX,
        ensures
            t.wf(),
            t.value@ == value@,
            t.cursor == byte_len(value@),
            !t.focused,
    {
        let v = chars_of(value.as_str());
        assert(v@.take(v@.len() as int) == v@);
        let c = byte_len_of(v.as_slice(), v.len());
        let t = TextInput { value, cursor: c, focused: false };
        assert(t.value@.take(t.value@.len() as int) == t.value@);
        t
    }

    /// Character position of the cursor, found by walking the value's characters.
    fn cursor_index(&self, v: &[char]) -> (k: usize)
        requires
            self.wf(),
            v@ == self.value@,
        ensures
            at_char(self.value@, self.cursor as int, k as int),
    {
        let ghost s = self.value@;
        let ghost kk = choose|k: int| 0 <= k <= s.len() && byte_len(#[trigger] s.take(k)) == self.cursor;
        let mut b: usize = 0;
        let mut k: usize = 0;
        while b < self.cursor
            invariant
                0 <= kk <= s.len(),
                byte_len(s.take(kk)) == self.cursor,
                v@ == s,
                k <= kk,
                b == byte_len(s.take(k as int)),
                b <= self.cursor,
            decreases kk - k,
        {
            assert(k < kk);
            proof {
                lemma_byte_len_prefix_mono(s, k + 1, kk);
            }
            assert(s.take(k + 1).drop_last() == s.take(k as int));
            b = b + char_width(v[k]);
            k = k + 1;
        }
        proof {
            lemma_byte_len_prefix_inj(s, k as int, kk);
        }
        k
    }

    /// Inserts `ch` at the cursor and moves the cursor past it.
    pub fn push(&mut self, ch: char)
        requires
            old(self).wf(),
            old(self).cursor + utf8_width(ch) <= usize::MAX,
        ensures
            final(self).wf(),
            pushed(*old(self), *final(self), ch),
    {
        let v = chars_of(self.value.as_str());
        let k = self.cursor_index(v.as_slice());
        let ghost s = self.value@;
        let mut out = String::new();
        let mut i: usize = 0;
        while i < k
            invariant
                v@ == s,
                k <= s.len(),
                i <= k,
                out@ == s.take(i as int),
            decreases k - i,
        {
            push_char(&mut out, v[i]);
            assert(s.take(i + 1) == s.take(i as int).push(s[i as int]));
            i = i + 1;
        }
        push_char(&mut out, ch);
        let ghost mid = out@;
        while i < v.len()
            invariant
                v@ == s,
                k <= i <= s.len(),
                out@ == mid + s.subrange(k as int, i as int),
            decreases v.len() - i,
        {
            push_char(&mut out, v[i]);
            assert(s.subrange(k as int, i + 1) == s.subrange(k as int, i as int).push(s[i as int]));
            i = i + 1;
        }
        assert(s.subrange(k as int, s.len() as int) == s.skip(k as int));
        proof {
            let n = s.take(k as int).push(ch);
            assert(out@.take(k + 1) == n);
            assert(n == s.take(k as int) + seq![ch]);
            lemma_byte_len_concat(s.take(k as int), seq![ch]);
            assert(seq![ch].drop_last() == Seq::<char>::empty());
            assert(seq![ch].last() == ch);
            assert(byte_len(Seq::<char>::empty()) == 0);
            assert(byte_len(seq![ch]) == utf8_width(ch));
            assert(byte_len(s.take(k as int)) == self.cursor);
            assert(byte_len(n) == self.cursor + utf8_width(ch));
            assert(byte_len(out@.take(k + 1)) == self.cursor + utf8_width(ch));
            assert forall|j: int| #[trigger] at_char(s, self.cursor as int, j) implies j == k by {
                lemma_byte_len_prefix_inj(s, j, k as int);
            }
        }
        self.value = out;
        self.cursor = self.cursor + char_width(ch);
    }

    /// Deletes the character before the cursor, if any.
    pub fn backspace(&mut self)
        requires
            old(self).wf(),
        ensures
            final(self).wf(),
            backspaced(*old(self), *final(self)),
    {
        if self.cursor == 0 {
            return;
        }
        let v = chars_of(self.value.as_str());
        let k = self.cursor_index(v.as_slice());
        let ghost s = self.value@;
        if k == 0 {
            assert(s.take(0) == Seq::<char>::empty());
            assert(false);
        }
        let mut out = String::new();
        let mut i: usize = 0;
        let mut c: usize = 0;
        while i < k - 1
            invariant
                v@ == s,
                0 < k <= s.len(),
                i <= k - 1,
                out@ == s.take(i as int),
                c == byte_len(s.take(i as int)),
                byte_len(s.take(k as int)) == self.cursor,
            decreases k - 1 - i,
        {
            proof {
                lemma_byte_len_prefix_mono(s, i + 1, k as int);
            }
            assert(s.take(i + 1) == s.take(i as int).push(s[i as int]));
            assert(s.take(i + 1).drop_last() == s.take(i as int));
            push_char(&mut out, v[i]);
            c = c + char_width(v[i]);
            i = i + 1;
        }
        let ghost mid = out@;
        i = k;
        while i < v.len()
            invariant
                v@ == s,
                k <= i <= s.len(),
                out@ == mid + s.subrange(k as int, i as int),
            decreases v.len() - i,
        {
            push_char(&mut out, v[i]);
            assert(s.subrange(k as int, i + 1) == s.subrange(k as int, i as int).push(s[i as int]));
            i = i + 1;
        }
        assert(s.subrange(k as int, s.len() as int) == s.skip(k as int));
        proof {
            assert(out@.take(k - 1) == s.take(k - 1));
            assert forall|j: int| #[trigger] at_char(s, self.cursor as int, j) implies j == k by {
                lemma_byte_len_prefix_inj(s, j, k as int);
            }
        }
        self.value = out;
        self.cursor = c;
    }

    /// Deletes back to the start of the word before the cursor (Ctrl+Backspace).
    /// A space just before the cursor stops it at once, unless the cursor is at the end.
    pub fn delete_word(&mut self)
        requires
            old(self).wf(),
        ensures
            final(self).wf(),
            final(self).focused == old(self).focused,
            forall|k: int| #[trigger] at_char(old(self).value@, old(self).cursor as int, k)
                ==> final(self).value@ == old(self).value@.take(delete_word_to(old(self).value@, k))
                    + old(self).value@.skip(k)
                    && final(self).cursor == byte_len(old(self).value@.take(delete_word_to(old(self).value@, k))),
    {
        let ghost s0 = self.value@;
        let ghost k0 = choose|k: int| #[trigger] at_char(s0, self.cursor as int, k);
        proof {
            let kk = choose|k: int| 0 <= k <= s0.len() && byte_len(#[trigger] s0.take(k)) == self.cursor;
            assert(at_char(s0, self.cursor as int, kk));
            assert forall|j: int| #[trigger] at_char(s0, self.cursor as int, j) implies j == k0 by {
                lemma_byte_len_prefix_inj(s0, j, k0);
            }
            assert(s0.take(k0) + s0.skip(k0) == s0);
        }
        let ghost target = delete_word_to(s0, k0);
        let ghost mut kg = k0;
        let mut first = true;
        let mut go = true;
        while go && self.cursor > 0
            invariant
                self.focused == old(self).focused,
                0 <= kg <= k0 <= s0.len(),
                at_char(s0, old(self).cursor as int, k0),
                at_char(self.value@, self.cursor as int, kg),
                self.value@ == s0.take(kg) + s0.skip(k0),
                target == delete_word_to(s0, k0),
                first ==> kg == k0,
                !first ==> word_start(s0, kg) == target,
                !first && go ==> (kg > 0 ==> s0[kg - 1] != ' '),
                !go ==> kg == target,
            decreases self.cursor + (if go { 1int } else { 0int }),
        {
            assert(self.wf());
            let v = chars_of(self.value.as_str());
            let k = self.cursor_index(v.as_slice());
            proof {
                lemma_byte_len_prefix_inj(self.value@, k as int, kg);
                if k == 0 {
                    assert(self.value@.take(0) == Seq::<char>::empty());
                }
            }
            let ghost sv = self.value@;
            assert(sv[k - 1] == s0[k - 1]);
            assert(sv.len() == k + (s0.len() - k0));
            let prev_space = v[k - 1] == ' ';
            let cur_at_end = k == v.len();
            if prev_space && !cur_at_end {
                go = false;
            } else {
                let ghost was_first = first;
                let ghost c0 = self.cursor;
                proof {
                    lemma_byte_len_prefix_mono(sv, kg - 1, kg);
                }
                self.backspace();
                first = false;
                proof {
                    assert(self.value@ == sv.take(kg - 1) + sv.skip(kg));
                    assert(sv.take(kg - 1) == s0.take(kg - 1));
                    assert(sv.skip(kg) == s0.skip(k0));
                    assert((s0.take(kg - 1) + s0.skip(k0)).take(kg - 1) == s0.take(kg - 1));
                    kg = kg - 1;
                    assert(kg > 0 ==> self.value@[kg - 1] == s0[kg - 1]) by {
                        if kg > 0 {
                            assert(self.value@.take(kg) == s0.take(kg));
                            assert(self.value@.take(kg)[kg - 1] == self.value@[kg - 1]);
                        }
                    }
                    if was_first {
                        assert(target == word_start(s0, k0 - 1));
                    } else {
                        assert(word_start(s0, kg + 1) == word_start(s0, kg));
                    }
                    assert(word_start(s0, kg) == target);
                    assert(self.cursor < c0);
                }
                let v2 = chars_of(self.value.as_str());
                let k2 = self.cursor_index(v2.as_slice());
                proof {
                    lemma_byte_len_prefix_inj(self.value@, k2 as int, kg);
                }
                if k2 > 0 && v2[k2 - 1] == ' ' {
                    go = false;
                }
            }
        }
        proof {
            assert(self.value@.take(kg) == s0.take(kg));
            assert forall|k: int| #[trigger] at_char(s0, old(self).cursor as int, k) implies k == k0 by {
                lemma_byte_len_prefix_inj(s0, k, k0);
            }
        }
    }
}

/// Backspace undoes push: inserting `ch` at character position `k` puts the cursor at
/// position `k + 1` (byte offset advanced by the width of `ch`), and deleting the
/// character before that position gives back the text and cursor it started from.
pub proof fn lemma_backspace_undoes_push(s: Seq<char>, k: int, ch: char)
    requires
        0 <= k <= s.len(),
    ensures
        ({
            let t = s.take(k).push(ch) + s.skip(k);
            &&& at_char(t, (byte_len(s.take(k)) + utf8_width(ch)) as int, k + 1)
            &&& t.take(k) + t.skip(k + 1) == s
            &&& byte_len(t.take(k)) == byte_len(s.take(k))
        }),
{
    let t = s.take(k).push(ch) + s.skip(k);
    assert(t.take(k + 1) == s.take(k).push(ch));
    assert(t.take(k + 1).drop_last() == s.take(k));
    assert(t.take(k) == s.take(k));
    assert(t.skip(k + 1) == s.skip(k));
    assert(s.take(k) + s.skip(k) == s);
}

/// Backspace right after typing a character gives back the input as it was: value,
/// cursor and focus.
pub proof fn lemma_push_then_backspace(t0: TextInput, t1: TextInput, t2: TextInput, ch: char)
    requires
        t0.wf(),
        pushed(t0, t1, ch),
        backspaced(t1, t2),
    ensures
        t2.value@ == t0.value@,
        t2.cursor == t0.cursor,
        t2.focused == t0.focused,
{
    let s = t0.value@;
    let k = choose|k: int| 0 <= k <= s.len() && byte_len(#[trigger] s.take(k)) == t0.cursor;
    assert(at_char(s, t0.cursor as int, k));
    lemma_backspace_undoes_push(s, k, ch);
    let t = s.take(k).push(ch) + s.skip(k);
    assert(t1.value@ == t);
    assert(at_char(t1.value@, t1.cursor as int, k + 1));
    assert(t.take(k + 1 - 1) == t.take(k));
}

/// State for a keybind capture widget (one key combo slot).
pub struct KeyCapture {
    pub value: String,
    pub capturing: bool,
}

impl KeyCapture {
    pub fn new(value: String) -> (k: KeyCapture)
        ensures
            k.value@ == value@,
            !k.capturing,
    {
        KeyCapture { value, capturing: false }
    }
}

/// Boolean toggle.
pub struct Toggle {
    pub value: bool,
}

impl Toggle {
    pub fn new(v: bool) -> (t: Toggle)
        ensures
            t.value == v,
    {
        Toggle { value: v }
    }

    pub fn flip(&mut self)
        ensures
            final(self).value == !old(self).value,
    {
        self.value = !self.value;
    }
}

} // verus!
