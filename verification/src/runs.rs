//! Splitting text into runs drawn with the same font: icon glyphs (Nerd Font private
//! use and symbol blocks) go to the icon font, everything else to the text font.
use vstd::prelude::*;
use crate::strs::{chars_of, push_char};

verus! {

/// Which code points count as icons: the bar and panels use the wider set, the lock
/// screen the narrower one.
#[derive(Clone, Copy, PartialEq, Eq, Structural)]
pub enum IconSet {
    Shell,
    Lock,
}

/// Private use areas, and the block, geometric-shape, miscellaneous-symbol and dingbat
/// blocks.
pub open spec fn shell_icon(c: char) -> bool {
    let u = c as u32;
    (0xE000 <= u <= 0xF8FF) || (0xF0000 <= u <= 0xFFFFF) || (0x100000 <= u <= 0x10FFFF)
        || (0x2580 <= u <= 0x259F) || (0x25A0 <= u <= 0x25FF) || (0x2600 <= u <= 0x26FF)
        || (0x2700 <= u <= 0x27BF) || (0xF200 <= u <= 0xF2FF)
}

/// The basic private use area and the same symbol blocks.
pub open spec fn lock_icon(c: char) -> bool {
    let u = c as u32;
    (0xE000 <= u <= 0xF8FF) || (0x2580 <= u <= 0x259F) || (0x25A0 <= u <= 0x25FF)
        || (0x2600 <= u <= 0x26FF) || (0x2700 <= u <= 0x27BF)
}

/// Font index of `c`: 1 for an icon, 0 for text.
pub open spec fn font_of(c: char, set: IconSet) -> usize {
    if (match set {
        IconSet::Shell => shell_icon(c),
        IconSet::Lock => lock_icon(c),
    }) {
        1
    } else {
        0
    }
}

pub fn is_icon_codepoint(ch: char) -> (b: bool)
    ensures
        b == shell_icon(ch),
{
    let u = ch as u32;
    (0xE000 <= u && u <= 0xF8FF) || (0xF0000 <= u && u <= 0xFFFFF) || (0x100000 <= u && u <= 0x10FFFF)
        || (0x2580 <= u && u <= 0x259F) || (0x25A0 <= u && u <= 0x25FF) || (0x2600 <= u && u <= 0x26FF)
        || (0x2700 <= u && u <= 0x27BF) || (0xF200 <= u && u <= 0xF2FF)
}

pub fn is_icon(ch: char) -> (b: bool)
    ensures
        b == lock_icon(ch),
{
    let u = ch as u32;
    (0xE000 <= u && u <= 0xF8FF) || (0x2580 <= u && u <= 0x259F) || (0x25A0 <= u && u <= 0x25FF)
        || (0x2600 <= u && u <= 0x26FF) || (0x2700 <= u && u <= 0x27BF)
}

fn font_index(ch: char, set: IconSet) -> (f: usize)
    ensures
        f == font_of(ch, set),
{
    let icon = match set {
        IconSet::Shell => is_icon_codepoint(ch),
        IconSet::Lock => is_icon(ch),
    };
    if icon {
        1
    } else {
        0
    }
}

/// The runs' texts, one after another.
pub open spec fn concat_runs(rs: Seq<(Seq<char>, usize)>) -> Seq<char>
    decreases rs.len(),
{
    if rs.len() == 0 {
        Seq::empty()
    } else {
        concat_runs(rs.drop_last()) + rs.last().0
    }
}

/// Every run is non-empty and drawn with one font, which all its characters use, and
/// neighbouring runs use different fonts.
pub open spec fn runs_maximal(rs: Seq<(Seq<char>, usize)>, set: IconSet) -> bool {
    &&& forall|k: int| 0 <= k < rs.len() ==> (#[trigger] rs[k]).0.len() > 0
    &&& forall|k: int, j: int| 0 <= k < rs.len() && 0 <= j < rs[k].0.len()
        ==> font_of(#[trigger] rs[k].0[j], set) == rs[k].1
    &&& forall|k: int| 0 <= k < rs.len() - 1 ==> (#[trigger] rs[k]).1 != rs[k + 1].1
}

pub open spec fn runs_view(v: Seq<(String, usize)>) -> Seq<(Seq<char>, usize)> {
    v.map_values(|p: (String, usize)| (p.0@, p.1))
}

proof fn lemma_runs_push(v: Seq<(String, usize)>, p: (String, usize))
    ensures
        runs_view(v.push(p)) == runs_view(v).push((p.0@, p.1)),
{
    assert(runs_view(v.push(p)) =~= runs_view(v).push((p.0@, p.1)));
}

/// The runs of `text` with their font index (0 text, 1 icons). Without an icon font,
/// and for empty text, the whole text is one text run; otherwise the runs are the
/// maximal stretches of characters that use the same font, in order.
pub fn for_each_run(text: &str, has_nerd_font: bool, set: IconSet) -> (runs: Vec<(String, usize)>)
    ensures
        !has_nerd_font || text@.len() == 0 ==> runs_view(runs@) == seq![(text@, 0usize)],
        has_nerd_font && text@.len() > 0 ==> concat_runs(runs_view(runs@)) == text@ && runs_maximal(
            runs_view(runs@),
            set,
        ),
{
    let v = chars_of(text);
    let mut runs: Vec<(String, usize)> = Vec::new();
    if !has_nerd_font || v.len() == 0 {
        let mut s = String::new();
        crate::strs::push_str(&mut s, text);
        proof {
            lemma_runs_push(runs@, (s, 0usize));
        }
        runs.push((s, 0));
        assert(runs_view(runs@) =~= seq![(text@, 0usize)]);
        return runs;
    }
    let ghost t = v@;
    let mut cur = String::new();
    let mut cur_fi = font_index(v[0], set);
    push_char(&mut cur, v[0]);
    let mut i: usize = 1;
    assert(t.take(1) == cur@);
    assert(concat_runs(runs_view(runs@)) =~= Seq::<char>::empty());
    while i < v.len()
        invariant
            1 <= i <= t.len(),
            v@ == t,
            t == text@,
            concat_runs(runs_view(runs@)) + cur@ == t.take(i as int),
            cur@.len() > 0,
            forall|j: int| 0 <= j < cur@.len() ==> font_of(#[trigger] cur@[j], set) == cur_fi,
            runs_maximal(runs_view(runs@), set),
            runs@.len() > 0 ==> runs_view(runs@).last().1 != cur_fi,
        decreases v.len() - i,
    {
        let ch = v[i];
        let fi = font_index(ch, set);
        let ghost rv0 = runs_view(runs@);
        if fi != cur_fi {
            proof {
                lemma_runs_push(runs@, (cur, cur_fi));
            }
            runs.push((cur, cur_fi));
            proof {
                let rv = runs_view(runs@);
                assert(rv.drop_last() == rv0);
                assert(rv.last() == (cur@, cur_fi));
                assert forall|k: int, j: int| 0 <= k < rv.len() && 0 <= j < rv[k].0.len()
                    implies font_of(#[trigger] rv[k].0[j], set) == rv[k].1 by {
                    if k < rv0.len() {
                        assert(rv[k] == rv0[k]);
                    }
                }
                assert forall|k: int| 0 <= k < rv.len() - 1 implies (#[trigger] rv[k]).1 != rv[k + 1].1 by {
                    if k < rv0.len() - 1 {
                        assert(rv[k] == rv0[k] && rv[k + 1] == rv0[k + 1]);
                    }
                }
                assert forall|k: int| 0 <= k < rv.len() implies (#[trigger] rv[k]).0.len() > 0 by {
                    if k < rv0.len() {
                        assert(rv[k] == rv0[k]);
                    }
                }
            }
            cur = String::new();
            cur_fi = fi;
        }
        let ghost c0 = cur@;
        push_char(&mut cur, ch);
        assert(t.take(i + 1) == t.take(i as int).push(ch));
        assert(concat_runs(runs_view(runs@)) + cur@ =~= t.take(i + 1));
        assert forall|j: int| 0 <= j < cur@.len() implies font_of(#[trigger] cur@[j], set) == cur_fi by {
            if j < c0.len() {
                assert(cur@[j] == c0[j]);
            }
        }
        i = i + 1;
    }
    let ghost rv0 = runs_view(runs@);
    proof {
        lemma_runs_push(runs@, (cur, cur_fi));
    }
    runs.push((cur, cur_fi));
    proof {
        let rv = runs_view(runs@);
        assert(rv.drop_last() == rv0);
        assert(t.take(t.len() as int) == t);
        assert forall|k: int, j: int| 0 <= k < rv.len() && 0 <= j < rv[k].0.len()
            implies font_of(#[trigger] rv[k].0[j], set) == rv[k].1 by {
            if k < rv0.len() {
                assert(rv[k] == rv0[k]);
            }
        }
        assert forall|k: int| 0 <= k < rv.len() - 1 implies (#[trigger] rv[k]).1 != rv[k + 1].1 by {
            if k < rv0.len() - 1 {
                assert(rv[k] == rv0[k] && rv[k + 1] == rv0[k + 1]);
            }
        }
        assert forall|k: int| 0 <= k < rv.len() implies (#[trigger] rv[k]).0.len() > 0 by {
            if k < rv0.len() {
                assert(rv[k] == rv0[k]);
            }
        }
    }
    runs
}

} // verus!
