use vstd::prelude::*;
use crate::conf::Behavior;
use crate::text::{push_char, chars_of};

verus! {

/// Glyphs of the Sitelen Pona block that take part in long glyphs.
pub const ALA: char = '\u{F1902}';
pub const AWEN: char = '\u{F1908}';
pub const KEN: char = '\u{F1918}';
pub const KEPEKEN: char = '\u{F1919}';
pub const LON: char = '\u{F192C}';
pub const PI: char = '\u{F194D}';
pub const TAWA: char = '\u{F1969}';
pub const LA: char = '\u{F1921}';
pub const KAMA: char = '\u{F1916}';

/// Controls of the Sitelen Pona block that start and end long glyphs.
pub const START_OF_LONG_GLYPH: char = '\u{F1997}';
pub const END_OF_LONG_GLYPH: char = '\u{F1998}';
pub const START_OF_REVERSE_LONG_GLYPH: char = '\u{F199A}';
pub const END_OF_REVERSE_LONG_GLYPH: char = '\u{F199B}';

/// `ala` extends the glyph before it backwards ("x ala x" questions).
pub open spec fn spec_ext_as_ala(ch: char, b: Behavior) -> bool {
    ch == ALA && b.long_glyph
}

/// Glyphs that open a long glyph extending forward.
pub open spec fn spec_ext_left(ch: char, b: Behavior) -> bool {
    if ch == PI {
        b.long_pi
    } else if ch == AWEN || ch == KEN || ch == KEPEKEN || ch == LON || ch == TAWA {
        b.long_glyph
    } else {
        false
    }
}

/// Glyphs that extend the glyphs before them backwards.
pub open spec fn spec_ext_right(ch: char, b: Behavior) -> bool {
    ch == LA && b.long_glyph
}

/// The state of the long glyph insertion after a prefix of the text.
pub struct GlyphState {
    pub out: Seq<char>,
    pub open: bool,
    pub question: Option<char>,
    /// The text made the procedure unwrap an empty value.
    pub failed: bool,
}

/// The state before any glyph is read.
pub open spec fn init_state() -> GlyphState {
    GlyphState { out: Seq::empty(), open: false, question: None, failed: false }
}

/// Pops the glyphs that a trailing `la` extends over. Returns what is left of
/// the output and the popped glyphs, last popped last.
pub open spec fn unwind(out: Seq<char>, temp: Seq<char>, b: Behavior) -> (Seq<char>, Seq<char>)
    decreases out.len(),
{
    if out.len() == 0 {
        (out, temp)
    } else {
        let prev = out.last();
        let o = out.drop_last();
        if spec_ext_right(prev, b) || prev == END_OF_LONG_GLYPH {
            (out, temp)
        } else if spec_ext_as_ala(prev, b) {
            let t = temp.push(prev);
            if o.len() >= 3 && o[o.len() - 1] == END_OF_REVERSE_LONG_GLYPH
                && o[o.len() - 3] == START_OF_REVERSE_LONG_GLYPH {
                unwind(o.take(o.len() - 3), t.push(o[o.len() - 2]), b)
            } else {
                (o, t)
            }
        } else {
            unwind(o, temp.push(prev), b)
        }
    }
}

/// One character of the long glyph insertion.
pub open spec fn step(s: GlyphState, ch: char, b: Behavior) -> GlyphState {
    if s.failed {
        s
    } else if spec_ext_as_ala(ch, b) {
        if s.out.len() == 0 {
            GlyphState { out: s.out.push(ch), ..s }
        } else {
            let prev = s.out.last();
            let o = s.out.drop_last();
            if prev == END_OF_LONG_GLYPH || prev == ALA {
                GlyphState { out: o.push(prev).push(ch), ..s }
            } else if prev == START_OF_LONG_GLYPH && o.len() == 0 {
                GlyphState { failed: true, ..s }
            } else {
                let open = if prev == START_OF_LONG_GLYPH { false } else { s.open };
                let prev2 = if prev == START_OF_LONG_GLYPH { o.last() } else { prev };
                let o2 = if prev == START_OF_LONG_GLYPH { o.drop_last() } else { o };
                if open {
                    GlyphState { out: o2.push(prev2).push(ch), open, ..s }
                } else {
                    GlyphState {
                        out: o2 + seq![START_OF_REVERSE_LONG_GLYPH, prev2, END_OF_REVERSE_LONG_GLYPH, ch],
                        open,
                        question: Some(prev2),
                        failed: false,
                    }
                }
            }
        }
    } else if s.question == Some(ch) {
        GlyphState {
            out: s.out + seq![START_OF_LONG_GLYPH, ch, END_OF_LONG_GLYPH],
            question: None,
            ..s
        }
    } else if spec_ext_left(ch, b) {
        if s.open && s.out.len() == 0 {
            GlyphState { failed: true, ..s }
        } else {
            let o = if s.open {
                let prev = s.out.last();
                if prev != START_OF_LONG_GLYPH {
                    s.out.drop_last().push(prev).push(END_OF_LONG_GLYPH)
                } else {
                    s.out.drop_last()
                }
            } else {
                s.out
            };
            GlyphState { out: o.push(ch).push(START_OF_LONG_GLYPH), open: true, ..s }
        }
    } else if spec_ext_right(ch, b) {
        if s.open {
            GlyphState { out: s.out.push(ch), ..s }
        } else {
            let (o, temp) = unwind(s.out, Seq::empty(), b);
            if temp.len() == 0 {
                GlyphState { out: o.push(ch), ..s }
            } else {
                GlyphState {
                    out: o + seq![START_OF_REVERSE_LONG_GLYPH] + temp.reverse()
                        + seq![END_OF_REVERSE_LONG_GLYPH, ch],
                    ..s
                }
            }
        }
    } else {
        GlyphState { out: s.out.push(ch), ..s }
    }
}

/// The state after every character of `text`.
pub open spec fn run(text: Seq<char>, b: Behavior) -> GlyphState
    decreases text.len(),
{
    if text.len() == 0 {
        init_state()
    } else {
        step(run(text.drop_last(), b), text.last(), b)
    }
}

/// Closes a long glyph that is still open at the end of the text.
pub open spec fn finish(s: GlyphState) -> GlyphState {
    if s.failed || !s.open {
        s
    } else if s.out.len() == 0 {
        GlyphState { failed: true, ..s }
    } else if s.out.last() != START_OF_LONG_GLYPH {
        GlyphState { out: s.out.push(END_OF_LONG_GLYPH), ..s }
    } else {
        GlyphState { out: s.out.drop_last(), ..s }
    }
}

/// Whether the insertion gets stuck on `text` (the text starts a long glyph
/// that `ala` then closes with nothing before it).
pub open spec fn long_glyph_fails(text: Seq<char>, b: Behavior) -> bool {
    finish(run(text, b)).failed
}

/// The text with the long glyph control characters inserted. The text is
/// replaced only when the UTF-8 length changed.
pub open spec fn with_long_glyphs(text: Seq<char>, b: Behavior) -> Seq<char> {
    let out = finish(run(text, b)).out;
    // the byte lengths, as `str::len` gives them
    if vstd::utf8::encode_utf8(out).len() as usize != vstd::utf8::encode_utf8(text).len() as usize {
        out
    } else {
        text
    }
}

/// Whether `ch` is `ala` extending the glyph before it (see
/// [`spec_ext_as_ala`]).
pub fn ext_as_ala(ch: char, b: &Behavior) -> (r: bool)
    ensures
        r == spec_ext_as_ala(ch, *b),
{
    ch == ALA && b.long_glyph
}

/// Whether `ch` opens a long glyph (see [`spec_ext_left`]).
pub fn ext_left(ch: char, b: &Behavior) -> (r: bool)
    ensures
        r == spec_ext_left(ch, *b),
{
    if ch == PI {
        b.long_pi
    } else if ch == AWEN || ch == KEN || ch == KEPEKEN || ch == LON || ch == TAWA {
        b.long_glyph
    } else {
        false
    }
}

/// Whether `ch` extends the glyphs before it (see [`spec_ext_right`]).
/// [`KAMA`] could, and does not, so that "tenpo kama la" is left alone.
pub fn ext_right(ch: char, b: &Behavior) -> (r: bool)
    ensures
        r == spec_ext_right(ch, *b),
{
    ch == LA && b.long_glyph
}

proof fn lemma_failed_stays(text: Seq<char>, i: int, b: Behavior)
    requires
        0 <= i <= text.len(),
        run(text.take(i), b).failed,
    ensures
        run(text, b).failed,
    decreases text.len() - i,
{
    if i < text.len() {
        assert(text.take(i + 1).drop_last() =~= text.take(i));
        lemma_failed_stays(text, i + 1, b);
    } else {
        assert(text.take(i) =~= text);
    }
}

proof fn lemma_finish_failed(s: GlyphState)
    requires
        s.failed,
    ensures
        finish(s).failed,
{
}

proof fn lemma_unwind_grows(out: Seq<char>, temp: Seq<char>, b: Behavior)
    ensures
        unwind(out, temp, b).1.len() >= temp.len(),
        unwind(out, temp, b).1.len() == temp.len() ==> unwind(out, temp, b).0 == out,
    decreases out.len(),
{
    if out.len() > 0 {
        let prev = out.last();
        let o = out.drop_last();
        if spec_ext_right(prev, b) || prev == END_OF_LONG_GLYPH {
        } else if spec_ext_as_ala(prev, b) {
            let t = temp.push(prev);
            if o.len() >= 3 && o[o.len() - 1] == END_OF_REVERSE_LONG_GLYPH
                && o[o.len() - 3] == START_OF_REVERSE_LONG_GLYPH {
                lemma_unwind_grows(o.take(o.len() - 3), t.push(o[o.len() - 2]), b);
            }
        } else {
            lemma_unwind_grows(o, temp.push(prev), b);
        }
    }
}

/// The shape of the insertion state: the output only grows past its first
/// character, and the state fails only on a text that starts with the start
/// of a long glyph followed by `ala`.
proof fn lemma_run(text: Seq<char>, b: Behavior)
    ensures
        text.len() == 0 ==> run(text, b) == init_state(),
        text.len() >= 1 && !run(text, b).failed ==> run(text, b).out.len() >= 1,
        text.len() >= 2 && !run(text, b).failed ==> run(text, b).out.len() >= 2,
        text.len() == 1 ==> !run(text, b).failed,
        text.len() == 1 && text[0] == START_OF_LONG_GLYPH ==> run(text, b).out == seq![START_OF_LONG_GLYPH],
        text.len() == 1 && run(text, b).out.len() == 1 ==> run(text, b).out[0] == text[0],
        !run(text, b).failed && run(text, b).open ==> run(text, b).out.len() >= 1,
        run(text, b).failed <==> (b.long_glyph && text.len() >= 2 && text[0] == START_OF_LONG_GLYPH
            && text[1] == ALA),
    decreases text.len(),
{
    if text.len() > 0 {
        let p = text.drop_last();
        lemma_run(p, b);
        let s0 = run(p, b);
        let ch = text.last();
        if !s0.failed && !s0.open {
            lemma_unwind_grows(s0.out, Seq::empty(), b);
        }
        if text.len() >= 2 {
            assert(p[0] == text[0]);
        }
        if text.len() >= 3 {
            assert(p[1] == text[1]);
        }
        if text.len() == 2 {
            assert(ch == text[1]);
        }
        if text.len() == 1 {
            assert(ch == text[0]);
            assert(s0 == init_state());
        }
    }
}

/// The long glyph insertion gets stuck exactly when long glyphs are on and
/// the text starts with the start of a long glyph followed by `ala`.
pub proof fn lemma_long_glyph_fails(text: Seq<char>, b: Behavior)
    ensures
        long_glyph_fails(text, b) <==> (b.long_glyph && text.len() >= 2 && text[0]
            == START_OF_LONG_GLYPH && text[1] == ALA),
{
    lemma_run(text, b);
}

/// Whether the long glyph insertion gets stuck on `text`.
pub fn long_glyph_stuck(text: &Vec<char>, b: &Behavior) -> (r: bool)
    ensures
        r == long_glyph_fails(text@, *b),
{
    proof {
        lemma_long_glyph_fails(text@, *b);
    }
    b.long_glyph && text.len() >= 2 && text[0] == START_OF_LONG_GLYPH && text[1] == ALA
}

/// Pops for a trailing `la`: the exec form of [`unwind`].
fn unwind_exec(output: &mut Vec<char>, temp: &mut Vec<char>, b: &Behavior)
    ensures
        (final(output)@, final(temp)@) == unwind(old(output)@, old(temp)@, *b),
    decreases old(output)@.len(),
{
    let ghost o0 = output@;
    match output.pop() {
        None => {},
        Some(prev) => {
            if ext_right(prev, b) || prev == END_OF_LONG_GLYPH {
                output.push(prev);
                assert(output@ =~= o0);
            } else if ext_as_ala(prev, b) {
                temp.push(prev);
                let len = output.len();
                if len >= 3 && output[len - 1] == END_OF_REVERSE_LONG_GLYPH
                    && output[len - 3] == START_OF_REVERSE_LONG_GLYPH {
                    let _a = output.pop();
                    let b2 = output.pop();
                    let _c = output.pop();
                    match b2 {
                        Some(x) => {
                            temp.push(x);
                        },
                        None => {},
                    }
                    let ghost o = o0.drop_last();
                    assert(output@ =~= o.take(o.len() - 3));
                    unwind_exec(output, temp, b);
                }
            } else {
                temp.push(prev);
                unwind_exec(output, temp, b);
            }
        },
    }
}

/// The control characters that start and end long glyphs.
pub open spec fn is_glyph_control(c: char) -> bool {
    c == START_OF_LONG_GLYPH || c == END_OF_LONG_GLYPH || c == START_OF_REVERSE_LONG_GLYPH
        || c == END_OF_REVERSE_LONG_GLYPH
}

/// The text without its long glyph control characters.
pub open spec fn strip_controls(s: Seq<char>) -> Seq<char>
    decreases s.len(),
{
    if s.len() == 0 {
        Seq::empty()
    } else if is_glyph_control(s.last()) {
        strip_controls(s.drop_last())
    } else {
        strip_controls(s.drop_last()).push(s.last())
    }
}

proof fn lemma_strip_add(a: Seq<char>, b: Seq<char>)
    ensures
        strip_controls(a + b) == strip_controls(a) + strip_controls(b),
    decreases b.len(),
{
    if b.len() == 0 {
        assert(a + b =~= a);
        assert(strip_controls(a) + strip_controls(b) =~= strip_controls(a));
    } else {
        lemma_strip_add(a, b.drop_last());
        assert((a + b).drop_last() =~= a + b.drop_last());
        assert((a + b).last() == b.last());
        assert(strip_controls(a) + strip_controls(b.drop_last()).push(b.last())
            =~= (strip_controls(a) + strip_controls(b.drop_last())).push(b.last()));
    }
}

proof fn lemma_strip_single(c: char)
    ensures
        strip_controls(seq![c]) == (if is_glyph_control(c) { Seq::<char>::empty() } else { seq![c] }),
{
    reveal_with_fuel(strip_controls, 2);
    assert(seq![c].drop_last() =~= Seq::<char>::empty());
    assert(Seq::<char>::empty().push(c) =~= seq![c]);
}

/// Three characters, the first and the last of them controls.
proof fn lemma_strip_wrapped(a: char, x: char, z: char)
    requires
        is_glyph_control(a),
        is_glyph_control(z),
    ensures
        strip_controls(seq![a, x, z]) == strip_controls(seq![x]),
{
    assert(seq![a, x, z] =~= seq![a] + seq![x] + seq![z]);
    lemma_strip_add(seq![a] + seq![x], seq![z]);
    lemma_strip_add(seq![a], seq![x]);
    lemma_strip_single(a);
    lemma_strip_single(z);
    assert(Seq::<char>::empty() + strip_controls(seq![x]) =~= strip_controls(seq![x]));
    assert(strip_controls(seq![x]) + Seq::<char>::empty() =~= strip_controls(seq![x]));
}

proof fn lemma_strip_push(a: Seq<char>, c: char)
    ensures
        strip_controls(a.push(c)) == strip_controls(a) + strip_controls(seq![c]),
        strip_controls(a.push(c)) == (if is_glyph_control(c) {
            strip_controls(a)
        } else {
            strip_controls(a).push(c)
        }),
{
    lemma_strip_add(a, seq![c]);
    assert(a + seq![c] =~= a.push(c));
    assert(a.push(c).drop_last() =~= a);
    lemma_strip_single(c);
    assert(strip_controls(a) + Seq::<char>::empty() =~= strip_controls(a));
    assert(strip_controls(a) + seq![c] =~= strip_controls(a).push(c));
}

proof fn lemma_unwind_strip(out: Seq<char>, temp: Seq<char>, b: Behavior)
    ensures
        strip_controls(unwind(out, temp, b).0) + strip_controls(unwind(out, temp, b).1.reverse())
            == strip_controls(out) + strip_controls(temp.reverse()),
    decreases out.len(),
{
    if out.len() > 0 {
        let prev = out.last();
        let o = out.drop_last();
        assert(o.push(prev) =~= out);
        lemma_strip_push(o, prev);
        let t = temp.push(prev);
        assert(t.reverse() =~= seq![prev] + temp.reverse());
        lemma_strip_add(seq![prev], temp.reverse());
        if spec_ext_right(prev, b) || prev == END_OF_LONG_GLYPH {
        } else if spec_ext_as_ala(prev, b) {
            if o.len() >= 3 && o[o.len() - 1] == END_OF_REVERSE_LONG_GLYPH
                && o[o.len() - 3] == START_OF_REVERSE_LONG_GLYPH {
                let x = o[o.len() - 2];
                let o3 = o.take(o.len() - 3);
                lemma_unwind_strip(o3, t.push(x), b);
                assert(t.push(x).reverse() =~= seq![x] + t.reverse());
                lemma_strip_add(seq![x], t.reverse());
                assert(o =~= o3 + seq![START_OF_REVERSE_LONG_GLYPH, x, END_OF_REVERSE_LONG_GLYPH]);
                lemma_strip_add(o3, seq![START_OF_REVERSE_LONG_GLYPH, x, END_OF_REVERSE_LONG_GLYPH]);
                lemma_strip_wrapped(START_OF_REVERSE_LONG_GLYPH, x, END_OF_REVERSE_LONG_GLYPH);
            }
        } else {
            lemma_unwind_strip(o, t, b);
        }
    }
}

proof fn lemma_step_strip(st: GlyphState, ch: char, b: Behavior)
    requires
        !step(st, ch, b).failed,
    ensures
        strip_controls(step(st, ch, b).out) == strip_controls(st.out.push(ch)),
{
    let out = st.out;
    let r = step(st, ch, b).out;
    lemma_strip_push(out, ch);
    if st.failed {
    } else if spec_ext_as_ala(ch, b) {
        if out.len() > 0 {
            let prev = out.last();
            let o = out.drop_last();
            assert(o.push(prev) =~= out);
            lemma_strip_push(o, prev);
            if prev == END_OF_LONG_GLYPH || prev == ALA {
                assert(r == o.push(prev).push(ch));
            } else {
                let open = if prev == START_OF_LONG_GLYPH { false } else { st.open };
                let prev2 = if prev == START_OF_LONG_GLYPH { o.last() } else { prev };
                let o2 = if prev == START_OF_LONG_GLYPH { o.drop_last() } else { o };
                assert(o2.push(prev2) =~= (if prev == START_OF_LONG_GLYPH { o } else { out }));
                assert(strip_controls(o2.push(prev2)) == strip_controls(out));
                lemma_strip_push(o2, prev2);
                lemma_strip_push(o2.push(prev2), ch);
                let w = seq![START_OF_REVERSE_LONG_GLYPH, prev2, END_OF_REVERSE_LONG_GLYPH];
                lemma_strip_push(o2 + w, ch);
                lemma_strip_add(o2, w);
                lemma_strip_wrapped(START_OF_REVERSE_LONG_GLYPH, prev2, END_OF_REVERSE_LONG_GLYPH);
                if open {
                    assert(r == o2.push(prev2).push(ch));
                } else {
                    assert(r =~= (o2 + w).push(ch));
                }
            }
        }
    } else if st.question == Some(ch) {
        let w = seq![START_OF_LONG_GLYPH, ch, END_OF_LONG_GLYPH];
        lemma_strip_add(out, w);
        lemma_strip_wrapped(START_OF_LONG_GLYPH, ch, END_OF_LONG_GLYPH);
        assert(r == out + w);
    } else if spec_ext_left(ch, b) {
        let o = if st.open {
            let prev = out.last();
            if prev != START_OF_LONG_GLYPH {
                out.drop_last().push(prev).push(END_OF_LONG_GLYPH)
            } else {
                out.drop_last()
            }
        } else {
            out
        };
        assert(strip_controls(o) == strip_controls(out)) by {
            if st.open {
                let prev = out.last();
                assert(out.drop_last().push(prev) =~= out);
                lemma_strip_push(out.drop_last(), prev);
                if prev != START_OF_LONG_GLYPH {
                    lemma_strip_push(out, END_OF_LONG_GLYPH);
                    assert(o =~= out.push(END_OF_LONG_GLYPH));
                }
            }
        }
        lemma_strip_push(o, ch);
        lemma_strip_push(o.push(ch), START_OF_LONG_GLYPH);
        assert(r == o.push(ch).push(START_OF_LONG_GLYPH));
    } else if spec_ext_right(ch, b) && !st.open {
        let (o, temp) = unwind(out, Seq::empty(), b);
        lemma_unwind_strip(out, Seq::empty(), b);
        assert(Seq::<char>::empty().reverse() =~= Seq::<char>::empty());
        assert(strip_controls(Seq::<char>::empty()) =~= Seq::<char>::empty());
        assert(strip_controls(out) + strip_controls(Seq::<char>::empty()) =~= strip_controls(out));
        if temp.len() == 0 {
            assert(temp.reverse() =~= Seq::<char>::empty());
            assert(strip_controls(o) + strip_controls(Seq::<char>::empty()) =~= strip_controls(o));
            lemma_strip_push(o, ch);
            assert(r == o.push(ch));
        } else {
            let x = o.push(START_OF_REVERSE_LONG_GLYPH) + temp.reverse();
            lemma_strip_push(o, START_OF_REVERSE_LONG_GLYPH);
            lemma_strip_add(o.push(START_OF_REVERSE_LONG_GLYPH), temp.reverse());
            lemma_strip_push(x, END_OF_REVERSE_LONG_GLYPH);
            lemma_strip_push(x.push(END_OF_REVERSE_LONG_GLYPH), ch);
            assert(r =~= x.push(END_OF_REVERSE_LONG_GLYPH).push(ch));
        }
    } else if spec_ext_right(ch, b) {
        assert(r == out.push(ch));
    } else {
        assert(r == out.push(ch));
    }
}

proof fn lemma_run_strip(text: Seq<char>, b: Behavior)
    requires
        !run(text, b).failed,
    ensures
        strip_controls(run(text, b).out) == strip_controls(text),
    decreases text.len(),
{
    if text.len() > 0 {
        let p = text.drop_last();
        lemma_run_strip(p, b);
        lemma_step_strip(run(p, b), text.last(), b);
        assert(p.push(text.last()) =~= text);
        lemma_strip_push(run(p, b).out, text.last());
        lemma_strip_push(p, text.last());
    }
}

/// Inserting long glyphs only adds or removes control characters: every
/// other character of the text stays, in its order.
pub proof fn law_long_glyphs_keep_the_text(text: Seq<char>, b: Behavior)
    requires
        !long_glyph_fails(text, b),
    ensures
        strip_controls(with_long_glyphs(text, b)) == strip_controls(text),
{
    let st = run(text, b);
    if st.failed {
        lemma_finish_failed(st);
    }
    lemma_run_strip(text, b);
    if st.open && st.out.len() > 0 {
        if st.out.last() != START_OF_LONG_GLYPH {
            lemma_strip_push(st.out, END_OF_LONG_GLYPH);
        } else {
            assert(st.out.drop_last().push(st.out.last()) =~= st.out);
            lemma_strip_push(st.out.drop_last(), st.out.last());
        }
    }
    assert(strip_controls(finish(st).out) == strip_controls(text));
}

/// A glyph that neither extends nor is extended: no control character, and
/// none of `ala`, `la` or the glyphs that open a long glyph as the switches
/// make them.
pub open spec fn plain_glyph(c: char, b: Behavior) -> bool {
    &&& !is_glyph_control(c)
    &&& !spec_ext_as_ala(c, b)
    &&& !spec_ext_left(c, b)
    &&& !spec_ext_right(c, b)
}

proof fn lemma_run_plain(t: Seq<char>, g: Seq<char>, b: Behavior)
    requires
        !run(t, b).failed,
        run(t, b).question is None,
        forall|i: int| 0 <= i < g.len() ==> plain_glyph(#[trigger] g[i], b),
    ensures
        run(t + g, b) == (GlyphState { out: run(t, b).out + g, ..run(t, b) }),
    decreases g.len(),
{
    if g.len() == 0 {
        assert(t + g =~= t);
        assert(run(t, b).out + g =~= run(t, b).out);
    } else {
        let p = g.drop_last();
        assert forall|i: int| 0 <= i < p.len() implies plain_glyph(#[trigger] p[i], b) by {
            assert(p[i] == g[i]);
        }
        lemma_run_plain(t, p, b);
        assert((t + g).drop_last() =~= t + p);
        assert((t + g).last() == g[g.len() - 1]);
        assert(plain_glyph(g[g.len() - 1], b));
        assert(run(t, b).out + p.push(g.last()) =~= (run(t, b).out + p).push(g.last()));
        assert(p.push(g.last()) =~= g);
    }
}

proof fn lemma_unwind_plain(out: Seq<char>, g: Seq<char>, temp: Seq<char>, b: Behavior)
    requires
        out.len() == 0 || spec_ext_right(out.last(), b) || out.last() == END_OF_LONG_GLYPH,
        forall|i: int| 0 <= i < g.len() ==> plain_glyph(#[trigger] g[i], b),
    ensures
        unwind(out + g, temp, b) == (out, temp + g.reverse()),
    decreases g.len(),
{
    if g.len() == 0 {
        assert(out + g =~= out);
        assert(temp + g.reverse() =~= temp);
    } else {
        let p = g.drop_last();
        let x = g.last();
        assert forall|i: int| 0 <= i < p.len() implies plain_glyph(#[trigger] p[i], b) by {
            assert(p[i] == g[i]);
        }
        assert(plain_glyph(g[g.len() - 1], b));
        assert((out + g).drop_last() =~= out + p);
        assert((out + g).last() == x);
        lemma_unwind_plain(out, p, temp.push(x), b);
        assert(temp.push(x) + p.reverse() =~= temp + g.reverse());
    }
}

/// `la` turns the glyphs it follows into a reverse long glyph: with long
/// glyphs on and no long glyph open, the plain glyphs typed since the last
/// `la`, the last end of a long glyph or the start of the text are wrapped,
/// all of them, in one reverse long glyph before the `la`.
pub proof fn law_la_wraps_the_glyphs_before(t: Seq<char>, g: Seq<char>, b: Behavior)
    requires
        b.long_glyph,
        !run(t, b).failed,
        !run(t, b).open,
        run(t, b).question is None,
        run(t, b).out.len() == 0 || run(t, b).out.last() == LA || run(t, b).out.last() == END_OF_LONG_GLYPH,
        g.len() > 0,
        forall|i: int| 0 <= i < g.len() ==> plain_glyph(#[trigger] g[i], b),
    ensures
        finish(run(t + g.push(LA), b)).out == run(t, b).out + seq![START_OF_REVERSE_LONG_GLYPH] + g + seq![
            END_OF_REVERSE_LONG_GLYPH,
            LA,
        ],
{
    let s0 = run(t, b);
    lemma_run_plain(t, g, b);
    assert((t + g.push(LA)).drop_last() =~= t + g);
    assert((t + g.push(LA)).last() == LA);
    lemma_unwind_plain(s0.out, g, Seq::empty(), b);
    assert(Seq::<char>::empty() + g.reverse() =~= g.reverse());
    assert(g.reverse().reverse() =~= g);
    assert(g.reverse().len() > 0);
}

/// A text of plain glyphs then `la`, long glyphs on: every glyph goes into
/// the reverse long glyph of the `la`.
pub proof fn law_la_wraps_a_text(g: Seq<char>, b: Behavior)
    requires
        b.long_glyph,
        g.len() > 0,
        forall|i: int| 0 <= i < g.len() ==> plain_glyph(#[trigger] g[i], b),
    ensures
        finish(run(g.push(LA), b)).out == seq![START_OF_REVERSE_LONG_GLYPH] + g + seq![END_OF_REVERSE_LONG_GLYPH, LA],
{
    let e = Seq::<char>::empty();
    assert(run(e, b) == init_state());
    law_la_wraps_the_glyphs_before(e, g, b);
    assert(e + g.push(LA) =~= g.push(LA));
    assert(Seq::<char>::empty() + seq![START_OF_REVERSE_LONG_GLYPH] =~= seq![START_OF_REVERSE_LONG_GLYPH]);
}

/// A glyph that opens a long glyph (`pi` when `long_pi` is on; `awen`,
/// `ken`, `kepeken`, `lon`, `tawa` when `long_glyph` is on) extends over all
/// the plain glyphs after it: the long glyph starts right after it and ends
/// after the last of them.
pub proof fn law_opening_glyph_extends_forward(c: char, g: Seq<char>, b: Behavior)
    requires
        spec_ext_left(c, b),
        g.len() > 0,
        forall|i: int| 0 <= i < g.len() ==> plain_glyph(#[trigger] g[i], b),
    ensures
        finish(run(seq![c] + g, b)).out == seq![c, START_OF_LONG_GLYPH] + g + seq![END_OF_LONG_GLYPH],
{
    let t = seq![c];
    assert(t.drop_last() =~= Seq::<char>::empty());
    assert(run(Seq::<char>::empty(), b) == init_state());
    assert(!spec_ext_as_ala(c, b)) by {
        if c == ALA {
            assert(!spec_ext_left(c, b));
        }
    }
    assert(run(t, b).out =~= seq![c, START_OF_LONG_GLYPH]);
    lemma_run_plain(t, g, b);
    let o = seq![c, START_OF_LONG_GLYPH] + g;
    assert(o.last() == g[g.len() - 1]);
    assert(plain_glyph(g[g.len() - 1], b));
    assert(o.push(END_OF_LONG_GLYPH) =~= seq![c, START_OF_LONG_GLYPH] + g + seq![END_OF_LONG_GLYPH]);
}

/// The question `x ala x` (long glyphs on, `x` plain): `x ala` becomes a
/// reverse long glyph over `x` before `ala`, and the `x` that answers it a
/// long glyph of its own.
pub proof fn law_question_glyphs(x: char, b: Behavior)
    requires
        b.long_glyph,
        plain_glyph(x, b),
    ensures
        finish(run(seq![x, ALA, x], b)).out == seq![
            START_OF_REVERSE_LONG_GLYPH,
            x,
            END_OF_REVERSE_LONG_GLYPH,
            ALA,
            START_OF_LONG_GLYPH,
            x,
            END_OF_LONG_GLYPH,
        ],
{
    let t1 = seq![x];
    let t2 = seq![x, ALA];
    let t3 = seq![x, ALA, x];
    assert(t1.drop_last() =~= Seq::<char>::empty());
    assert(t2.drop_last() =~= t1);
    assert(t3.drop_last() =~= t2);
    assert(run(Seq::<char>::empty(), b) == init_state());
    assert(run(t1, b).out =~= seq![x]);
    assert(seq![x].drop_last() =~= Seq::<char>::empty());
    assert(run(t2, b).out =~= seq![START_OF_REVERSE_LONG_GLYPH, x, END_OF_REVERSE_LONG_GLYPH, ALA]);
    assert(run(t2, b).question == Some(x));
}

/// Inserts the control characters of long glyphs into `text`, as the
/// behavior switches ask.
pub fn insert_long_glyph(text: &mut String, b: &Behavior)
    requires
        !long_glyph_fails(old(text)@, *b),
    ensures
        final(text)@ == with_long_glyphs(old(text)@, *b),
{
    let chars = chars_of(text.as_str());
    let ghost t = chars@;
    let mut output: Vec<char> = Vec::new();
    let mut open = false;
    let mut question: Option<char> = None;
    let mut i: usize = 0;
    proof {
        assert(t.take(0) =~= Seq::<char>::empty());
    }
    while i < chars.len()
        invariant
            t == chars@,
            0 <= i <= t.len(),
            !long_glyph_fails(t, *b),
            run(t.take(i as int), *b) == (GlyphState { out: output@, open, question, failed: false }),
        decreases t.len() - i,
    {
        let ch = chars[i];
        let ghost s = run(t.take(i as int), *b);
        proof {
            assert(t.take(i + 1).drop_last() =~= t.take(i as int));
            assert(t.take(i + 1).last() == ch);
            if run(t.take(i + 1), *b).failed {
                lemma_failed_stays(t, i + 1, *b);
                lemma_finish_failed(run(t, *b));
            }
        }
        if ext_as_ala(ch, b) {
            match output.pop() {
                None => {
                    output.push(ch);
                },
                Some(prev) => {
                    if prev == END_OF_LONG_GLYPH || prev == ALA {
                        output.push(prev);
                        output.push(ch);
                    } else {
                        let mut prev = prev;
                        if prev == START_OF_LONG_GLYPH {
                            open = false;
                            match output.pop() {
                                Some(p) => {
                                    prev = p;
                                },
                                None => {},
                            }
                        }
                        if open {
                            output.push(prev);
                            output.push(ch);
                        } else {
                            question = Some(prev);
                            output.push(START_OF_REVERSE_LONG_GLYPH);
                            output.push(prev);
                            output.push(END_OF_REVERSE_LONG_GLYPH);
                            output.push(ch);
                        }
                    }
                },
            }
        } else if question == Some(ch) {
            question = None;
            output.push(START_OF_LONG_GLYPH);
            output.push(ch);
            output.push(END_OF_LONG_GLYPH);
        } else if ext_left(ch, b) {
            if open {
                match output.pop() {
                    Some(prev) => {
                        if prev != START_OF_LONG_GLYPH {
                            output.push(prev);
                            output.push(END_OF_LONG_GLYPH);
                        }
                    },
                    None => {},
                }
            }
            output.push(ch);
            output.push(START_OF_LONG_GLYPH);
            open = true;
        } else if ext_right(ch, b) {
            if open {
                output.push(ch);
            } else {
                let mut temp: Vec<char> = Vec::new();
                unwind_exec(&mut output, &mut temp, b);
                if temp.len() == 0 {
                    output.push(ch);
                } else {
                    let ghost before = output@;
                    let ghost tv = temp@;
                    output.push(START_OF_REVERSE_LONG_GLYPH);
                    while temp.len() > 0
                        invariant
                            temp@ == tv.take(temp@.len() as int),
                            temp@.len() <= tv.len(),
                            output@ == before + seq![START_OF_REVERSE_LONG_GLYPH]
                                + tv.reverse().take(tv.len() - temp@.len()),
                        decreases temp@.len(),
                    {
                        let ghost n = temp@.len();
                        let c = temp.pop().unwrap();
                        proof {
                            assert(c == tv[n - 1]);
                            assert(tv.reverse().take(tv.len() - n + 1) =~= tv.reverse().take(
                                tv.len() - n,
                            ).push(c));
                            assert(temp@ =~= tv.take(n - 1));
                        }
                        output.push(c);
                    }
                    proof {
                        assert(tv.reverse().take(tv.len() as int) =~= tv.reverse());
                    }
                    output.push(END_OF_REVERSE_LONG_GLYPH);
                    output.push(ch);
                }
            }
        } else {
            output.push(ch);
        }
        proof {
            assert(output@ =~= step(s, ch, *b).out);
        }
        i = i + 1;
    }
    proof {
        assert(t.take(t.len() as int) =~= t);
    }
    if open {
        match output.pop() {
            Some(prev) => {
                if prev != START_OF_LONG_GLYPH {
                    output.push(prev);
                    output.push(END_OF_LONG_GLYPH);
                }
            },
            None => {},
        }
    }
    assert(output@ == finish(run(t, *b)).out);
    let mut result = String::new();
    let mut k: usize = 0;
    while k < output.len()
        invariant
            0 <= k <= output@.len(),
            result@ == output@.take(k as int),
        decreases output@.len() - k,
    {
        push_char(&mut result, output[k]);
        proof {
            assert(output@.take(k + 1) =~= output@.take(k as int).push(output@[k as int]));
        }
        k = k + 1;
    }
    proof {
        assert(output@.take(output@.len() as int) =~= output@);
    }
    assert(text@ == t);
    if text.as_str().len() != result.as_str().len() {
        *text = result;
    }
}

} // verus!
