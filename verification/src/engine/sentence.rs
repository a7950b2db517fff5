use vstd::prelude::*;
use crate::text::{chars_of, spec_is_joiner, string_of};
use super::schema::{Cand, Candidate, Schema, SchemaModel};
use super::long_glyph::{insert_long_glyph, long_glyph_fails, long_glyph_stuck, with_long_glyphs};
use super::{Engine, EngineModel, Suggestion, SuggestionModel};
use crate::conf::Behavior;

verus! {

/// A sentence being built from a spelling.
#[derive(Default)]
struct Sentence {
    output: Vec<char>,
    groupping: Vec<usize>,
    score: usize,
    wc: usize,
}

/// The mathematical value of a sentence.
pub struct SentModel {
    pub output: Seq<char>,
    pub groupping: Seq<int>,
    pub score: int,
    pub wc: int,
}

impl View for Sentence {
    type V = SentModel;

    closed spec fn view(&self) -> SentModel {
        SentModel {
            output: self.output@,
            groupping: self.groupping@.map_values(|x: usize| x as int),
            score: self.score as int,
            wc: self.wc as int,
        }
    }
}

spec fn sent_views(v: Seq<Sentence>) -> Seq<SentModel> {
    v.map_values(|s: Sentence| s@)
}

/// The sentence of no word.
pub open spec fn empty_sent() -> SentModel {
    SentModel { output: Seq::empty(), groupping: Seq::empty(), score: 0, wc: 0 }
}

/// The end of the last group, 0 when there is none.
pub open spec fn last_group(g: Seq<int>) -> int {
    if g.len() > 0 {
        g.last()
    } else {
        0
    }
}

/// Appends a word spelled by `len` letters. After a joiner the word joins
/// the last group.
pub open spec fn push_word(s: SentModel, w: Seq<char>, len: int) -> SentModel {
    SentModel {
        output: s.output + w,
        groupping: if s.output.len() > 0 && spec_is_joiner(s.output.last()) {
            s.groupping.update(s.groupping.len() - 1, s.groupping.last() + len)
        } else {
            s.groupping.push(last_group(s.groupping) + len)
        },
        wc: s.wc + 1,
        ..s
    }
}

/// Appends a word of which the `len` letters are a unique prefix.
pub open spec fn push_unique(s: SentModel, w: Seq<char>, len: int) -> SentModel {
    let t = push_word(s, w, len);
    SentModel { score: t.score + len * 20, ..t }
}

/// The score of an exact spelling per letter: a unique prefix of 3 letters
/// beats an exact match of 2 ("pim" over "pi'm"), single letters are weak.
pub open spec fn exact_weight(len: int) -> int {
    if len == 1 {
        10
    } else if len == 2 {
        29
    } else {
        30
    }
}

/// Appends a word spelled exactly by `len` letters.
pub open spec fn push_exact(s: SentModel, w: Seq<char>, len: int) -> SentModel {
    let t = push_word(s, w, len);
    SentModel { score: t.score + len * exact_weight(len), ..t }
}

/// Appends a joiner, which joins the last group.
pub open spec fn push_joiner(s: SentModel, j: char) -> SentModel {
    SentModel {
        output: s.output.push(j),
        groupping: if s.groupping.len() > 0 {
            s.groupping.update(s.groupping.len() - 1, s.groupping.last() + 1)
        } else {
            seq![1]
        },
        ..s
    }
}

/// The number of leading punctuators of `sp` from `i` on.
pub open spec fn lead_end(m: SchemaModel, sp: Seq<char>, i: int) -> int
    decreases sp.len() - i,
{
    if 0 <= i < sp.len() && m.puncts.contains_key(sp[i]) {
        lead_end(m, sp, i + 1)
    } else {
        i
    }
}

/// Pushes the remapped forms of the first `k` characters of `sp`.
pub open spec fn push_joiners(m: SchemaModel, s: SentModel, sp: Seq<char>, k: int) -> SentModel
    decreases k,
{
    if k <= 0 {
        s
    } else {
        push_joiner(push_joiners(m, s, sp, k - 1), m.puncts[sp[k - 1]])
    }
}

/// What is left of the spelling after its leading punctuators. When the
/// whole spelling is punctuators it is kept whole.
pub open spec fn after_lead(m: SchemaModel, sp: Seq<char>) -> Seq<char> {
    let e = lead_end(m, sp, 0);
    if e >= sp.len() {
        sp
    } else {
        sp.skip(e)
    }
}

/// The longest prefix of `r` of length at most `len` that is an exact
/// spelling, 0 if there is none.
pub open spec fn find_exact(m: SchemaModel, r: Seq<char>, len: int) -> int
    decreases len,
{
    if len <= 0 {
        0
    } else if m.candis.contains_key(r.take(len)) && m.candis[r.take(len)] is Exact {
        len
    } else {
        find_exact(m, r, len - 1)
    }
}

/// The longest prefix of `r` of length at most `len` and more than `stop`
/// that is a unique prefix, 0 if there is none.
pub open spec fn find_unique(m: SchemaModel, r: Seq<char>, len: int, stop: int) -> int
    decreases len,
{
    if len <= stop || len <= 0 {
        0
    } else if m.candis.contains_key(r.take(len)) && m.candis[r.take(len)] is Unique {
        len
    } else {
        find_unique(m, r, len - 1, stop)
    }
}

/// The word of an exact or unique candidate (nothing for duplicates).
pub open spec fn exact_word(c: Cand) -> Seq<char> {
    match c {
        Cand::Exact(w, _) => w,
        Cand::Unique(w) => w,
        Cand::Duplicates(_) => Seq::empty(),
    }
}

/// The punctuators that lead the spelling from `i` end at `lead_end`.
pub proof fn lemma_lead_end(m: SchemaModel, sp: Seq<char>, i: int)
    requires
        0 <= i <= sp.len(),
    ensures
        i <= lead_end(m, sp, i) <= sp.len(),
        forall|j: int| i <= j < lead_end(m, sp, i) ==> m.puncts.contains_key(#[trigger] sp[j]),
        lead_end(m, sp, i) < sp.len() ==> !m.puncts.contains_key(sp[lead_end(m, sp, i)]),
    decreases sp.len() - i,
{
    if i < sp.len() && m.puncts.contains_key(sp[i]) {
        lemma_lead_end(m, sp, i + 1);
    }
}

/// The longest exact spelling of at most `len` characters is within
/// bounds, and is an exact spelling of the schema when it is not empty.
pub proof fn lemma_find_exact(m: SchemaModel, r: Seq<char>, len: int)
    requires
        0 <= len,
    ensures
        0 <= find_exact(m, r, len) <= len,
        find_exact(m, r, len) > 0 ==> m.candis.contains_key(r.take(find_exact(m, r, len)))
            && m.candis[r.take(find_exact(m, r, len))] is Exact,
    decreases len,
{
    if len > 0 {
        lemma_find_exact(m, r, len - 1);
    }
}

/// The longest unique prefix longer than `stop` and at most `len`
/// characters long, if any, is a unique prefix of the schema.
pub proof fn lemma_find_unique(m: SchemaModel, r: Seq<char>, len: int, stop: int)
    requires
        0 <= len,
        0 <= stop,
    ensures
        find_unique(m, r, len, stop) == 0 || (stop < find_unique(m, r, len, stop) <= len),
        find_unique(m, r, len, stop) > 0 ==> m.candis.contains_key(r.take(find_unique(m, r, len, stop)))
            && m.candis[r.take(find_unique(m, r, len, stop))] is Unique,
    decreases len,
{
    if len > stop && len > 0 {
        lemma_find_unique(m, r, len - 1, stop);
    }
}

/// The sentences that the spelling `sp` can be read as, starting from the
/// sentence `s`: the sentence that reads the longest exact spellings, and
/// the sentences that branch off where a longer unique prefix exists.
/// Returns the main sentence and the branches, in the order they are found.
pub open spec fn sentences(m: SchemaModel, sp: Seq<char>, s: SentModel) -> (SentModel, Seq<SentModel>)
    decreases sp.len(),
{
    let e = lead_end(m, sp, 0);
    let s1 = push_joiners(m, s, sp, e);
    let r = after_lead(m, sp);
    let el = find_exact(m, r, r.len() as int);
    let ul = find_unique(m, r, r.len() as int, el);
    proof {
        lemma_lead_end(m, sp, 0);
        lemma_find_exact(m, r, r.len() as int);
        lemma_find_unique(m, r, r.len() as int, el);
    }
    if el == 0 && ul == 0 {
        (s1, Seq::empty())
    } else if ul == 0 {
        sentences(m, r.skip(el), push_exact(s1, exact_word(m.candis[r.take(el)]), el))
    } else if el == 0 {
        sentences(m, r.skip(ul), push_unique(s1, exact_word(m.candis[r.take(ul)]), ul))
    } else {
        let (a, pa) = sentences(m, r.skip(el), push_exact(s1, exact_word(m.candis[r.take(el)]), el));
        let (b, pb) = sentences(m, r.skip(ul), push_unique(s1, exact_word(m.candis[r.take(ul)]), ul));
        (a, pa + pb.push(b))
    }
}

/// All the sentences of a spelling, the main one last.
pub open spec fn all_sentences(m: SchemaModel, sp: Seq<char>) -> Seq<SentModel> {
    let (a, pa) = sentences(m, sp, empty_sent());
    pa.push(a)
}

/// Picks, from the back, the sentence of more than one word with the highest
/// score (a later one wins a tie).
pub open spec fn pick(ss: Seq<SentModel>, best: Option<SentModel>, high: int) -> Option<SentModel>
    decreases ss.len(),
{
    if ss.len() == 0 {
        best
    } else {
        let s = ss.last();
        if s.wc <= 1 || s.score <= high {
            pick(ss.drop_last(), best, high)
        } else {
            pick(ss.drop_last(), Some(s), s.score)
        }
    }
}

/// The sentence of more than one word that is suggested for `sp`, if any.
pub open spec fn best_sentence(m: SchemaModel, sp: Seq<char>) -> Option<SentModel> {
    pick(all_sentences(m, sp), None, 0)
}

/// Whether the best sentence of `sp` makes the long glyph insertion stuck.
pub open spec fn sentence_fails(e: EngineModel, sp: Seq<char>) -> bool {
    match best_sentence(e.schema(), sp) {
        Some(s) => long_glyph_fails(s.output, e.behavior),
        None => false,
    }
}

/// The sentence suggested for a spelling.
pub open spec fn suggested_sentence(e: EngineModel, sp: Seq<char>) -> Option<SuggestionModel> {
    match best_sentence(e.schema(), sp) {
        Some(s) => Some(
            SuggestionModel { output: with_long_glyphs(s.output, e.behavior), groupping: s.groupping },
        ),
        None => None,
    }
}


/// Punctuators change neither the word count nor the score.
pub proof fn lemma_push_joiners_counts(m: SchemaModel, s: SentModel, sp: Seq<char>, k: int)
    ensures
        push_joiners(m, s, sp, k).wc == s.wc,
        push_joiners(m, s, sp, k).score == s.score,
    decreases k,
{
    if k > 0 {
        lemma_push_joiners_counts(m, s, sp, k - 1);
    }
}

/// Every sentence read from `s` scores at least 10 a word when `s` does.
pub proof fn lemma_sentences_score(m: SchemaModel, sp: Seq<char>, s: SentModel)
    requires
        s.score >= 10 * s.wc,
    ensures
        sentences(m, sp, s).0.score >= 10 * sentences(m, sp, s).0.wc,
        forall|i: int| 0 <= i < sentences(m, sp, s).1.len()
            ==> #[trigger] sentences(m, sp, s).1[i].score >= 10 * sentences(m, sp, s).1[i].wc,
    decreases sp.len(),
{
    let e = lead_end(m, sp, 0);
    let s1 = push_joiners(m, s, sp, e);
    let r = after_lead(m, sp);
    let el = find_exact(m, r, r.len() as int);
    let ul = find_unique(m, r, r.len() as int, el);
    lemma_lead_end(m, sp, 0);
    lemma_find_exact(m, r, r.len() as int);
    lemma_find_unique(m, r, r.len() as int, el);
    lemma_push_joiners_counts(m, s, sp, e);
    if el == 0 && ul == 0 {
    } else if ul == 0 {
        let t = push_exact(s1, exact_word(m.candis[r.take(el)]), el);
        assert(el * exact_weight(el) >= 10) by (nonlinear_arith)
            requires
                el >= 1,
                exact_weight(el) >= 10,
        ;
        lemma_sentences_score(m, r.skip(el), t);
    } else if el == 0 {
        let t = push_unique(s1, exact_word(m.candis[r.take(ul)]), ul);
        lemma_sentences_score(m, r.skip(ul), t);
    } else {
        let ta = push_exact(s1, exact_word(m.candis[r.take(el)]), el);
        let tb = push_unique(s1, exact_word(m.candis[r.take(ul)]), ul);
        assert(el * exact_weight(el) >= 10) by (nonlinear_arith)
            requires
                el >= 1,
                exact_weight(el) >= 10,
        ;
        lemma_sentences_score(m, r.skip(el), ta);
        lemma_sentences_score(m, r.skip(ul), tb);
        let (a, pa) = sentences(m, r.skip(el), ta);
        let (b, pb) = sentences(m, r.skip(ul), tb);
        let all = pa + pb.push(b);
        assert forall|i: int| 0 <= i < all.len() implies #[trigger] all[i].score >= 10 * all[i].wc by {
            if i < pa.len() {
                assert(all[i] == pa[i]);
            } else if i < pa.len() + pb.len() {
                assert(all[i] == pb[i - pa.len()]);
            }
        }
    }
}

/// `p` begins `q`.
pub open spec fn begins(p: Seq<char>, q: Seq<char>) -> bool {
    p.len() <= q.len() && q.subrange(0, p.len() as int) == p
}

proof fn lemma_begins_trans(a: Seq<char>, b: Seq<char>, c: Seq<char>)
    requires
        begins(a, b),
        begins(b, c),
    ensures
        begins(a, c),
{
    assert(c.subrange(0, a.len() as int) =~= c.subrange(0, b.len() as int).subrange(0, a.len() as int));
}

proof fn lemma_push_joiners_output(m: SchemaModel, s: SentModel, sp: Seq<char>, k: int)
    requires
        0 <= k <= sp.len(),
    ensures
        push_joiners(m, s, sp, k).output == s.output + sp.take(k).map_values(|c: char| m.puncts[c]),
    decreases k,
{
    if k == 0 {
        assert(s.output + sp.take(0).map_values(|c: char| m.puncts[c]) =~= s.output);
    } else {
        lemma_push_joiners_output(m, s, sp, k - 1);
        assert(sp.take(k).map_values(|c: char| m.puncts[c]) =~= sp.take(k - 1).map_values(|c: char| m.puncts[c]).push(
            m.puncts[sp[k - 1]],
        ));
        assert(s.output + sp.take(k).map_values(|c: char| m.puncts[c]) =~= (s.output + sp.take(k - 1).map_values(
            |c: char| m.puncts[c],
        )).push(m.puncts[sp[k - 1]]));
    }
}

proof fn lemma_sentences_extend(m: SchemaModel, sp: Seq<char>, s: SentModel)
    ensures
        begins(s.output, sentences(m, sp, s).0.output),
    decreases sp.len(),
{
    let e = lead_end(m, sp, 0);
    let s1 = push_joiners(m, s, sp, e);
    let r = after_lead(m, sp);
    let el = find_exact(m, r, r.len() as int);
    let ul = find_unique(m, r, r.len() as int, el);
    lemma_lead_end(m, sp, 0);
    lemma_find_exact(m, r, r.len() as int);
    lemma_find_unique(m, r, r.len() as int, el);
    lemma_push_joiners_output(m, s, sp, e);
    assert(begins(s.output, s1.output)) by {
        assert(s1.output.subrange(0, s.output.len() as int) =~= s.output);
    }
    if el == 0 && ul == 0 {
    } else if ul == 0 {
        let t = push_exact(s1, exact_word(m.candis[r.take(el)]), el);
        assert(begins(s1.output, t.output)) by {
            assert(t.output.subrange(0, s1.output.len() as int) =~= s1.output);
        }
        lemma_sentences_extend(m, r.skip(el), t);
        lemma_begins_trans(s1.output, t.output, sentences(m, r.skip(el), t).0.output);
        lemma_begins_trans(s.output, s1.output, sentences(m, r.skip(el), t).0.output);
    } else if el == 0 {
        let t = push_unique(s1, exact_word(m.candis[r.take(ul)]), ul);
        assert(begins(s1.output, t.output)) by {
            assert(t.output.subrange(0, s1.output.len() as int) =~= s1.output);
        }
        lemma_sentences_extend(m, r.skip(ul), t);
        lemma_begins_trans(s1.output, t.output, sentences(m, r.skip(ul), t).0.output);
        lemma_begins_trans(s.output, s1.output, sentences(m, r.skip(ul), t).0.output);
    } else {
        let t = push_exact(s1, exact_word(m.candis[r.take(el)]), el);
        assert(begins(s1.output, t.output)) by {
            assert(t.output.subrange(0, s1.output.len() as int) =~= s1.output);
        }
        lemma_sentences_extend(m, r.skip(el), t);
        lemma_begins_trans(s1.output, t.output, sentences(m, r.skip(el), t).0.output);
        lemma_begins_trans(s.output, s1.output, sentences(m, r.skip(el), t).0.output);
    }
}

/// The punctuators that lead what is left of a spelling are kept: the
/// sentence read from `s` goes on with them, remapped and in order, before
/// any word (a joiner such as `-` stays between the glyphs it joins).
pub proof fn law_sentence_keeps_punctuators(m: SchemaModel, sp: Seq<char>, s: SentModel)
    ensures
        begins(
            s.output + sp.take(lead_end(m, sp, 0)).map_values(|c: char| m.puncts[c]),
            sentences(m, sp, s).0.output,
        ),
{
    let e = lead_end(m, sp, 0);
    let s1 = push_joiners(m, s, sp, e);
    let r = after_lead(m, sp);
    let el = find_exact(m, r, r.len() as int);
    let ul = find_unique(m, r, r.len() as int, el);
    lemma_lead_end(m, sp, 0);
    lemma_find_exact(m, r, r.len() as int);
    lemma_find_unique(m, r, r.len() as int, el);
    lemma_push_joiners_output(m, s, sp, e);
    if el == 0 && ul == 0 {
        assert(s1.output.subrange(0, s1.output.len() as int) =~= s1.output);
    } else {
        let t = if ul == 0 || el > 0 {
            push_exact(s1, exact_word(m.candis[r.take(el)]), el)
        } else {
            push_unique(s1, exact_word(m.candis[r.take(ul)]), ul)
        };
        let rest = if ul == 0 || el > 0 { r.skip(el) } else { r.skip(ul) };
        assert(sentences(m, sp, s).0 == sentences(m, rest, t).0);
        assert(begins(s1.output, t.output)) by {
            assert(t.output.subrange(0, s1.output.len() as int) =~= s1.output);
        }
        lemma_sentences_extend(m, rest, t);
        lemma_begins_trans(s1.output, t.output, sentences(m, rest, t).0.output);
    }
}

/// How words score, whatever the sentence before them: an exact spelling of
/// three letters or more scores more than a unique prefix as long; a single
/// letter exact spelling scores less than a single letter prefix; a unique
/// prefix of three letters beats an exact spelling of two ("pim" is read as
/// one word rather than "pi" and "m"); every word adds to the score and
/// counts as one word.
pub proof fn law_word_scores(s: SentModel, w: Seq<char>, v: Seq<char>, len: int)
    requires
        len >= 1,
    ensures
        len >= 3 ==> push_exact(s, w, len).score > push_unique(s, v, len).score,
        push_exact(s, w, 1).score < push_unique(s, v, 1).score,
        push_unique(s, v, 3).score > push_exact(s, w, 2).score,
        push_exact(s, w, len).score > s.score,
        push_unique(s, v, len).score > s.score,
        push_exact(s, w, len).wc == s.wc + 1,
        push_unique(s, v, len).wc == s.wc + 1,
        push_exact(s, w, len).output == s.output + w,
        push_unique(s, v, len).output == s.output + v,
{
    if len >= 3 {
        assert(len * 30 > len * 20) by (nonlinear_arith)
            requires
                len >= 3,
        ;
    }
    assert(len * exact_weight(len) > 0) by (nonlinear_arith)
        requires
            len >= 1,
            exact_weight(len) >= 10,
    ;
    assert(len * 20 > 0) by (nonlinear_arith)
        requires
            len >= 1,
    ;
}

/// What [`pick`] picks: a sentence of more than one word, found among the
/// sentences (or the one picked so far), that no sentence of more than one
/// word outscores; nothing when no sentence of more than one word scores
/// above `high`.
pub proof fn lemma_pick(ss: Seq<SentModel>, best: Option<SentModel>, high: int)
    requires
        best matches Some(b) ==> b.wc > 1 && b.score == high,
    ensures
        match pick(ss, best, high) {
            Some(b) => {
                &&& b.wc > 1
                &&& b.score >= high
                &&& (Some(b) == best || ss.contains(b))
                &&& forall|i: int| 0 <= i < ss.len() && (#[trigger] ss[i]).wc > 1 ==> ss[i].score <= b.score
            },
            None => best is None && forall|i: int| 0 <= i < ss.len() ==> (#[trigger] ss[i]).wc <= 1
                || ss[i].score <= high,
        },
    decreases ss.len(),
{
    if ss.len() > 0 {
        let s = ss.last();
        let p = ss.drop_last();
        if s.wc <= 1 || s.score <= high {
            lemma_pick(p, best, high);
        } else {
            lemma_pick(p, Some(s), s.score);
        }
        match pick(ss, best, high) {
            Some(b) => {
                if ss.drop_last().contains(b) {
                    let j = choose|j: int| 0 <= j < p.len() && p[j] == b;
                    assert(ss[j] == b);
                }
                if Some(b) == Some(s) {
                    assert(ss[ss.len() - 1] == b);
                }
                assert forall|i: int| 0 <= i < ss.len() && (#[trigger] ss[i]).wc > 1 implies ss[i].score <= b.score by {
                    if i < ss.len() - 1 {
                        assert(ss[i] == p[i]);
                    }
                }
            },
            None => {
                assert forall|i: int| 0 <= i < ss.len() implies (#[trigger] ss[i]).wc <= 1 || ss[i].score <= high by {
                    if i < ss.len() - 1 {
                        assert(ss[i] == p[i]);
                    }
                }
            },
        }
    }
}

/// Looking for a unique prefix above `stop` is looking above `mid`, then
/// between `stop` and `mid`.
pub proof fn lemma_find_unique_split(m: SchemaModel, r: Seq<char>, hi: int, mid: int, stop: int)
    requires
        0 <= stop <= mid <= hi,
    ensures
        find_unique(m, r, hi, stop) == (if find_unique(m, r, hi, mid) > 0 {
            find_unique(m, r, hi, mid)
        } else {
            find_unique(m, r, mid, stop)
        }),
    decreases hi,
{
    if hi > mid && hi > 0 {
        lemma_find_unique_split(m, r, hi - 1, mid, stop);
    }
}

/// The counts of the sentences of a spelling of `n` letters fit a `usize`:
/// a word takes at least one letter and scores at most 30 per letter, and
/// as leading punctuators can be read again, a group can reach
/// `n * (n + 1)`.
pub open spec fn counts_fit(n: int) -> bool {
    &&& 30 * n <= usize::MAX
    &&& n * (n + 1) <= usize::MAX
}

/// The sentence `s` leaves room for a spelling of `r` more letters: no
/// count can overflow.
pub open spec fn bounded(s: SentModel, r: int) -> bool {
    &&& 0 <= r
    &&& 0 <= s.wc
    &&& s.wc + r <= usize::MAX
    &&& 0 <= s.score
    &&& s.score + 30 * r <= usize::MAX
    &&& 0 <= last_group(s.groupping)
    &&& last_group(s.groupping) + r * (r + 1) <= usize::MAX
    &&& (s.output.len() > 0 ==> s.groupping.len() > 0)
}

proof fn lemma_room(n: int, m: int, el: int)
    requires
        1 <= el <= m <= n,
    ensures
        n + el + (m - el) * (m - el + 1) <= n * (n + 1),
{
    assert((m - el) * (m - el + 1) <= (n - el) * (n - el + 1)) by (nonlinear_arith)
        requires
            0 <= m - el <= n - el,
    ;
    assert(n + el + (n - el) * (n - el + 1) <= n * (n + 1)) by (nonlinear_arith)
        requires
            1 <= el <= n,
    ;
}

fn copy_chars(v: &Vec<char>) -> (r: Vec<char>)
    ensures
        r@ == v@,
{
    let mut r: Vec<char> = Vec::new();
    let mut k: usize = 0;
    while k < v.len()
        invariant
            0 <= k <= v@.len(),
            r@ == v@.take(k as int),
        decreases v@.len() - k,
    {
        r.push(v[k]);
        proof {
            assert(v@.take(k + 1) =~= v@.take(k as int).push(v@[k as int]));
        }
        k = k + 1;
    }
    proof {
        assert(v@.take(v@.len() as int) =~= v@);
    }
    r
}

fn copy_usizes(v: &Vec<usize>) -> (r: Vec<usize>)
    ensures
        r@ == v@,
{
    let mut r: Vec<usize> = Vec::new();
    let mut k: usize = 0;
    while k < v.len()
        invariant
            0 <= k <= v@.len(),
            r@ == v@.take(k as int),
        decreases v@.len() - k,
    {
        r.push(v[k]);
        proof {
            assert(v@.take(k + 1) =~= v@.take(k as int).push(v@[k as int]));
        }
        k = k + 1;
    }
    proof {
        assert(v@.take(v@.len() as int) =~= v@);
    }
    r
}

impl Sentence {
    fn new() -> (s: Sentence)
        ensures
            s@ == empty_sent(),
    {
        let s = Sentence { output: Vec::new(), groupping: Vec::new(), score: 0, wc: 0 };
        proof {
            assert(s@.groupping =~= Seq::<int>::empty());
        }
        s
    }

    fn copy(&self) -> (r: Sentence)
        ensures
            r@ == self@,
    {
        Sentence {
            output: copy_chars(&self.output),
            groupping: copy_usizes(&self.groupping),
            score: self.score,
            wc: self.wc,
        }
    }

    fn push_word(&mut self, word: &String, len: usize)
        requires
            old(self)@.output.len() > 0 ==> old(self)@.groupping.len() > 0,
            0 <= last_group(old(self)@.groupping),
            last_group(old(self)@.groupping) + len <= usize::MAX,
            old(self)@.wc < usize::MAX,
        ensures
            final(self)@ == push_word(old(self)@, word@, len as int),
    {
        let ghost s0 = self@;
        let n = self.output.len();
        let after_joiner = n > 0 && crate::extend::is_joiner_char(self.output[n - 1]);
        let g = self.groupping.len();
        if after_joiner {
            let last = self.groupping[g - 1];
            self.groupping.set(g - 1, last + len);
        } else {
            let last = if g > 0 { self.groupping[g - 1] } else { 0 };
            self.groupping.push(last + len);
        }
        let w = chars_of(word.as_str());
        let mut k: usize = 0;
        let ghost out0 = self.output@;
        let ghost g1 = self.groupping@;
        let ghost wc0 = self.wc;
        while k < w.len()
            invariant
                0 <= k <= w@.len(),
                w@ == word@,
                self.groupping@ == g1,
                self.wc == wc0,
                self.score == s0.score,
                self.output@ == out0 + w@.take(k as int),
            decreases w@.len() - k,
        {
            self.output.push(w[k]);
            proof {
                assert(w@.take(k + 1) =~= w@.take(k as int).push(w@[k as int]));
            }
            k = k + 1;
        }
        proof {
            assert(w@.take(w@.len() as int) =~= w@);
        }
        self.wc = self.wc + 1;
        proof {
            assert(self@.groupping =~= push_word(s0, word@, len as int).groupping);
        }
    }

    fn push_unique(&mut self, unique: &String, len: usize)
        requires
            len >= 1,
            old(self)@.output.len() > 0 ==> old(self)@.groupping.len() > 0,
            0 <= last_group(old(self)@.groupping),
            last_group(old(self)@.groupping) + len <= usize::MAX,
            0 <= old(self)@.wc < usize::MAX,
            0 <= old(self)@.score,
            old(self)@.score + 30 * len <= usize::MAX,
        ensures
            final(self)@ == push_unique(old(self)@, unique@, len as int),
    {
        self.push_word(unique, len);
        self.score = self.score + len * 20;
    }

    fn push_exact(&mut self, exact: &String, len: usize)
        requires
            len >= 1,
            old(self)@.output.len() > 0 ==> old(self)@.groupping.len() > 0,
            0 <= last_group(old(self)@.groupping),
            last_group(old(self)@.groupping) + len <= usize::MAX,
            0 <= old(self)@.wc < usize::MAX,
            0 <= old(self)@.score,
            old(self)@.score + 30 * len <= usize::MAX,
        ensures
            final(self)@ == push_exact(old(self)@, exact@, len as int),
    {
        self.push_word(exact, len);
        let weight: usize = if len == 1 {
            10
        } else if len == 2 {
            29
        } else {
            30
        };
        self.score = self.score + len * weight;
    }

    fn push_joiner(&mut self, joiner: char)
        requires
            last_group(old(self)@.groupping) + 1 <= usize::MAX,
            0 <= last_group(old(self)@.groupping),
        ensures
            final(self)@ == push_joiner(old(self)@, joiner),
    {
        let ghost s0 = self@;
        self.output.push(joiner);
        let g = self.groupping.len();
        if g > 0 {
            let last = self.groupping[g - 1];
            self.groupping.set(g - 1, last + 1);
        } else {
            self.groupping.push(1);
        }
        proof {
            assert(self@.groupping =~= push_joiner(s0, joiner).groupping);
        }
    }
}


/// The longest exact spelling among the prefixes of `rest`, and the longest
/// unique prefix longer than it, with their words.
fn find_matches<'a>(schema: &'a Schema, rest: &str) -> (r: (Option<&'a String>, usize, Option<&'a String>, usize))
    requires
        rest.is_ascii(),
    ensures
        r.1 == find_exact(schema@, rest@, rest@.len() as int),
        r.3 == find_unique(schema@, rest@, rest@.len() as int, r.1 as int),
        r.1 > 0 ==> r.0 is Some && r.0->0@ == exact_word(schema@.candis[rest@.take(r.1 as int)]),
        r.1 == 0 ==> r.0 is None,
        r.3 > 0 ==> r.2 is Some && r.2->0@ == exact_word(schema@.candis[rest@.take(r.3 as int)]),
        r.3 == 0 ==> r.2 is None,
{
    let ghost m = schema@;
    let ghost r = rest@;
    let rn = rest.unicode_len();
    let mut unique: Option<&String> = None;
    let mut unique_len: usize = 0;
    let mut len: usize = rn;
    proof {
        lemma_find_unique(m, r, rn as int, rn as int);
    }
    while len >= 1
        invariant
            0 <= len <= rn,
            rn == r.len(),
            r == rest@,
            rest.is_ascii(),
            m == schema@,
            find_exact(m, r, rn as int) == find_exact(m, r, len as int),
            unique_len == find_unique(m, r, rn as int, len as int),
            unique_len > 0 ==> unique is Some && unique->0@ == exact_word(m.candis[r.take(unique_len as int)]),
            unique_len == 0 ==> unique is None,
        decreases len,
    {
        let slice = rest.substring_ascii(0, len);
        let got = schema.candis.get(slice);
        proof {
            assert(slice@ == r.take(len as int));
            lemma_find_unique_split(m, r, rn as int, len as int, len - 1);
            assert(m.candis.contains_key(slice@) == schema.candis@.contains_key(slice@));
            if schema.candis@.contains_key(slice@) {
                assert(m.candis[slice@] == schema.candis@[slice@]@);
            }
            assert(find_unique(m, r, len - 1, len - 1) == 0);
            if m.candis.contains_key(r.take(len as int)) && m.candis[r.take(len as int)] is Unique {
                assert(find_unique(m, r, len as int, len - 1) == len);
            } else {
                assert(find_unique(m, r, len as int, len - 1) == 0);
            }
        }
        match got {
            Some(Candidate::Exact(word, _)) => {
                return (Some(word), len, unique, unique_len);
            },
            Some(Candidate::Unique(word)) => {
                if unique.is_none() {
                    unique = Some(word);
                    unique_len = len;
                }
            },
            _ => {},
        }
        len = len - 1;
    }
    (None, 0, unique, unique_len)
}

impl Engine {
    /// Pushes the remapped leading punctuators of `spelling` into `sent`;
    /// returns how many there are.
    fn push_lead(&self, spelling: &str, sent: &mut Sentence) -> (i: usize)
        requires
            self.wf(),
            spelling.is_ascii(),
            bounded(old(sent)@, spelling@.len() as int),
        ensures
            i == lead_end(self@.schema(), spelling@, 0),
            final(sent)@ == push_joiners(self@.schema(), old(sent)@, spelling@, i as int),
            0 <= last_group(final(sent)@.groupping) <= last_group(old(sent)@.groupping) + i,
            final(sent)@.wc == old(sent)@.wc,
            final(sent)@.score == old(sent)@.score,
            final(sent)@.output.len() > 0 ==> final(sent)@.groupping.len() > 0,
    {
        let ghost m = self@.schema();
        let ghost sp = spelling@;
        let ghost s0 = sent@;
        let schema = self.schema();
        let n = spelling.unicode_len();
        let mut i: usize = 0;
        proof {
            lemma_lead_end(m, sp, 0);
            assert(n * (n + 1) >= n) by (nonlinear_arith)
                requires
                    n >= 0,
            ;
        }
        while i < n
            invariant_except_break
                0 <= i <= n,
                n == sp.len(),
                sp == spelling@,
                m == self@.schema(),
                lead_end(m, sp, 0) == lead_end(m, sp, i as int),
                sent@ == push_joiners(m, s0, sp, i as int),
                0 <= last_group(sent@.groupping) <= last_group(s0.groupping) + i,
                sent@.wc == s0.wc,
                sent@.score == s0.score,
                sent@.output.len() > 0 ==> sent@.groupping.len() > 0,
                schema@ == m,
                bounded(s0, n as int),
                n * (n + 1) >= n,
            ensures
                0 <= i <= n,
                lead_end(m, sp, 0) == i,
                sent@ == push_joiners(m, s0, sp, i as int),
                0 <= last_group(sent@.groupping) <= last_group(s0.groupping) + i,
                sent@.wc == s0.wc,
                sent@.score == s0.score,
                sent@.output.len() > 0 ==> sent@.groupping.len() > 0,
            decreases n - i,
        {
            let c = spelling.get_char(i);
            match schema.puncts.get(c) {
                Some(joiner) => {
                    sent.push_joiner(joiner);
                    i = i + 1;
                },
                None => {
                    break;
                },
            }
        }
        i
    }

    /// Reads `spelling` into sentences from `sent` on: `sent` becomes the
    /// main sentence, and the branches are pushed to `sents`.
    fn suggest_sentences_recursive(&self, spelling: &str, sent: &mut Sentence, sents: &mut Vec<Sentence>)
        requires
            self.wf(),
            spelling.is_ascii(),
            bounded(old(sent)@, spelling@.len() as int),
        ensures
            final(sent)@ == sentences(self@.schema(), spelling@, old(sent)@).0,
            sent_views(final(sents)@) == sent_views(old(sents)@) + sentences(
                self@.schema(),
                spelling@,
                old(sent)@,
            ).1,
        decreases spelling@.len(),
    {
        let ghost m = self@.schema();
        let ghost sp = spelling@;
        let ghost v0 = sent_views(sents@);
        let n = spelling.unicode_len();
        let i = self.push_lead(spelling, sent);
        let rest: &str = if i >= n {
            spelling
        } else {
            spelling.substring_ascii(i, n)
        };
        let ghost r = rest@;
        assert(r == after_lead(m, sp));
        let rn = rest.unicode_len();
        let (exact, exact_len, unique, unique_len) = find_matches(self.schema(), rest);
        proof {
            lemma_find_exact(m, r, rn as int);
            lemma_find_unique(m, r, rn as int, exact_len as int);
            lemma_lead_end(m, sp, 0);
            if i < n {
                assert(r.len() == n - i);
            }
        }
        match (exact, unique) {
            (Some(e), Some(u)) => {
                let mut extra = sent.copy();
                proof {
                    lemma_room(n as int, rn as int, exact_len as int);
                    lemma_room(n as int, rn as int, unique_len as int);
                }
                sent.push_exact(e, exact_len);
                self.suggest_sentences_recursive(rest.substring_ascii(exact_len, rn), sent, sents);
                extra.push_unique(u, unique_len);
                self.suggest_sentences_recursive(rest.substring_ascii(unique_len, rn), &mut extra, sents);
                let ghost v2 = sent_views(sents@);
                let ghost xb = extra@;
                sents.push(extra);
                proof {
                    assert(sent_views(sents@) =~= v2.push(xb));
                }
            },
            (Some(e), None) => {
                proof {
                    lemma_room(n as int, rn as int, exact_len as int);
                }
                sent.push_exact(e, exact_len);
                self.suggest_sentences_recursive(rest.substring_ascii(exact_len, rn), sent, sents);
            },
            (None, Some(u)) => {
                proof {
                    lemma_room(n as int, rn as int, unique_len as int);
                }
                sent.push_unique(u, unique_len);
                self.suggest_sentences_recursive(rest.substring_ascii(unique_len, rn), sent, sents);
            },
            (None, None) => {
                proof {
                    assert(v0 + Seq::<SentModel>::empty() =~= v0);
                }
            },
        }
    }

    /// All the sentences of `spelling`, the main one last.
    fn suggest_sentences(&self, spelling: &str) -> (r: Vec<Sentence>)
        requires
            self.wf(),
            spelling.is_ascii(),
            counts_fit(spelling@.len() as int),
        ensures
            sent_views(r@) == all_sentences(self@.schema(), spelling@),
    {
        let mut sent = Sentence::new();
        let mut sents: Vec<Sentence> = Vec::new();
        proof {
            assert(sent_views(sents@) =~= Seq::<SentModel>::empty());
        }
        self.suggest_sentences_recursive(spelling, &mut sent, &mut sents);
        let ghost before = sent_views(sents@);
        let ghost last = sent@;
        sents.push(sent);
        proof {
            assert(sent_views(sents@) =~= before.push(last));
            assert(Seq::<SentModel>::empty() + sentences(self@.schema(), spelling@, empty_sent()).1
                =~= sentences(self@.schema(), spelling@, empty_sent()).1);
        }
        sents
    }

    /// The best sentence of `spelling`: of more than one word and with the
    /// highest score.
    fn best_sentence_exec(&self, spelling: &str) -> (r: Option<Sentence>)
        requires
            self.wf(),
            spelling.is_ascii(),
            counts_fit(spelling@.len() as int),
        ensures
            match r {
                Some(s) => best_sentence(self@.schema(), spelling@) == Some(s@),
                None => best_sentence(self@.schema(), spelling@) is None,
            },
    {
        let mut sents = self.suggest_sentences(spelling);
        let ghost all = sent_views(sents@);
        let mut best: Option<Sentence> = None;
        let mut highest: usize = 0;
        while sents.len() > 0
            invariant
                pick(sent_views(sents@), match best {
                    Some(b) => Some(b@),
                    None => None::<SentModel>,
                }, highest as int) == pick(all, None, 0),
            decreases sents@.len(),
        {
            let ghost before = sent_views(sents@);
            let sent = sents.pop().unwrap();
            proof {
                assert(sent_views(sents@) =~= before.drop_last());
                assert(before.last() == sent@);
            }
            if sent.wc <= 1 {
                continue;
            }
            if sent.score > highest {
                highest = sent.score;
                best = Some(sent);
            }
        }
        best
    }

    /// Whether the long glyph insertion gets stuck on the best sentence of
    /// `spelling`.
    pub(crate) fn sentence_stuck(&self, spelling: &str) -> (r: bool)
        requires
            self.wf(),
            spelling.is_ascii(),
            counts_fit(spelling@.len() as int),
        ensures
            r == sentence_fails(self@, spelling@),
    {
        match self.best_sentence_exec(spelling) {
            None => false,
            Some(b) => long_glyph_stuck(&b.output, &self.behavior),
        }
    }

    /// The best sentence of `spelling`: of more than one word and with the
    /// highest score, with its long glyphs inserted.
    pub fn suggest_sentence(&self, spelling: &str) -> (r: Option<Suggestion>)
        requires
            self.wf(),
            spelling.is_ascii(),
            counts_fit(spelling@.len() as int),
            !sentence_fails(self@, spelling@),
        ensures
            match r {
                Some(s) => suggested_sentence(self@, spelling@) == Some(s@),
                None => suggested_sentence(self@, spelling@) is None,
            },
    {
        match self.best_sentence_exec(spelling) {
            None => None,
            Some(b) => {
                let mut output = string_of(&b.output);
                insert_long_glyph(&mut output, &self.behavior);
                let sugg = Suggestion { output, groupping: b.groupping };
                proof {
                    assert(sugg@.groupping == b@.groupping);
                }
                Some(sugg)
            },
        }
    }
}

} // verus!
