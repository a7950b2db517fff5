use vstd::prelude::*;
use crate::text::{copy_strings, views, push_char};
use super::schema::{Cand, Candidate, Schema, SchemaModel};
use super::sentence::{counts_fit, sentence_fails, suggested_sentence};
use super::{Engine, EngineModel, Suggestion, SuggestionModel};

verus! {

/// The number of suggestions shown.
pub const CANDI_NUM: usize = 5;

/// The words a candidate stands for, in order.
pub open spec fn cand_words(c: Cand) -> Seq<Seq<char>> {
    match c {
        Cand::Exact(w, ws) => seq![w] + ws,
        Cand::Unique(w) => seq![w],
        Cand::Duplicates(ws) => ws,
    }
}

/// A word followed by its alternatives.
pub open spec fn expand(m: SchemaModel, w: Seq<char>) -> Seq<Seq<char>> {
    seq![w] + (if m.alters.contains_key(w) { m.alters[w] } else { Seq::empty() })
}

/// The words of each of `ws`, with their alternatives, in order.
pub open spec fn expand_all(m: SchemaModel, ws: Seq<Seq<char>>) -> Seq<Seq<char>>
    decreases ws.len(),
{
    if ws.len() == 0 {
        Seq::empty()
    } else {
        expand_all(m, ws.drop_last()) + expand(m, ws.last())
    }
}

/// The words that the first `to` letters of `sp` give, each with `to`.
pub open spec fn words_at(m: SchemaModel, sp: Seq<char>, to: int) -> Seq<(Seq<char>, int)> {
    if m.candis.contains_key(sp.take(to)) {
        expand_all(m, cand_words(m.candis[sp.take(to)])).map_values(|w: Seq<char>| (w, to))
    } else {
        Seq::empty()
    }
}

/// The words of the prefixes of `sp` of length `hi` down to `lo + 1`, longest
/// prefix first.
pub open spec fn words_down(m: SchemaModel, sp: Seq<char>, hi: int, lo: int) -> Seq<(Seq<char>, int)>
    decreases hi - lo,
{
    if hi <= lo {
        Seq::empty()
    } else {
        words_at(m, sp, hi) + words_down(m, sp, hi - 1, lo)
    }
}

/// Whether the word `w` is among the words of `s`.
pub open spec fn has_word(s: Seq<(Seq<char>, int)>, w: Seq<char>) -> bool {
    exists|i: int| 0 <= i < s.len() && (#[trigger] s[i]).0 == w
}

/// The first occurrence of each word.
pub open spec fn dedup(s: Seq<(Seq<char>, int)>) -> Seq<(Seq<char>, int)>
    decreases s.len(),
{
    if s.len() == 0 {
        Seq::empty()
    } else {
        let d = dedup(s.drop_last());
        if has_word(d, s.last().0) {
            d
        } else {
            d.push(s.last())
        }
    }
}

/// The end of the punctuators of `sp` that follow position `i`.
pub open spec fn trail_end(m: SchemaModel, sp: Seq<char>, i: int) -> int
    decreases sp.len() - i,
{
    if 0 <= i < sp.len() && m.puncts.contains_key(sp[i]) {
        trail_end(m, sp, i + 1)
    } else {
        i
    }
}

/// The suggestion of the word `p.0` read from the first `p.1` letters, with
/// the punctuators that follow them remapped and appended.
pub open spec fn word_suggestion(m: SchemaModel, sp: Seq<char>, p: (Seq<char>, int)) -> SuggestionModel {
    let e = trail_end(m, sp, p.1);
    SuggestionModel {
        output: p.0 + sp.subrange(p.1, e).map_values(|c: char| m.puncts[c]),
        groupping: seq![e],
    }
}

/// The first `n` elements of `s`, or all of them when there are fewer.
pub open spec fn take_upto<A>(s: Seq<A>, n: int) -> Seq<A> {
    if 0 <= n < s.len() {
        s.take(n)
    } else {
        s
    }
}

/// The first `n` distinct words of the prefixes of `sp`, longest prefix
/// first.
pub open spec fn word_suggestions(m: SchemaModel, sp: Seq<char>, n: int) -> Seq<SuggestionModel> {
    take_upto(dedup(words_down(m, sp, sp.len() as int, 0)), n).map_values(
        |p: (Seq<char>, int)| word_suggestion(m, sp, p),
    )
}

/// The suggestions of the engine: the best sentence, if there is one, then
/// single words, five in all at most. A spelling that is not ASCII gets
/// none.
pub open spec fn suggestions(e: EngineModel, sp: Seq<char>) -> Seq<SuggestionModel> {
    if !vstd::utf8::is_ascii_chars(sp) {
        Seq::empty()
    } else {
        let head = match suggested_sentence(e, sp) {
            Some(s) => seq![s],
            None => Seq::empty(),
        };
        head + word_suggestions(e.schema(), sp, CANDI_NUM - head.len())
    }
}

/// The engine can read the spelling: the counts of the sentences of an ASCII
/// spelling fit the machine (see [`counts_fit`]), and its best sentence
/// does not make the long glyph insertion stuck.
pub open spec fn can_suggest(e: EngineModel, sp: Seq<char>) -> bool {
    vstd::utf8::is_ascii_chars(sp) ==> (counts_fit(sp.len() as int) && !sentence_fails(e, sp))
}

/// The mathematical values of suggestions.
pub open spec fn sugg_views(v: Seq<Suggestion>) -> Seq<SuggestionModel> {
    v.map_values(|s: Suggestion| s@)
}

/// The mathematical values of words paired with where they end.
pub open spec fn pair_views(v: Seq<(String, usize)>) -> Seq<(Seq<char>, int)> {
    v.map_values(|p: (String, usize)| (p.0@, p.1 as int))
}

proof fn lemma_words_down_step(m: SchemaModel, sp: Seq<char>, hi: int, to: int)
    requires
        1 <= to <= hi,
    ensures
        words_down(m, sp, hi, to - 1) == words_down(m, sp, hi, to) + words_at(m, sp, to),
    decreases hi - to,
{
    if hi == to {
        assert(words_down(m, sp, to - 1, to - 1) =~= Seq::<(Seq<char>, int)>::empty());
        assert(words_down(m, sp, hi, to) =~= Seq::<(Seq<char>, int)>::empty());
        assert(words_down(m, sp, hi, to - 1) =~= words_at(m, sp, to));
    } else {
        lemma_words_down_step(m, sp, hi - 1, to);
        assert(words_down(m, sp, hi, to - 1) =~= words_down(m, sp, hi, to) + words_at(m, sp, to));
    }
}

/// The words of a candidate, copied.
fn cand_words_exec(c: &Candidate) -> (r: Vec<String>)
    ensures
        views(r@) == cand_words(c@),
{
    match c {
        Candidate::Exact(w, ws) => {
            let mut r: Vec<String> = Vec::new();
            r.push(w.clone());
            let rest = copy_strings(ws);
            let mut rest = rest;
            r.append(&mut rest);
            proof {
                assert(views(r@) =~= seq![w@] + views(ws@));
            }
            r
        },
        Candidate::Unique(w) => {
            let mut r: Vec<String> = Vec::new();
            r.push(w.clone());
            proof {
                assert(views(r@) =~= seq![w@]);
            }
            r
        },
        Candidate::Duplicates(ws) => copy_strings(ws),
    }
}

/// A word followed by its alternatives, copied.
fn expand_exec(schema: &Schema, w: &String) -> (r: Vec<String>)
    ensures
        views(r@) == expand(schema@, w@),
{
    let mut r: Vec<String> = Vec::new();
    r.push(w.clone());
    let got = schema.alters.get(w.as_str());
    proof {
        assert(schema@.alters.contains_key(w@) == schema.alters@.contains_key(w@));
        if schema.alters@.contains_key(w@) {
            assert(schema@.alters[w@] == views(schema.alters@[w@]@));
        }
    }
    match got {
        Some(alts) => {
            let mut rest = copy_strings(alts);
            r.append(&mut rest);
            proof {
                assert(views(r@) =~= seq![w@] + views(alts@));
            }
        },
        None => {
            proof {
                assert(views(r@) =~= seq![w@] + Seq::<Seq<char>>::empty());
            }
        },
    }
    r
}

impl Engine {
    /// Every word that a prefix of `spelling` gives, with the length of the
    /// prefix, longest prefix first.
    fn word_stream(&self, spelling: &str) -> (r: Vec<(String, usize)>)
        requires
            self.wf(),
            spelling.is_ascii(),
        ensures
            pair_views(r@) == words_down(self@.schema(), spelling@, spelling@.len() as int, 0),
            forall|i: int| 0 <= i < r@.len() ==> #[trigger] r@[i].1 <= spelling@.len(),
    {
        let ghost m = self@.schema();
        let ghost sp = spelling@;
        let schema = self.schema();
        let n = spelling.unicode_len();
        let mut acc: Vec<(String, usize)> = Vec::new();
        let mut to = n;
        proof {
            assert(pair_views(acc@) =~= words_down(m, sp, n as int, n as int));
        }
        while to >= 1
            invariant
                0 <= to <= n,
                n == sp.len(),
                sp == spelling@,
                spelling.is_ascii(),
                schema@ == m,
                pair_views(acc@) == words_down(m, sp, n as int, to as int),
                forall|i: int| 0 <= i < acc@.len() ==> #[trigger] acc@[i].1 <= n,
            decreases to,
        {
            let slice = spelling.substring_ascii(0, to);
            let got = schema.candis.get(slice);
            proof {
                assert(slice@ == sp.take(to as int));
                lemma_words_down_step(m, sp, n as int, to as int);
                assert(m.candis.contains_key(slice@) == schema.candis@.contains_key(slice@));
                if schema.candis@.contains_key(slice@) {
                    assert(m.candis[slice@] == schema.candis@[slice@]@);
                }
            }
            match got {
                None => {
                    proof {
                        assert(pair_views(acc@) + Seq::<(Seq<char>, int)>::empty() =~= pair_views(acc@));
                    }
                },
                Some(c) => {
                    let words = cand_words_exec(c);
                    let ghost ws = views(words@);
                    let ghost base = pair_views(acc@);
                    let mut j: usize = 0;
                    proof {
                        assert(ws.take(0) =~= Seq::<Seq<char>>::empty());
                        assert(base + expand_all(m, ws.take(0)).map_values(|w: Seq<char>| (w, to as int)) =~= base);
                    }
                    while j < words.len()
                        invariant
                            0 <= j <= words@.len(),
                            ws == views(words@),
                            1 <= to <= n,
                            schema@ == m,
                            pair_views(acc@) == base + expand_all(m, ws.take(j as int)).map_values(
                                |w: Seq<char>| (w, to as int),
                            ),
                            forall|i: int| 0 <= i < acc@.len() ==> #[trigger] acc@[i].1 <= n,
                        decreases words@.len() - j,
                    {
                        let exp = expand_exec(schema, &words[j]);
                        let ghost xs = views(exp@);
                        let ghost before = pair_views(acc@);
                        let mut k: usize = 0;
                        while k < exp.len()
                            invariant
                                0 <= k <= exp@.len(),
                                xs == views(exp@),
                                1 <= to <= n,
                                pair_views(acc@) == before + xs.take(k as int).map_values(
                                    |w: Seq<char>| (w, to as int),
                                ),
                                forall|i: int| 0 <= i < acc@.len() ==> #[trigger] acc@[i].1 <= n,
                            decreases exp@.len() - k,
                        {
                            let ghost b2 = pair_views(acc@);
                            acc.push((exp[k].clone(), to));
                            proof {
                                assert(pair_views(acc@) =~= b2.push((xs[k as int], to as int)));
                                assert(xs.take(k + 1).map_values(|w: Seq<char>| (w, to as int))
                                    =~= xs.take(k as int).map_values(|w: Seq<char>| (w, to as int)).push(
                                    (xs[k as int], to as int),
                                ));
                                assert(before + xs.take(k + 1).map_values(|w: Seq<char>| (w, to as int))
                                    =~= (before + xs.take(k as int).map_values(|w: Seq<char>| (w, to as int))).push(
                                    (xs[k as int], to as int),
                                ));
                            }
                            k = k + 1;
                        }
                        proof {
                            assert(xs.take(xs.len() as int) =~= xs);
                            assert(ws.take(j + 1).drop_last() =~= ws.take(j as int));
                            assert(ws.take(j + 1).last() == ws[j as int]);
                            assert(ws[j as int] == words@[j as int]@);
                            assert(expand_all(m, ws.take(j + 1)) == expand_all(m, ws.take(j as int)) + xs);
                            assert((expand_all(m, ws.take(j as int)) + xs).map_values(|w: Seq<char>| (w, to as int))
                                =~= expand_all(m, ws.take(j as int)).map_values(|w: Seq<char>| (w, to as int))
                                + xs.map_values(|w: Seq<char>| (w, to as int)));
                            assert(pair_views(acc@) =~= base + expand_all(m, ws.take(j + 1)).map_values(
                                |w: Seq<char>| (w, to as int),
                            ));
                        }
                        j = j + 1;
                    }
                    proof {
                        assert(ws.take(ws.len() as int) =~= ws);
                    }
                },
            }
            to = to - 1;
        }
        acc
    }
}


proof fn lemma_dedup_prefix(s: Seq<(Seq<char>, int)>, i: int)
    requires
        0 <= i <= s.len(),
    ensures
        dedup(s.take(i)).len() <= dedup(s).len(),
        dedup(s).take(dedup(s.take(i)).len() as int) == dedup(s.take(i)),
    decreases s.len(),
{
    if i == s.len() {
        assert(s.take(i) =~= s);
        assert(dedup(s).take(dedup(s).len() as int) =~= dedup(s));
    } else {
        lemma_dedup_prefix(s.drop_last(), i);
        assert(s.drop_last().take(i) =~= s.take(i));
        let d = dedup(s.drop_last());
        let k = dedup(s.take(i)).len() as int;
        assert(dedup(s).take(d.len() as int) =~= d);
        assert(dedup(s).take(k) =~= d.take(k));
    }
}

/// The pairs are ordered by where their words end, latest first.
pub open spec fn ends_down(s: Seq<(Seq<char>, int)>) -> bool {
    forall|i: int, j: int| 0 <= i < j < s.len() ==> (#[trigger] s[i]).1 >= (#[trigger] s[j]).1
}

/// What [`dedup`] keeps: pairs of `s`, each word once, every word of `s`,
/// in the order of `s` as far as the ends go.
pub proof fn lemma_dedup(s: Seq<(Seq<char>, int)>)
    ensures
        forall|i: int| 0 <= i < dedup(s).len() ==> s.contains(#[trigger] dedup(s)[i]),
        forall|i: int, j: int| 0 <= i < j < dedup(s).len() ==> (#[trigger] dedup(s)[i]).0 != (#[trigger] dedup(s)[j]).0,
        forall|k: int| 0 <= k < s.len() ==> has_word(dedup(s), (#[trigger] s[k]).0),
        ends_down(s) ==> ends_down(dedup(s)),
    decreases s.len(),
{
    if s.len() > 0 {
        let p = s.drop_last();
        let d = dedup(p);
        lemma_dedup(p);
        assert forall|i: int| 0 <= i < d.len() implies s.contains(#[trigger] d[i]) by {
            let k = choose|k: int| 0 <= k < p.len() && p[k] == d[i];
            assert(s[k] == d[i]);
        }
        assert(s[s.len() - 1] == s.last());
        if has_word(d, s.last().0) {
            assert forall|k: int| 0 <= k < s.len() implies has_word(dedup(s), (#[trigger] s[k]).0) by {
                if k < s.len() - 1 {
                    assert(s[k] == p[k]);
                }
            }
        } else {
            let d2 = d.push(s.last());
            assert(dedup(s) == d2);
            assert forall|i: int| 0 <= i < d2.len() implies s.contains(#[trigger] d2[i]) by {
                if i < d.len() {
                    assert(d2[i] == d[i]);
                }
            }
            assert forall|i: int, j: int| 0 <= i < j < d2.len() implies (#[trigger] d2[i]).0 != (#[trigger] d2[j]).0 by {
                if j == d.len() {
                    assert(d2[i] == d[i]);
                    if d[i].0 == s.last().0 {
                        assert(has_word(d, s.last().0));
                    }
                } else {
                    assert(d2[i] == d[i] && d2[j] == d[j]);
                }
            }
            assert forall|k: int| 0 <= k < s.len() implies has_word(d2, (#[trigger] s[k]).0) by {
                if k < s.len() - 1 {
                    assert(s[k] == p[k]);
                    assert(has_word(d, p[k].0));
                    let i = choose|i: int| 0 <= i < d.len() && (#[trigger] d[i]).0 == p[k].0;
                    assert(d2[i] == d[i]);
                } else {
                    assert(d2[d.len() as int] == s.last());
                }
            }
            if ends_down(s) {
                assert(ends_down(p)) by {
                    assert forall|i: int, j: int| 0 <= i < j < p.len() implies (#[trigger] p[i]).1 >= (#[trigger] p[j]).1 by {
                        assert(p[i] == s[i] && p[j] == s[j]);
                    }
                }
                assert forall|i: int, j: int| 0 <= i < j < d2.len() implies (#[trigger] d2[i]).1 >= (#[trigger] d2[j]).1 by {
                    if j == d.len() {
                        assert(d2[i] == d[i]);
                        let k = choose|k: int| 0 <= k < p.len() && p[k] == d[i];
                        assert(s[k] == d[i]);
                        assert(s[s.len() - 1] == d2[j]);
                    } else {
                        assert(d2[i] == d[i] && d2[j] == d[j]);
                    }
                }
            }
        }
    }
}

/// The words of the prefixes of `sp` from `hi` down to `lo + 1` come with
/// where they end, latest first.
pub proof fn lemma_words_down_ends(m: SchemaModel, sp: Seq<char>, hi: int, lo: int)
    ensures
        ends_down(words_down(m, sp, hi, lo)),
        forall|i: int| 0 <= i < words_down(m, sp, hi, lo).len() ==> lo < (#[trigger] words_down(m, sp, hi, lo)[i]).1 <= hi,
    decreases hi - lo,
{
    if hi > lo {
        lemma_words_down_ends(m, sp, hi - 1, lo);
        let a = words_at(m, sp, hi);
        let b = words_down(m, sp, hi - 1, lo);
        let w = a + b;
        assert forall|i: int| 0 <= i < a.len() implies (#[trigger] a[i]).1 == hi by {
            if m.candis.contains_key(sp.take(hi)) {
                let ex = expand_all(m, cand_words(m.candis[sp.take(hi)]));
                assert(a[i] == (ex[i], hi));
            }
        }
        assert forall|i: int| 0 <= i < w.len() implies lo < (#[trigger] w[i]).1 <= hi by {
            if i < a.len() {
                assert(w[i] == a[i]);
            } else {
                assert(w[i] == b[i - a.len()]);
            }
        }
        assert forall|i: int, j: int| 0 <= i < j < w.len() implies (#[trigger] w[i]).1 >= (#[trigger] w[j]).1 by {
            if j < a.len() {
                assert(w[i] == a[i] && w[j] == a[j]);
            } else if i < a.len() {
                assert(w[i] == a[i] && w[j] == b[j - a.len()]);
            } else {
                assert(w[i] == b[i - a.len()] && w[j] == b[j - a.len()]);
            }
        }
    }
}

/// Whether the word `w` is among the words of `acc`.
fn contains_word(acc: &Vec<(String, usize)>, w: &String) -> (r: bool)
    ensures
        r == has_word(pair_views(acc@), w@),
{
    let ghost s = pair_views(acc@);
    let mut k: usize = 0;
    while k < acc.len()
        invariant
            0 <= k <= acc@.len(),
            s == pair_views(acc@),
            forall|i: int| 0 <= i < k ==> (#[trigger] s[i]).0 != w@,
        decreases acc@.len() - k,
    {
        if acc[k].0 == *w {
            assert(s[k as int].0 == w@);
            return true;
        }
        k = k + 1;
    }
    false
}

/// The first `n` distinct words of `stream`, each with its first length.
fn first_distinct(stream: &Vec<(String, usize)>, n: usize, Ghost(bound): Ghost<int>) -> (r: Vec<(String, usize)>)
    requires
        forall|i: int| 0 <= i < stream@.len() ==> #[trigger] stream@[i].1 <= bound,
    ensures
        pair_views(r@) == take_upto(dedup(pair_views(stream@)), n as int),
        forall|i: int| 0 <= i < r@.len() ==> #[trigger] r@[i].1 <= bound,
{
    let ghost s = pair_views(stream@);
    let mut acc: Vec<(String, usize)> = Vec::new();
    let mut i: usize = 0;
    proof {
        assert(s.take(0) =~= Seq::<(Seq<char>, int)>::empty());
        assert(pair_views(acc@) =~= dedup(s.take(0)));
    }
    while i < stream.len() && acc.len() < n
        invariant
            0 <= i <= stream@.len(),
            s == pair_views(stream@),
            pair_views(acc@) == dedup(s.take(i as int)),
            acc@.len() <= n,
            forall|j: int| 0 <= j < stream@.len() ==> #[trigger] stream@[j].1 <= bound,
            forall|j: int| 0 <= j < acc@.len() ==> #[trigger] acc@[j].1 <= bound,
        decreases stream@.len() - i,
    {
        let found = contains_word(&acc, &stream[i].0);
        proof {
            assert(s.take(i + 1).drop_last() =~= s.take(i as int));
            assert(s.take(i + 1).last() == s[i as int]);
        }
        if !found {
            let ghost before = pair_views(acc@);
            acc.push((stream[i].0.clone(), stream[i].1));
            proof {
                assert(pair_views(acc@) =~= before.push(s[i as int]));
            }
        }
        i = i + 1;
    }
    proof {
        let d = dedup(s);
        if i == stream.len() {
            assert(s.take(i as int) =~= s);
        } else {
            lemma_dedup_prefix(s, i as int);
            assert(acc@.len() == n);
            if n < d.len() {
            } else {
                assert(d.take(d.len() as int) =~= d);
            }
        }
    }
    acc
}

impl Engine {
    /// The suggestion of a word read from the first `to` letters: the word,
    /// then the punctuators that follow, remapped.
    fn word_suggestion_exec(&self, spelling: &str, word: &String, to: usize) -> (r: Suggestion)
        requires
            self.wf(),
            spelling.is_ascii(),
            to <= spelling@.len(),
        ensures
            r@ == word_suggestion(self@.schema(), spelling@, (word@, to as int)),
    {
        let ghost m = self@.schema();
        let ghost sp = spelling@;
        let schema = self.schema();
        let n = spelling.unicode_len();
        let mut output = word.clone();
        let mut j = to;
        while j < n
            invariant_except_break
                to <= j <= n,
                n == sp.len(),
                sp == spelling@,
                schema@ == m,
                trail_end(m, sp, j as int) == trail_end(m, sp, to as int),
                output@ == word@ + sp.subrange(to as int, j as int).map_values(|c: char| m.puncts[c]),
            ensures
                to <= j <= n,
                trail_end(m, sp, j as int) == j,
                trail_end(m, sp, to as int) == j,
                output@ == word@ + sp.subrange(to as int, j as int).map_values(|c: char| m.puncts[c]),
            decreases n - j,
        {
            let c = spelling.get_char(j);
            match schema.puncts.get(c) {
                Some(p) => {
                    let ghost before = output@;
                    push_char(&mut output, p);
                    proof {
                        assert(sp.subrange(to as int, j + 1) =~= sp.subrange(to as int, j as int).push(c));
                        assert(sp.subrange(to as int, j + 1).map_values(|c: char| m.puncts[c])
                            =~= sp.subrange(to as int, j as int).map_values(|c: char| m.puncts[c]).push(m.puncts[c]));
                        assert(output@ =~= word@ + sp.subrange(to as int, j + 1).map_values(|c: char| m.puncts[c]));
                    }
                    j = j + 1;
                },
                None => {
                    break;
                },
            }
        }
        let mut groupping: Vec<usize> = Vec::new();
        groupping.push(j);
        let r = Suggestion { output, groupping };
        proof {
            assert(r@.groupping =~= seq![j as int]);
        }
        r
    }

    /// The suggestions for a spelling: the best sentence, if there is one,
    /// then the words of the longest prefixes of the spelling, each once,
    /// [`CANDI_NUM`] in all at most. A spelling that is not ASCII gets none.
    pub fn suggest(&self, spelling: &str) -> (r: Vec<Suggestion>)
        requires
            self.wf(),
            can_suggest(self@, spelling@),
        ensures
            sugg_views(r@) == suggestions(self@, spelling@),
    {
        if !spelling.is_ascii() {
            let r: Vec<Suggestion> = Vec::new();
            proof {
                assert(sugg_views(r@) =~= Seq::<SuggestionModel>::empty());
            }
            return r;
        }
        let ghost m = self@.schema();
        let ghost sp = spelling@;
        let mut suggs: Vec<Suggestion> = Vec::new();
        match self.suggest_sentence(spelling) {
            Some(s) => {
                suggs.push(s);
            },
            None => {},
        }
        let ghost head = sugg_views(suggs@);
        proof {
            let expected = match suggested_sentence(self@, sp) {
                Some(s) => seq![s],
                None => Seq::<SuggestionModel>::empty(),
            };
            assert(head =~= expected);
        }
        let remains = CANDI_NUM - suggs.len();
        let stream = self.word_stream(spelling);
        let picked = first_distinct(&stream, remains, Ghost(sp.len() as int));
        let ghost ps = pair_views(picked@);
        let mut k: usize = 0;
        while k < picked.len()
            invariant
                0 <= k <= picked@.len(),
                self.wf(),
                spelling.is_ascii(),
                sp == spelling@,
                m == self@.schema(),
                ps == pair_views(picked@),
                forall|i: int| 0 <= i < picked@.len() ==> #[trigger] picked@[i].1 <= sp.len(),
                sugg_views(suggs@) == head + ps.take(k as int).map_values(
                    |p: (Seq<char>, int)| word_suggestion(m, sp, p),
                ),
            decreases picked@.len() - k,
        {
            let s = self.word_suggestion_exec(spelling, &picked[k].0, picked[k].1);
            let ghost before = sugg_views(suggs@);
            suggs.push(s);
            proof {
                assert(sugg_views(suggs@) =~= before.push(s@));
                assert(ps.take(k + 1).map_values(|p: (Seq<char>, int)| word_suggestion(m, sp, p))
                    =~= ps.take(k as int).map_values(|p: (Seq<char>, int)| word_suggestion(m, sp, p)).push(
                    word_suggestion(m, sp, ps[k as int]),
                ));
            }
            k = k + 1;
        }
        proof {
            assert(ps.take(ps.len() as int) =~= ps);
        }
        suggs
    }
}

impl Engine {
    /// Whether [`Engine::suggest`] can read the spelling (see
    /// [`can_suggest`]).
    pub fn can_suggest(&self, spelling: &str) -> (r: bool)
        requires
            self.wf(),
        ensures
            r == can_suggest(self@, spelling@),
    {
        if !spelling.is_ascii() {
            return true;
        }
        let n = spelling.unicode_len() as u128;
        if n >= 0x1_0000_0000 {
            assert(n * (n + 1) > 0xFFFF_FFFF_FFFF_FFFF) by (nonlinear_arith)
                requires
                    n >= 0x1_0000_0000,
            ;
            return false;
        }
        assert(n * (n + 1) <= 0x1_0000_0000 * 0x1_0000_0001) by (nonlinear_arith)
            requires
                n < 0x1_0000_0000,
        ;
        if 30 * n > usize::MAX as u128 || n * (n + 1) > usize::MAX as u128 {
            return false;
        }
        !self.sentence_stuck(spelling)
    }
}

} // verus!
