use vstd::prelude::*;
use crate::conf::Behavior;
use super::EngineModel;
use super::schema::{apply_line, atom_text, atoms_of, atom_of, empty_schema, AtomModel, add_entry, add_prefixes, add_word, exact_entry, Cand, SchemaModel};
use super::suggest::{
    cand_words, dedup, expand, expand_all, has_word, suggestions, take_upto, trail_end, word_suggestion,
    word_suggestions, words_at, words_down, CANDI_NUM, ends_down, lemma_dedup, lemma_words_down_ends,
};
use super::sentence::{
    all_sentences, best_sentence, empty_sent, lemma_pick, lemma_sentences_score, sentences, suggested_sentence,
};
use super::long_glyph::{run, spec_ext_as_ala, spec_ext_left, spec_ext_right, step, with_long_glyphs, GlyphState};
use super::SuggestionModel;

verus! {

/// Typing `'` twice gives the opening, then the closing single quote of the
/// schema in use (when none is open), and leaves the engine as it was. The
/// same holds of `"`.
pub proof fn law_quotes_alternate(e: EngineModel)
    ensures
        e.remap('\'').1.remap('\'').1 == e,
        e.remap('"').1.remap('"').1 == e,
        !e.squote_open ==> e.remap('\'').0 == e.schema().squote.0 && e.remap('\'').1.remap('\'').0
            == e.schema().squote.1,
        !e.dquote_open ==> e.remap('"').0 == e.schema().dquote.0 && e.remap('"').1.remap('"').0
            == e.schema().dquote.1,
{
}

/// Remapping any other punctuator leaves the engine as it was.
pub proof fn law_remap_keeps_state(e: EngineModel, punct: char)
    requires
        punct != '\'',
        punct != '"',
    ensures
        e.remap(punct).1 == e,
{
}

/// The engine after `k` switches to the next schema.
pub open spec fn switched(e: EngineModel, k: nat) -> EngineModel
    decreases k,
{
    if k == 0 {
        e
    } else {
        switched(e, (k - 1) as nat).next()
    }
}

proof fn lemma_switched(e: EngineModel, k: nat)
    requires
        k <= e.schemas.len(),
    ensures
        switched(e, k).schemas == e.schemas.skip(k as int) + e.schemas.take(k as int),
        switched(e, k).behavior == e.behavior,
    decreases k,
{
    let s = e.schemas;
    if k == 0 {
        assert(s.skip(0) + s.take(0) =~= s);
    } else {
        lemma_switched(e, (k - 1) as nat);
        let prev = s.skip(k - 1) + s.take(k - 1);
        assert(prev[0] == s[k - 1]);
        assert(prev.drop_first().push(prev[0]) =~= s.skip(k as int) + s.take(k as int));
    }
}

/// Switching to the next schema as many times as there are schemas brings
/// back the schemas in their order, with both quotes closed.
pub proof fn law_switch_cycles(e: EngineModel)
    requires
        e.schemas.len() > 0,
    ensures
        switched(e, e.schemas.len()).schemas == e.schemas,
        !switched(e, e.schemas.len()).squote_open,
        !switched(e, e.schemas.len()).dquote_open,
        switched(e, e.schemas.len()).behavior == e.behavior,
{
    lemma_switched(e, e.schemas.len());
    assert(e.schemas.skip(e.schemas.len() as int) + e.schemas.take(e.schemas.len() as int) =~= e.schemas);
}

/// The candidate list holds at most [`CANDI_NUM`] suggestions.
pub proof fn law_at_most_candi_num(e: EngineModel, sp: Seq<char>)
    ensures
        suggestions(e, sp).len() <= CANDI_NUM,
{
    if vstd::utf8::is_ascii_chars(sp) {
        let head: Seq<SuggestionModel> = match suggested_sentence(e, sp) {
            Some(s) => seq![s],
            None => Seq::empty(),
        };
        let n = CANDI_NUM - head.len();
        let d = dedup(words_down(e.schema(), sp, sp.len() as int, 0));
        assert(take_upto(d, n).len() <= n);
    }
}

proof fn lemma_expand_all_first(m: SchemaModel, ws: Seq<Seq<char>>)
    requires
        ws.len() > 0,
    ensures
        expand_all(m, ws).len() >= ws.len(),
        expand_all(m, ws)[0] == ws[0],
    decreases ws.len(),
{
    if ws.len() == 1 {
        assert(ws.drop_last().len() == 0);
        assert(expand_all(m, ws) == expand_all(m, ws.drop_last()) + expand(m, ws.last()));
    } else {
        lemma_expand_all_first(m, ws.drop_last());
    }
}

proof fn lemma_dedup_first(s: Seq<(Seq<char>, int)>)
    requires
        s.len() > 0,
    ensures
        dedup(s).len() > 0,
        dedup(s)[0] == s[0],
    decreases s.len(),
{
    if s.len() == 1 {
        assert(s.drop_last().len() == 0);
        assert(dedup(s.drop_last()) =~= Seq::<(Seq<char>, int)>::empty());
        assert(!has_word(dedup(s.drop_last()), s.last().0));
    } else {
        lemma_dedup_first(s.drop_last());
    }
}

/// Typing the exact spelling of a word offers that word, whole, as the
/// first single-word suggestion (right after the sentence, if there is one).
pub proof fn law_exact_spelling_offers_word(e: EngineModel, sp: Seq<char>, w: Seq<char>, ws: Seq<Seq<char>>)
    requires
        vstd::utf8::is_ascii_chars(sp),
        sp.len() > 0,
        e.schema().candis.contains_key(sp),
        e.schema().candis[sp] == Cand::Exact(w, ws),
    ensures
        ({
            let k = if suggested_sentence(e, sp) is Some { 1int } else { 0int };
            &&& suggestions(e, sp).len() > k
            &&& suggestions(e, sp)[k] == (SuggestionModel { output: w, groupping: seq![sp.len() as int] })
        }),
{
    let m = e.schema();
    let n = sp.len() as int;
    assert(sp.take(n) =~= sp);
    let cw = cand_words(m.candis[sp]);
    assert(cw[0] == w);
    lemma_expand_all_first(m, cw);
    let wa = words_at(m, sp, n);
    assert(wa.len() > 0);
    assert(wa[0] == (w, n));
    let wd = words_down(m, sp, n, 0);
    assert(wd == wa + words_down(m, sp, n - 1, 0));
    assert(wd[0] == (w, n));
    lemma_dedup_first(wd);
    let d = dedup(wd);
    let head: Seq<SuggestionModel> = match suggested_sentence(e, sp) {
        Some(s) => seq![s],
        None => Seq::empty(),
    };
    let t = take_upto(d, CANDI_NUM - head.len());
    assert(t.len() > 0 && t[0] == (w, n));
    assert(trail_end(m, sp, n) == n);
    assert(sp.subrange(n, n).map_values(|c: char| m.puncts[c]) =~= Seq::<char>::empty());
    assert(word_suggestion(m, sp, (w, n)).output =~= w);
    let wsug = word_suggestions(m, sp, CANDI_NUM - head.len());
    assert(wsug[0] == word_suggestion(m, sp, (w, n)));
    assert(suggestions(e, sp) == head + wsug);
}

proof fn lemma_run_plain(text: Seq<char>, b: Behavior)
    requires
        !b.long_pi,
        !b.long_glyph,
    ensures
        run(text, b) == (GlyphState { out: text, open: false, question: None, failed: false }),
    decreases text.len(),
{
    if text.len() > 0 {
        lemma_run_plain(text.drop_last(), b);
        let s = run(text.drop_last(), b);
        let ch = text.last();
        assert(!spec_ext_as_ala(ch, b));
        assert(!spec_ext_left(ch, b));
        assert(!spec_ext_right(ch, b));
        assert(step(s, ch, b) == GlyphState { out: s.out.push(ch), ..s });
        assert(text.drop_last().push(text.last()) =~= text);
        assert(run(text, b) == step(s, ch, b));
        assert(s.out == text.drop_last());
        assert(run(text, b).out =~= text);
        assert(run(text, b).question is None);
        assert(!run(text, b).open);
        assert(!run(text, b).failed);
    } else {
        assert(text =~= Seq::<char>::empty());
    }
}

/// With both long glyph switches off, the long glyph insertion leaves the
/// text as it is.
pub proof fn law_no_long_glyphs(text: Seq<char>, b: Behavior)
    requires
        !b.long_pi,
        !b.long_glyph,
    ensures
        with_long_glyphs(text, b) == text,
{
    lemma_run_plain(text, b);
}

proof fn lemma_add_prefixes_keeps(c: Map<Seq<char>, Cand>, sp: Seq<char>, w: Seq<char>, k: int, key: Seq<char>)
    requires
        0 <= k,
        key.len() >= sp.len() || key.len() < k,
    ensures
        add_prefixes(c, sp, w, k).contains_key(key) == c.contains_key(key),
        c.contains_key(key) ==> add_prefixes(c, sp, w, k)[key] == c[key],
    decreases sp.len() - k,
{
    if k < sp.len() {
        let p = sp.take(k);
        let c2 = c.insert(p, add_word(c, p, w));
        lemma_add_prefixes_keeps(c2, sp, w, k + 1, key);
        assert(p.len() == k);
        assert(key != p);
    }
}

proof fn lemma_add_prefixes_at(c: Map<Seq<char>, Cand>, sp: Seq<char>, w: Seq<char>, k: int, j: int)
    requires
        0 <= k <= j < sp.len(),
    ensures
        add_prefixes(c, sp, w, k).contains_key(sp.take(j)),
        cand_words(add_prefixes(c, sp, w, k)[sp.take(j)]).contains(w),
    decreases sp.len() - k,
{
    let p = sp.take(k);
    let c2 = c.insert(p, add_word(c, p, w));
    if k < j {
        lemma_add_prefixes_at(c2, sp, w, k + 1, j);
    } else {
        assert(sp.take(j) == p);
        lemma_add_prefixes_keeps(c2, sp, w, k + 1, p);
        let cw = cand_words(add_word(c, p, w));
        if !c.contains_key(p) {
            assert(cw[0] == w);
        } else {
            match c[p] {
                Cand::Unique(u) => {
                    assert(cw[1] == w);
                },
                Cand::Duplicates(d) => {
                    assert(cw[d.len() as int] == w);
                },
                Cand::Exact(e0, d) => {
                    assert(cw[d.len() as int + 1] == w);
                },
            }
        }
    }
}

/// Whether the spelling `p` offers the word `w`.
pub open spec fn offers(candis: Map<Seq<char>, Cand>, p: Seq<char>, w: Seq<char>) -> bool {
    candis.contains_key(p) && cand_words(candis[p]).contains(w)
}

/// The words, collected so far, that start with a spelling (the exact word
/// of the spelling aside).
pub open spec fn prefixed_words(c: Cand) -> Seq<Seq<char>> {
    match c {
        Cand::Unique(u) => seq![u],
        Cand::Duplicates(d) => d,
        Cand::Exact(_, d) => d,
    }
}

/// After a dictionary entry `spelling word alternative...` is read, the
/// spelling is the exact spelling of the word and still lists the longer
/// words read before it that start with it, whatever the order of the
/// lines; and every shorter prefix of the spelling offers the word.
pub proof fn law_entry_spelling(m: SchemaModel, sp: Seq<char>, w: Seq<char>, alts: Seq<Seq<char>>)
    requires
        sp.len() > 0,
    ensures
        add_entry(m, sp, w, alts).candis.contains_key(sp),
        add_entry(m, sp, w, alts).candis[sp] == Cand::Exact(
            w,
            if m.candis.contains_key(sp) { prefixed_words(m.candis[sp]) } else { Seq::empty() },
        ),
        forall|j: int| 1 <= j < sp.len() ==> #[trigger] offers(add_entry(m, sp, w, alts).candis, sp.take(j), w),
{
    let c = m.candis.insert(sp, exact_entry(m.candis, sp, w));
    lemma_add_prefixes_keeps(c, sp, w, 1, sp);
    assert forall|j: int| 1 <= j < sp.len() implies #[trigger] offers(add_entry(m, sp, w, alts).candis, sp.take(j), w) by {
        lemma_add_prefixes_at(c, sp, w, 1, j);
    }
}

/// The sentence suggested for a spelling is one of its sentences, has more
/// than one word, and no sentence of more than one word scores higher;
/// there is none exactly when no sentence has more than one word.
pub proof fn law_best_sentence(m: SchemaModel, sp: Seq<char>)
    ensures
        match best_sentence(m, sp) {
            Some(b) => {
                &&& b.wc > 1
                &&& all_sentences(m, sp).contains(b)
                &&& forall|i: int| 0 <= i < all_sentences(m, sp).len() && (#[trigger] all_sentences(m, sp)[i]).wc > 1
                    ==> all_sentences(m, sp)[i].score <= b.score
            },
            None => forall|i: int| 0 <= i < all_sentences(m, sp).len() ==> (#[trigger] all_sentences(m, sp)[i]).wc <= 1,
        },
{
    let all = all_sentences(m, sp);
    let (a, pa) = sentences(m, sp, empty_sent());
    lemma_sentences_score(m, sp, empty_sent());
    lemma_pick(all, None, 0);
    assert forall|i: int| 0 <= i < all.len() implies (#[trigger] all[i]).score >= 10 * all[i].wc by {
        if i < pa.len() {
            assert(all[i] == pa[i]);
        }
    }
}

/// The single words suggested for a spelling (before the first
/// [`CANDI_NUM`] are taken) are words of prefixes of the spelling, each
/// word once, every such word, the longer prefixes first.
pub proof fn law_words_offered_once(m: SchemaModel, sp: Seq<char>)
    ensures
        forall|i: int, j: int| 0 <= i < j < dedup(words_down(m, sp, sp.len() as int, 0)).len()
            ==> (#[trigger] dedup(words_down(m, sp, sp.len() as int, 0))[i]).0
            != (#[trigger] dedup(words_down(m, sp, sp.len() as int, 0))[j]).0,
        ends_down(dedup(words_down(m, sp, sp.len() as int, 0))),
        forall|i: int| 0 <= i < dedup(words_down(m, sp, sp.len() as int, 0)).len() ==> {
            let p = #[trigger] dedup(words_down(m, sp, sp.len() as int, 0))[i];
            &&& words_down(m, sp, sp.len() as int, 0).contains(p)
            &&& 0 < p.1 <= sp.len()
        },
        forall|k: int| 0 <= k < words_down(m, sp, sp.len() as int, 0).len() ==> has_word(
            dedup(words_down(m, sp, sp.len() as int, 0)),
            (#[trigger] words_down(m, sp, sp.len() as int, 0)[k]).0,
        ),
{
    let ws = words_down(m, sp, sp.len() as int, 0);
    lemma_words_down_ends(m, sp, sp.len() as int, 0);
    lemma_dedup(ws);
    let d = dedup(ws);
    assert forall|i: int| 0 <= i < d.len() implies 0 < (#[trigger] d[i]).1 <= sp.len() by {
        assert(ws.contains(d[i]));
        let k = choose|k: int| 0 <= k < ws.len() && ws[k] == d[i];
        assert(0 < ws[k].1 <= sp.len());
    }
}

/// With the `cjk_space` switch off, remapping a punctuator other than a
/// quote never types the ideographic space unless that is what was typed;
/// with it on, a space the schema maps to it becomes it.
pub proof fn law_cjk_space_switch(e: EngineModel, punct: char)
    requires
        punct != '\'',
        punct != '"',
    ensures
        !e.behavior.cjk_space && e.remap(punct).0 == '\u{3000}' ==> punct == '\u{3000}',
        e.behavior.cjk_space && e.schema().puncts.contains_key(punct) ==> e.remap(punct).0 == e.schema().puncts[punct],
{
}

/// A single ASCII character that is no letter or digit, such as `[` or
/// `-`, is read as that character (a punctuator line `[ U+1F58C` maps it);
/// a single ASCII letter or digit is read as text.
pub proof fn law_ascii_atoms(c: char)
    requires
        (c as u32) < 0x80,
    ensures
        !(('a' <= c && c <= 'z') || ('A' <= c && c <= 'Z') || ('0' <= c && c <= '9')) ==> atom_of(seq![c])
            == AtomModel::Nanch(c),
        (('a' <= c && c <= 'z') || ('A' <= c && c <= 'Z') || ('0' <= c && c <= '9')) ==> atom_of(seq![c])
            == AtomModel::Text(seq![c]),
{
}

/// The schema after the entries `(spelling, word)` are read in order, with
/// no alternatives.
pub open spec fn add_entries(m: SchemaModel, es: Seq<(Seq<char>, Seq<char>)>) -> SchemaModel
    decreases es.len(),
{
    if es.len() == 0 {
        m
    } else {
        add_entry(add_entries(m, es.drop_last()), es.last().0, es.last().1, Seq::empty())
    }
}

/// `k` starts `s` and is shorter, and not empty.
pub open spec fn starts(k: Seq<char>, s: Seq<char>) -> bool {
    0 < k.len() < s.len() && s.take(k.len() as int) == k
}

/// The words of the entries whose spelling `k` starts, in the order read.
pub open spec fn words_starting(es: Seq<(Seq<char>, Seq<char>)>, k: Seq<char>) -> Seq<Seq<char>>
    decreases es.len(),
{
    if es.len() == 0 {
        Seq::empty()
    } else if starts(k, es.last().0) {
        words_starting(es.drop_last(), k).push(es.last().1)
    } else {
        words_starting(es.drop_last(), k)
    }
}

/// Some entry is spelled `k`.
pub open spec fn spelled_as(es: Seq<(Seq<char>, Seq<char>)>, k: Seq<char>) -> bool {
    exists|i: int| 0 <= i < es.len() && (#[trigger] es[i]).0 == k
}

/// The spellings are not empty, and no two entries have the same one.
pub open spec fn distinct_entries(es: Seq<(Seq<char>, Seq<char>)>) -> bool {
    &&& forall|i: int| 0 <= i < es.len() ==> (#[trigger] es[i]).0.len() > 0
    &&& forall|i: int, j: int| 0 <= i < j < es.len() ==> (#[trigger] es[i]).0 != (#[trigger] es[j]).0
}

/// The candidate a text has once entries with distinct spellings are read:
/// its own word with the words it starts, a unique prefix, duplicates, or
/// nothing.
pub open spec fn candidate_of(es: Seq<(Seq<char>, Seq<char>)>, k: Seq<char>) -> Option<Cand> {
    let ws = words_starting(es, k);
    if spelled_as(es, k) {
        Some(Cand::Exact(es[choose|i: int| 0 <= i < es.len() && (#[trigger] es[i]).0 == k].1, ws))
    } else if ws.len() == 0 {
        None
    } else if ws.len() == 1 {
        Some(Cand::Unique(ws[0]))
    } else {
        Some(Cand::Duplicates(ws))
    }
}

proof fn lemma_prefixes_key(c: Map<Seq<char>, Cand>, sp: Seq<char>, w: Seq<char>, j: int, k: Seq<char>)
    requires
        1 <= j,
    ensures
        starts(k, sp) && k.len() >= j ==> add_prefixes(c, sp, w, j).contains_key(k)
            && add_prefixes(c, sp, w, j)[k] == add_word(c, k, w),
        !(starts(k, sp) && k.len() >= j) ==> (add_prefixes(c, sp, w, j).contains_key(k) == c.contains_key(k)
            && (c.contains_key(k) ==> add_prefixes(c, sp, w, j)[k] == c[k])),
    decreases sp.len() - j,
{
    if j < sp.len() {
        let p = sp.take(j);
        let c2 = c.insert(p, add_word(c, p, w));
        lemma_prefixes_key(c2, sp, w, j + 1, k);
        if k == p {
            assert(starts(k, sp));
            lemma_add_prefixes_keeps(c2, sp, w, j + 1, k);
        } else if starts(k, sp) && k.len() == j {
            assert(k =~= p);
        }
    }
}

/// Reading entries with distinct spellings, in any order, gives each text
/// the candidate that [`candidate_of`] describes: a spelling is the exact
/// spelling of its word and lists, in the order read, every word whose
/// spelling it starts; a text that is no spelling is the unique prefix of
/// the one word it starts, or lists the words it starts as duplicates.
pub proof fn law_entries_candidates(es: Seq<(Seq<char>, Seq<char>)>, k: Seq<char>)
    requires
        distinct_entries(es),
    ensures
        add_entries(empty_schema(), es).candis.contains_key(k) == candidate_of(es, k) is Some,
        candidate_of(es, k) matches Some(c) ==> add_entries(empty_schema(), es).candis[k] == c,
    decreases es.len(),
{
    if es.len() > 0 {
        let n = es.len() - 1;
        let p = es.drop_last();
        assert(distinct_entries(p)) by {
            assert forall|i: int, j: int| 0 <= i < j < p.len() implies (#[trigger] p[i]).0 != (#[trigger] p[j]).0 by {
                assert(p[i] == es[i] && p[j] == es[j]);
            }
            assert forall|i: int| 0 <= i < p.len() implies (#[trigger] p[i]).0.len() > 0 by {
                assert(p[i] == es[i]);
            }
        }
        law_entries_candidates(p, k);
        let sp = es[n].0;
        let w = es[n].1;
        assert(es.last() == es[n]);
        let c0 = add_entries(empty_schema(), p).candis;
        let c1 = c0.insert(sp, exact_entry(c0, sp, w));
        lemma_prefixes_key(c1, sp, w, 1, k);
        assert(add_entries(empty_schema(), es).candis == add_prefixes(c1, sp, w, 1));
        assert(spelled_as(es, k) == (spelled_as(p, k) || sp == k)) by {
            if spelled_as(es, k) {
                let i = choose|i: int| 0 <= i < es.len() && (#[trigger] es[i]).0 == k;
                if i < n {
                    assert(p[i] == es[i]);
                }
            }
            if spelled_as(p, k) {
                let i = choose|i: int| 0 <= i < p.len() && (#[trigger] p[i]).0 == k;
                assert(p[i] == es[i]);
            }
            if sp == k {
                assert(es[n].0 == k);
            }
        }
        if spelled_as(es, k) {
            let i = choose|i: int| 0 <= i < es.len() && (#[trigger] es[i]).0 == k;
            if sp == k {
                assert(i == n) by {
                    if i < n {
                        assert(es[i].0 != es[n].0);
                    }
                }
                assert(!spelled_as(p, k)) by {
                    if spelled_as(p, k) {
                        let j = choose|j: int| 0 <= j < p.len() && (#[trigger] p[j]).0 == k;
                        assert(p[j] == es[j]);
                        assert(es[j].0 != es[n].0);
                    }
                }
                assert(!starts(k, sp));
                assert(words_starting(es, k) == words_starting(p, k));
                let ws = words_starting(p, k);
                if ws.len() == 1 {
                    assert(seq![ws[0]] =~= ws);
                } else if ws.len() == 0 {
                    assert(ws =~= Seq::<Seq<char>>::empty());
                }
            } else {
                assert(i < n);
                assert(p[i] == es[i]);
                let ip = choose|j: int| 0 <= j < p.len() && (#[trigger] p[j]).0 == k;
                assert(p[ip] == es[ip]);
                assert(es[ip].1 == es[i].1) by {
                    if ip != i {
                        if ip < i {
                            assert(es[ip].0 != es[i].0);
                        } else {
                            assert(es[i].0 != es[ip].0);
                        }
                    }
                }
                assert(c1.contains_key(k) && c1[k] == c0[k]);
                if starts(k, sp) {
                    assert(words_starting(es, k) == words_starting(p, k).push(w));
                } else {
                    assert(words_starting(es, k) == words_starting(p, k));
                }
            }
        } else {
            assert(k != sp);
            assert(c1.contains_key(k) == c0.contains_key(k));
            if c0.contains_key(k) {
                assert(c1[k] == c0[k]);
            }
            let wp = words_starting(p, k);
            if starts(k, sp) {
                assert(words_starting(es, k) == wp.push(w));
                if wp.len() == 1 {
                    assert(seq![wp[0], w] =~= wp.push(w));
                } else if wp.len() == 0 {
                    assert(wp.push(w)[0] == w);
                }
            } else {
                assert(words_starting(es, k) == wp);
            }
        }
    }
}

proof fn lemma_words_down_from(m: SchemaModel, sp: Seq<char>, hi: int, lo: int, x: (Seq<char>, int))
    requires
        words_down(m, sp, hi, lo).contains(x),
    ensures
        m.candis.contains_key(sp.take(x.1)),
        expand_all(m, cand_words(m.candis[sp.take(x.1)])).contains(x.0),
    decreases hi - lo,
{
    if hi > lo {
        let a = words_at(m, sp, hi);
        let b = words_down(m, sp, hi - 1, lo);
        let i = choose|i: int| 0 <= i < a.len() + b.len() && (a + b)[i] == x;
        if i < a.len() {
            assert(a[i] == x);
            let ex = expand_all(m, cand_words(m.candis[sp.take(hi)]));
            assert(a[i] == (ex[i], hi));
            assert(ex[i] == x.0);
        } else {
            assert(b[i - a.len()] == x);
            lemma_words_down_from(m, sp, hi - 1, lo, x);
        }
    }
}

proof fn lemma_trail_end_ge(m: SchemaModel, sp: Seq<char>, i: int)
    ensures
        i <= trail_end(m, sp, i),
    decreases sp.len() - i,
{
    if 0 <= i < sp.len() && m.puncts.contains_key(sp[i]) {
        lemma_trail_end_ge(m, sp, i + 1);
    }
}

proof fn lemma_trail_end(m: SchemaModel, sp: Seq<char>, i: int, j: int)
    requires
        0 <= i <= j,
    ensures
        trail_end(m, sp, i) <= trail_end(m, sp, j),
    decreases sp.len() - i,
{
    lemma_trail_end_ge(m, sp, j);
    if 0 <= i < sp.len() && m.puncts.contains_key(sp[i]) && i < j {
        lemma_trail_end(m, sp, i + 1, j);
    }
}

/// Each single word suggested for a spelling is a word, or an alternative
/// of a word, that a prefix of the spelling gives, followed by the
/// punctuators typed right after that prefix, remapped; its group ends
/// after them, and the groups end no later from one suggestion to the next.
pub proof fn law_word_suggestions_shape(m: SchemaModel, sp: Seq<char>, n: int)
    ensures
        forall|i: int| 0 <= i < word_suggestions(m, sp, n).len() ==> {
            let p = #[trigger] take_upto(dedup(words_down(m, sp, sp.len() as int, 0)), n)[i];
            &&& word_suggestions(m, sp, n)[i] == word_suggestion(m, sp, p)
            &&& 0 < p.1 <= sp.len()
            &&& m.candis.contains_key(sp.take(p.1))
            &&& expand_all(m, cand_words(m.candis[sp.take(p.1)])).contains(p.0)
        },
        forall|i: int, j: int| 0 <= i < j < word_suggestions(m, sp, n).len()
            ==> (#[trigger] word_suggestions(m, sp, n)[i]).groupping[0] >= (#[trigger] word_suggestions(m, sp, n)[j]).groupping[0],
{
    let d = dedup(words_down(m, sp, sp.len() as int, 0));
    let t = take_upto(d, n);
    law_words_offered_once(m, sp);
    assert forall|i: int| 0 <= i < t.len() implies (#[trigger] t[i]) == d[i] by {}
    assert forall|i: int| 0 <= i < word_suggestions(m, sp, n).len() implies {
        let p = #[trigger] t[i];
        &&& word_suggestions(m, sp, n)[i] == word_suggestion(m, sp, p)
        &&& 0 < p.1 <= sp.len()
        &&& m.candis.contains_key(sp.take(p.1))
        &&& expand_all(m, cand_words(m.candis[sp.take(p.1)])).contains(p.0)
    } by {
        assert(t[i] == d[i]);
        lemma_words_down_from(m, sp, sp.len() as int, 0, d[i]);
    }
    assert forall|i: int, j: int| 0 <= i < j < word_suggestions(m, sp, n).len()
        implies (#[trigger] word_suggestions(m, sp, n)[i]).groupping[0] >= (#[trigger] word_suggestions(m, sp, n)[j]).groupping[0] by {
        assert(t[i] == d[i] && t[j] == d[j]);
        assert(d[i].1 >= d[j].1);
        lemma_trail_end(m, sp, d[j].1, d[i].1);
    }
}

/// An entry line `spelling word alternative...` adds every one of its
/// alternatives, in order, after the alternatives the word had; with none,
/// the alternatives stay as they were.
pub proof fn law_entry_line_alternatives(m: SchemaModel, line: Seq<char>)
    requires
        line.len() > 0,
        line[0] != '#',
        atoms_of(line).len() >= 2,
        atoms_of(line)[0] is Text,
    ensures
        ({
            let a = atoms_of(line);
            let w = atom_text(a[1]);
            let alts = Seq::new((a.len() - 2) as nat, |j: int| atom_text(a[j + 2]));
            &&& a.len() > 2 ==> apply_line(m, line).alters.contains_key(w)
            &&& a.len() > 2 ==> apply_line(m, line).alters[w] == (if m.alters.contains_key(w) {
                m.alters[w]
            } else {
                Seq::empty()
            }) + alts
            &&& a.len() == 2 ==> apply_line(m, line).alters == m.alters
            &&& forall|v: Seq<char>| v != w ==> apply_line(m, line).alters.contains_key(v) == m.alters.contains_key(v)
        }),
{
    let a = atoms_of(line);
    let alts = Seq::new((a.len() - 2) as nat, |j: int| atom_text(a[j + 2]));
    assert(a.skip(2).map_values(|x: AtomModel| atom_text(x)) =~= alts);
}

/// A line of two single characters remaps the first to the second; a quote
/// given one character is a dumb quote, given two an opening and a closing
/// one. The words of the schema stay as they were.
pub proof fn law_punctuator_lines(m: SchemaModel, line: Seq<char>, p: char, q: char, r: char)
    requires
        line.len() > 0,
        line[0] != '#',
    ensures
        atoms_of(line) == seq![AtomModel::Nanch(p), AtomModel::Nanch(q)] && p != '\'' && p != '"' ==> apply_line(
            m,
            line,
        ) == (SchemaModel { puncts: m.puncts.insert(p, q), ..m }),
        atoms_of(line) == seq![AtomModel::Nanch('\''), AtomModel::Nanch(q)] ==> apply_line(m, line) == (SchemaModel {
            squote: (q, q),
            ..m
        }),
        atoms_of(line) == seq![AtomModel::Nanch('"'), AtomModel::Nanch(q), AtomModel::Nanch(r)] ==> apply_line(m, line)
            == (SchemaModel { dquote: (q, r), ..m }),
        atoms_of(line)[0] is Nanch ==> apply_line(m, line).candis == m.candis && apply_line(m, line).alters == m.alters,
{
}

} // verus!
