use vstd::prelude::*;
use std::collections::HashMap;
use crate::dict::{add_prefix, add_prefixes, entry_views, insert_entry, insert_word, segment, word_of, longest_word,
    lemma_longest_word, Entry, EntryModel};
use crate::text::{utf16_of, utf16_of_str};
use crate::wide::{copy_units, distinct_keys, extend_units, lemma_map_of, map_of, WideMap};

verus! {

broadcast use vstd::std_specs::hash::group_hash_axioms;

/// The words of the entries: each exact spelling or unique prefix with its
/// word.
pub open spec fn words_of(m: Map<Seq<u16>, EntryModel>) -> Map<Seq<u16>, Seq<u16>> {
    Map::new(|k: Seq<u16>| m.contains_key(k) && word_of(m[k]) is Some, |k: Seq<u16>| word_of(m[k]).unwrap())
}

/// The end of the longest text `letters[from..t]`, `t <= to`, that is a key
/// of `d`; `from` when there is none.
pub open spec fn longest_key(d: Map<Seq<u16>, Seq<u16>>, letters: Seq<u16>, from: int, to: int) -> int
    decreases to - from,
{
    if to <= from {
        from
    } else if d.contains_key(letters.subrange(from, to)) {
        to
    } else {
        longest_key(d, letters, from, to - 1)
    }
}

/// The longest key read from `from` ends between `from` and `to`.
pub proof fn lemma_longest_key(d: Map<Seq<u16>, Seq<u16>>, letters: Seq<u16>, from: int, to: int)
    requires
        from <= to,
    ensures
        from <= longest_key(d, letters, from, to) <= to,
    decreases to - from,
{
    if to > from {
        lemma_longest_key(d, letters, from, to - 1);
    }
}

/// The words of `letters` from `from` on, longest key first, until no key
/// follows.
pub open spec fn segment_keys(d: Map<Seq<u16>, Seq<u16>>, letters: Seq<u16>, from: int) -> Seq<u16>
    decreases letters.len() - from,
{
    if from >= letters.len() {
        Seq::empty()
    } else {
        let t = longest_key(d, letters, from, letters.len() as int);
        proof {
            lemma_longest_key(d, letters, from, letters.len() as int);
        }
        if t > from {
            d[letters.subrange(from, t)] + segment_keys(d, letters, t)
        } else {
            Seq::empty()
        }
    }
}

/// The words from `from` on, reading the longest key that ends at most at
/// `to`, then going on after it; nothing when no key starts at `from`.
pub open spec fn keys_scan(d: Map<Seq<u16>, Seq<u16>>, letters: Seq<u16>, from: int, to: int) -> Seq<u16> {
    let t = longest_key(d, letters, from, to);
    if t > from {
        d[letters.subrange(from, t)] + segment_keys(d, letters, t)
    } else {
        Seq::empty()
    }
}

/// A table of words and punctuators over UTF-16 text.
pub struct Engine {
    dict: WideMap<Vec<u16>>,
    puncts: HashMap<u16, Vec<u16>>,
}

/// The mathematical value of an [`Engine`].
pub struct EngineModel {
    pub dict: Map<Seq<u16>, Seq<u16>>,
    pub puncts: Map<u16, Seq<u16>>,
}

/// The entries of a list of word pairs, added in order.
pub open spec fn entries_of(entries: Seq<(&str, &str)>) -> Map<Seq<u16>, EntryModel>
    decreases entries.len(),
{
    if entries.len() == 0 {
        Map::empty()
    } else {
        insert_word(entries_of(entries.drop_last()), utf16_of(entries.last().0@), utf16_of(entries.last().1@))
    }
}

impl View for Engine {
    type V = EngineModel;

    closed spec fn view(&self) -> EngineModel {
        EngineModel { dict: self.dict@.map_values(|w: Vec<u16>| w@), puncts: self.puncts@.map_values(|w: Vec<u16>| w@) }
    }
}

proof fn lemma_words_insert(m: Map<Seq<u16>, EntryModel>, k: Seq<u16>, e: EntryModel)
    requires
        !m.contains_key(k),
    ensures
        words_of(m.insert(k, e)) == (match word_of(e) {
            Some(w) => words_of(m).insert(k, w),
            None => words_of(m),
        }),
{
    match word_of(e) {
        Some(w) => {
            assert(words_of(m.insert(k, e)) =~= words_of(m).insert(k, w));
        },
        None => {
            assert(words_of(m.insert(k, e)) =~= words_of(m));
        },
    }
}

impl Engine {
    pub closed spec fn wf(&self) -> bool {
        self.dict.wf()
    }

    /// An engine with no word and no punctuator.
    pub fn new() -> (e: Engine)
        ensures
            e.wf(),
            e@ == (EngineModel { dict: Map::empty(), puncts: Map::empty() }),
    {
        let e = Engine { dict: WideMap::new(), puncts: HashMap::new() };
        proof {
            assert(e@.dict =~= Map::<Seq<u16>, Seq<u16>>::empty());
            assert(e@.puncts =~= Map::<u16, Seq<u16>>::empty());
        }
        e
    }

    /// Replaces the words with those of `entries` (spelling, word): every
    /// exact spelling and every unique prefix gives its word.
    pub fn load_dict(&mut self, entries: Vec<(&str, &str)>)
        requires
            old(self).wf(),
        ensures
            final(self).wf(),
            final(self)@ == (EngineModel { dict: words_of(entries_of(entries@)), puncts: old(self)@.puncts }),
    {
        let mut candidates: WideMap<Entry> = WideMap::new();
        let mut i: usize = 0;
        proof {
            assert(entries@.take(0) =~= Seq::<(&str, &str)>::empty());
            assert(entry_views(candidates@) =~= Map::<Seq<u16>, EntryModel>::empty());
        }
        while i < entries.len()
            invariant
                0 <= i <= entries@.len(),
                candidates.wf(),
                entry_views(candidates@) == entries_of(entries@.take(i as int)),
            decreases entries@.len() - i,
        {
            let (spelling, word) = entries[i];
            insert_entry(&mut candidates, spelling, word);
            proof {
                assert(entries@.take(i + 1).drop_last() =~= entries@.take(i as int));
                assert(entries@.take(i + 1).last() == entries@[i as int]);
            }
            i = i + 1;
        }
        proof {
            assert(entries@.take(entries@.len() as int) =~= entries@);
        }
        let ghost ps = candidates.pairs();
        proof {
            candidates.lemma_pairs();
        }
        let mut dict: WideMap<Vec<u16>> = WideMap::new();
        let mut k: usize = 0;
        proof {
            assert(ps.take(0) =~= Seq::<(Vec<u16>, Entry)>::empty());
            assert(words_of(entry_views(map_of(ps.take(0)))) =~= Map::<Seq<u16>, Seq<u16>>::empty());
            assert(dict@.map_values(|w: Vec<u16>| w@) =~= Map::<Seq<u16>, Seq<u16>>::empty());
        }
        while k < candidates.len()
            invariant
                0 <= k <= ps.len(),
                ps == candidates.pairs(),
                distinct_keys(ps),
                dict.wf(),
                dict@.map_values(|w: Vec<u16>| w@) == words_of(entry_views(map_of(ps.take(k as int)))),
            decreases ps.len() - k,
        {
            let (key, entry) = candidates.pair(k);
            let ghost before = ps.take(k as int);
            proof {
                assert(ps.take(k + 1).drop_last() =~= before);
                assert(ps.take(k + 1).last() == ps[k as int]);
                assert(distinct_keys(before)) by {
                    assert forall|a: int, b: int| 0 <= a < b < before.len() implies (#[trigger] before[a]).0@
                        != (#[trigger] before[b]).0@ by {
                        assert(before[a] == ps[a] && before[b] == ps[b]);
                    }
                }
                lemma_map_of(before, key@);
                assert(!map_of(before).contains_key(key@)) by {
                    if map_of(before).contains_key(key@) {
                        let a = choose|a: int| 0 <= a < before.len() && (#[trigger] before[a]).0@ == key@;
                        assert(before[a] == ps[a]);
                    }
                }
                assert(entry_views(map_of(ps.take(k + 1))) =~= entry_views(map_of(before)).insert(key@, entry@));
                lemma_words_insert(entry_views(map_of(before)), key@, entry@);
            }
            let word: Option<&Vec<u16>> = match entry {
                Entry::Exact(w) => Some(w),
                Entry::Unique(w) => Some(w),
                Entry::Duplicate => None,
            };
            match word {
                Some(w) => {
                    let ghost d0 = dict@;
                    assert(key@.subrange(0, key@.len() as int) =~= key@);
                    dict.set(key.as_slice(), 0, key.len(), copy_units(w));
                    proof {
                        assert(dict@.map_values(|w: Vec<u16>| w@) =~= d0.map_values(|w: Vec<u16>| w@).insert(key@, w@));
                    }
                },
                None => {},
            }
            k = k + 1;
        }
        proof {
            assert(ps.take(ps.len() as int) =~= ps);
        }
        self.dict = dict;
    }

    /// Remaps the punctuator `punct` to the text `output`.
    pub fn insert_punt(&mut self, punct: char, output: &str)
        requires
            punct as u32 <= 0xFFFF,
        ensures
            final(self).wf() == old(self).wf(),
            final(self)@ == (EngineModel {
                puncts: old(self)@.puncts.insert(punct as u16, utf16_of(output@)),
                dict: old(self)@.dict,
            }),
    {
        let key = punct as u32 as u16;
        let v = utf16_of_str(output);
        let ghost p0 = self.puncts@;
        self.puncts.insert(key, v);
        proof {
            assert(self@.puncts =~= p0.map_values(|w: Vec<u16>| w@).insert(punct as u16, utf16_of(output@)));
        }
    }

    /// The words that `letters` spell, longest spelling first (see
    /// [`segment_keys`]).
    fn suggest(&self, letters: &[u16]) -> (r: Vec<u16>)
        requires
            self.wf(),
        ensures
            r@ == segment_keys(self@.dict, letters@, 0),
    {
        let ghost d = self@.dict;
        let ghost l = letters@;
        let n = letters.len();
        let mut from: usize = 0;
        let mut to: usize = n;
        let mut result: Vec<u16> = Vec::new();
        proof {
            lemma_longest_key(d, l, 0, n as int);
        }
        while from < to
            invariant
                0 <= from <= to <= n,
                n == l.len(),
                l == letters@,
                d == self@.dict,
                self.wf(),
                result@ + keys_scan(d, l, from as int, to as int) == segment_keys(d, l, 0),
            decreases n - from, to - from,
        {
            let ghost key = l.subrange(from as int, to as int);
            match self.dict.get(letters, from, to) {
                Some(w) => {
                    proof {
                        assert(d.contains_key(key));
                        assert(d[key] == w@);
                        if (to as int) < (n as int) {
                            lemma_longest_key(d, l, to as int, n as int);
                        } else {
                            assert(segment_keys(d, l, to as int) =~= Seq::<u16>::empty());
                        }
                    }
                    let ghost before = result@;
                    extend_units(&mut result, w);
                    proof {
                        assert(segment_keys(d, l, to as int) == keys_scan(d, l, to as int, n as int));
                        assert(result@ + keys_scan(d, l, to as int, n as int) =~= before + (w@ + segment_keys(d, l, to as int)));
                    }
                    from = to;
                    to = n;
                },
                None => {
                    to = to - 1;
                },
            }
        }
        proof {
            assert(keys_scan(d, l, from as int, to as int) =~= Seq::<u16>::empty());
            assert(result@ =~= segment_keys(d, l, 0));
        }
        result
    }
}

/// The words that `letters` spell in the table, longest spelling first.
pub fn suggest(engine: &Engine, letters: &[u16]) -> (r: Vec<u16>)
    requires
        engine.wf(),
    ensures
        r@ == segment_keys(engine@.dict, letters@, 0),
{
    engine.suggest(letters)
}

/// The text a punctuator is remapped to; the punctuator itself when it is
/// not remapped.
pub fn convert_punct(engine: &Engine, punct: u8) -> (r: Vec<u16>)
    ensures
        r@ == (if engine@.puncts.contains_key(punct as u16) {
            engine@.puncts[punct as u16]
        } else {
            seq![punct as u16]
        }),
{
    match engine.puncts.get(&(punct as u16)) {
        Some(v) => copy_units(v),
        None => {
            let mut r: Vec<u16> = Vec::new();
            r.push(punct as u16);
            proof {
                assert(r@ =~= seq![punct as u16]);
            }
            r
        },
    }
}

proof fn lemma_longest_same(m: Map<Seq<u16>, EntryModel>, l: Seq<u16>, from: int, to: int)
    ensures
        longest_key(words_of(m), l, from, to) == longest_word(m, l, from, to),
    decreases to - from,
{
    if to > from {
        lemma_longest_same(m, l, from, to - 1);
    }
}

/// The table reads letters as the dictionary it was loaded from does: a
/// dictionary read longest first gives the same words as the table of its
/// words.
pub proof fn law_table_reads_as_dict(m: Map<Seq<u16>, EntryModel>, l: Seq<u16>, from: int)
    ensures
        segment_keys(words_of(m), l, from) == segment(m, l, from),
    decreases l.len() - from,
{
    if from < l.len() {
        let n = l.len() as int;
        lemma_longest_same(m, l, from, n);
        lemma_longest_word(m, l, from, n);
        let t = longest_word(m, l, from, n);
        if t > from {
            law_table_reads_as_dict(m, l, t);
        }
    }
}

/// The spellings and words of the entries as UTF-16 text.
pub open spec fn units(entries: Seq<(&str, &str)>) -> Seq<(Seq<u16>, Seq<u16>)> {
    entries.map_values(|e: (&str, &str)| (utf16_of(e.0@), utf16_of(e.1@)))
}

/// `k` starts `s` and is shorter, and not empty.
pub open spec fn proper_prefix(k: Seq<u16>, s: Seq<u16>) -> bool {
    0 < k.len() < s.len() && s.take(k.len() as int) == k
}

/// Some entry is spelled `k`.
pub open spec fn spelled(es: Seq<(Seq<u16>, Seq<u16>)>, k: Seq<u16>) -> bool {
    exists|i: int| 0 <= i < es.len() && (#[trigger] es[i]).0 == k
}

/// The number of entries of which `k` is a proper prefix of the spelling.
pub open spec fn prefix_count(es: Seq<(Seq<u16>, Seq<u16>)>, k: Seq<u16>) -> nat
    decreases es.len(),
{
    if es.len() == 0 {
        0
    } else {
        prefix_count(es.drop_last(), k) + (if proper_prefix(k, es.last().0) { 1nat } else { 0nat })
    }
}

/// The spellings are not empty, and no two entries have the same one.
pub open spec fn distinct_spellings(es: Seq<(Seq<u16>, Seq<u16>)>) -> bool {
    &&& forall|i: int| 0 <= i < es.len() ==> (#[trigger] es[i]).0.len() > 0
    &&& forall|i: int, j: int| 0 <= i < j < es.len() ==> (#[trigger] es[i]).0 != (#[trigger] es[j]).0
}

proof fn lemma_add_prefixes_key(m: Map<Seq<u16>, EntryModel>, sp: Seq<u16>, w: Seq<u16>, j: int, k: Seq<u16>)
    requires
        1 <= j,
    ensures
        proper_prefix(k, sp) && k.len() >= j ==> add_prefixes(m, sp, w, j).contains_key(k)
            && add_prefixes(m, sp, w, j)[k] == add_prefix(m, k, w)[k],
        !(proper_prefix(k, sp) && k.len() >= j) ==> (add_prefixes(m, sp, w, j).contains_key(k)
            == m.contains_key(k) && (m.contains_key(k) ==> add_prefixes(m, sp, w, j)[k] == m[k])),
    decreases sp.len() - j,
{
    if j < sp.len() {
        let p = sp.take(j);
        let m2 = add_prefix(m, p, w);
        lemma_add_prefixes_key(m2, sp, w, j + 1, k);
        if k == p {
            assert(proper_prefix(k, sp));
        } else {
            assert(m2.contains_key(k) == m.contains_key(k));
            if proper_prefix(k, sp) && k.len() == j {
                assert(k =~= p);
            }
        }
    }
}

proof fn lemma_prefix_count_zero(es: Seq<(Seq<u16>, Seq<u16>)>, k: Seq<u16>)
    requires
        prefix_count(es, k) == 0,
    ensures
        forall|i: int| 0 <= i < es.len() ==> !proper_prefix(k, (#[trigger] es[i]).0),
    decreases es.len(),
{
    if es.len() > 0 {
        lemma_prefix_count_zero(es.drop_last(), k);
        assert forall|i: int| 0 <= i < es.len() implies !proper_prefix(k, (#[trigger] es[i]).0) by {
            if i < es.len() - 1 {
                assert(es[i] == es.drop_last()[i]);
            }
        }
    }
}

proof fn lemma_prefix_count_pos(es: Seq<(Seq<u16>, Seq<u16>)>, k: Seq<u16>) -> (i: int)
    requires
        prefix_count(es, k) > 0,
    ensures
        0 <= i < es.len(),
        proper_prefix(k, es[i].0),
    decreases es.len(),
{
    if proper_prefix(k, es.last().0) {
        es.len() - 1
    } else {
        let i = lemma_prefix_count_pos(es.drop_last(), k);
        assert(es[i] == es.drop_last()[i]);
        i
    }
}

/// What the entries make of a text `k`: the exact spelling of its entry; a
/// unique prefix when it starts the spelling of one entry only; a duplicate
/// when it starts several; nothing otherwise.
proof fn lemma_entries_of(entries: Seq<(&str, &str)>, k: Seq<u16>)
    requires
        distinct_spellings(units(entries)),
    ensures
        forall|i: int| 0 <= i < entries.len() && (#[trigger] units(entries)[i]).0 == k ==> entries_of(entries).contains_key(k)
            && entries_of(entries)[k] == EntryModel::Exact(units(entries)[i].1),
        !spelled(units(entries), k) && prefix_count(units(entries), k) == 0 ==> !entries_of(entries).contains_key(k),
        !spelled(units(entries), k) && prefix_count(units(entries), k) == 1 ==> entries_of(entries).contains_key(k)
            && forall|i: int| 0 <= i < entries.len() && proper_prefix(k, (#[trigger] units(entries)[i]).0)
                ==> entries_of(entries)[k] == EntryModel::Unique(units(entries)[i].1),
        !spelled(units(entries), k) && prefix_count(units(entries), k) >= 2 ==> entries_of(entries).contains_key(k)
            && entries_of(entries)[k] == EntryModel::Duplicate,
    decreases entries.len(),
{
    let es = units(entries);
    if entries.len() > 0 {
        let p = entries.drop_last();
        let ep = units(p);
        assert(ep =~= es.drop_last());
        assert forall|i: int| 0 <= i < ep.len() implies (#[trigger] ep[i]) == es[i] by {}
        assert(distinct_spellings(ep)) by {
            assert forall|i: int, j: int| 0 <= i < j < ep.len() implies (#[trigger] ep[i]).0 != (#[trigger] ep[j]).0 by {
                assert(ep[i] == es[i] && ep[j] == es[j]);
            }
            assert forall|i: int| 0 <= i < ep.len() implies (#[trigger] ep[i]).0.len() > 0 by {
                assert(ep[i] == es[i]);
            }
        }
        lemma_entries_of(p, k);
        let n = es.len() - 1;
        let sp = es[n].0;
        let w = es[n].1;
        assert(es.last() == es[n]);
        assert(utf16_of(entries.last().0@) == sp && utf16_of(entries.last().1@) == w);
        let m0 = entries_of(p);
        let m1 = m0.insert(sp, EntryModel::Exact(w));
        lemma_add_prefixes_key(m1, sp, w, 1, k);
        assert(entries_of(entries) == add_prefixes(m1, sp, w, 1));
        assert(spelled(es, k) == (spelled(ep, k) || sp == k)) by {
            if spelled(es, k) {
                let i = choose|i: int| 0 <= i < es.len() && (#[trigger] es[i]).0 == k;
                if i < n {
                    assert(ep[i] == es[i]);
                }
            }
            if spelled(ep, k) {
                let i = choose|i: int| 0 <= i < ep.len() && (#[trigger] ep[i]).0 == k;
                assert(ep[i] == es[i]);
            }
            if sp == k {
                assert(es[n].0 == k);
            }
        }
        assert(prefix_count(es, k) == prefix_count(ep, k) + (if proper_prefix(k, sp) { 1nat } else { 0nat }));
        if k == sp {
            assert(!proper_prefix(k, sp));
            assert forall|i: int| 0 <= i < entries.len() && (#[trigger] units(entries)[i]).0 == k implies entries_of(
                entries,
            ).contains_key(k) && entries_of(entries)[k] == EntryModel::Exact(units(entries)[i].1) by {
                if i < n {
                    assert(es[i].0 != es[n].0);
                }
            }
        } else {
            assert forall|i: int| 0 <= i < entries.len() && (#[trigger] units(entries)[i]).0 == k implies entries_of(
                entries,
            ).contains_key(k) && entries_of(entries)[k] == EntryModel::Exact(units(entries)[i].1) by {
                assert(i < n);
                assert(ep[i] == es[i]);
                assert(ep[i].0 == k);
            }
            assert(m1.contains_key(k) == m0.contains_key(k));
            if m0.contains_key(k) {
                assert(m1[k] == m0[k]);
            }
            if proper_prefix(k, sp) {
                if prefix_count(ep, k) == 1 && !spelled(ep, k) {
                    let j = lemma_prefix_count_pos(ep, k);
                    assert(ep[j] == units(p)[j]);
                    assert(m0[k] == EntryModel::Unique(ep[j].1));
                }
                if prefix_count(ep, k) == 0 && !spelled(ep, k) {
                    lemma_prefix_count_zero(ep, k);
                    assert forall|i: int| 0 <= i < entries.len() && proper_prefix(k, (#[trigger] units(entries)[i]).0)
                        implies entries_of(entries)[k] == EntryModel::Unique(units(entries)[i].1) by {
                        if i < n {
                            assert(ep[i] == es[i]);
                        }
                    }
                }
            } else {
                if prefix_count(ep, k) == 1 && !spelled(ep, k) {
                    assert forall|i: int| 0 <= i < entries.len() && proper_prefix(k, (#[trigger] units(entries)[i]).0)
                        implies entries_of(entries)[k] == EntryModel::Unique(units(entries)[i].1) by {
                        assert(i < n);
                        assert(ep[i] == es[i]);
                    }
                }
            }
        }
    }
}

/// With spellings that are not empty and all different, the words loaded
/// give each spelling its word, and each text that starts the spelling of
/// exactly one entry and is no spelling the word of that entry; no other
/// text gives a word. So the order of the entries does not matter.
pub proof fn law_load_dict_words(entries: Seq<(&str, &str)>, k: Seq<u16>)
    requires
        distinct_spellings(units(entries)),
    ensures
        forall|i: int| 0 <= i < entries.len() && (#[trigger] units(entries)[i]).0 == k ==> words_of(entries_of(entries)).contains_key(k)
            && words_of(entries_of(entries))[k] == units(entries)[i].1,
        !spelled(units(entries), k) && prefix_count(units(entries), k) == 1 ==> words_of(entries_of(entries)).contains_key(k)
            && forall|i: int| 0 <= i < entries.len() && proper_prefix(k, (#[trigger] units(entries)[i]).0)
                ==> words_of(entries_of(entries))[k] == units(entries)[i].1,
        !spelled(units(entries), k) && prefix_count(units(entries), k) != 1 ==> !words_of(entries_of(entries)).contains_key(k),
{
    lemma_entries_of(entries, k);
    if !spelled(units(entries), k) && prefix_count(units(entries), k) == 1 {
        let j = lemma_prefix_count_pos(units(entries), k);
        assert(entries_of(entries)[k] == EntryModel::Unique(units(entries)[j].1));
    }
}

/// Reading back: with spellings that are not empty and all different, once
/// the entries are loaded, typing the spelling of an entry alone gives its
/// word.
pub proof fn law_entries_read_back(entries: Seq<(&str, &str)>, i: int)
    requires
        distinct_spellings(units(entries)),
        0 <= i < entries.len(),
    ensures
        segment_keys(words_of(entries_of(entries)), units(entries)[i].0, 0) == units(entries)[i].1,
{
    let d = words_of(entries_of(entries));
    let s = units(entries)[i].0;
    let n = s.len() as int;
    law_load_dict_words(entries, s);
    assert(s.subrange(0, n) =~= s);
    assert(n > 0);
    assert(longest_key(d, s, 0, n) == n);
    assert(segment_keys(d, s, n) == Seq::<u16>::empty());
    assert(d[s] + Seq::<u16>::empty() =~= d[s]);
}

fn same_units(a: &Vec<u16>, b: &Vec<u16>) -> (r: bool)
    ensures
        r == (a@ == b@),
{
    if a.len() != b.len() {
        return false;
    }
    let mut k: usize = 0;
    while k < a.len()
        invariant
            0 <= k <= a@.len(),
            a@.len() == b@.len(),
            forall|j: int| 0 <= j < k ==> a@[j] == b@[j],
        decreases a@.len() - k,
    {
        if a[k] != b[k] {
            return false;
        }
        k = k + 1;
    }
    assert(a@ =~= b@);
    true
}

/// Whether the spellings of a word table are not empty and all different,
/// so that [`law_entries_read_back`] holds of it.
pub fn has_distinct_spellings(entries: &Vec<(&str, &str)>) -> (r: bool)
    ensures
        r == distinct_spellings(units(entries@)),
{
    let ghost es = units(entries@);
    let mut sps: Vec<Vec<u16>> = Vec::new();
    let mut i: usize = 0;
    while i < entries.len()
        invariant
            0 <= i <= entries@.len(),
            es == units(entries@),
            sps@.len() == i,
            forall|j: int| 0 <= j < i ==> (#[trigger] sps@[j])@ == es[j].0,
            forall|j: int| 0 <= j < i ==> (#[trigger] sps@[j])@.len() > 0,
        decreases entries@.len() - i,
    {
        let u = utf16_of_str(entries[i].0);
        assert(es[i as int] == (utf16_of(entries@[i as int].0@), utf16_of(entries@[i as int].1@)));
        if u.len() == 0 {
            assert(es[i as int].0.len() == 0);
            return false;
        }
        sps.push(u);
        i = i + 1;
    }
    assert(forall|j: int| 0 <= j < es.len() ==> (#[trigger] es[j]).0.len() > 0) by {
        assert forall|j: int| 0 <= j < es.len() implies (#[trigger] es[j]).0.len() > 0 by {
            assert(sps@[j]@ == es[j].0);
        }
    }
    let n = sps.len();
    let mut a: usize = 0;
    while a < n
        invariant
            0 <= a <= n,
            n == sps@.len(),
            n == es.len(),
            es == units(entries@),
            forall|j: int| 0 <= j < n ==> (#[trigger] sps@[j])@ == es[j].0,
            forall|x: int, y: int| 0 <= x < a && x < y < n ==> (#[trigger] es[x]).0 != (#[trigger] es[y]).0,
        decreases n - a,
    {
        let mut b: usize = a + 1;
        while b < n
            invariant
                a < n,
                a + 1 <= b <= n,
                n == sps@.len(),
                n == es.len(),
                es == units(entries@),
                forall|j: int| 0 <= j < n ==> (#[trigger] sps@[j])@ == es[j].0,
                forall|x: int, y: int| 0 <= x < a && x < y < n ==> (#[trigger] es[x]).0 != (#[trigger] es[y]).0,
                forall|y: int| a < y < b ==> es[a as int].0 != (#[trigger] es[y]).0,
            decreases n - b,
        {
            if same_units(&sps[a], &sps[b]) {
                assert(sps@[a as int]@ == es[a as int].0 && sps@[b as int]@ == es[b as int].0);
                assert(es[a as int].0 == es[b as int].0);
                assert(!distinct_spellings(es));
                return false;
            }
            assert(sps@[a as int]@ == es[a as int].0 && sps@[b as int]@ == es[b as int].0);
            b = b + 1;
        }
        a = a + 1;
    }
    true
}

/// The glyphs of the Sitelen Pona block with their spellings, the table
/// the input method is set up with.
pub fn builtin_words() -> (r: Vec<(&'static str, &'static str)>)
    ensures
        r@.len() == 141,
{
    vec![
        ("a", "\u{F1900}"),
        ("akesi", "\u{F1901}"),
        ("ala", "\u{F1902}"),
        ("alasa", "\u{F1903}"),
        ("ale", "\u{F1904}"),
        ("anpa", "\u{F1905}"),
        ("ante", "\u{F1906}"),
        ("anu", "\u{F1907}"),
        ("awen", "\u{F1908}"),
        ("e", "\u{F1909}"),
        ("en", "\u{F190A}"),
        ("esun", "\u{F190B}"),
        ("ijo", "\u{F190C}"),
        ("ike", "\u{F190D}"),
        ("ilo", "\u{F190E}"),
        ("insa", "\u{F190F}"),
        ("jaki", "\u{F1910}"),
        ("jan", "\u{F1911}"),
        ("jelo", "\u{F1912}"),
        ("jo", "\u{F1913}"),
        ("kala", "\u{F1914}"),
        ("kalama", "\u{F1915}"),
        ("kama", "\u{F1916}"),
        ("kasi", "\u{F1917}"),
        ("ken", "\u{F1918}"),
        ("kepeken", "\u{F1919}"),
        ("kili", "\u{F191A}"),
        ("kiwen", "\u{F191B}"),
        ("ko", "\u{F191C}"),
        ("kon", "\u{F191D}"),
        ("kule", "\u{F191E}"),
        ("kulupu", "\u{F191F}"),
        ("kute", "\u{F1920}"),
        ("la", "\u{F1921}"),
        ("lape", "\u{F1922}"),
        ("laso", "\u{F1923}"),
        ("lawa", "\u{F1924}"),
        ("len", "\u{F1925}"),
        ("lete", "\u{F1926}"),
        ("li", "\u{F1927}"),
        ("lili", "\u{F1928}"),
        ("linja", "\u{F1929}"),
        ("lipu", "\u{F192A}"),
        ("loje", "\u{F192B}"),
        ("lon", "\u{F192C}"),
        ("luka", "\u{F192D}"),
        ("lukin", "\u{F192E}"),
        ("lupa", "\u{F192F}"),
        ("ma", "\u{F1930}"),
        ("mama", "\u{F1931}"),
        ("mani", "\u{F1932}"),
        ("meli", "\u{F1933}"),
        ("mi", "\u{F1934}"),
        ("mije", "\u{F1935}"),
        ("moku", "\u{F1936}"),
        ("moli", "\u{F1937}"),
        ("monsi", "\u{F1938}"),
        ("mu", "\u{F1939}"),
        ("mun", "\u{F193A}"),
        ("musi", "\u{F193B}"),
        ("mute", "\u{F193C}"),
        ("nanpa", "\u{F193D}"),
        ("nasa", "\u{F193E}"),
        ("nasin", "\u{F193F}"),
        ("nena", "\u{F1940}"),
        ("ni", "\u{F1941}"),
        ("nimi", "\u{F1942}"),
        ("noka", "\u{F1943}"),
        ("o", "\u{F1944}"),
        ("olin", "\u{F1945}"),
        ("ona", "\u{F1946}"),
        ("open", "\u{F1947}"),
        ("pakala", "\u{F1948}"),
        ("pali", "\u{F1949}"),
        ("palisa", "\u{F194A}"),
        ("pan", "\u{F194B}"),
        ("pana", "\u{F194C}"),
        ("pi", "\u{F194D}"),
        ("pilin", "\u{F194E}"),
        ("pimeja", "\u{F194F}"),
        ("pini", "\u{F1950}"),
        ("pipi", "\u{F1951}"),
        ("poka", "\u{F1952}"),
        ("poki", "\u{F1953}"),
        ("pona", "\u{F1954}"),
        ("pu", "\u{F1955}"),
        ("sama", "\u{F1956}"),
        ("seli", "\u{F1957}"),
        ("selo", "\u{F1958}"),
        ("seme", "\u{F1959}"),
        ("sewi", "\u{F195A}"),
        ("sijelo", "\u{F195B}"),
        ("sike", "\u{F195C}"),
        ("sin", "\u{F195D}"),
        ("sina", "\u{F195E}"),
        ("sinpin", "\u{F195F}"),
        ("sitelen", "\u{F1960}"),
        ("sona", "\u{F1961}"),
        ("soweli", "\u{F1962}"),
        ("suli", "\u{F1963}"),
        ("suno", "\u{F1964}"),
        ("supa", "\u{F1965}"),
        ("suwi", "\u{F1966}"),
        ("tan", "\u{F1967}"),
        ("taso", "\u{F1968}"),
        ("tawa", "\u{F1969}"),
        ("telo", "\u{F196A}"),
        ("tenpo", "\u{F196B}"),
        ("toki", "\u{F196C}"),
        ("tomo", "\u{F196D}"),
        ("tu", "\u{F196E}"),
        ("unpa", "\u{F196F}"),
        ("uta", "\u{F1970}"),
        ("utala", "\u{F1971}"),
        ("walo", "\u{F1972}"),
        ("wan", "\u{F1973}"),
        ("waso", "\u{F1974}"),
        ("wawa", "\u{F1975}"),
        ("weka", "\u{F1976}"),
        ("wile", "\u{F1977}"),
        ("namako", "\u{F1978}"),
        ("kin", "\u{F1979}"),
        ("oko", "\u{F197A}"),
        ("kipisi", "\u{F197B}"),
        ("leko", "\u{F197C}"),
        ("monsuta", "\u{F197D}"),
        ("tonsi", "\u{F197E}"),
        ("jasima", "\u{F197F}"),
        ("kijetesantakalu", "\u{F1980}"),
        ("soko", "\u{F1981}"),
        ("meso", "\u{F1982}"),
        ("epiku", "\u{F1983}"),
        ("kokosila", "\u{F1984}"),
        ("lanpan", "\u{F1985}"),
        ("n", "\u{F1986}"),
        ("misikeke", "\u{F1987}"),
        ("ku", "\u{F1988}"),
        ("pake", "\u{F19A0}"),
        ("apeja", "\u{F19A1}"),
        ("majuna", "\u{F19A2}"),
        ("powe", "\u{F19A3}"),
    ]
}

/// The punctuators and what they are remapped to.
pub fn builtin_puncts() -> (r: Vec<(char, &'static str)>)
    ensures
        r@.len() == 12,
        forall|i: int| 0 <= i < r@.len() ==> (#[trigger] r@[i]).0 as u32 <= 0xFFFF,
{
    vec![
        ('[', "\u{F1990}"),
        (']', "\u{F1991}"),
        ('+', "\u{F1995}"),
        ('-', "\u{F1996}"),
        ('(', "\u{F1997}"),
        (')', "\u{F1998}"),
        ('{', "\u{F199A}"),
        ('}', "\u{F199B}"),
        ('.', "\u{F199C}"),
        (':', "\u{F199D}"),
        ('<', "\u{300C}"),
        ('>', "\u{300D}"),
    ]
}

/// The table of words and punctuators: the punctuators of `puncts` in
/// order, then the words of `words` loaded.
pub fn setup_from(words: Vec<(&str, &str)>, puncts: &Vec<(char, &str)>) -> (e: Engine)
    requires
        forall|i: int| 0 <= i < puncts@.len() ==> (#[trigger] puncts@[i]).0 as u32 <= 0xFFFF,
    ensures
        e.wf(),
        e@.dict == words_of(entries_of(words@)),
        e@.puncts == puncts_of(puncts@),
{
    let mut e = Engine::new();
    let mut i: usize = 0;
    while i < puncts.len()
        invariant
            0 <= i <= puncts@.len(),
            e.wf(),
            e@.puncts == puncts_of(puncts@.take(i as int)),
            forall|j: int| 0 <= j < puncts@.len() ==> (#[trigger] puncts@[j]).0 as u32 <= 0xFFFF,
        decreases puncts@.len() - i,
    {
        let (p, o) = puncts[i];
        proof {
            assert(puncts@.take(i + 1).drop_last() =~= puncts@.take(i as int));
            assert(puncts@[i as int].0 as u32 <= 0xFFFF);
        }
        e.insert_punt(p, o);
        i = i + 1;
    }
    proof {
        assert(puncts@.take(puncts@.len() as int) =~= puncts@);
    }
    e.load_dict(words);
    e
}

/// The punctuators of a table, a later one over an earlier one.
pub open spec fn puncts_of(ps: Seq<(char, &str)>) -> Map<u16, Seq<u16>>
    decreases ps.len(),
{
    if ps.len() == 0 {
        Map::empty()
    } else {
        puncts_of(ps.drop_last()).insert(ps.last().0 as u16, utf16_of(ps.last().1@))
    }
}

/// The table the input method is set up with (see [`builtin_words`] and
/// [`builtin_puncts`]).
pub fn setup() -> (e: Engine)
    ensures
        e.wf(),
{
    let puncts = builtin_puncts();
    setup_from(builtin_words(), &puncts)
}

} // verus!
