use vstd::prelude::*;
use crate::text::{utf16_of, utf16_of_str};
use crate::wide::{copy_units, extend_units, WideMap};

verus! {

/// What a spelling gives.
pub enum Entry {
    /// The spelling is the exact spelling of the word.
    Exact(Vec<u16>),
    /// The spelling is the prefix of exactly one word.
    Unique(Vec<u16>),
    /// The spelling is the prefix of several words.
    Duplicate,
}

/// The mathematical value of an [`Entry`].
pub enum EntryModel {
    Exact(Seq<u16>),
    Unique(Seq<u16>),
    Duplicate,
}

impl View for Entry {
    type V = EntryModel;

    open spec fn view(&self) -> EntryModel {
        match self {
            Entry::Exact(w) => EntryModel::Exact(w@),
            Entry::Unique(w) => EntryModel::Unique(w@),
            Entry::Duplicate => EntryModel::Duplicate,
        }
    }
}

/// The entries of a map, by their views.
pub open spec fn entry_views(m: Map<Seq<u16>, Entry>) -> Map<Seq<u16>, EntryModel> {
    m.map_values(|e: Entry| e@)
}

/// The entry of the prefix `p` after a word with that prefix was added: a
/// new prefix is unique, a prefix of several words is a duplicate, an exact
/// spelling stays.
pub open spec fn add_prefix(m: Map<Seq<u16>, EntryModel>, p: Seq<u16>, w: Seq<u16>) -> Map<Seq<u16>, EntryModel> {
    if !m.contains_key(p) {
        m.insert(p, EntryModel::Unique(w))
    } else {
        match m[p] {
            EntryModel::Exact(_) => m,
            _ => m.insert(p, EntryModel::Duplicate),
        }
    }
}

/// Adds the word `w` under the prefixes of `sp` of length `k` to
/// `sp.len() - 1`.
pub open spec fn add_prefixes(m: Map<Seq<u16>, EntryModel>, sp: Seq<u16>, w: Seq<u16>, k: int) -> Map<Seq<u16>, EntryModel>
    decreases sp.len() - k,
{
    if k >= sp.len() {
        m
    } else {
        add_prefixes(add_prefix(m, sp.take(k), w), sp, w, k + 1)
    }
}

/// The entries after the word `w` spelled `sp` was added.
pub open spec fn insert_word(m: Map<Seq<u16>, EntryModel>, sp: Seq<u16>, w: Seq<u16>) -> Map<Seq<u16>, EntryModel> {
    add_prefixes(m.insert(sp, EntryModel::Exact(w)), sp, w, 1)
}

proof fn lemma_views_insert(m: Map<Seq<u16>, Entry>, k: Seq<u16>, v: Entry)
    ensures
        entry_views(m.insert(k, v)) == entry_views(m).insert(k, v@),
{
    assert(entry_views(m.insert(k, v)) =~= entry_views(m).insert(k, v@));
}

/// Adds the word `word` spelled `spelling` to the entries.
pub fn insert_entry(map: &mut WideMap<Entry>, spelling: &str, word: &str)
    requires
        old(map).wf(),
    ensures
        final(map).wf(),
        entry_views(final(map)@) == insert_word(entry_views(old(map)@), utf16_of(spelling@), utf16_of(word@)),
{
    let sp = utf16_of_str(spelling);
    let w = utf16_of_str(word);
    let ghost m0 = entry_views(map@);
    let first = Entry::Exact(copy_units(&w));
    proof {
        lemma_views_insert(map@, sp@, first);
        assert(sp@.subrange(0, sp@.len() as int) =~= sp@);
    }
    map.set(&sp, 0, sp.len(), first);
    let mut len: usize = 1;
    while len < sp.len()
        invariant
            1 <= len,
            map.wf(),
            add_prefixes(entry_views(map@), sp@, w@, len as int) == insert_word(m0, sp@, w@),
        decreases sp@.len() - len,
    {
        let ghost mv = entry_views(map@);
        let ghost p = sp@.take(len as int);
        proof {
            assert(sp@.subrange(0, len as int) =~= p);
        }
        let got = map.get(&sp, 0, len);
        let step: Option<Entry> = match got {
            None => Some(Entry::Unique(copy_units(&w))),
            Some(Entry::Exact(_)) => None,
            Some(_) => Some(Entry::Duplicate),
        };
        match step {
            Some(e) => {
                proof {
                    lemma_views_insert(map@, p, e);
                }
                map.set(&sp, 0, len, e);
            },
            None => {},
        }
        proof {
            assert(entry_views(map@) == add_prefix(mv, p, w@));
        }
        len = len + 1;
    }
    proof {
        if sp@.len() == 0 {
            assert(add_prefixes(entry_views(map@), sp@, w@, 1) == entry_views(map@));
        }
    }
}

/// The word an entry gives, if it is not a duplicate.
pub open spec fn word_of(e: EntryModel) -> Option<Seq<u16>> {
    match e {
        EntryModel::Exact(w) => Some(w),
        EntryModel::Unique(w) => Some(w),
        EntryModel::Duplicate => None,
    }
}

/// The end of the longest text `letters[from..t]`, `t <= to`, that gives a
/// word; `from` when there is none.
pub open spec fn longest_word(m: Map<Seq<u16>, EntryModel>, letters: Seq<u16>, from: int, to: int) -> int
    decreases to - from,
{
    if to <= from {
        from
    } else if m.contains_key(letters.subrange(from, to)) && word_of(m[letters.subrange(from, to)]) is Some {
        to
    } else {
        longest_word(m, letters, from, to - 1)
    }
}

/// The longest word read from `from` ends between `from` and `to`, and is
/// a spelling of the dictionary with a word when it is not empty.
pub proof fn lemma_longest_word(m: Map<Seq<u16>, EntryModel>, letters: Seq<u16>, from: int, to: int)
    requires
        from <= to,
    ensures
        from <= longest_word(m, letters, from, to) <= to,
        longest_word(m, letters, from, to) > from ==> m.contains_key(
            letters.subrange(from, longest_word(m, letters, from, to)),
        ) && word_of(m[letters.subrange(from, longest_word(m, letters, from, to))]) is Some,
    decreases to - from,
{
    if to > from {
        lemma_longest_word(m, letters, from, to - 1);
    }
}

/// The words of `letters` from `from` on: the longest text that gives a
/// word is read, then what follows it, until no text gives a word.
pub open spec fn segment(m: Map<Seq<u16>, EntryModel>, letters: Seq<u16>, from: int) -> Seq<u16>
    decreases letters.len() - from,
{
    if from >= letters.len() {
        Seq::empty()
    } else {
        let t = longest_word(m, letters, from, letters.len() as int);
        proof {
            lemma_longest_word(m, letters, from, letters.len() as int);
        }
        if t > from {
            word_of(m[letters.subrange(from, t)]).unwrap() + segment(m, letters, t)
        } else {
            Seq::empty()
        }
    }
}

/// What is left to read while looking for a word between `from` and `to`.
pub open spec fn segment_scan(m: Map<Seq<u16>, EntryModel>, letters: Seq<u16>, from: int, to: int) -> Seq<u16> {
    let t = longest_word(m, letters, from, to);
    if t > from {
        word_of(m[letters.subrange(from, t)]).unwrap() + segment(m, letters, t)
    } else {
        Seq::empty()
    }
}

/// Reads `letters` as words, longest first (see [`segment`]).
pub fn read_words(map: &WideMap<Entry>, letters: &[u16]) -> (r: Vec<u16>)
    requires
        map.wf(),
    ensures
        r@ == segment(entry_views(map@), letters@, 0),
{
    let ghost m = entry_views(map@);
    let ghost l = letters@;
    let n = letters.len();
    let mut from: usize = 0;
    let mut to: usize = n;
    let mut result: Vec<u16> = Vec::new();
    proof {
        lemma_longest_word(m, l, 0, n as int);
    }
    while from < to
        invariant
            0 <= from <= to <= n,
            n == l.len(),
            l == letters@,
            m == entry_views(map@),
            map.wf(),
            result@ + segment_scan(m, l, from as int, to as int) == segment(m, l, 0),
        decreases n - from, to - from,
    {
        let got = map.get(letters, from, to);
        let ghost key = l.subrange(from as int, to as int);
        let word: Option<&Vec<u16>> = match got {
            Some(Entry::Exact(w)) => Some(w),
            Some(Entry::Unique(w)) => Some(w),
            _ => None,
        };
        match word {
            Some(w) => {
                proof {
                    assert(m.contains_key(key));
                    assert(word_of(m[key]) == Some(w@));
                    assert(longest_word(m, l, from as int, to as int) == to);
                    if (to as int) < (n as int) {
                        lemma_longest_word(m, l, to as int, n as int);
                    } else {
                        assert(segment(m, l, to as int) =~= Seq::<u16>::empty());
                    }
                }
                let ghost before = result@;
                extend_units(&mut result, w);
                proof {
                    assert(before + segment_scan(m, l, from as int, to as int) == segment(m, l, 0));
                    assert(segment_scan(m, l, from as int, to as int) == w@ + segment(m, l, to as int));
                    assert(segment(m, l, to as int) == segment_scan(m, l, to as int, n as int));
                    assert(result@ + segment_scan(m, l, to as int, n as int) =~= before + (w@ + segment(m, l, to as int)));
                }
                from = to;
                to = n;
            },
            None => {
                proof {
                    assert(!(m.contains_key(key) && word_of(m[key]) is Some));
                    assert(longest_word(m, l, from as int, to as int) == longest_word(m, l, from as int, to - 1));
                }
                to = to - 1;
            },
        }
    }
    proof {
        assert(segment_scan(m, l, from as int, to as int) =~= Seq::<u16>::empty());
        assert(result@ =~= segment(m, l, 0));
    }
    result
}

/// A dictionary of words, each found by its spelling and by the prefixes of
/// its spelling.
pub struct Dict {
    suggestions: WideMap<Entry>,
}

impl View for Dict {
    type V = Map<Seq<u16>, EntryModel>;

    closed spec fn view(&self) -> Map<Seq<u16>, EntryModel> {
        entry_views(self.suggestions@)
    }
}

impl Dict {
    pub closed spec fn wf(&self) -> bool {
        self.suggestions.wf()
    }

    /// An empty dictionary.
    pub fn new() -> (d: Dict)
        ensures
            d.wf(),
            d@ == Map::<Seq<u16>, EntryModel>::empty(),
    {
        let d = Dict { suggestions: WideMap::new() };
        proof {
            assert(d@ =~= Map::<Seq<u16>, EntryModel>::empty());
        }
        d
    }

    /// Adds a word with its spelling.
    pub fn insert(&mut self, spelling: &str, word: &str)
        requires
            old(self).wf(),
        ensures
            final(self).wf(),
            final(self)@ == insert_word(old(self)@, utf16_of(spelling@), utf16_of(word@)),
    {
        insert_entry(&mut self.suggestions, spelling, word);
    }

    /// The words that `letters` spell, read longest first.
    fn suggest(&self, letters: &[u16]) -> (r: Vec<u16>)
        requires
            self.wf(),
        ensures
            r@ == segment(self@, letters@, 0),
    {
        read_words(&self.suggestions, letters)
    }
}

/// The words that `letters` spell in the dictionary, read longest first.
pub fn suggest(dict: &Dict, letters: &[u16]) -> (r: Vec<u16>)
    requires
        dict.wf(),
    ensures
        r@ == segment(dict@, letters@, 0),
{
    dict.suggest(letters)
}

} // verus!
