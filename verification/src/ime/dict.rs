use vstd::prelude::*;
use crate::dict::{entry_views, insert_entry, insert_word, add_prefixes, add_prefix, Entry, EntryModel};
use crate::text::{utf16_of, utf16_of_str};
use crate::wide::{extend_units, WideMap};

verus! {

/// Whether the entry is exact (`exact`) or a unique prefix (`!exact`).
pub open spec fn is_kind(e: EntryModel, exact: bool) -> bool {
    if exact {
        e is Exact
    } else {
        e is Unique
    }
}

/// The word of an exact or unique entry.
pub open spec fn entry_word(e: EntryModel) -> Seq<u16> {
    match e {
        EntryModel::Exact(w) => w,
        EntryModel::Unique(w) => w,
        EntryModel::Duplicate => Seq::empty(),
    }
}

/// The end of the longest text `letters[from..t]`, `t <= to`, whose entry is
/// of the kind asked; `from` when there is none.
pub open spec fn longest_kind(m: Map<Seq<u16>, EntryModel>, l: Seq<u16>, from: int, to: int, exact: bool) -> int
    decreases to - from,
{
    if to <= from {
        from
    } else if m.contains_key(l.subrange(from, to)) && is_kind(m[l.subrange(from, to)], exact) {
        to
    } else {
        longest_kind(m, l, from, to - 1, exact)
    }
}

/// The longest spelling of the kind read from `from` ends between `from`
/// and `to`.
pub proof fn lemma_longest_kind(m: Map<Seq<u16>, EntryModel>, l: Seq<u16>, from: int, to: int, exact: bool)
    requires
        from <= to,
    ensures
        from <= longest_kind(m, l, from, to, exact) <= to,
    decreases to - from,
{
    if to > from {
        lemma_longest_kind(m, l, from, to - 1, exact);
    }
}

/// The words of `l` from `from` on: the longest exact spelling is read;
/// when there is none, the longest unique prefix; when there is none
/// either, reading stops.
pub open spec fn read_exact_first(m: Map<Seq<u16>, EntryModel>, l: Seq<u16>, from: int) -> Seq<u16>
    decreases l.len() - from,
{
    if from >= l.len() {
        Seq::empty()
    } else {
        let e = longest_kind(m, l, from, l.len() as int, true);
        let u = longest_kind(m, l, from, l.len() as int, false);
        proof {
            lemma_longest_kind(m, l, from, l.len() as int, true);
            lemma_longest_kind(m, l, from, l.len() as int, false);
        }
        if e > from {
            entry_word(m[l.subrange(from, e)]) + read_exact_first(m, l, e)
        } else if u > from {
            entry_word(m[l.subrange(from, u)]) + read_exact_first(m, l, u)
        } else {
            Seq::empty()
        }
    }
}

/// What is left to read while looking for a unique prefix between `from`
/// and `to`.
pub open spec fn unique_scan(m: Map<Seq<u16>, EntryModel>, l: Seq<u16>, from: int, to: int) -> Seq<u16> {
    let u = longest_kind(m, l, from, to, false);
    if u > from {
        entry_word(m[l.subrange(from, u)]) + read_exact_first(m, l, u)
    } else {
        Seq::empty()
    }
}

/// What is left to read while looking for an exact spelling between `from`
/// and `to`.
pub open spec fn exact_scan(m: Map<Seq<u16>, EntryModel>, l: Seq<u16>, from: int, to: int) -> Seq<u16> {
    let e = longest_kind(m, l, from, to, true);
    if e > from {
        entry_word(m[l.subrange(from, e)]) + read_exact_first(m, l, e)
    } else {
        unique_scan(m, l, from, l.len() as int)
    }
}

/// No unique prefix is empty.
pub open spec fn no_empty_unique(m: Map<Seq<u16>, EntryModel>) -> bool {
    m.contains_key(Seq::empty()) ==> !(m[Seq::empty()] is Unique)
}

proof fn lemma_prefixes_keep_empty(m: Map<Seq<u16>, EntryModel>, sp: Seq<u16>, w: Seq<u16>, k: int)
    requires
        k >= 1,
        no_empty_unique(m),
    ensures
        no_empty_unique(add_prefixes(m, sp, w, k)),
    decreases sp.len() - k,
{
    if k < sp.len() {
        let p = sp.take(k);
        assert(p.len() == k);
        assert(p != Seq::<u16>::empty());
        lemma_prefixes_keep_empty(add_prefix(m, p, w), sp, w, k + 1);
    }
}

/// A dictionary of words that reads exact spellings before unique prefixes.
pub struct Dict {
    suggestions: WideMap<Entry>,
}

impl View for Dict {
    type V = Map<Seq<u16>, EntryModel>;

    closed spec fn view(&self) -> Map<Seq<u16>, EntryModel> {
        entry_views(self.suggestions@)
    }
}

impl Dict {
    pub closed spec fn wf(&self) -> bool {
        self.suggestions.wf() && no_empty_unique(self@)
    }

    /// An empty dictionary.
    pub fn new() -> (d: Dict)
        ensures
            d.wf(),
            d@ == Map::<Seq<u16>, EntryModel>::empty(),
    {
        let d = Dict { suggestions: WideMap::new() };
        proof {
            assert(d@ =~= Map::<Seq<u16>, EntryModel>::empty());
        }
        d
    }

    /// Adds a word with its spelling.
    pub fn insert(&mut self, spelling: &str, word: &str)
        requires
            old(self).wf(),
        ensures
            final(self).wf(),
            final(self)@ == insert_word(old(self)@, utf16_of(spelling@), utf16_of(word@)),
    {
        let ghost m0 = self@;
        insert_entry(&mut self.suggestions, spelling, word);
        proof {
            let sp = utf16_of(spelling@);
            let w = utf16_of(word@);
            let m1 = m0.insert(sp, EntryModel::Exact(w));
            assert(no_empty_unique(m1));
            lemma_prefixes_keep_empty(m1, sp, w, 1);
        }
    }

    /// The words that `letters` spell: exact spellings first, a unique
    /// prefix where no exact spelling follows (see [`read_exact_first`]).
    pub fn suggest(&self, letters: &Vec<u16>) -> (r: Vec<u16>)
        requires
            self.wf(),
            letters@.len() > 0,
        ensures
            r@ == read_exact_first(self@, letters@, 0),
    {
        let ghost m = self@;
        let ghost l = letters@;
        let n = letters.len();
        let mut from: usize = 0;
        let mut to: usize = n;
        let mut result: Vec<u16> = Vec::new();
        let mut only_exact = true;
        proof {
            lemma_longest_kind(m, l, 0, n as int, true);
            lemma_longest_kind(m, l, 0, n as int, false);
        }
        loop
            invariant_except_break
                0 <= from <= to <= n,
                n == l.len(),
                n > 0,
                l == letters@,
                m == self@,
                self.wf(),
                from < to || (from == n && to == n && !only_exact),
                only_exact ==> result@ + exact_scan(m, l, from as int, to as int) == read_exact_first(m, l, 0),
                !only_exact ==> result@ + unique_scan(m, l, from as int, to as int) == read_exact_first(m, l, 0),
            ensures
                result@ == read_exact_first(m, l, 0),
            decreases n - from, (if only_exact { 1int } else { 0int }), to,
        {
            let got = self.suggestions.get(letters.as_slice(), from, to);
            let ghost key = l.subrange(from as int, to as int);
            proof {
                lemma_longest_kind(m, l, from as int, to as int, true);
                lemma_longest_kind(m, l, from as int, to as int, false);
                lemma_longest_kind(m, l, to as int, n as int, true);
                lemma_longest_kind(m, l, to as int, n as int, false);
            }
            let taken: Option<&Vec<u16>> = match got {
                Some(Entry::Exact(w)) => if only_exact {
                    Some(w)
                } else {
                    None
                },
                Some(Entry::Unique(w)) => if !only_exact {
                    Some(w)
                } else {
                    None
                },
                _ => None,
            };
            match taken {
                Some(w) => {
                    proof {
                        assert(m.contains_key(key));
                        assert(is_kind(m[key], only_exact));
                        assert(entry_word(m[key]) == w@);
                        if from == to {
                            assert(key =~= Seq::<u16>::empty());
                        }
                        assert(from < to);
                        assert(longest_kind(m, l, from as int, to as int, only_exact) == to);
                        if (to as int) < (n as int) {
                            assert(read_exact_first(m, l, to as int) == exact_scan(m, l, to as int, n as int));
                        } else {
                            assert(read_exact_first(m, l, to as int) =~= Seq::<u16>::empty());
                        }
                    }
                    let ghost before = result@;
                    extend_units(&mut result, w);
                    proof {
                        assert(result@ + read_exact_first(m, l, to as int) =~= before + (w@ + read_exact_first(m, l, to as int)));
                    }
                    from = to;
                    to = n;
                    only_exact = true;
                    if from >= to {
                        only_exact = false;
                        proof {
                            assert(unique_scan(m, l, n as int, n as int) =~= Seq::<u16>::empty());
                            assert(read_exact_first(m, l, n as int) =~= Seq::<u16>::empty());
                        }
                    }
                },
                None => {
                    proof {
                        if from < to {
                            assert(!(m.contains_key(key) && is_kind(m[key], only_exact)));
                            assert(longest_kind(m, l, from as int, to as int, only_exact) == longest_kind(
                                m,
                                l,
                                from as int,
                                to - 1,
                                only_exact,
                            ));
                        }
                    }
                    to = to - 1;
                    if from >= to {
                        if only_exact {
                            to = n;
                            only_exact = false;
                        } else {
                            proof {
                                assert(result@ + unique_scan(m, l, from as int, from as int) == read_exact_first(m, l, 0)
                                    || from > to);
                                assert(unique_scan(m, l, from as int, from as int) =~= Seq::<u16>::empty());
                            }
                            break;
                        }
                    }
                },
            }
        }
        result
    }
}

/// The only word this early dictionary knows: `ike`.
pub fn suggest(letters: &[u16]) -> (r: Vec<u16>)
    ensures
        r@ == (if letters@ == utf16_of("ike"@) { utf16_of("\u{3B57}"@) } else { Seq::empty() }),
{
    let ike = utf16_of_str("ike");
    let mut same = ike.len() == letters.len();
    let mut k: usize = 0;
    while same && k < ike.len()
        invariant
            0 <= k <= ike@.len(),
            same ==> ike@.len() == letters@.len(),
            same ==> forall|j: int| 0 <= j < k ==> ike@[j] == letters@[j],
            !same ==> ike@ != letters@,
        decreases ike@.len() - k,
    {
        if ike[k] != letters[k] {
            same = false;
        }
        k = k + 1;
    }
    if same {
        assert(ike@ =~= letters@);
        utf16_of_str("\u{3B57}")
    } else {
        Vec::new()
    }
}

} // verus!
