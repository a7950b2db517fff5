use vstd::prelude::*;
use std::collections::HashMap;
use vstd::hash_map::StringHashMap;
use crate::text::{is_word_char, copy_strings, is_scalar, parse_hex_u32, spec_is_whitespace, views,
    chars_of, is_alphanumeric, is_whitespace, char_from_u32, parse_hex_u32_exec, string_of,
    string_of_range, string_of_char};

verus! {

broadcast use vstd::std_specs::hash::group_hash_axioms;

/// Why a spelling is mapped to certain word(s).
pub enum Candidate {
    /// The spelling is the exact spelling of a word, and may also be a prefix
    /// of other words. For example, `"li"` is `Exact("li", ["lili", "linja", "lipu"])`.
    Exact(String, Vec<String>),
    /// The spelling is the prefix of exactly one word.
    /// For example, `"kije"` is `Unique("kijetesantakalu")`.
    Unique(String),
    /// The spelling is not an exact spelling, and the prefix of several words.
    /// For example, `"an"` is `Duplicates(["anpa", "ante", "anu"])`.
    Duplicates(Vec<String>),
}

/// The mathematical value of a [`Candidate`].
pub enum Cand {
    Exact(Seq<char>, Seq<Seq<char>>),
    Unique(Seq<char>),
    Duplicates(Seq<Seq<char>>),
}

impl View for Candidate {
    type V = Cand;

    open spec fn view(&self) -> Cand {
        match self {
            Candidate::Exact(w, ws) => Cand::Exact(w@, views(ws@)),
            Candidate::Unique(w) => Cand::Unique(w@),
            Candidate::Duplicates(ws) => Cand::Duplicates(views(ws@)),
        }
    }
}

impl Candidate {
    /// A copy of the candidate.
    pub fn copy(&self) -> (r: Candidate)
        ensures
            r@ == self@,
    {
        match self {
            Candidate::Exact(w, ws) => Candidate::Exact(w.clone(), copy_strings(ws)),
            Candidate::Unique(w) => Candidate::Unique(w.clone()),
            Candidate::Duplicates(ws) => Candidate::Duplicates(copy_strings(ws)),
        }
    }
}

/// Punctuators and the characters they are remapped to.
pub struct PunctMap {
    m: HashMap<u32, char>,
}

impl View for PunctMap {
    type V = Map<char, char>;

    closed spec fn view(&self) -> Map<char, char> {
        Map::new(|c: char| self.m@.contains_key(c as u32), |c: char| self.m@[c as u32])
    }
}

impl PunctMap {
    pub fn new() -> (r: PunctMap)
        ensures
            r@ == Map::<char, char>::empty(),
    {
        let r = PunctMap { m: HashMap::new() };
        assert(r@ =~= Map::<char, char>::empty());
        r
    }

    pub fn insert(&mut self, k: char, v: char)
        ensures
            final(self)@ == old(self)@.insert(k, v),
    {
        self.m.insert(k as u32, v);
        proof {
            assert forall|c: char| #[trigger] self@.contains_key(c) == old(self)@.insert(k, v).contains_key(c) && (self@.contains_key(c) ==> self@[c] == old(self)@.insert(k, v)[c]) by {
                if c == k {
                } else {
                    vstd::utf8::char_u32_cast(c, c as u32);
                    vstd::utf8::char_u32_cast(k, k as u32);
                    assert((c as u32) != (k as u32));
                }
            }
            assert(self@ =~= old(self)@.insert(k, v));
        }
    }

    pub fn get(&self, k: char) -> (r: Option<char>)
        ensures
            r == (if self@.contains_key(k) { Some(self@[k]) } else { None::<char> }),
    {
        match self.m.get(&(k as u32)) {
            Some(v) => Some(*v),
            None => None,
        }
    }
}

/// The mathematical value of a [`Schema`].
pub struct SchemaModel {
    pub candis: Map<Seq<char>, Cand>,
    pub alters: Map<Seq<char>, Seq<Seq<char>>>,
    pub puncts: Map<char, char>,
    pub squote: (char, char),
    pub dquote: (char, char),
}

/// A dictionary with its remapped punctuators, indexed by spelling and by
/// every prefix of a spelling.
pub struct Schema {
    pub candis: StringHashMap<Candidate>,
    pub alters: StringHashMap<Vec<String>>,
    pub puncts: PunctMap,
    pub squote: (char, char),
    pub dquote: (char, char),
}

impl View for Schema {
    type V = SchemaModel;

    open spec fn view(&self) -> SchemaModel {
        SchemaModel {
            candis: self.candis@.map_values(|c: Candidate| c@),
            alters: self.alters@.map_values(|v: Vec<String>| views(v@)),
            puncts: self.puncts@,
            squote: self.squote,
            dquote: self.dquote,
        }
    }
}

//----------------------------------------------------------------------------
//
//  The dictionary file format.
//
//----------------------------------------------------------------------------

/// The lines of `s` from position `i` on, `cur` being the part of the current
/// line before `i`: as `str::lines`, lines end at `\n`, a `\r` before the
/// `\n` is dropped, and a last line is kept only when it is not empty.
pub open spec fn lines_from(s: Seq<char>, i: int, cur: Seq<char>) -> Seq<Seq<char>>
    decreases s.len() - i,
{
    if i >= s.len() {
        if cur.len() > 0 {
            seq![cur]
        } else {
            seq![]
        }
    } else if s[i] == '\n' {
        let line = if cur.len() > 0 && cur.last() == '\r' { cur.drop_last() } else { cur };
        seq![line] + lines_from(s, i + 1, Seq::empty())
    } else {
        lines_from(s, i + 1, cur.push(s[i]))
    }
}

/// The lines of `s`, as `str::lines` gives them.
pub open spec fn lines_of(s: Seq<char>) -> Seq<Seq<char>> {
    lines_from(s, 0, Seq::empty())
}

/// The whitespace separated tokens of `s` from position `i` on, `cur` being
/// the part of the current token before `i` (`str::split_whitespace`).
pub open spec fn tokens_from(s: Seq<char>, i: int, cur: Seq<char>) -> Seq<Seq<char>>
    decreases s.len() - i,
{
    if i >= s.len() {
        if cur.len() > 0 {
            seq![cur]
        } else {
            seq![]
        }
    } else if spec_is_whitespace(s[i]) {
        if cur.len() > 0 {
            seq![cur] + tokens_from(s, i + 1, Seq::empty())
        } else {
            tokens_from(s, i + 1, Seq::empty())
        }
    } else {
        tokens_from(s, i + 1, cur.push(s[i]))
    }
}

/// The whitespace separated tokens of `s`, as `str::split_whitespace`
/// gives them.
pub open spec fn tokens_of(s: Seq<char>) -> Seq<Seq<char>> {
    tokens_from(s, 0, Seq::empty())
}

/// The mathematical value of an atom of a line: a single non-alphanumeric
/// character (possibly written as its code point `U+XXXX`), or a text.
pub enum AtomModel {
    Nanch(char),
    Text(Seq<char>),
}

/// How a (non-empty) token reads.
pub open spec fn atom_of(t: Seq<char>) -> AtomModel {
    if !is_word_char(t[0]) && t.len() == 1 {
        AtomModel::Nanch(t[0])
    } else if t.len() >= 2 && t[0] == 'U' && t[1] == '+' {
        match parse_hex_u32(t.skip(2)) {
            Some(v) => if is_scalar(v) {
                AtomModel::Nanch(v as char)
            } else {
                AtomModel::Text(t)
            },
            None => AtomModel::Text(t),
        }
    } else {
        AtomModel::Text(t)
    }
}

/// How an atom prints.
pub open spec fn atom_text(a: AtomModel) -> Seq<char> {
    match a {
        AtomModel::Nanch(c) => seq![c],
        AtomModel::Text(t) => t,
    }
}

/// The atoms of a line, one for each token.
pub open spec fn atoms_of(line: Seq<char>) -> Seq<AtomModel> {
    tokens_of(line).map_values(|t: Seq<char>| atom_of(t))
}

/// The atom is the single character `c`.
pub open spec fn is_nanch(a: AtomModel, c: char) -> bool {
    a == AtomModel::Nanch(c)
}

/// The character of a single character atom (a space for a text).
pub open spec fn nanch_of(a: AtomModel) -> char {
    match a {
        AtomModel::Nanch(c) => c,
        AtomModel::Text(_) => ' ',
    }
}

/// The candidate of `prefix` after a word with that prefix was added.
pub open spec fn add_word(c: Map<Seq<char>, Cand>, prefix: Seq<char>, w: Seq<char>) -> Cand {
    if !c.contains_key(prefix) {
        Cand::Unique(w)
    } else {
        match c[prefix] {
            Cand::Unique(u) => Cand::Duplicates(seq![u, w]),
            Cand::Duplicates(d) => Cand::Duplicates(d.push(w)),
            Cand::Exact(e, d) => Cand::Exact(e, d.push(w)),
        }
    }
}

/// Records `w` under the prefixes of `sp` of length `k` to `sp.len() - 1`.
pub open spec fn add_prefixes(c: Map<Seq<char>, Cand>, sp: Seq<char>, w: Seq<char>, k: int) -> Map<
    Seq<char>,
    Cand,
>
    decreases sp.len() - k,
{
    if k >= sp.len() {
        c
    } else {
        add_prefixes(c.insert(sp.take(k), add_word(c, sp.take(k), w)), sp, w, k + 1)
    }
}

/// The alternatives of `w` after the alternatives `alts` were added.
pub open spec fn add_alters(a: Map<Seq<char>, Seq<Seq<char>>>, w: Seq<char>, alts: Seq<Seq<char>>) -> Map<
    Seq<char>,
    Seq<Seq<char>>,
> {
    if alts.len() == 0 {
        a
    } else {
        a.insert(w, (if a.contains_key(w) { a[w] } else { Seq::empty() }) + alts)
    }
}

/// The candidate of a spelling after an entry makes it the exact spelling of
/// `w`: the words collected so far that start with the spelling are kept.
pub open spec fn exact_entry(c: Map<Seq<char>, Cand>, sp: Seq<char>, w: Seq<char>) -> Cand {
    if !c.contains_key(sp) {
        Cand::Exact(w, Seq::empty())
    } else {
        match c[sp] {
            Cand::Unique(u) => Cand::Exact(w, seq![u]),
            Cand::Duplicates(d) => Cand::Exact(w, d),
            Cand::Exact(_, d) => Cand::Exact(w, d),
        }
    }
}

/// A dictionary entry: `spelling word alternative...`.
pub open spec fn add_entry(m: SchemaModel, sp: Seq<char>, w: Seq<char>, alts: Seq<Seq<char>>) -> SchemaModel {
    SchemaModel {
        candis: add_prefixes(m.candis.insert(sp, exact_entry(m.candis, sp, w)), sp, w, 1),
        alters: add_alters(m.alters, w, alts),
        ..m
    }
}

/// The effect of one line of a dictionary file.
pub open spec fn apply_line(m: SchemaModel, line: Seq<char>) -> SchemaModel {
    if line.len() == 0 || line[0] == '#' {
        m
    } else {
        let a = atoms_of(line);
        if a.len() == 3 && is_nanch(a[0], '\'') && a[1] is Nanch && a[2] is Nanch {
            SchemaModel { squote: (nanch_of(a[1]), nanch_of(a[2])), ..m }
        } else if a.len() == 3 && is_nanch(a[0], '"') && a[1] is Nanch && a[2] is Nanch {
            SchemaModel { dquote: (nanch_of(a[1]), nanch_of(a[2])), ..m }
        } else if a.len() == 2 && is_nanch(a[0], '\'') && a[1] is Nanch {
            SchemaModel { squote: (nanch_of(a[1]), nanch_of(a[1])), ..m }
        } else if a.len() == 2 && is_nanch(a[0], '"') && a[1] is Nanch {
            SchemaModel { dquote: (nanch_of(a[1]), nanch_of(a[1])), ..m }
        } else if a.len() == 2 && a[0] is Nanch && a[1] is Nanch {
            SchemaModel { puncts: m.puncts.insert(nanch_of(a[0]), nanch_of(a[1])), ..m }
        } else if a.len() >= 2 && a[0] is Text {
            add_entry(
                m,
                atom_text(a[0]),
                atom_text(a[1]),
                a.skip(2).map_values(|x: AtomModel| atom_text(x)),
            )
        } else {
            m
        }
    }
}

/// Whether the line is an entry whose spelling is not ASCII (the prefixes of
/// such a spelling are cut at byte positions that are no char boundary).
pub open spec fn line_fails(line: Seq<char>) -> bool {
    let a = atoms_of(line);
    &&& line.len() > 0
    &&& line[0] != '#'
    &&& a.len() >= 2
    &&& a[0] is Text
    &&& !vstd::utf8::is_ascii_chars(atom_text(a[0]))
}

/// The schema after the lines are read in order.
pub open spec fn apply_lines(m: SchemaModel, ls: Seq<Seq<char>>) -> SchemaModel
    decreases ls.len(),
{
    if ls.len() == 0 {
        m
    } else {
        apply_lines(apply_line(m, ls[0]), ls.drop_first())
    }
}

/// Some line of the dictionary cannot be read (see [`line_fails`]).
pub open spec fn any_line_fails(ls: Seq<Seq<char>>) -> bool {
    exists|i: int| 0 <= i < ls.len() && line_fails(#[trigger] ls[i])
}

/// The schema of an empty dictionary: no word, no punctuator, plain quotes.
pub open spec fn empty_schema() -> SchemaModel {
    SchemaModel {
        candis: Map::empty(),
        alters: Map::empty(),
        puncts: Map::empty(),
        squote: ('\'', '\''),
        dquote: ('"', '"'),
    }
}

/// The schema that a dictionary file describes.
pub open spec fn parse_schema(s: Seq<char>) -> SchemaModel {
    apply_lines(empty_schema(), lines_of(s))
}

/// Whether reading the dictionary file gets stuck on a non-ASCII spelling.
pub open spec fn schema_fails(s: Seq<char>) -> bool {
    any_line_fails(lines_of(s))
}


//----------------------------------------------------------------------------
//
//  Reading a dictionary file.
//
//----------------------------------------------------------------------------

/// The views of a list of character vectors.
pub open spec fn char_vecs(v: Seq<Vec<char>>) -> Seq<Seq<char>> {
    v.map_values(|t: Vec<char>| t@)
}

/// An atom of a line.
enum Atom {
    /// A non-alphanumeric character.
    Nanch(char),
    /// Everything else.
    Text(Vec<char>),
}

impl View for Atom {
    type V = AtomModel;

    closed spec fn view(&self) -> AtomModel {
        match self {
            Atom::Nanch(c) => AtomModel::Nanch(*c),
            Atom::Text(t) => AtomModel::Text(t@),
        }
    }
}

spec fn atom_views(v: Seq<Atom>) -> Seq<AtomModel> {
    v.map_values(|a: Atom| a@)
}

impl Atom {
    fn from(t: &Vec<char>) -> (a: Atom)
        requires
            t@.len() > 0,
        ensures
            a@ == atom_of(t@),
    {
        let first = t[0];
        if !is_alphanumeric(first) && t.len() == 1 {
            Atom::Nanch(first)
        } else if t.len() >= 2 && t[0] == 'U' && t[1] == '+' {
            match parse_hex_u32_exec(t, 2) {
                Some(v) => match char_from_u32(v) {
                    Some(c) => Atom::Nanch(c),
                    None => Atom::Text(t.clone()),
                },
                None => Atom::Text(t.clone()),
            }
        } else {
            Atom::Text(t.clone())
        }
    }

    /// How the atom prints.
    fn to_text(&self) -> (s: String)
        ensures
            s@ == atom_text(self@),
    {
        match self {
            Atom::Nanch(c) => string_of_char(*c),
            Atom::Text(t) => string_of(t),
        }
    }
}

/// `str::split_whitespace` on the characters of a line.
fn tokenize(line: &Vec<char>) -> (r: Vec<Vec<char>>)
    ensures
        char_vecs(r@) == tokens_of(line@),
        forall|i: int| 0 <= i < r@.len() ==> #[trigger] r@[i]@.len() > 0,
{
    let mut toks: Vec<Vec<char>> = Vec::new();
    let mut cur: Vec<char> = Vec::new();
    let mut i: usize = 0;
    while i < line.len()
        invariant
            0 <= i <= line@.len(),
            char_vecs(toks@) + tokens_from(line@, i as int, cur@) == tokens_of(line@),
            forall|k: int| 0 <= k < toks@.len() ==> #[trigger] toks@[k]@.len() > 0,
        decreases line@.len() - i,
    {
        let c = line[i];
        let ghost before = char_vecs(toks@);
        if is_whitespace(c) {
            if cur.len() > 0 {
                let t = cur;
                cur = Vec::new();
                proof {
                    assert(tokens_from(line@, i as int, t@) == seq![t@] + tokens_from(line@, i + 1, Seq::<char>::empty()));
                }
                toks.push(t);
                proof {
                    assert(char_vecs(toks@) =~= before.push(t@));
                    assert(before + (seq![t@] + tokens_from(line@, i + 1, Seq::<char>::empty())) =~= before.push(t@) + tokens_from(line@, i + 1, Seq::<char>::empty()));
                }
            } else {
                proof {
                    assert(cur@ =~= Seq::<char>::empty());
                }
            }
        } else {
            cur.push(c);
        }
        i = i + 1;
    }
    if cur.len() > 0 {
        let ghost before = char_vecs(toks@);
        let ghost cv = cur@;
        toks.push(cur);
        proof {
            assert(char_vecs(toks@) =~= before.push(cv));
            assert(before + seq![cv] =~= before.push(cv));
        }
    } else {
        proof {
            assert(char_vecs(toks@) + Seq::<Seq<char>>::empty() =~= char_vecs(toks@));
        }
    }
    toks
}

/// The atoms of a line.
fn atomize(line: &Vec<char>) -> (r: Vec<Atom>)
    ensures
        atom_views(r@) == atoms_of(line@),
{
    let toks = tokenize(line);
    let ghost tv = char_vecs(toks@);
    let mut atoms: Vec<Atom> = Vec::new();
    let mut k: usize = 0;
    while k < toks.len()
        invariant
            0 <= k <= toks@.len(),
            tv == char_vecs(toks@),
            tv == tokens_of(line@),
            forall|i: int| 0 <= i < toks@.len() ==> #[trigger] toks@[i]@.len() > 0,
            atom_views(atoms@) == tv.take(k as int).map_values(|t: Seq<char>| atom_of(t)),
        decreases toks@.len() - k,
    {
        assert(toks@[k as int]@.len() > 0);
        let a = Atom::from(&toks[k]);
        let ghost before = atom_views(atoms@);
        atoms.push(a);
        proof {
            assert(tv[k as int] == toks@[k as int]@);
            assert(atom_views(atoms@) =~= before.push(a@));
            assert(tv.take(k + 1).map_values(|t: Seq<char>| atom_of(t)) =~= tv.take(k as int).map_values(
                |t: Seq<char>| atom_of(t),
            ).push(atom_of(tv[k as int])));
        }
        k = k + 1;
    }
    proof {
        assert(tv.take(k as int) =~= tv);
    }
    atoms
}

proof fn lemma_candis_insert(m: Map<Seq<char>, Candidate>, k: Seq<char>, v: Candidate)
    ensures
        m.insert(k, v).map_values(|c: Candidate| c@) =~= m.map_values(|c: Candidate| c@).insert(k, v@),
{
}

proof fn lemma_alters_insert(m: Map<Seq<char>, Vec<String>>, k: Seq<char>, v: Vec<String>)
    ensures
        m.insert(k, v).map_values(|x: Vec<String>| views(x@)) =~= m.map_values(
            |x: Vec<String>| views(x@),
        ).insert(k, views(v@)),
{
}

impl Schema {
    /// A schema with no entries and the plain quotes.
    pub fn empty() -> (s: Schema)
        ensures
            s@ == empty_schema(),
    {
        let s = Schema {
            candis: StringHashMap::new(),
            alters: StringHashMap::new(),
            puncts: PunctMap::new(),
            squote: ('\'', '\''),
            dquote: ('"', '"'),
        };
        proof {
            assert(s@.candis =~= Map::<Seq<char>, Cand>::empty());
            assert(s@.alters =~= Map::<Seq<char>, Seq<Seq<char>>>::empty());
        }
        s
    }

    /// Records `word` under a prefix of its spelling.
    fn add_word(&mut self, prefix: String, word: &String)
        ensures
            final(self)@ == (SchemaModel {
                candis: old(self)@.candis.insert(prefix@, add_word(old(self)@.candis, prefix@, word@)),
                ..old(self)@
            }),
    {
        let c = match self.candis.get(prefix.as_str()) {
            None => Candidate::Unique(word.clone()),
            Some(Candidate::Unique(u)) => {
                let mut d: Vec<String> = Vec::new();
                d.push(u.clone());
                d.push(word.clone());
                proof {
                    assert(views(d@) =~= seq![u@, word@]);
                }
                Candidate::Duplicates(d)
            },
            Some(Candidate::Duplicates(d)) => {
                let mut d2 = copy_strings(d);
                d2.push(word.clone());
                proof {
                    assert(views(d2@) =~= views(d@).push(word@));
                }
                Candidate::Duplicates(d2)
            },
            Some(Candidate::Exact(e, d)) => {
                let mut d2 = copy_strings(d);
                d2.push(word.clone());
                proof {
                    assert(views(d2@) =~= views(d@).push(word@));
                }
                Candidate::Exact(e.clone(), d2)
            },
        };
        let ghost cv = c@;
        assert(cv == add_word(old(self)@.candis, prefix@, word@));
        proof {
            lemma_candis_insert(self.candis@, prefix@, c);
        }
        self.candis.insert(prefix, c);
    }

    /// Adds the entry `spelling word alternative...`.
    fn add_entry(&mut self, spelling: &Vec<char>, word: String, alts: Vec<String>)
        requires
            vstd::utf8::is_ascii_chars(spelling@),
        ensures
            final(self)@ == add_entry(old(self)@, spelling@, word@, views(alts@)),
    {
        let ghost m0 = self@;
        let key = string_of(spelling);
        let exact = match self.candis.get(key.as_str()) {
            None => {
                let d: Vec<String> = Vec::new();
                proof {
                    assert(views(d@) =~= Seq::<Seq<char>>::empty());
                }
                Candidate::Exact(word.clone(), d)
            },
            Some(Candidate::Unique(u)) => {
                let mut d: Vec<String> = Vec::new();
                d.push(u.clone());
                proof {
                    assert(views(d@) =~= seq![u@]);
                }
                Candidate::Exact(word.clone(), d)
            },
            Some(Candidate::Duplicates(d)) => Candidate::Exact(word.clone(), copy_strings(d)),
            Some(Candidate::Exact(_, d)) => Candidate::Exact(word.clone(), copy_strings(d)),
        };
        assert(exact@ == exact_entry(m0.candis, spelling@, word@));
        proof {
            lemma_candis_insert(self.candis@, spelling@, exact);
        }
        self.candis.insert(key, exact);
        let ghost c1 = self@.candis;
        let mut len: usize = 1;
        while len < spelling.len()
            invariant
                1 <= len,
                len <= spelling@.len() || spelling@.len() == 0,
                add_prefixes(self@.candis, spelling@, word@, len as int) == add_prefixes(c1, spelling@, word@, 1),
                self@.alters == m0.alters,
                self@.puncts == m0.puncts,
                self@.squote == m0.squote,
                self@.dquote == m0.dquote,
            decreases spelling@.len() - len,
        {
            let prefix = string_of_range(spelling, 0, len);
            proof {
                assert(spelling@.subrange(0, len as int) =~= spelling@.take(len as int));
            }
            self.add_word(prefix, &word);
            len = len + 1;
        }
        let mut k: usize = 0;
        let ghost a0 = m0.alters;
        let ghost base = if a0.contains_key(word@) { a0[word@] } else { Seq::<Seq<char>>::empty() };
        let ghost av = views(alts@);
        while k < alts.len()
            invariant
                0 <= k <= alts@.len(),
                av == views(alts@),
                base == (if a0.contains_key(word@) { a0[word@] } else { Seq::<Seq<char>>::empty() }),
                self@.alters == (if k == 0 { a0 } else { a0.insert(word@, base + av.take(k as int)) }),
                self@.candis == add_prefixes(c1, spelling@, word@, 1),
                self@.puncts == m0.puncts,
                self@.squote == m0.squote,
                self@.dquote == m0.dquote,
            decreases alts@.len() - k,
        {
            let alter = alts[k].clone();
            assert(self@.alters.contains_key(word@) == self.alters@.contains_key(word@));
            assert(self.alters@.contains_key(word@) ==> self@.alters[word@] == views(self.alters@[word@]@));
            assert(k > 0 ==> self@.alters.contains_key(word@));
            let next = match self.alters.get(word.as_str()) {
                None => {
                    let mut v: Vec<String> = Vec::new();
                    v.push(alter);
                    proof {
                        assert(k == 0);
                        assert(views(v@) =~= base + av.take(1));
                    }
                    v
                },
                Some(v) => {
                    let mut v2 = copy_strings(v);
                    v2.push(alter);
                    proof {
                        if k == 0 {
                            assert(views(v@) == a0[word@]);
                        } else {
                            assert(views(v@) == base + av.take(k as int));
                        }
                        assert(views(v2@) =~= views(v@).push(av[k as int]));
                        assert(base + av.take(k + 1) =~= (base + av.take(k as int)).push(av[k as int]));
                        if k == 0 {
                            assert(av.take(0) =~= Seq::<Seq<char>>::empty());
                            assert(base + av.take(0) =~= base);
                        }
                    }
                    v2
                },
            };
            proof {
                lemma_alters_insert(self.alters@, word@, next);
                assert(a0.insert(word@, base + av.take(k as int)).insert(word@, base + av.take(k + 1)) =~= a0.insert(word@, base + av.take(k + 1)));
            }
            self.alters.insert(word.clone(), next);
            k = k + 1;
        }
        proof {
            if alts@.len() > 0 {
                assert(av.take(alts@.len() as int) =~= av);
            }
            assert(self@.alters =~= add_alters(m0.alters, word@, av));
            assert(self@.candis == add_entry(m0, spelling@, word@, av).candis);
        }
    }

    /// Applies one line of a dictionary file.
    fn apply_line(&mut self, line: &Vec<char>)
        requires
            !line_fails(line@),
        ensures
            final(self)@ == apply_line(old(self)@, line@),
    {
        if line.len() == 0 || line[0] == '#' {
            return;
        }
        let atoms = atomize(line);
        let ghost a = atoms_of(line@);
        assert(a.len() == atoms@.len());
        let n = atoms.len();
        if n < 2 {
            return;
        }
        assert(atoms@[0]@ == a[0]);
        assert(atoms@[1]@ == a[1]);
        let x0 = nanch(&atoms[0]);
        let x1 = nanch(&atoms[1]);
        let x2 = if n == 3 {
            assert(atoms@[2]@ == a[2]);
            nanch(&atoms[2])
        } else {
            None
        };
        match (x0, x1, x2) {
            (Some('\''), Some(open), Some(close)) => {
                self.squote = (open, close);
            },
            (Some('"'), Some(open), Some(close)) => {
                self.dquote = (open, close);
            },
            (Some(q), Some(dumb), None) if n == 2 && q == '\'' => {
                self.squote = (dumb, dumb);
            },
            (Some(q), Some(dumb), None) if n == 2 && q == '"' => {
                self.dquote = (dumb, dumb);
            },
            (Some(punct), Some(remapped), None) if n == 2 => {
                self.puncts.insert(punct, remapped);
            },
            _ => {
                match &atoms[0] {
                    Atom::Text(spelling) => {
                        let word = atoms[1].to_text();
                        let mut alts: Vec<String> = Vec::new();
                        let mut k: usize = 2;
                        while k < n
                            invariant
                                2 <= k <= n,
                                n == atoms@.len(),
                                a == atoms_of(line@),
                                a.len() == n,
                                forall|i: int| 0 <= i < n ==> #[trigger] atoms@[i]@ == a[i],
                                views(alts@) == a.skip(2).take(k - 2).map_values(|x: AtomModel| atom_text(x)),
                            decreases n - k,
                        {
                            let t = atoms[k].to_text();
                            let ghost before = views(alts@);
                            alts.push(t);
                            proof {
                                assert(views(alts@) =~= before.push(t@));
                                assert(a.skip(2).take(k - 1).map_values(|x: AtomModel| atom_text(x)) =~= a.skip(2).take(k - 2).map_values(|x: AtomModel| atom_text(x)).push(atom_text(a[k as int])));
                            }
                            k = k + 1;
                        }
                        proof {
                            assert(a.skip(2).take(n - 2) =~= a.skip(2));
                            assert(atoms@[0]@ == a[0]);
                        }
                        self.add_entry(spelling, word, alts);
                    },
                    Atom::Nanch(_) => {},
                }
            },
        }
    }

    /// Reads a dictionary file. Each line is `spelling word alternative...`,
    /// a remapped punctuator `punct remapped`, the quotes `' open close` or
    /// `" open close`, or a comment starting with `#`.
    pub fn from(value: &str) -> (s: Schema)
        requires
            !schema_fails(value@),
        ensures
            s@ == parse_schema(value@),
    {
        let text = chars_of(value);
        let ghost t = text@;
        let mut schema = Schema::empty();
        let mut line: Vec<char> = Vec::new();
        let mut i: usize = 0;
        while i < text.len()
            invariant
                t == text@,
                0 <= i <= t.len(),
                apply_lines(schema@, lines_from(t, i as int, line@)) == parse_schema(t),
                !any_line_fails(lines_from(t, i as int, line@)),
            decreases t.len() - i,
        {
            let c = text[i];
            if c == '\n' {
                let ghost cur = line@;
                if line.len() > 0 && line[line.len() - 1] == '\r' {
                    line.pop();
                }
                let ghost ls = lines_from(t, i as int, cur);
                let ghost rest = lines_from(t, i + 1, Seq::<char>::empty());
                proof {
                    assert(ls == seq![line@] + rest);
                    assert(ls[0] == line@);
                    assert(ls.drop_first() =~= rest);
                    assert(!line_fails(ls[0]));
                    assert forall|k: int| 0 <= k < rest.len() implies !line_fails(#[trigger] rest[k]) by {
                        assert(rest[k] == ls[k + 1]);
                    }
                }
                schema.apply_line(&line);
                line = Vec::new();
            } else {
                line.push(c);
            }
            i = i + 1;
        }
        if line.len() > 0 {
            let ghost ls = lines_from(t, i as int, line@);
            proof {
                assert(ls == seq![line@]);
                assert(ls[0] == line@);
                assert(!line_fails(ls[0]));
                assert(ls.drop_first() =~= Seq::<Seq<char>>::empty());
            }
            let ghost before = schema@;
            schema.apply_line(&line);
            proof {
                assert(apply_lines(before, ls) == apply_lines(apply_line(before, line@), ls.drop_first()));
            }
        } else {
            proof {
                assert(lines_from(t, i as int, line@) =~= Seq::<Seq<char>>::empty());
            }
        }
        schema
    }

    /// Reads a dictionary file as [`Schema::from`] does, or gives `None`
    /// where a line has a spelling that is not ASCII.
    pub fn parse(value: &str) -> (r: Option<Schema>)
        ensures
            r is Some <==> !schema_fails(value@),
            r matches Some(s) ==> s@ == parse_schema(value@),
    {
        if Schema::accepts(value) {
            Some(Schema::from(value))
        } else {
            None
        }
    }

    /// Whether [`Schema::from`] can read the dictionary file: no entry has a
    /// spelling that is not ASCII.
    pub fn accepts(value: &str) -> (r: bool)
        ensures
            r == !schema_fails(value@),
    {
        let text = chars_of(value);
        let ghost t = text@;
        let mut line: Vec<char> = Vec::new();
        let ghost mut done: Seq<Seq<char>> = Seq::empty();
        let mut i: usize = 0;
        proof {
            assert(lines_of(t) =~= done + lines_from(t, 0, line@));
        }
        while i < text.len()
            invariant
                t == text@,
                t == value@,
                0 <= i <= t.len(),
                lines_of(t) == done + lines_from(t, i as int, line@),
                !any_line_fails(done),
            decreases t.len() - i,
        {
            let c = text[i];
            if c == '\n' {
                let ghost cur = line@;
                if line.len() > 0 && line[line.len() - 1] == '\r' {
                    line.pop();
                }
                let ghost ls = lines_from(t, i as int, cur);
                let ghost rest = lines_from(t, i + 1, Seq::<char>::empty());
                proof {
                    assert(ls == seq![line@] + rest);
                    assert(lines_of(t) =~= done.push(line@) + rest);
                    assert(lines_of(t)[done.len() as int] == line@);
                }
                if line_fails_exec(&line) {
                    return false;
                }
                proof {
                    assert forall|k: int| 0 <= k < done.len() + 1 implies !line_fails(#[trigger] done.push(line@)[k]) by {
                        if k < done.len() {
                            assert(done.push(line@)[k] == done[k]);
                        }
                    }
                    done = done.push(line@);
                }
                line = Vec::new();
            } else {
                line.push(c);
            }
            i = i + 1;
        }
        if line.len() > 0 {
            proof {
                assert(lines_from(t, i as int, line@) == seq![line@]);
                assert(lines_of(t) =~= done.push(line@));
                assert(lines_of(t)[done.len() as int] == line@);
            }
            if line_fails_exec(&line) {
                return false;
            }
            proof {
                assert forall|k: int| 0 <= k < done.len() + 1 implies !line_fails(#[trigger] done.push(line@)[k]) by {
                    if k < done.len() {
                        assert(done.push(line@)[k] == done[k]);
                    }
                }
            }
        } else {
            proof {
                assert(lines_from(t, i as int, line@) =~= Seq::<Seq<char>>::empty());
                assert(lines_of(t) =~= done);
            }
        }
        true
    }
}

/// Whether every character of `v` is ASCII.
fn all_ascii(v: &Vec<char>) -> (r: bool)
    ensures
        r == vstd::utf8::is_ascii_chars(v@),
{
    string_of(v).is_ascii()
}

/// Whether reading the line gets stuck on a spelling that is not ASCII.
fn line_fails_exec(line: &Vec<char>) -> (r: bool)
    ensures
        r == line_fails(line@),
{
    if line.len() == 0 || line[0] == '#' {
        return false;
    }
    let atoms = atomize(line);
    let ghost a = atoms_of(line@);
    assert(a.len() == atoms@.len());
    if atoms.len() < 2 {
        return false;
    }
    assert(atoms@[0]@ == a[0]);
    match &atoms[0] {
        Atom::Text(t) => !all_ascii(t),
        Atom::Nanch(_) => false,
    }
}

/// The character of a non-alphanumeric atom.
fn nanch(a: &Atom) -> (r: Option<char>)
    ensures
        r == (if a@ is Nanch { Some(nanch_of(a@)) } else { None::<char> }),
{
    match a {
        Atom::Nanch(c) => Some(*c),
        Atom::Text(_) => None,
    }
}

} // verus!
