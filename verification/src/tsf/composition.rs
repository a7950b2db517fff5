use vstd::prelude::*;
use crate::engine::{Engine, EngineModel, Suggestion, SuggestionModel};
use crate::engine::suggest::{can_suggest, sugg_views, suggestions};
use crate::extend::is_joiner_char;
use crate::text::{chars_of, push_char, spec_is_joiner, string_of_range};
use super::{input_of, law_arrow_keys, Input, Shortcut};

verus! {

/// What the system has to do after the input method changed its state, in
/// order; a failing step stops the rest.
pub enum Action {
    /// Insert the character at the cursor, outside any composition.
    Insert(char),
    /// Start a composition; once it is started, push the letter.
    Start(char),
    /// Write the preedit into the composition and show the suggestions (hide
    /// the candidate list when there are none).
    Show(String),
    /// Write the text over the composition, then end the composition.
    Finish(String),
    /// Write the text over the composition, ignoring a failure, then end the
    /// composition.
    FinishQuietly(String),
}

/// The mathematical value of an [`Action`].
pub enum ActionModel {
    Insert(char),
    Start(char),
    Show(Seq<char>),
    Finish(Seq<char>),
    FinishQuietly(Seq<char>),
}

impl View for Action {
    type V = ActionModel;

    open spec fn view(&self) -> ActionModel {
        match self {
            Action::Insert(c) => ActionModel::Insert(*c),
            Action::Start(c) => ActionModel::Start(*c),
            Action::Show(s) => ActionModel::Show(s@),
            Action::Finish(s) => ActionModel::Finish(s@),
            Action::FinishQuietly(s) => ActionModel::FinishQuietly(s@),
        }
    }
}

/// The mathematical values of actions.
pub open spec fn action_views(v: Seq<Action>) -> Seq<ActionModel> {
    v.map_values(|a: Action| a@)
}

/// The mathematical value of the composing state of the input method.
pub struct ComposerModel {
    pub engine: EngineModel,
    /// A composition is going on.
    pub composing: bool,
    /// The letters typed and not yet turned into glyphs.
    pub spelling: Seq<char>,
    /// The glyphs chosen so far in this composition.
    pub selected: Seq<char>,
    /// The suggestions for the spelling.
    pub suggestions: Seq<SuggestionModel>,
}

/// The group ends `g` cut a spelling of `n` letters into groups: there is a
/// group, and the ends grow and stay within the spelling.
pub open spec fn well_grouped(g: Seq<int>, n: int) -> bool {
    &&& g.len() > 0
    &&& forall|i: int| 0 <= i < g.len() ==> 0 <= #[trigger] g[i] <= n
    &&& forall|i: int, j: int| 0 <= i < j < g.len() ==> g[i] <= g[j]
}

/// Every suggestion cuts a spelling of `n` letters into groups.
pub open spec fn all_grouped(s: Seq<SuggestionModel>, n: int) -> bool {
    forall|i: int| 0 <= i < s.len() ==> well_grouped(#[trigger] s[i].groupping, n)
}

/// The engine can suggest for the spelling, and its suggestions cut the
/// spelling into groups (otherwise the preedit cannot be written).
pub open spec fn fits(e: EngineModel, sp: Seq<char>) -> bool {
    can_suggest(e, sp) && all_grouped(suggestions(e, sp), sp.len() as int)
}

/// The end of the last group, 0 when there is none.
pub open spec fn last_end(g: Seq<int>) -> int {
    if g.len() > 0 {
        g.last()
    } else {
        0
    }
}

/// The groups of `sp` that end at `g`, each followed by the delimiter `'`.
pub open spec fn pieces(sp: Seq<char>, g: Seq<int>) -> Seq<char>
    decreases g.len(),
{
    if g.len() == 0 {
        Seq::empty()
    } else {
        pieces(sp, g.drop_last()) + sp.subrange(last_end(g.drop_last()), g.last()) + seq!['\'']
    }
}

/// The text shown in the composition: the glyphs chosen so far, then the
/// spelling cut into the groups of the first suggestion, with `'` between
/// the groups.
pub open spec fn preedit_of(sel: Seq<char>, sp: Seq<char>, sugs: Seq<SuggestionModel>) -> Seq<char> {
    if sugs.len() == 0 {
        sel + sp
    } else {
        let g = sugs[0].groupping;
        let t = sel + pieces(sp, g);
        if last_end(g) != sp.len() {
            t + sp.skip(last_end(g))
        } else if t.len() > 0 {
            t.drop_last()
        } else {
            t
        }
    }
}

/// The state after the spelling and the selection became `sp` and `sel`,
/// the suggestions being asked again.
pub open spec fn refreshed(m: ComposerModel, sp: Seq<char>, sel: Seq<char>) -> ComposerModel {
    ComposerModel { spelling: sp, selected: sel, suggestions: suggestions(m.engine, sp), ..m }
}

/// Shows the preedit of the state.
pub open spec fn show(m: ComposerModel) -> Seq<ActionModel> {
    seq![ActionModel::Show(preedit_of(m.selected, m.spelling, m.suggestions))]
}

/// Types a character into the spelling.
pub open spec fn push_spec(m: ComposerModel, ch: char) -> (ComposerModel, Seq<ActionModel>) {
    let m2 = refreshed(m, m.spelling.push(ch), m.selected);
    (m2, show(m2))
}

/// Interrupted: writes out what was chosen and typed, and ends.
pub open spec fn abort_spec(m: ComposerModel) -> (ComposerModel, Seq<ActionModel>) {
    if m.selected.len() == 0 {
        (m, seq![ActionModel::FinishQuietly(m.spelling)])
    } else if m.spelling.len() > 0 {
        let sel = m.selected + seq![' '] + m.spelling;
        (ComposerModel { selected: sel, ..m }, seq![ActionModel::Finish(sel)])
    } else {
        (m, seq![ActionModel::Finish(m.selected)])
    }
}

/// Removes the last letter; with no letter left there is nothing to
/// suggest and the composition is aborted.
pub open spec fn pop_spec(m: ComposerModel) -> (ComposerModel, Seq<ActionModel>) {
    let sp = if m.spelling.len() > 0 { m.spelling.drop_last() } else { m.spelling };
    if sp.len() == 0 {
        abort_spec(ComposerModel { spelling: sp, suggestions: Seq::empty(), ..m })
    } else {
        let m2 = refreshed(m, sp, m.selected);
        (m2, show(m2))
    }
}

/// Writes out the raw spelling followed by `ch`, and ends.
pub open spec fn force_release_spec(m: ComposerModel, ch: char) -> (ComposerModel, Seq<ActionModel>) {
    if m.selected.len() == 0 {
        let sp = m.spelling.push(ch);
        (ComposerModel { spelling: sp, ..m }, seq![ActionModel::Finish(sp)])
    } else {
        let sel = m.selected + seq![' '] + m.spelling.push(ch);
        (ComposerModel { selected: sel, ..m }, seq![ActionModel::Finish(sel)])
    }
}

/// Picks the `i`-th suggestion. When it reads the whole spelling the
/// composition ends; otherwise the rest of the spelling is suggested for.
pub open spec fn select_spec(m: ComposerModel, i: int) -> (ComposerModel, Seq<ActionModel>) {
    if i < 0 || i >= m.suggestions.len() {
        (m, Seq::empty())
    } else {
        let s = m.suggestions[i];
        let last = s.groupping.last();
        if last == m.spelling.len() {
            if m.selected.len() == 0 {
                (m, seq![ActionModel::Finish(s.output)])
            } else {
                let sel = m.selected + s.output;
                (ComposerModel { selected: sel, ..m }, seq![ActionModel::Finish(sel)])
            }
        } else {
            let m2 = refreshed(m, m.spelling.skip(last), m.selected + s.output);
            (m2, show(m2))
        }
    }
}

/// Commits the first suggestion, or writes out the spelling and a space
/// when there is none.
pub open spec fn commit_spec(m: ComposerModel) -> (ComposerModel, Seq<ActionModel>) {
    if m.suggestions.len() == 0 {
        force_release_spec(m, ' ')
    } else {
        select_spec(m, 0)
    }
}

/// Commits the first suggestion, then what it did not read, then `ch`, and
/// ends.
pub open spec fn force_commit_spec(m: ComposerModel, ch: char) -> (ComposerModel, Seq<ActionModel>) {
    if m.suggestions.len() == 0 {
        force_release_spec(m, ch)
    } else {
        let s = m.suggestions[0];
        let last = s.groupping.last();
        let rest = if last != m.spelling.len() { seq![' '] + m.spelling.skip(last) } else { Seq::empty() };
        let sel = m.selected + s.output + rest + seq![ch];
        (ComposerModel { selected: sel, ..m }, seq![ActionModel::Finish(sel)])
    }
}

/// Writes out the raw spelling after the glyphs chosen, and ends.
pub open spec fn release_spec(m: ComposerModel) -> (ComposerModel, Seq<ActionModel>) {
    if m.selected.len() == 0 {
        (m, seq![ActionModel::Finish(m.spelling)])
    } else {
        let sel = m.selected + seq![' '] + m.spelling;
        (ComposerModel { selected: sel, ..m }, seq![ActionModel::Finish(sel)])
    }
}

/// The state once the composition ended.
pub open spec fn ended(m: ComposerModel) -> ComposerModel {
    ComposerModel {
        composing: false,
        spelling: Seq::empty(),
        selected: Seq::empty(),
        suggestions: Seq::empty(),
        ..m
    }
}

/// Whether a key is eaten, the state after it and what the system has to
/// do for it.
pub open spec fn handle_spec(m: ComposerModel, input: Input) -> (bool, ComposerModel, Seq<ActionModel>) {
    if !m.composing {
        match input {
            Input::Letter(l) => (true, m, seq![ActionModel::Start(l)]),
            Input::Punct(p) => {
                let (r, e) = m.engine.remap(p);
                (true, ComposerModel { engine: e, ..m }, seq![ActionModel::Insert(r)])
            },
            Input::Space => {
                let (r, e) = m.engine.remap(' ');
                (true, ComposerModel { engine: e, ..m }, seq![ActionModel::Insert(r)])
            },
            _ => (false, m, Seq::empty()),
        }
    } else {
        match input {
            Input::Letter(l) => {
                let (m2, a) = push_spec(m, l);
                (true, m2, a)
            },
            Input::Number(n) => if n == 0 {
                (true, m, Seq::empty())
            } else {
                let (m2, a) = select_spec(m, n - 1);
                (true, m2, a)
            },
            Input::Punct(p) => {
                let (r, e) = m.engine.remap(p);
                let m1 = ComposerModel { engine: e, ..m };
                let (m2, a) = if spec_is_joiner(r) { push_spec(m1, p) } else { force_commit_spec(m1, r) };
                (true, m2, a)
            },
            Input::Space => {
                let (m2, a) = commit_spec(m);
                (true, m2, a)
            },
            Input::Enter => {
                let (m2, a) = release_spec(m);
                (true, m2, a)
            },
            Input::Backspace => {
                let (m2, a) = pop_spec(m);
                (true, m2, a)
            },
            Input::Tab => {
                let (m2, a) = push_spec(m, ' ');
                let (m3, b) = release_spec(m2);
                (true, m3, a + b)
            },
            Input::Unknown(_) => (false, m, Seq::empty()),
            _ => (true, m, Seq::empty()),
        }
    }
}

/// The `i`-th suggestion can be picked: when it does not read the whole
/// spelling, the engine fits the rest.
pub open spec fn select_fits(m: ComposerModel, i: int) -> bool {
    0 <= i < m.suggestions.len() && m.suggestions[i].groupping.last() != m.spelling.len() ==> fits(
        m.engine,
        m.spelling.skip(m.suggestions[i].groupping.last()),
    )
}

/// The engine fits every spelling that handling the input asks suggestions
/// for.
pub open spec fn handle_fits(m: ComposerModel, input: Input) -> bool {
    m.composing ==> match input {
        Input::Letter(l) => fits(m.engine, m.spelling.push(l)),
        Input::Number(n) => n > 0 ==> select_fits(m, n - 1),
        Input::Punct(p) => spec_is_joiner(m.engine.remap(p).0) ==> fits(m.engine, m.spelling.push(p)),
        Input::Space => m.suggestions.len() > 0 ==> select_fits(m, 0),
        Input::Backspace => m.spelling.len() > 1 ==> fits(m.engine, m.spelling.drop_last()),
        Input::Tab => fits(m.engine, m.spelling.push(' ')),
        _ => true,
    }
}

/// Whether a key will be eaten if it comes: when not composing, letters,
/// punctuators and spaces are; while composing, every key but an unknown one.
pub open spec fn test_spec(m: ComposerModel, input: Input) -> bool {
    if !m.composing {
        input is Letter || input is Punct || input is Space
    } else {
        !(input is Unknown)
    }
}

/// The text `s` without its last character, if it has one.
fn without_last(s: &String) -> (r: String)
    ensures
        r@ == (if s@.len() > 0 { s@.drop_last() } else { s@ }),
{
    let cs = chars_of(s.as_str());
    if cs.len() == 0 {
        let r = String::new();
        proof {
            assert(r@ =~= s@);
        }
        r
    } else {
        let r = string_of_range(&cs, 0, cs.len() - 1);
        proof {
            assert(r@ =~= s@.drop_last());
        }
        r
    }
}

/// The text `s` from its `from`-th character on.
fn skip_chars(s: &String, from: usize) -> (r: String)
    requires
        from <= s@.len(),
    ensures
        r@ == s@.skip(from as int),
{
    let cs = chars_of(s.as_str());
    let r = string_of_range(&cs, from, cs.len());
    proof {
        assert(r@ =~= s@.skip(from as int));
    }
    r
}

/// A copy of `s` followed by `t`.
fn joined(s: &String, t: &String) -> (r: String)
    ensures
        r@ == s@ + t@,
{
    let mut r = s.clone();
    r.append(t.as_str());
    r
}

/// Whether the group ends `g` cut a spelling of `n` letters into groups.
fn grouped(g: &Vec<usize>, n: usize) -> (r: bool)
    ensures
        r == well_grouped(g@.map_values(|x: usize| x as int), n as int),
{
    let ghost gv = g@.map_values(|x: usize| x as int);
    if g.len() == 0 {
        return false;
    }
    let mut k: usize = 0;
    while k < g.len()
        invariant
            0 <= k <= g@.len(),
            gv == g@.map_values(|x: usize| x as int),
            forall|i: int| 0 <= i < k ==> 0 <= #[trigger] gv[i] <= n,
            forall|i: int, j: int| 0 <= i < j < k ==> gv[i] <= gv[j],
        decreases g@.len() - k,
    {
        if g[k] > n {
            assert(gv[k as int] > n);
            return false;
        }
        if k > 0 && g[k - 1] > g[k] {
            assert(gv[k - 1] > gv[k as int]);
            return false;
        }
        proof {
            assert forall|i: int, j: int| 0 <= i < j < k + 1 implies gv[i] <= gv[j] by {
                if j == k && i < k - 1 {
                    assert(gv[i] <= gv[k - 1]);
                }
            }
        }
        k = k + 1;
    }
    true
}

/// Whether every suggestion cuts a spelling of `n` letters into groups.
fn all_grouped_exec(sugs: &Vec<Suggestion>, n: usize) -> (r: bool)
    ensures
        r == all_grouped(sugg_views(sugs@), n as int),
{
    let ghost sv = sugg_views(sugs@);
    let mut k: usize = 0;
    while k < sugs.len()
        invariant
            0 <= k <= sugs@.len(),
            sv == sugg_views(sugs@),
            forall|i: int| 0 <= i < k ==> well_grouped(#[trigger] sv[i].groupping, n as int),
        decreases sugs@.len() - k,
    {
        if !grouped(&sugs[k].groupping, n) {
            assert(!well_grouped(sv[k as int].groupping, n as int));
            return false;
        }
        k = k + 1;
    }
    true
}

/// Whether the engine fits the spelling (see [`fits`]).
pub fn fits_exec(engine: &Engine, spelling: &String) -> (r: bool)
    requires
        engine.wf(),
    ensures
        r == fits(engine@, spelling@),
{
    if !engine.can_suggest(spelling.as_str()) {
        return false;
    }
    let sugs = engine.suggest(spelling.as_str());
    all_grouped_exec(&sugs, spelling.as_str().unicode_len())
}

/// The composing state of the input method: the engine, the spelling typed,
/// the glyphs chosen and the suggestions.
pub struct TextServiceInner {
    engine: Engine,
    composing: bool,
    spelling: String,
    selected: String,
    suggestions: Vec<Suggestion>,
}

impl View for TextServiceInner {
    type V = ComposerModel;

    closed spec fn view(&self) -> ComposerModel {
        ComposerModel {
            engine: self.engine@,
            composing: self.composing,
            spelling: self.spelling@,
            selected: self.selected@,
            suggestions: sugg_views(self.suggestions@),
        }
    }
}

impl TextServiceInner {
    /// The state is well formed: the engine has a schema and the
    /// suggestions cut the spelling into groups.
    pub closed spec fn wf(&self) -> bool {
        self.engine.wf() && all_grouped(self@.suggestions, self@.spelling.len() as int)
    }

    /// A state that is not composing.
    pub fn new(engine: Engine) -> (r: TextServiceInner)
        requires
            engine.wf(),
        ensures
            r.wf(),
            r@ == (ComposerModel {
                engine: engine@,
                composing: false,
                spelling: Seq::empty(),
                selected: Seq::empty(),
                suggestions: Seq::empty(),
            }),
    {
        let r = TextServiceInner {
            engine,
            composing: false,
            spelling: String::new(),
            selected: String::new(),
            suggestions: Vec::new(),
        };
        proof {
            assert(r@.suggestions =~= Seq::<SuggestionModel>::empty());
        }
        r
    }

    /// Whether a composition is going on.
    pub fn composing(&self) -> (r: bool)
        ensures
            r == self@.composing,
    {
        self.composing
    }

    /// The spelling typed so far.
    pub fn spelling(&self) -> (r: &String)
        ensures
            r@ == self@.spelling,
    {
        &self.spelling
    }

    /// The suggestions for the spelling.
    pub fn suggestions(&self) -> (r: &Vec<Suggestion>)
        ensures
            sugg_views(r@) == self@.suggestions,
    {
        &self.suggestions
    }

    /// The engine.
    pub fn engine(&self) -> (r: &Engine)
        ensures
            r@ == self@.engine,
    {
        &self.engine
    }

    /// The composition was started.
    pub fn started(&mut self)
        requires
            old(self).wf(),
        ensures
            final(self).wf(),
            final(self)@ == (ComposerModel { composing: true, ..old(self)@ }),
    {
        self.composing = true;
    }

    /// The composition ended: nothing is typed, chosen or suggested.
    pub fn end_composition(&mut self)
        requires
            old(self).wf(),
        ensures
            final(self).wf(),
            final(self)@ == ended(old(self)@),
    {
        self.composing = false;
        self.spelling = String::new();
        self.selected = String::new();
        self.suggestions = Vec::new();
        proof {
            assert(self@.suggestions =~= Seq::<SuggestionModel>::empty());
        }
    }

    /// The text shown in the composition.
    fn preedit(&self) -> (r: String)
        requires
            self.wf(),
        ensures
            r@ == preedit_of(self@.selected, self@.spelling, self@.suggestions),
    {
        let ghost sp = self@.spelling;
        let ghost sel = self@.selected;
        if self.suggestions.len() == 0 {
            return joined(&self.selected, &self.spelling);
        }
        let chars = chars_of(self.spelling.as_str());
        let g = &self.suggestions[0].groupping;
        let ghost gv = self@.suggestions[0].groupping;
        assert(well_grouped(gv, sp.len() as int));
        let mut out = self.selected.clone();
        let mut from: usize = 0;
        let mut k: usize = 0;
        proof {
            assert(gv.take(0) =~= Seq::<int>::empty());
        }
        while k < g.len()
            invariant
                0 <= k <= g@.len(),
                chars@ == sp,
                gv == g@.map_values(|x: usize| x as int),
                well_grouped(gv, sp.len() as int),
                out@ == sel + pieces(sp, gv.take(k as int)),
                from as int == last_end(gv.take(k as int)),
            decreases g@.len() - k,
        {
            let to = g[k];
            proof {
                assert(gv[k as int] == to as int);
                if k > 0 {
                    assert(gv.take(k as int).last() == gv[k - 1]);
                }
            }
            let piece = string_of_range(&chars, from, to);
            out.append(piece.as_str());
            push_char(&mut out, '\'');
            proof {
                let t = gv.take(k + 1);
                assert(t.drop_last() =~= gv.take(k as int));
                assert(t.last() == to as int);
                assert(out@ =~= sel + pieces(sp, t));
            }
            from = to;
            k = k + 1;
        }
        proof {
            assert(gv.take(g@.len() as int) =~= gv);
        }
        if from != chars.len() {
            let tail = string_of_range(&chars, from, chars.len());
            out.append(tail.as_str());
            proof {
                assert(tail@ =~= sp.skip(from as int));
            }
            out
        } else {
            without_last(&out)
        }
    }

    /// Asks the engine again and shows the preedit.
    fn refresh(&mut self) -> (r: Vec<Action>)
        requires
            old(self).engine.wf(),
            fits(old(self)@.engine, old(self)@.spelling),
        ensures
            final(self).wf(),
            final(self)@ == refreshed(old(self)@, old(self)@.spelling, old(self)@.selected),
            action_views(r@) == show(final(self)@),
    {
        self.suggestions = self.engine.suggest(self.spelling.as_str());
        let preedit = self.preedit();
        let mut r: Vec<Action> = Vec::new();
        r.push(Action::Show(preedit));
        proof {
            assert(action_views(r@) =~= show(self@));
        }
        r
    }

    /// Types a character into the spelling.
    pub fn push(&mut self, ch: char) -> (r: Vec<Action>)
        requires
            old(self).wf(),
            fits(old(self)@.engine, old(self)@.spelling.push(ch)),
        ensures
            final(self).wf(),
            (final(self)@, action_views(r@)) == push_spec(old(self)@, ch),
    {
        push_char(&mut self.spelling, ch);
        self.refresh()
    }

    /// Interrupted: writes out what was chosen and typed, and ends.
    pub fn abort(&mut self) -> (r: Vec<Action>)
        requires
            old(self).wf(),
        ensures
            final(self).wf(),
            (final(self)@, action_views(r@)) == abort_spec(old(self)@),
    {
        let ghost m = self@;
        let mut r: Vec<Action> = Vec::new();
        if self.selected.as_str().unicode_len() == 0 {
            let text = self.spelling.clone();
            r.push(Action::FinishQuietly(text));
            proof {
                assert(action_views(r@) =~= seq![ActionModel::FinishQuietly(m.spelling)]);
            }
        } else {
            if self.spelling.as_str().unicode_len() > 0 {
                push_char(&mut self.selected, ' ');
                self.selected.append(self.spelling.as_str());
                proof {
                    assert(self.selected@ =~= m.selected + seq![' '] + m.spelling);
                }
            }
            let text = self.selected.clone();
            r.push(Action::Finish(text));
            proof {
                assert(action_views(r@) =~= seq![ActionModel::Finish(self.selected@)]);
            }
        }
        r
    }

    /// Removes the last letter; with no letter left the composition is
    /// aborted.
    pub fn pop(&mut self) -> (r: Vec<Action>)
        requires
            old(self).wf(),
            old(self)@.spelling.len() > 1 ==> fits(old(self)@.engine, old(self)@.spelling.drop_last()),
        ensures
            final(self).wf(),
            (final(self)@, action_views(r@)) == pop_spec(old(self)@),
    {
        self.spelling = without_last(&self.spelling);
        if self.spelling.as_str().unicode_len() == 0 {
            self.suggestions = Vec::new();
            proof {
                assert(sugg_views(self.suggestions@) =~= Seq::<SuggestionModel>::empty());
            }
            let r = self.abort();
            r
        } else {
            self.refresh()
        }
    }

    /// Writes out the raw spelling followed by `ch`, and ends.
    fn force_release(&mut self, ch: char) -> (r: Vec<Action>)
        requires
            old(self).wf(),
        ensures
            final(self).wf(),
            (final(self)@, action_views(r@)) == force_release_spec(old(self)@, ch),
    {
        let ghost m = self@;
        let mut r: Vec<Action> = Vec::new();
        if self.selected.as_str().unicode_len() == 0 {
            push_char(&mut self.spelling, ch);
            proof {
                lemma_all_grouped_wider(m.suggestions, m.spelling.len() as int, self@.spelling.len() as int);
            }
            r.push(Action::Finish(self.spelling.clone()));
            proof {
                assert(action_views(r@) =~= seq![ActionModel::Finish(self@.spelling)]);
            }
        } else {
            push_char(&mut self.selected, ' ');
            self.selected.append(self.spelling.as_str());
            push_char(&mut self.selected, ch);
            proof {
                assert(self.selected@ =~= m.selected + seq![' '] + m.spelling.push(ch));
            }
            r.push(Action::Finish(self.selected.clone()));
            proof {
                assert(action_views(r@) =~= seq![ActionModel::Finish(self@.selected)]);
            }
        }
        r
    }

    /// Picks the `index`-th suggestion. When it reads the whole spelling
    /// the composition ends; otherwise the rest of the spelling is
    /// suggested for.
    pub fn select(&mut self, index: usize) -> (r: Vec<Action>)
        requires
            old(self).wf(),
            select_fits(old(self)@, index as int),
        ensures
            final(self).wf(),
            (final(self)@, action_views(r@)) == select_spec(old(self)@, index as int),
    {
        let ghost m = self@;
        if index >= self.suggestions.len() {
            let r: Vec<Action> = Vec::new();
            proof {
                assert(action_views(r@) =~= Seq::<ActionModel>::empty());
            }
            return r;
        }
        let n = self.spelling.as_str().unicode_len();
        let ghost s = m.suggestions[index as int];
        assert(well_grouped(s.groupping, n as int));
        let last = {
            let g = &self.suggestions[index].groupping;
            g[g.len() - 1]
        };
        assert(last as int == s.groupping.last());
        let output = self.suggestions[index].output.clone();
        if last == n {
            let mut r: Vec<Action> = Vec::new();
            if self.selected.as_str().unicode_len() == 0 {
                r.push(Action::Finish(output));
                proof {
                    assert(action_views(r@) =~= seq![ActionModel::Finish(s.output)]);
                }
            } else {
                self.selected.append(output.as_str());
                r.push(Action::Finish(self.selected.clone()));
                proof {
                    assert(action_views(r@) =~= seq![ActionModel::Finish(m.selected + s.output)]);
                }
            }
            r
        } else {
            self.selected.append(output.as_str());
            self.spelling = skip_chars(&self.spelling, last);
            self.refresh()
        }
    }

    /// Commits the first suggestion, or writes out the spelling and a space
    /// when there is none.
    pub fn commit(&mut self) -> (r: Vec<Action>)
        requires
            old(self).wf(),
            old(self)@.suggestions.len() > 0 ==> select_fits(old(self)@, 0),
        ensures
            final(self).wf(),
            (final(self)@, action_views(r@)) == commit_spec(old(self)@),
    {
        if self.suggestions.len() == 0 {
            self.force_release(' ')
        } else {
            self.select(0)
        }
    }

    /// Commits the first suggestion, then what it did not read, then `ch`,
    /// and ends.
    pub fn force_commit(&mut self, ch: char) -> (r: Vec<Action>)
        requires
            old(self).wf(),
        ensures
            final(self).wf(),
            (final(self)@, action_views(r@)) == force_commit_spec(old(self)@, ch),
    {
        if self.suggestions.len() == 0 {
            return self.force_release(ch);
        }
        let ghost m = self@;
        let n = self.spelling.as_str().unicode_len();
        let ghost s = m.suggestions[0];
        assert(well_grouped(s.groupping, n as int));
        let last = {
            let g = &self.suggestions[0].groupping;
            g[g.len() - 1]
        };
        assert(last as int == s.groupping.last());
        self.selected.append(self.suggestions[0].output.as_str());
        if last != n {
            push_char(&mut self.selected, ' ');
            let rest = skip_chars(&self.spelling, last);
            self.selected.append(rest.as_str());
        }
        push_char(&mut self.selected, ch);
        proof {
            let rest = if last != n { seq![' '] + m.spelling.skip(last as int) } else { Seq::<char>::empty() };
            assert(self.selected@ =~= m.selected + s.output + rest + seq![ch]);
        }
        let mut r: Vec<Action> = Vec::new();
        r.push(Action::Finish(self.selected.clone()));
        proof {
            assert(action_views(r@) =~= seq![ActionModel::Finish(self@.selected)]);
        }
        r
    }

    /// Writes out the raw spelling after the glyphs chosen, and ends.
    pub fn release(&mut self) -> (r: Vec<Action>)
        requires
            old(self).wf(),
        ensures
            final(self).wf(),
            (final(self)@, action_views(r@)) == release_spec(old(self)@),
    {
        let ghost m = self@;
        let mut r: Vec<Action> = Vec::new();
        if self.selected.as_str().unicode_len() == 0 {
            r.push(Action::Finish(self.spelling.clone()));
            proof {
                assert(action_views(r@) =~= seq![ActionModel::Finish(m.spelling)]);
            }
        } else {
            push_char(&mut self.selected, ' ');
            self.selected.append(self.spelling.as_str());
            proof {
                assert(self.selected@ =~= m.selected + seq![' '] + m.spelling);
            }
            r.push(Action::Finish(self.selected.clone()));
            proof {
                assert(action_views(r@) =~= seq![ActionModel::Finish(self@.selected)]);
            }
        }
        r
    }
}

proof fn lemma_all_grouped_wider(s: Seq<SuggestionModel>, n: int, k: int)
    requires
        all_grouped(s, n),
        n <= k,
    ensures
        all_grouped(s, k),
{
    assert forall|i: int| 0 <= i < s.len() implies well_grouped(#[trigger] s[i].groupping, k) by {
        assert(well_grouped(s[i].groupping, n));
    }
}

/// Remapping a punctuator changes only the quotes, which suggestions do not
/// depend on.
proof fn lemma_fits_remap(e: EngineModel, p: char, sp: Seq<char>)
    ensures
        fits(e.remap(p).1, sp) == fits(e, sp),
        e.remap(p).1.schema() == e.schema(),
        e.remap(p).1.behavior == e.behavior,
{
    let e2 = e.remap(p).1;
    assert(e2.schemas == e.schemas);
    assert(suggestions(e2, sp) == suggestions(e, sp));
    assert(can_suggest(e2, sp) == can_suggest(e, sp));
}

/// Whether a shortcut is eaten, and the state after it.
pub open spec fn shortcut_spec(m: ComposerModel, sc: Shortcut) -> (bool, ComposerModel) {
    if !m.composing && sc == Shortcut::NextSchema {
        (true, ComposerModel { engine: m.engine.next(), ..m })
    } else {
        (false, m)
    }
}

impl TextServiceInner {
    /// Handles an input: whether the key is eaten, and what the system has
    /// to do.
    pub fn handle_input(&mut self, input: Input) -> (r: (bool, Vec<Action>))
        requires
            old(self).wf(),
            handle_fits(old(self)@, input),
        ensures
            final(self).wf(),
            r.0 == handle_spec(old(self)@, input).0,
            final(self)@ == handle_spec(old(self)@, input).1,
            action_views(r.1@) == handle_spec(old(self)@, input).2,
    {
        let ghost m = self@;
        let none: Vec<Action> = Vec::new();
        proof {
            assert(action_views(none@) =~= Seq::<ActionModel>::empty());
        }
        if !self.composing {
            match input {
                Input::Letter(l) => {
                    let mut r: Vec<Action> = Vec::new();
                    r.push(Action::Start(l));
                    proof {
                        assert(action_views(r@) =~= seq![ActionModel::Start(l)]);
                    }
                    (true, r)
                },
                Input::Punct(p) => {
                    let ch = self.engine.remap_punct(p);
                    let mut r: Vec<Action> = Vec::new();
                    r.push(Action::Insert(ch));
                    proof {
                        assert(action_views(r@) =~= seq![ActionModel::Insert(ch)]);
                    }
                    (true, r)
                },
                Input::Space => {
                    let ch = self.engine.remap_punct(' ');
                    let mut r: Vec<Action> = Vec::new();
                    r.push(Action::Insert(ch));
                    proof {
                        assert(action_views(r@) =~= seq![ActionModel::Insert(ch)]);
                    }
                    (true, r)
                },
                _ => (false, none),
            }
        } else {
            match input {
                Input::Letter(l) => (true, self.push(l)),
                Input::Number(n) => {
                    if n == 0 {
                        (true, none)
                    } else {
                        (true, self.select(n - 1))
                    }
                },
                Input::Punct(p) => {
                    let remapped = self.engine.remap_punct(p);
                    proof {
                        lemma_fits_remap(m.engine, p, m.spelling.push(p));
                    }
                    if is_joiner_char(remapped) {
                        (true, self.push(p))
                    } else {
                        (true, self.force_commit(remapped))
                    }
                },
                Input::Space => (true, self.commit()),
                Input::Enter => (true, self.release()),
                Input::Backspace => (true, self.pop()),
                Input::Tab => {
                    let mut a = self.push(' ');
                    let mut b = self.release();
                    let ghost av = action_views(a@);
                    let ghost bv = action_views(b@);
                    a.append(&mut b);
                    proof {
                        assert(action_views(a@) =~= av + bv);
                    }
                    (true, a)
                },
                Input::Unknown(_) => (false, none),
                _ => (true, none),
            }
        }
    }

    /// Whether an input will be eaten if it comes (see [`test_spec`]).
    pub fn test_input(&self, input: Input) -> (r: bool)
        ensures
            r == test_spec(self@, input),
    {
        if !self.composing {
            match input {
                Input::Letter(_) | Input::Punct(_) | Input::Space => true,
                _ => false,
            }
        } else {
            match input {
                Input::Unknown(_) => false,
                _ => true,
            }
        }
    }

    /// Whether a shortcut will be eaten if it comes.
    pub fn test_shortcut(&self, shortcut: Shortcut) -> (r: bool)
        ensures
            r == shortcut_spec(self@, shortcut).0,
    {
        !self.composing && shortcut == Shortcut::NextSchema
    }

    /// Handles a shortcut: when not composing, Ctrl + Shift + N switches to
    /// the next schema.
    pub fn handle_shortcut(&mut self, shortcut: Shortcut) -> (r: bool)
        requires
            old(self).wf(),
        ensures
            final(self).wf(),
            (r, final(self)@) == shortcut_spec(old(self)@, shortcut),
    {
        if !self.composing && shortcut == Shortcut::NextSchema {
            self.engine.next_schema();
            true
        } else {
            false
        }
    }

    /// Whether the engine fits the spelling with `ch` typed.
    pub fn can_push(&self, ch: char) -> (r: bool)
        requires
            self.wf(),
        ensures
            r == fits(self@.engine, self@.spelling.push(ch)),
    {
        let mut sp = self.spelling.clone();
        push_char(&mut sp, ch);
        fits_exec(&self.engine, &sp)
    }

    /// Whether the engine fits the rest of the spelling after the
    /// `index`-th suggestion.
    fn can_select(&self, index: usize) -> (r: bool)
        requires
            self.wf(),
        ensures
            r == select_fits(self@, index as int),
    {
        if index >= self.suggestions.len() {
            return true;
        }
        let n = self.spelling.as_str().unicode_len();
        let ghost s = self@.suggestions[index as int];
        assert(well_grouped(s.groupping, n as int));
        let last = {
            let g = &self.suggestions[index].groupping;
            g[g.len() - 1]
        };
        assert(last as int == s.groupping.last());
        if last == n {
            return true;
        }
        let rest = skip_chars(&self.spelling, last);
        fits_exec(&self.engine, &rest)
    }

    /// Whether [`TextServiceInner::handle_input`] can take the input (see
    /// [`handle_fits`]).
    pub fn can_handle(&self, input: Input) -> (r: bool)
        requires
            self.wf(),
        ensures
            r == handle_fits(self@, input),
    {
        if !self.composing {
            return true;
        }
        match input {
            Input::Letter(l) => self.can_push(l),
            Input::Number(n) => n == 0 || self.can_select(n - 1),
            Input::Punct(p) => {
                let remapped = self.engine.peek_remap(p);
                !is_joiner_char(remapped) || self.can_push(p)
            },
            Input::Space => self.suggestions.len() == 0 || self.can_select(0),
            Input::Backspace => {
                if self.spelling.as_str().unicode_len() > 1 {
                    let rest = without_last(&self.spelling);
                    fits_exec(&self.engine, &rest)
                } else {
                    true
                }
            },
            Input::Tab => self.can_push(' '),
            _ => true,
        }
    }
}

/// Testing a key tells whether handling it eats it.
pub proof fn law_test_announces(m: ComposerModel, input: Input)
    ensures
        handle_spec(m, input).0 == test_spec(m, input),
{
}

/// Enter while composing with nothing chosen writes out the raw spelling.
pub proof fn law_enter_releases_raw(m: ComposerModel)
    requires
        m.composing,
        m.selected.len() == 0,
    ensures
        handle_spec(m, Input::Enter).0,
        handle_spec(m, Input::Enter).2 == seq![ActionModel::Finish(m.spelling)],
{
}

/// Space while composing with nothing chosen writes the first suggestion
/// when it reads the whole spelling.
pub proof fn law_space_confirms(m: ComposerModel)
    requires
        m.composing,
        m.selected.len() == 0,
        m.suggestions.len() > 0,
        m.suggestions[0].groupping.len() > 0,
        m.suggestions[0].groupping.last() == m.spelling.len(),
    ensures
        handle_spec(m, Input::Space).0,
        handle_spec(m, Input::Space).2 == seq![ActionModel::Finish(m.suggestions[0].output)],
{
}

/// A digit while composing is eaten: `n` (1 to 5) picks the `n`-th
/// suggestion, 0 changes nothing.
pub proof fn law_number_selects(m: ComposerModel, n: usize)
    requires
        m.composing,
    ensures
        handle_spec(m, Input::Number(n)).0,
        n > 0 ==> handle_spec(m, Input::Number(n)).1 == select_spec(m, n - 1).0,
        n > 0 ==> handle_spec(m, Input::Number(n)).2 == select_spec(m, n - 1).1,
        n == 0 ==> handle_spec(m, Input::Number(n)).1 == m,
        n == 0 ==> handle_spec(m, Input::Number(n)).2 == Seq::<ActionModel>::empty(),
{
}

/// Backspace on the last letter aborts the composition, writing out what
/// was chosen.
pub proof fn law_backspace_last_letter(m: ComposerModel)
    requires
        m.composing,
        m.spelling.len() == 1,
    ensures
        handle_spec(m, Input::Backspace).2 == (if m.selected.len() == 0 {
            seq![ActionModel::FinishQuietly(Seq::<char>::empty())]
        } else {
            seq![ActionModel::Finish(m.selected)]
        }),
{
    assert(m.spelling.drop_last() =~= Seq::<char>::empty());
}

/// A suggestion that reads the whole spelling as one group shows the
/// spelling as it is, with no delimiter.
pub proof fn law_preedit_single_group(sel: Seq<char>, sp: Seq<char>, sugs: Seq<SuggestionModel>)
    requires
        sp.len() > 0,
        sugs.len() > 0,
        sugs[0].groupping == seq![sp.len() as int],
    ensures
        preedit_of(sel, sp, sugs) == sel + sp,
{
    let g = sugs[0].groupping;
    assert(g.drop_last() =~= Seq::<int>::empty());
    assert(pieces(sp, g) == pieces(sp, g.drop_last()) + sp.subrange(0, sp.len() as int) + seq!['\'']);
    assert(pieces(sp, g.drop_last()) =~= Seq::<char>::empty());
    assert(sp.subrange(0, sp.len() as int) =~= sp);
    assert((sel + pieces(sp, g)).drop_last() =~= sel + sp);
}

/// Picking a suggestion never loses what was picked before: when it reads
/// the rest of the spelling, the composition ends writing the glyphs picked
/// earlier followed by the suggestion; otherwise they are kept with the
/// suggestion after them, and the letters it did not read stay to be typed
/// on.
pub proof fn law_select_keeps_picked(m: ComposerModel, i: int)
    requires
        0 <= i < m.suggestions.len(),
        m.suggestions[i].groupping.len() > 0,
    ensures
        m.suggestions[i].groupping.last() == m.spelling.len() ==> select_spec(m, i).1 == seq![
            ActionModel::Finish(m.selected + m.suggestions[i].output),
        ],
        m.suggestions[i].groupping.last() != m.spelling.len() ==> {
            &&& select_spec(m, i).0.selected == m.selected + m.suggestions[i].output
            &&& select_spec(m, i).0.spelling == m.spelling.skip(m.suggestions[i].groupping.last())
            &&& select_spec(m, i).0.composing == m.composing
        },
{
    if m.selected.len() == 0 {
        assert(m.selected + m.suggestions[i].output =~= m.suggestions[i].output);
    }
}

/// Two picks in a row: a suggestion that reads part of the spelling, then
/// one that reads all that is left, end the composition writing what was
/// picked before both, then both suggestions.
pub proof fn law_picks_accumulate(m: ComposerModel, i: int, j: int)
    requires
        0 <= i < m.suggestions.len(),
        m.suggestions[i].groupping.len() > 0,
        m.suggestions[i].groupping.last() != m.spelling.len(),
        0 <= j < select_spec(m, i).0.suggestions.len(),
        select_spec(m, i).0.suggestions[j].groupping.len() > 0,
        select_spec(m, i).0.suggestions[j].groupping.last() == select_spec(m, i).0.spelling.len(),
    ensures
        select_spec(select_spec(m, i).0, j).1 == seq![
            ActionModel::Finish(
                m.selected + m.suggestions[i].output + select_spec(m, i).0.suggestions[j].output,
            ),
        ],
{
    law_select_keeps_picked(m, i);
    law_select_keeps_picked(select_spec(m, i).0, j);
}

/// Space while composing picks the first suggestion when there is one.
pub proof fn law_space_picks_first(m: ComposerModel)
    requires
        m.composing,
        m.suggestions.len() > 0,
    ensures
        handle_spec(m, Input::Space).0,
        handle_spec(m, Input::Space).1 == select_spec(m, 0).0,
        handle_spec(m, Input::Space).2 == select_spec(m, 0).1,
{
}

/// While composing, an arrow key is eaten and changes nothing: the caret
/// does not leave the composition.
pub proof fn law_arrows_stay_in_composition(m: ComposerModel, keycode: u32, unit: Option<u16>)
    requires
        m.composing,
        0x25 <= keycode <= 0x28,
    ensures
        handle_spec(m, input_of(keycode, unit)) == (true, m, Seq::<ActionModel>::empty()),
        test_spec(m, input_of(keycode, unit)),
{
    law_arrow_keys(keycode, unit);
}

/// The text that ending actions write (empty for other actions).
pub open spec fn finish_text(a: ActionModel) -> Seq<char> {
    match a {
        ActionModel::Finish(t) => t,
        ActionModel::FinishQuietly(t) => t,
        _ => Seq::empty(),
    }
}

/// `t` is `head`, then a space when `head` is not empty, then `tail`.
pub open spec fn after_picked(t: Seq<char>, head: Seq<char>, tail: Seq<char>) -> bool {
    let gap = if head.len() > 0 { 1int } else { 0int };
    &&& t.len() == head.len() + gap + tail.len()
    &&& t.subrange(0, head.len() as int) == head
    &&& t.subrange(head.len() + gap, t.len() as int) == tail
    &&& gap == 1 ==> t[head.len() as int] == ' '
}

/// Ending the composition by Enter, by an interruption, or with no
/// suggestion to commit writes one text: the glyphs picked so far, then
/// (after a space, when there are any) the raw letters typed, followed by
/// the key's character when it is written too. An interruption with no
/// letter left writes the glyphs picked alone.
pub proof fn law_endings_write_picked_then_letters(m: ComposerModel, ch: char)
    ensures
        release_spec(m).1.len() == 1,
        release_spec(m).1[0] is Finish,
        after_picked(finish_text(release_spec(m).1[0]), m.selected, m.spelling),
        abort_spec(m).1.len() == 1,
        m.selected.len() > 0 ==> abort_spec(m).1[0] is Finish,
        m.selected.len() == 0 ==> abort_spec(m).1[0] is FinishQuietly,
        m.spelling.len() > 0 || m.selected.len() == 0 ==> after_picked(
            finish_text(abort_spec(m).1[0]),
            m.selected,
            m.spelling,
        ),
        m.spelling.len() == 0 ==> finish_text(abort_spec(m).1[0]) == m.selected,
        m.suggestions.len() == 0 ==> force_commit_spec(m, ch).1 == seq![
            ActionModel::Finish(finish_text(force_commit_spec(m, ch).1[0])),
        ],
        m.suggestions.len() == 0 ==> after_picked(
            finish_text(force_commit_spec(m, ch).1[0]),
            m.selected,
            m.spelling.push(ch),
        ),
{
    let sel = m.selected;
    let sp = m.spelling;
    let t1 = finish_text(release_spec(m).1[0]);
    if sel.len() == 0 {
        assert(t1.subrange(0, 0) =~= sel);
        assert(t1.subrange(0, t1.len() as int) =~= t1);
        assert(sp.push(ch).subrange(0, 0) =~= sel);
        assert(sp.push(ch).subrange(0, sp.push(ch).len() as int) =~= sp.push(ch));
    } else {
        let t = sel + seq![' '] + sp;
        assert(t.subrange(0, sel.len() as int) =~= sel);
        assert(t.subrange(sel.len() as int + 1, t.len() as int) =~= sp);
        assert(t[sel.len() as int] == ' ');
        let u = sel + seq![' '] + sp.push(ch);
        assert(u.subrange(0, sel.len() as int) =~= sel);
        assert(u.subrange(sel.len() as int + 1, u.len() as int) =~= sp.push(ch));
        assert(u[sel.len() as int] == ' ');
        if sp.len() == 0 {
            assert(sel.subrange(0, sel.len() as int) =~= sel);
        }
    }
}

/// Committing with a punctuator writes the glyphs picked so far, the first
/// suggestion, the letters it did not read (after a space), then the
/// punctuator.
pub proof fn law_force_commit_writes_all(m: ComposerModel, ch: char)
    requires
        m.suggestions.len() > 0,
        m.suggestions[0].groupping.len() > 0,
        0 <= m.suggestions[0].groupping.last() <= m.spelling.len(),
    ensures
        force_commit_spec(m, ch).1.len() == 1,
        ({
            let t = finish_text(force_commit_spec(m, ch).1[0]);
            let head = m.selected + m.suggestions[0].output;
            let left = m.spelling.skip(m.suggestions[0].groupping.last());
            &&& force_commit_spec(m, ch).1[0] is Finish
            &&& t.subrange(0, head.len() as int) == head
            &&& t.last() == ch
            &&& left.len() == 0 ==> t.len() == head.len() + 1
            &&& left.len() > 0 ==> t.subrange(head.len() as int + 1, t.len() - 1) == left && t[head.len() as int] == ' '
        }),
{
    let s0 = m.suggestions[0];
    let head = m.selected + s0.output;
    let last = s0.groupping.last();
    let left = m.spelling.skip(last);
    let rest = if last != m.spelling.len() { seq![' '] + left } else { Seq::empty() };
    let t = m.selected + s0.output + rest + seq![ch];
    assert(t.subrange(0, head.len() as int) =~= head);
    if left.len() > 0 {
        assert(t.subrange(head.len() as int + 1, t.len() - 1) =~= left);
    }
}

/// Typing a character adds it at the end of the spelling; the glyphs picked
/// stay, the suggestions are those of the new spelling, and the preedit of
/// the new state is shown.
pub proof fn law_typing_grows_the_spelling(m: ComposerModel, ch: char)
    ensures
        push_spec(m, ch).0.spelling == m.spelling.push(ch),
        push_spec(m, ch).0.spelling.len() == m.spelling.len() + 1,
        push_spec(m, ch).0.selected == m.selected,
        push_spec(m, ch).0.composing == m.composing,
        push_spec(m, ch).0.engine == m.engine,
        push_spec(m, ch).0.suggestions == suggestions(m.engine, m.spelling.push(ch)),
        push_spec(m, ch).1 == seq![
            ActionModel::Show(preedit_of(m.selected, m.spelling.push(ch), push_spec(m, ch).0.suggestions)),
        ],
{
}

/// Backspace with more than one letter removes the last letter, keeps the
/// glyphs picked and suggests for what is left: typing a character, then
/// Backspace, comes back to the same spelling.
pub proof fn law_backspace_undoes_typing(m: ComposerModel, ch: char)
    requires
        m.spelling.len() > 0,
    ensures
        pop_spec(push_spec(m, ch).0).0.spelling == m.spelling,
        pop_spec(push_spec(m, ch).0).0.selected == m.selected,
        pop_spec(push_spec(m, ch).0).0.suggestions == suggestions(m.engine, m.spelling),
{
    assert(m.spelling.push(ch).drop_last() =~= m.spelling);
}

/// The text without the delimiters `'`.
pub open spec fn strip_delims(s: Seq<char>) -> Seq<char>
    decreases s.len(),
{
    if s.len() == 0 {
        Seq::empty()
    } else if s.last() == '\'' {
        strip_delims(s.drop_last())
    } else {
        strip_delims(s.drop_last()).push(s.last())
    }
}

proof fn lemma_strip_delims_add(a: Seq<char>, b: Seq<char>)
    ensures
        strip_delims(a + b) == strip_delims(a) + strip_delims(b),
    decreases b.len(),
{
    if b.len() == 0 {
        assert(a + b =~= a);
        assert(strip_delims(a) + strip_delims(b) =~= strip_delims(a));
    } else {
        lemma_strip_delims_add(a, b.drop_last());
        assert((a + b).drop_last() =~= a + b.drop_last());
        assert((a + b).last() == b.last());
        assert(strip_delims(a) + strip_delims(b.drop_last()).push(b.last())
            =~= (strip_delims(a) + strip_delims(b.drop_last())).push(b.last()));
    }
}

proof fn lemma_strip_delims_plain(s: Seq<char>)
    requires
        !s.contains('\''),
    ensures
        strip_delims(s) == s,
    decreases s.len(),
{
    if s.len() > 0 {
        assert(!s.drop_last().contains('\'')) by {
            if s.drop_last().contains('\'') {
                let i = choose|i: int| 0 <= i < s.drop_last().len() && s.drop_last()[i] == '\'';
                assert(s[i] == '\'');
            }
        }
        lemma_strip_delims_plain(s.drop_last());
        assert(s[s.len() - 1] == s.last());
        assert(s.drop_last().push(s.last()) =~= s);
    }
}

proof fn lemma_pieces_strip(sp: Seq<char>, g: Seq<int>)
    requires
        !sp.contains('\''),
        forall|i: int| 0 <= i < g.len() ==> 0 <= #[trigger] g[i] <= sp.len(),
        forall|i: int, j: int| 0 <= i < j < g.len() ==> g[i] <= g[j],
    ensures
        strip_delims(pieces(sp, g)) == sp.take(last_end(g)),
    decreases g.len(),
{
    if g.len() > 0 {
        let p = g.drop_last();
        assert forall|i: int| 0 <= i < p.len() implies 0 <= #[trigger] p[i] <= sp.len() by {
            assert(p[i] == g[i]);
        }
        assert forall|i: int, j: int| 0 <= i < j < p.len() implies p[i] <= p[j] by {
            assert(p[i] == g[i] && p[j] == g[j]);
        }
        lemma_pieces_strip(sp, p);
        let a = last_end(p);
        let e = g.last();
        assert(0 <= a <= e) by {
            if p.len() > 0 {
                assert(p.last() == g[p.len() - 1]);
            }
            assert(g[g.len() - 1] == e);
        }
        let piece = sp.subrange(a, e);
        assert(!piece.contains('\'')) by {
            if piece.contains('\'') {
                let i = choose|i: int| 0 <= i < piece.len() && piece[i] == '\'';
                assert(sp[a + i] == '\'');
            }
        }
        lemma_strip_delims_plain(piece);
        lemma_strip_delims_add(pieces(sp, p), piece);
        lemma_strip_delims_add(pieces(sp, p) + piece, seq!['\'']);
        assert(seq!['\''].drop_last() =~= Seq::<char>::empty());
        assert(strip_delims(seq!['\'']) == strip_delims(Seq::<char>::empty()));
        assert(sp.take(a) + piece =~= sp.take(e));
        assert(sp.take(e) + strip_delims(Seq::<char>::empty()) =~= sp.take(e));
    }
}

/// The preedit is the glyphs picked so far followed by the spelling, the
/// groups of the first suggestion marked with `'` between them: taking the
/// marks out of what follows the glyphs gives back the spelling typed.
pub proof fn law_preedit_shows_the_spelling(sel: Seq<char>, sp: Seq<char>, sugs: Seq<SuggestionModel>)
    requires
        !sp.contains('\''),
        sugs.len() > 0 ==> well_grouped(sugs[0].groupping, sp.len() as int),
    ensures
        preedit_of(sel, sp, sugs).subrange(0, sel.len() as int) == sel,
        strip_delims(preedit_of(sel, sp, sugs).skip(sel.len() as int)) == sp,
{
    let t = preedit_of(sel, sp, sugs);
    if sugs.len() == 0 {
        assert(t.subrange(0, sel.len() as int) =~= sel);
        assert(t.skip(sel.len() as int) =~= sp);
        lemma_strip_delims_plain(sp);
    } else {
        let g = sugs[0].groupping;
        lemma_pieces_strip(sp, g);
        let pc = pieces(sp, g);
        let e = last_end(g);
        assert(0 <= e <= sp.len()) by {
            assert(g[g.len() - 1] == e);
        }
        if e != sp.len() {
            let rest = sp.skip(e);
            assert(!rest.contains('\'')) by {
                if rest.contains('\'') {
                    let i = choose|i: int| 0 <= i < rest.len() && rest[i] == '\'';
                    assert(sp[e + i] == '\'');
                }
            }
            lemma_strip_delims_plain(rest);
            assert(t =~= sel + (pc + rest));
            assert(t.subrange(0, sel.len() as int) =~= sel);
            assert(t.skip(sel.len() as int) =~= pc + rest);
            lemma_strip_delims_add(pc, rest);
            assert(sp.take(e) + rest =~= sp);
        } else {
            assert(pc.len() > 0 && pc.last() == '\'') by {
                assert(pc == pieces(sp, g.drop_last()) + sp.subrange(last_end(g.drop_last()), g.last()) + seq!['\'']);
            }
            assert((sel + pc).len() > 0);
            assert(t =~= sel + pc.drop_last());
            assert(t.subrange(0, sel.len() as int) =~= sel);
            assert(t.skip(sel.len() as int) =~= pc.drop_last());
            assert(strip_delims(pc) == strip_delims(pc.drop_last()));
            assert(sp.take(e) =~= sp);
        }
    }
}

} // verus!
