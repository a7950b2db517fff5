pub mod long_glyph;
pub mod schema;
pub mod dicts;
pub mod sentence;
pub mod suggest;
pub mod laws;

use vstd::prelude::*;
use std::collections::VecDeque;
use crate::conf::Behavior;
use self::schema::{Schema, SchemaModel};

verus! {

broadcast use vstd::std_specs::vecdeque::group_vec_dequeue_axioms;

/// A suggestion of the engine: the text to output and where the spelling is
/// cut into groups (the end of each group).
#[derive(Default, Clone)]
pub struct Suggestion {
    pub output: String,
    pub groupping: Vec<usize>,
}

/// The mathematical value of a [`Suggestion`].
pub struct SuggestionModel {
    pub output: Seq<char>,
    pub groupping: Seq<int>,
}

impl View for Suggestion {
    type V = SuggestionModel;

    open spec fn view(&self) -> SuggestionModel {
        SuggestionModel { output: self.output@, groupping: self.groupping@.map_values(|x: usize| x as int) }
    }
}

/// The engine: the schemas to query, the first one being in use, and the
/// state of the quotes.
pub struct Engine {
    schemas: VecDeque<Schema>,
    squote_open: bool,
    dquote_open: bool,
    behavior: Behavior,
}

/// The mathematical value of an [`Engine`].
pub struct EngineModel {
    pub schemas: Seq<SchemaModel>,
    pub squote_open: bool,
    pub dquote_open: bool,
    pub behavior: Behavior,
}

impl View for Engine {
    type V = EngineModel;

    closed spec fn view(&self) -> EngineModel {
        EngineModel {
            schemas: self.schemas@.map_values(|s: Schema| s@),
            squote_open: self.squote_open,
            dquote_open: self.dquote_open,
            behavior: self.behavior,
        }
    }
}

impl EngineModel {
    /// The schema in use.
    pub open spec fn schema(self) -> SchemaModel {
        self.schemas[0]
    }

    /// The engine after switching to the next schema: the schema in use goes
    /// last and both quotes are closed.
    pub open spec fn next(self) -> EngineModel {
        EngineModel {
            schemas: self.schemas.drop_first().push(self.schemas[0]),
            squote_open: false,
            dquote_open: false,
            behavior: self.behavior,
        }
    }

    /// The punctuator that `punct` is remapped to, and the engine after it.
    /// Quotes alternate between their opening and closing form; the
    /// ideographic space is typed only when the `cjk_space` switch is on.
    pub open spec fn remap(self, punct: char) -> (char, EngineModel) {
        if punct == '\'' {
            (
                if self.squote_open { self.schema().squote.1 } else { self.schema().squote.0 },
                EngineModel { squote_open: !self.squote_open, ..self },
            )
        } else if punct == '"' {
            (
                if self.dquote_open { self.schema().dquote.1 } else { self.schema().dquote.0 },
                EngineModel { dquote_open: !self.dquote_open, ..self },
            )
        } else if self.schema().puncts.contains_key(punct) && (self.schema().puncts[punct]
            != '\u{3000}' || self.behavior.cjk_space) {
            (self.schema().puncts[punct], self)
        } else {
            (punct, self)
        }
    }
}

impl Engine {
    /// The engine is well formed: it has a schema.
    pub closed spec fn wf(&self) -> bool {
        self.schemas@.len() > 0
    }

    /// A well formed engine is one with a schema.
    pub proof fn lemma_wf(&self)
        ensures
            self.wf() == (self@.schemas.len() > 0),
    {
    }

    /// The engine of the dictionaries that come with the input method: the
    /// glyphs first, then the emoji, both quotes closed.
    pub fn with_defaults(sitelen: Schema, emoji: Schema, behavior: Behavior) -> (e: Engine)
        ensures
            e.wf(),
            e@ == (EngineModel {
                schemas: seq![sitelen@, emoji@],
                squote_open: false,
                dquote_open: false,
                behavior,
            }),
    {
        let ghost a = sitelen@;
        let ghost b = emoji@;
        let mut v: Vec<Schema> = Vec::new();
        v.push(sitelen);
        v.push(emoji);
        proof {
            assert(v@.map_values(|s: Schema| s@) =~= seq![a, b]);
        }
        Engine::new(v, behavior)
    }

    /// An engine over the given schemas, the first one in use.
    pub fn new(schemas: Vec<Schema>, behavior: Behavior) -> (e: Engine)
        requires
            schemas@.len() > 0,
        ensures
            e.wf(),
            e@ == (EngineModel {
                schemas: schemas@.map_values(|s: Schema| s@),
                squote_open: false,
                dquote_open: false,
                behavior,
            }),
    {
        let mut q: VecDeque<Schema> = VecDeque::new();
        let mut schemas = schemas;
        let ghost all = schemas@;
        let mut rest: Vec<Schema> = Vec::new();
        // reverse, then pop from the back into the queue
        while schemas.len() > 0
            invariant
                rest@.len() + schemas@.len() == all.len(),
                schemas@ == all.take(schemas@.len() as int),
                forall|i: int| 0 <= i < rest@.len() ==> #[trigger] rest@[i] == all[all.len() - 1 - i],
            decreases schemas@.len(),
        {
            let s = schemas.pop().unwrap();
            rest.push(s);
        }
        while rest.len() > 0
            invariant
                q@.len() + rest@.len() == all.len(),
                forall|i: int| 0 <= i < rest@.len() ==> #[trigger] rest@[i] == all[all.len() - 1 - i],
                forall|i: int| 0 <= i < q@.len() ==> #[trigger] q@[i] == all[i],
            decreases rest@.len(),
        {
            let s = rest.pop().unwrap();
            q.push_back(s);
        }
        let e = Engine { schemas: q, squote_open: false, dquote_open: false, behavior };
        proof {
            assert(q@ =~= all);
            assert(e@.schemas =~= all.map_values(|s: Schema| s@));
        }
        e
    }

    /// The behavior switches of the engine.
    pub fn behavior(&self) -> (b: Behavior)
        ensures
            b == self@.behavior,
    {
        self.behavior
    }

    /// The schema in use.
    fn schema(&self) -> (s: &Schema)
        requires
            self.wf(),
        ensures
            s@ == self@.schema(),
    {
        &self.schemas[0]
    }

    /// Switches to the next schema; the one in use goes last. Both quotes
    /// are closed again.
    pub fn next_schema(&mut self)
        requires
            old(self).wf(),
        ensures
            final(self).wf(),
            final(self)@ == old(self)@.next(),
    {
        let ghost s0 = self.schemas@;
        let first = self.schemas.pop_front().unwrap();
        self.schemas.push_back(first);
        self.squote_open = false;
        self.dquote_open = false;
        proof {
            assert(self.schemas@ =~= s0.drop_first().push(s0[0]));
            assert(self@.schemas =~= s0.map_values(|s: Schema| s@).drop_first().push(s0[0]@));
        }
    }

    /// The punctuator that [`Engine::remap_punct`] would give for `punct`,
    /// the engine left as it is.
    pub fn peek_remap(&self, punct: char) -> (r: char)
        requires
            self.wf(),
        ensures
            r == self@.remap(punct).0,
    {
        if punct == '\'' {
            if !self.squote_open {
                self.schema().squote.0
            } else {
                self.schema().squote.1
            }
        } else if punct == '"' {
            if !self.dquote_open {
                self.schema().dquote.0
            } else {
                self.schema().dquote.1
            }
        } else {
            match self.schema().puncts.get(punct) {
                Some(it) => {
                    if it != '\u{3000}' || self.behavior.cjk_space {
                        it
                    } else {
                        punct
                    }
                },
                None => punct,
            }
        }
    }

    /// Remaps a punctuator as the schema in use says. Quotes alternate
    /// between their opening and closing form.
    pub fn remap_punct(&mut self, punct: char) -> (r: char)
        requires
            old(self).wf(),
        ensures
            final(self).wf(),
            (r, final(self)@) == old(self)@.remap(punct),
    {
        if punct == '\'' {
            let remapped = if !self.squote_open {
                self.schema().squote.0
            } else {
                self.schema().squote.1
            };
            self.squote_open = !self.squote_open;
            remapped
        } else if punct == '"' {
            let remapped = if !self.dquote_open {
                self.schema().dquote.0
            } else {
                self.schema().dquote.1
            };
            self.dquote_open = !self.dquote_open;
            remapped
        } else {
            match self.schema().puncts.get(punct) {
                Some(it) => {
                    if it != '\u{3000}' || self.behavior.cjk_space {
                        it
                    } else {
                        punct
                    }
                },
                None => punct,
            }
        }
    }
}

} // verus!
