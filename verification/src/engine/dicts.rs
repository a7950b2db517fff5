use vstd::prelude::*;
use crate::conf::Behavior;
use crate::text::chars_of;
use super::schema::{Schema, SchemaModel};
use super::{Engine, EngineModel};

verus! {

/// Whether `name` ends with `.dict`.
pub open spec fn is_dict_name(name: Seq<char>) -> bool {
    name.len() >= 5 && name.skip(name.len() - 5) == seq!['.', 'd', 'i', 'c', 't']
}

/// The name of the default dictionary, `sitelen.dict`.
pub open spec fn default_dict_name() -> Seq<char> {
    seq!['s', 'i', 't', 'e', 'l', 'e', 'n', '.', 'd', 'i', 'c', 't']
}

/// The names and schemas of dictionary files.
pub open spec fn named_views(d: Seq<(String, Schema)>) -> Seq<(Seq<char>, SchemaModel)> {
    d.map_values(|p: (String, Schema)| (p.0@, p.1@))
}

/// The schemas of the dictionaries that are not the default one, in order.
pub open spec fn other_schemas(d: Seq<(Seq<char>, SchemaModel)>) -> Seq<SchemaModel>
    decreases d.len(),
{
    if d.len() == 0 {
        Seq::empty()
    } else if d.last().0 == default_dict_name() {
        other_schemas(d.drop_last())
    } else {
        other_schemas(d.drop_last()).push(d.last().1)
    }
}

/// The schema of the last dictionary named as the default one.
pub open spec fn default_schema(d: Seq<(Seq<char>, SchemaModel)>) -> Option<SchemaModel>
    decreases d.len(),
{
    if d.len() == 0 {
        None
    } else if d.last().0 == default_dict_name() {
        Some(d.last().1)
    } else {
        default_schema(d.drop_last())
    }
}

/// The schemas of an engine built from dictionaries: the default one first,
/// then the others in the order found.
pub open spec fn dict_schemas(d: Seq<(Seq<char>, SchemaModel)>) -> Seq<SchemaModel> {
    match default_schema(d) {
        Some(s) => seq![s] + other_schemas(d),
        None => other_schemas(d),
    }
}

proof fn lemma_dict_schemas_empty(d: Seq<(Seq<char>, SchemaModel)>)
    ensures
        dict_schemas(d).len() == 0 <==> d.len() == 0,
    decreases d.len(),
{
    if d.len() > 0 {
        lemma_dict_schemas_empty(d.drop_last());
    }
}

/// Whether a directory entry is a dictionary file: a file whose name ends
/// with `.dict`.
pub fn is_dict_file(file_name: &str, is_dir: bool) -> (r: bool)
    ensures
        r == (!is_dir && is_dict_name(file_name@)),
{
    if is_dir {
        return false;
    }
    let v = chars_of(file_name);
    let n = v.len();
    if n < 5 {
        return false;
    }
    let r = v[n - 5] == '.' && v[n - 4] == 'd' && v[n - 3] == 'i' && v[n - 2] == 'c' && v[n - 1] == 't';
    proof {
        let tail = v@.skip(n - 5);
        if r {
            assert(tail =~= seq!['.', 'd', 'i', 'c', 't']);
        } else if tail == seq!['.', 'd', 'i', 'c', 't'] {
            assert(tail[0] == v@[n - 5]);
            assert(tail[1] == v@[n - 4]);
            assert(tail[2] == v@[n - 3]);
            assert(tail[3] == v@[n - 2]);
            assert(tail[4] == v@[n - 1]);
        }
    }
    r
}

/// Whether `name` is `sitelen.dict`.
fn is_default_dict(name: &String) -> (r: bool)
    ensures
        r == (name@ == default_dict_name()),
{
    let v = chars_of(name.as_str());
    let ghost d = default_dict_name();
    if v.len() != 12 {
        return false;
    }
    let r = v[0] == 's' && v[1] == 'i' && v[2] == 't' && v[3] == 'e' && v[4] == 'l' && v[5] == 'e'
        && v[6] == 'n' && v[7] == '.' && v[8] == 'd' && v[9] == 'i' && v[10] == 'c' && v[11] == 't';
    proof {
        if r {
            assert(v@ =~= d);
        } else if v@ == d {
            assert(v@[0] == d[0] && v@[1] == d[1] && v@[2] == d[2] && v@[3] == d[3]);
            assert(v@[4] == d[4] && v@[5] == d[5] && v@[6] == d[6] && v@[7] == d[7]);
            assert(v@[8] == d[8] && v@[9] == d[9] && v@[10] == d[10] && v@[11] == d[11]);
        }
    }
    r
}

impl Engine {
    /// An engine over the dictionaries found, each given by its file name:
    /// `sitelen.dict` first, the others in the order found. `None` when no
    /// dictionary was found.
    pub fn from_dicts(dicts: Vec<(String, Schema)>, behavior: Behavior) -> (r: Option<Engine>)
        ensures
            r is None <==> dicts@.len() == 0,
            r matches Some(e) ==> e.wf() && e@ == (EngineModel {
                schemas: dict_schemas(named_views(dicts@)),
                squote_open: false,
                dquote_open: false,
                behavior,
            }),
    {
        let ghost d = named_views(dicts@);
        let mut dicts = dicts;
        let mut others: Vec<Schema> = Vec::new();
        let mut default: Option<Schema> = None;
        let ghost mut i: int = 0;
        proof {
            assert(d.take(0) =~= Seq::<(Seq<char>, SchemaModel)>::empty());
            assert(others@.map_values(|s: Schema| s@) =~= other_schemas(d.take(0)));
        }
        while dicts.len() > 0
            invariant
                0 <= i <= d.len(),
                named_views(dicts@) == d.skip(i),
                others@.map_values(|s: Schema| s@) == other_schemas(d.take(i)),
                match default {
                    Some(s) => default_schema(d.take(i)) == Some(s@),
                    None => default_schema(d.take(i)) is None,
                },
            decreases dicts@.len(),
        {
            let ghost before = named_views(dicts@);
            let (name, schema) = dicts.remove(0);
            proof {
                assert(before[0] == (name@, schema@));
                assert(before == d.skip(i));
                assert(before.len() > 0);
                assert(d.skip(i)[0] == d[i]);
                assert(named_views(dicts@) =~= before.drop_first());
                assert(d.take(i + 1).drop_last() =~= d.take(i));
                assert(d.take(i + 1).last() == d[i]);
            }
            if is_default_dict(&name) {
                default = Some(schema);
            } else {
                let ghost o = others@.map_values(|s: Schema| s@);
                others.push(schema);
                proof {
                    assert(others@.map_values(|s: Schema| s@) =~= o.push(schema@));
                }
            }
            proof {
                i = i + 1;
                assert(d.skip(i) =~= before.drop_first());
            }
        }
        proof {
            assert(d.skip(i).len() == 0);
            assert(d.take(i) =~= d);
            lemma_dict_schemas_empty(d);
        }
        let mut all: Vec<Schema> = Vec::new();
        match default {
            Some(s) => {
                all.push(s);
            },
            None => {},
        }
        let ghost head = all@.map_values(|s: Schema| s@);
        let ghost os = others@.map_values(|s: Schema| s@);
        all.append(&mut others);
        proof {
            assert(all@.map_values(|s: Schema| s@) =~= head + os);
            assert(all@.map_values(|s: Schema| s@) =~= dict_schemas(d));
        }
        if all.len() == 0 {
            None
        } else {
            Some(Engine::new(all, behavior))
        }
    }

    /// The engine over the dictionaries found (see [`Engine::from_dicts`]);
    /// `default` when they could not be read (`None`) or when there is none.
    pub fn build_or_default(found: Option<Vec<(String, Schema)>>, behavior: Behavior, default: Engine) -> (r: Engine)
        requires
            default.wf(),
        ensures
            r.wf(),
            r@.schemas.len() > 0,
            !default@.squote_open && !default@.dquote_open ==> !r@.squote_open && !r@.dquote_open,
            r@ == (match found {
                Some(d) => if d@.len() > 0 {
                    EngineModel {
                        schemas: dict_schemas(named_views(d@)),
                        squote_open: false,
                        dquote_open: false,
                        behavior,
                    }
                } else {
                    default@
                },
                None => default@,
            }),
    {
        proof {
            default.lemma_wf();
        }
        match found {
            Some(d) => match Engine::from_dicts(d, behavior) {
                Some(e) => e,
                None => default,
            },
            None => default,
        }
    }
}

} // verus!
