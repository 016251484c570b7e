//! Variable sources: a name either has a text definition, has a definition
//! that is not text, or has none.

use crate::dictionary::{entries_map, Dictionary};
use vstd::prelude::*;

verus! {

/// A top-level value of a variable document.
#[derive(Debug, Clone, PartialEq, Eq)]
pub enum JsonLeaf {
    /// A string value.
    Str(String),
    /// Any value that is not a string (a number, a list, an object, ...).
    Other,
}

impl View for JsonLeaf {
    type V = Option<Seq<char>>;

    open spec fn view(&self) -> Option<Seq<char>> {
        match self {
            JsonLeaf::Str(s) => Some(s@),
            JsonLeaf::Other => None,
        }
    }
}

/// Why a name does not resolve to text.
#[derive(Debug, Clone, Copy, PartialEq, Eq, Structural)]
pub enum DefnError {
    /// The source holds no definition of the name.
    NotDefined,
    /// The source defines the name by a value that is not text.
    NotText,
}

/// What a source says of `name`: its text, or why there is none.
pub open spec fn resolve(vars: Map<Seq<char>, Option<Seq<char>>>, name: Seq<char>) -> Result<
    Seq<char>,
    DefnError,
> {
    if !vars.contains_key(name) {
        Err(DefnError::NotDefined)
    } else {
        match vars[name] {
            Some(t) => Ok(t),
            None => Err(DefnError::NotText),
        }
    }
}

/// The model of a lookup result.
pub open spec fn defn_model(r: Result<&str, DefnError>) -> Result<Seq<char>, DefnError> {
    match r {
        Ok(s) => Ok(s@),
        Err(e) => Err(e),
    }
}

/// A source of variable definitions, seen as a map from each defined name to
/// its text (`Some`) or to `None` where the value is not text.
pub trait VariableTrait: View<V = Map<Seq<char>, Option<Seq<char>>>> {
    /// The text that defines `key`.
    fn get_defn(&self, key: &str) -> (r: Result<&str, DefnError>)
        ensures
            defn_model(r) == resolve(self@, key@),
    ;

    /// Whether the source holds any definition of `key`.
    fn defines(&self, key: &str) -> (r: bool)
        ensures
            r == self@.contains_key(key@),
    ;
}

/// The variables of one generation: plain name/text pairs, or the top level
/// of a document whose values may be of other kinds than text.
pub enum VariableMap {
    Strings(Dictionary<String, String>),
    Document(Dictionary<String, JsonLeaf>),
}

/// Every value of `m` as a text definition.
pub open spec fn as_text_defns(m: Map<Seq<char>, Seq<char>>) -> Map<Seq<char>, Option<Seq<char>>> {
    Map::new(|k: Seq<char>| m.contains_key(k), |k: Seq<char>| Some(m[k]))
}

impl View for VariableMap {
    type V = Map<Seq<char>, Option<Seq<char>>>;

    open spec fn view(&self) -> Map<Seq<char>, Option<Seq<char>>> {
        match self {
            VariableMap::Strings(d) => as_text_defns(d@),
            VariableMap::Document(d) => d@,
        }
    }
}

impl VariableMap {
    /// The source that defines each name of `pairs` by its text; where a name
    /// comes twice, the later pair decides.
    pub fn from_pairs(pairs: Vec<(String, String)>) -> (r: Self)
        ensures
            r@ == as_text_defns(entries_map(pairs@)),
    {
        let mut d: Dictionary<String, String> = Dictionary::new();
        let ghost all = pairs@;
        for kv in it: pairs
            invariant
                it.seq() == all,
                d@ == entries_map(all.take(it.index() as int)),
        {
            let ghost i = it.index();
            let (k, v) = kv;
            d.insert(k, v);
            proof {
                assert(all.take(i + 1).drop_last() =~= all.take(i as int));
            }
        }
        proof {
            assert(all.take(all.len() as int) =~= all);
        }
        VariableMap::Strings(d)
    }

    /// The source that the top-level entries of a document define; where a
    /// name comes twice, the later entry decides.
    pub fn document(entries: Vec<(String, JsonLeaf)>) -> (r: Self)
        ensures
            r@ == entries_map(entries@),
    {
        let mut d: Dictionary<String, JsonLeaf> = Dictionary::new();
        let ghost all = entries@;
        for kv in it: entries
            invariant
                it.seq() == all,
                d@ == entries_map(all.take(it.index() as int)),
        {
            let ghost i = it.index();
            let (k, v) = kv;
            d.insert(k, v);
            proof {
                assert(all.take(i + 1).drop_last() =~= all.take(i as int));
            }
        }
        proof {
            assert(all.take(all.len() as int) =~= all);
        }
        VariableMap::Document(d)
    }
}

/// Why JSON text does not give a variable source.
#[derive(Debug, Clone, Copy, PartialEq, Eq, Structural)]
pub enum VariablesError {
    /// The text is not a JSON document.
    InvalidJson,
    /// The document's top-level value is not an object.
    NotAnObject,
}

#[verifier::external_type_specification]
#[verifier::external_body]
pub struct ExJsonError(serde_json::Error);

/// The top level of JSON text as it is read: `None` when the text is not a
/// JSON document, `Some(None)` when its top-level value is not an object, and
/// otherwise the object's entries in the order in which its map yields them,
/// a string value as `Some` of its text and any other value as `None`.
pub uninterp spec fn json_top_level(text: Seq<char>) -> Option<
    Option<Seq<(Seq<char>, Option<Seq<char>>)>>,
>;

pub open spec fn leaves_model(e: Seq<(String, JsonLeaf)>) -> Seq<(Seq<char>, Option<Seq<char>>)> {
    e.map_values(|p: (String, JsonLeaf)| (p.0@, p.1@))
}

/// The definitions that a sequence of entries denotes; a later entry of a
/// name decides it.
pub open spec fn defns_map(e: Seq<(Seq<char>, Option<Seq<char>>)>) -> Map<
    Seq<char>,
    Option<Seq<char>>,
>
    decreases e.len(),
{
    if e.len() == 0 {
        Map::empty()
    } else {
        defns_map(e.drop_last()).insert(e.last().0, e.last().1)
    }
}

proof fn lemma_defns_map(e: Seq<(String, JsonLeaf)>)
    ensures
        entries_map(e) == defns_map(leaves_model(e)),
    decreases e.len(),
{
    if e.len() > 0 {
        lemma_defns_map(e.drop_last());
        assert(leaves_model(e).drop_last() =~= leaves_model(e.drop_last()));
    }
}

/// Relies on `serde_json::from_str` read into a `serde_json::Value`: the
/// value depends on the text alone. An object's entries are handed out in
/// its map's order, string values as text.
#[verifier::external_body]
fn read_json(text: &str) -> (r: Result<Option<Vec<(String, JsonLeaf)>>, serde_json::Error>)
    ensures
        match r {
            Err(_) => json_top_level(text@) is None,
            Ok(None) => json_top_level(text@) == Some(
                None::<Seq<(Seq<char>, Option<Seq<char>>)>>,
            ),
            Ok(Some(e)) => json_top_level(text@) == Some(Some(leaves_model(e@))),
        },
{
    let v: serde_json::Value = serde_json::from_str(text)?;
    Ok(match v {
        serde_json::Value::Object(m) => Some(m.into_iter().map(|(k, x)| match x {
            serde_json::Value::String(s) => (k, JsonLeaf::Str(s)),
            _ => (k, JsonLeaf::Other),
        }).collect()),
        _ => None,
    })
}

impl VariableMap {
    /// The source that the top-level object of JSON text `s` defines.
    pub fn json_str(s: &str) -> (r: Result<VariableMap, VariablesError>)
        ensures
            match json_top_level(s@) {
                None => r == Err::<VariableMap, VariablesError>(VariablesError::InvalidJson),
                Some(None) => r == Err::<VariableMap, VariablesError>(
                    VariablesError::NotAnObject,
                ),
                Some(Some(e)) => r matches Ok(v) && v@ == defns_map(e),
            },
    {
        match read_json(s) {
            Ok(Some(entries)) => {
                proof {
                    lemma_defns_map(entries@);
                }
                Ok(VariableMap::document(entries))
            },
            Ok(None) => Err(VariablesError::NotAnObject),
            Err(_) => Err(VariablesError::InvalidJson),
        }
    }
}

impl VariableTrait for VariableMap {
    fn get_defn(&self, key: &str) -> (r: Result<&str, DefnError>) {
        let k = String::from_str(key);
        match self {
            VariableMap::Strings(d) => match d.get(&k) {
                Some(v) => Ok(v.as_str()),
                None => Err(DefnError::NotDefined),
            },
            VariableMap::Document(d) => match d.get(&k) {
                Some(JsonLeaf::Str(v)) => Ok(v.as_str()),
                Some(JsonLeaf::Other) => Err(DefnError::NotText),
                None => Err(DefnError::NotDefined),
            },
        }
    }

    fn defines(&self, key: &str) -> (r: bool) {
        let k = String::from_str(key);
        match self {
            VariableMap::Strings(d) => d.get(&k).is_some(),
            VariableMap::Document(d) => d.get(&k).is_some(),
        }
    }
}

} // verus!
