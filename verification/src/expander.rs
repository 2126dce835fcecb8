//! Making every reference absolute.
//!
//! The expanded document has the shape of the document it was made from. In
//! each text leaf that has an entry among the dependencies, every placeholder
//! whose reference text the entry knows holds, in place of that text, the
//! path that the reference names. Everything else stays as it is.
use crate::collector::{DependencyMap, ReferenceMap};
use crate::path::{child_path, AbsolutePath};
use crate::scanner::{rewrite, rewrite_text, Rule};
use crate::text::{chars_of, decimal, text_of};
use crate::value::{Entry, Json, Value};
use vstd::prelude::*;

verus! {

/// The rule that writes a placeholder anew with the path that its reference
/// names, and leaves a placeholder with an unknown reference as it is.
pub open spec fn expansion_rule(references: Map<Seq<char>, Seq<char>>) -> spec_fn(
    Seq<char>,
) -> Option<Seq<char>> {
    |reference: Seq<char>|
        if references.contains_key(reference) {
            Some(seq!['{'] + references[reference] + seq!['}'])
        } else {
            None
        }
}

/// The text of the leaf at `path`, expanded.
pub open spec fn expand_text(
    s: Seq<char>,
    dependencies: Map<Seq<char>, Map<Seq<char>, Seq<char>>>,
    path: Seq<char>,
) -> Seq<char> {
    if dependencies.contains_key(path) {
        rewrite(s, 0, expansion_rule(dependencies[path]))
    } else {
        s
    }
}

/// The document `j`, which stands at `path`, expanded.
pub open spec fn expand(
    j: Json,
    dependencies: Map<Seq<char>, Map<Seq<char>, Seq<char>>>,
    path: Seq<char>,
) -> Json
    decreases j,
{
    match j {
        Json::String(s) => Json::String(expand_text(s, dependencies, path)),
        Json::Array(items) => Json::Array(
            Seq::new(
                items.len(),
                |i: int|
                    if 0 <= i < items.len() {
                        expand(items[i], dependencies, child_path(path, decimal(i as nat)))
                    } else {
                        Json::Null
                    },
            ),
        ),
        Json::Object(entries) => Json::Object(
            Seq::new(
                entries.len(),
                |i: int|
                    if 0 <= i < entries.len() {
                        Entry {
                            key: entries[i].key,
                            value: expand(
                                entries[i].value,
                                dependencies,
                                child_path(path, entries[i].key),
                            ),
                        }
                    } else {
                        Entry { key: Seq::empty(), value: Json::Null }
                    },
            ),
        ),
        _ => j,
    }
}

impl Rule for ReferenceMap {
    open spec fn rule(&self) -> spec_fn(Seq<char>) -> Option<Seq<char>> {
        expansion_rule(self@)
    }

    fn replace(&self, reference: &Vec<char>) -> (out: Option<Vec<char>>) {
        let written = text_of(reference);
        match self.get(written.as_str()) {
            Some(path) => {
                let mut piece: Vec<char> = Vec::new();
                piece.push('{');
                let mut target = chars_of(path.as_str());
                piece.append(&mut target);
                piece.push('}');
                assert(piece@ =~= seq!['{'] + self@[reference@] + seq!['}']);
                Some(piece)
            },
            None => None,
        }
    }
}

/// The text of the leaf at `current_path`, expanded.
pub fn expand_leaf(text: &str, path_map: &DependencyMap, current_path: &AbsolutePath) -> (out:
    String)
    ensures
        out@ == expand_text(text@, path_map@, current_path@),
{
    match path_map.get(current_path.as_str()) {
        Some(references) => {
            let chars = chars_of(text);
            let expanded = rewrite_text(&chars, references);
            text_of(&expanded)
        },
        None => text.to_owned(),
    }
}

/// The document `json`, which stands at `current_path`, with every reference
/// that `path_map` knows made absolute.
pub fn expand_absolute_paths(
    json: &Value,
    path_map: &DependencyMap,
    current_path: &AbsolutePath,
) -> (out: Value)
    ensures
        out@ == expand(json@, path_map@, current_path@),
    decreases json,
{
    match json {
        Value::Object(entries) => {
            let mut new_map: Vec<(String, Value)> = Vec::new();
            let mut i: usize = 0;
            while i < entries.len()
                invariant
                    i <= entries.len(),
                    new_map.len() == i,
                    *json == Value::Object(*entries),
                    forall|k: int|
                        0 <= k < i ==> new_map@[k].0@ == entries@[k].0@ && new_map@[k].1@
                            == expand(
                            entries@[k].1@,
                            path_map@,
                            child_path(current_path@, entries@[k].0@),
                        ),
                decreases entries.len() - i,
            {
                let entry = &entries[i];
                assert(decreases_to!(json => json->Object_0@[i as int].1));
                let new_path = current_path.append(entry.0.as_str());
                new_map.push((entry.0.clone(), expand_absolute_paths(&entry.1, path_map, &new_path)));
                i += 1;
            }
            let out = Value::Object(new_map);
            assert(out@->Object_0 =~= expand(json@, path_map@, current_path@)->Object_0);
            out
        },
        Value::Array(items) => {
            let mut new_items: Vec<Value> = Vec::new();
            let mut i: usize = 0;
            while i < items.len()
                invariant
                    i <= items.len(),
                    new_items.len() == i,
                    *json == Value::Array(*items),
                    forall|k: int|
                        0 <= k < i ==> new_items@[k]@ == expand(
                            items@[k]@,
                            path_map@,
                            child_path(current_path@, decimal(k as nat)),
                        ),
                decreases items.len() - i,
            {
                let item = &items[i];
                assert(decreases_to!(json => json->Array_0@[i as int]));
                let new_path = current_path.append_index(i);
                new_items.push(expand_absolute_paths(item, path_map, &new_path));
                i += 1;
            }
            let out = Value::Array(new_items);
            assert(out@->Array_0 =~= expand(json@, path_map@, current_path@)->Array_0);
            out
        },
        Value::String(text) => Value::String(expand_leaf(text.as_str(), path_map, current_path)),
        _ => json.duplicate(),
    }
}

} // verus!
