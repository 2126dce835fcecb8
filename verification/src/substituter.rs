//! Putting values in place of placeholders.
//!
//! A text leaf that is one placeholder and nothing else, with a path that the
//! table knows, becomes the value found there, of whatever type. In every
//! other text leaf each placeholder with an absolute reference to a text, a
//! number, a boolean or null becomes the text of that value; a placeholder
//! that refers to an array or an object, or to a path that the table does
//! not know, stays as it is. Everything that is not a text leaf keeps its
//! shape.
use crate::extractor::TargetTable;
use crate::path::{canonical, is_absolute, AbsolutePath};
use crate::scanner::{find_char, find_from, rewrite, rewrite_text, Rule};
use crate::text::{chars_of, text_of};
use crate::value::{Entry, Json, Value};
use vstd::prelude::*;

verus! {

/// The reference of a text that is one placeholder and nothing else: an
/// opening brace, one character or more without a closing brace, and a
/// closing brace.
pub open spec fn whole_reference(s: Seq<char>) -> Option<Seq<char>> {
    if s.len() > 2 && s[0] == '{' && find_from(s, '}', 1) == s.len() - 1 {
        Some(s.subrange(1, s.len() - 1))
    } else {
        None
    }
}

/// The text that stands for a value inside a longer text: a text as it is, a
/// number in its decimal notation, a boolean as `true` or `false`, null as
/// `null`. An array or an object has none.
pub open spec fn rendering(j: Json) -> Option<Seq<char>> {
    match j {
        Json::String(s) => Some(s),
        Json::Number(n) => Some(n),
        Json::Bool(b) => if b {
            Some(seq!['t', 'r', 'u', 'e'])
        } else {
            Some(seq!['f', 'a', 'l', 's', 'e'])
        },
        Json::Null => Some(seq!['n', 'u', 'l', 'l']),
        _ => None,
    }
}

/// The rule for a placeholder inside a longer text: an absolute reference to
/// a path that the table knows gives the text of the value there, if it has one.
pub open spec fn embedded_rule(table: Map<Seq<char>, Json>) -> spec_fn(Seq<char>) -> Option<
    Seq<char>,
> {
    |reference: Seq<char>|
        if is_absolute(reference) && table.contains_key(canonical(reference)) {
            rendering(table[canonical(reference)])
        } else {
            None
        }
}

/// The text with its embedded placeholders resolved.
pub open spec fn substitute_embedded(s: Seq<char>, table: Map<Seq<char>, Json>) -> Seq<char> {
    rewrite(s, 0, embedded_rule(table))
}

/// What a text leaf becomes.
pub open spec fn substitute_text(s: Seq<char>, table: Map<Seq<char>, Json>) -> Json {
    match whole_reference(s) {
        Some(reference) => if table.contains_key(canonical(reference)) {
            table[canonical(reference)]
        } else {
            Json::String(substitute_embedded(s, table))
        },
        None => Json::String(substitute_embedded(s, table)),
    }
}

/// What a document becomes.
pub open spec fn substitute(j: Json, table: Map<Seq<char>, Json>) -> Json
    decreases j,
{
    match j {
        Json::String(s) => substitute_text(s, table),
        Json::Array(items) => Json::Array(
            Seq::new(
                items.len(),
                |i: int|
                    if 0 <= i < items.len() {
                        substitute(items[i], table)
                    } else {
                        Json::Null
                    },
            ),
        ),
        Json::Object(entries) => Json::Object(
            Seq::new(
                entries.len(),
                |i: int|
                    if 0 <= i < entries.len() {
                        Entry { key: entries[i].key, value: substitute(entries[i].value, table) }
                    } else {
                        Entry { key: Seq::empty(), value: Json::Null }
                    },
            ),
        ),
        _ => j,
    }
}

/// The text that stands for a value inside a longer text.
pub fn render_value(value: &Value) -> (out: Option<Vec<char>>)
    ensures
        match out {
            Some(t) => rendering(value@) == Some(t@),
            None => rendering(value@) is None,
        },
{
    match value {
        Value::String(s) => Some(chars_of(s.as_str())),
        Value::Number(n) => Some(chars_of(n.as_str())),
        Value::Bool(b) => {
            let mut t: Vec<char> = Vec::new();
            if *b {
                t.push('t');
                t.push('r');
                t.push('u');
                t.push('e');
                assert(t@ =~= seq!['t', 'r', 'u', 'e']);
            } else {
                t.push('f');
                t.push('a');
                t.push('l');
                t.push('s');
                t.push('e');
                assert(t@ =~= seq!['f', 'a', 'l', 's', 'e']);
            }
            Some(t)
        },
        Value::Null => {
            let mut t: Vec<char> = Vec::new();
            t.push('n');
            t.push('u');
            t.push('l');
            t.push('l');
            assert(t@ =~= seq!['n', 'u', 'l', 'l']);
            Some(t)
        },
        _ => None,
    }
}

impl Rule for TargetTable {
    open spec fn rule(&self) -> spec_fn(Seq<char>) -> Option<Seq<char>> {
        embedded_rule(self@)
    }

    fn replace(&self, reference: &Vec<char>) -> (out: Option<Vec<char>>) {
        if reference.len() > 0 && reference[0] == '/' {
            let written = text_of(reference);
            let absolute_path = AbsolutePath::new(written.as_str());
            match self.get(absolute_path.as_str()) {
                Some(value) => render_value(value),
                None => None,
            }
        } else {
            None
        }
    }
}

/// The path that a text names when the text is one placeholder and nothing else.
pub fn extract_dependency(text: &str) -> (out: Option<AbsolutePath>)
    ensures
        match out {
            Some(path) => whole_reference(text@) is Some && path@ == canonical(
                whole_reference(text@)->0,
            ),
            None => whole_reference(text@) is None,
        },
{
    let chars = chars_of(text);
    if chars.len() > 2 && chars[0] == '{' && find_char(&chars, '}', 1) == chars.len() - 1 {
        let reference = crate::scanner::copy_range(&chars, 1, chars.len() - 1);
        let written = text_of(&reference);
        Some(AbsolutePath::new(written.as_str()))
    } else {
        None
    }
}

/// The text with its embedded placeholders resolved, as a document.
pub fn resolve_embedded_refs(text: &str, source_map: &TargetTable) -> (out: Value)
    ensures
        out@ == Json::String(substitute_embedded(text@, source_map@)),
{
    let chars = chars_of(text);
    let resolved_text = rewrite_text(&chars, source_map);
    Value::String(text_of(&resolved_text))
}

/// What a text leaf becomes.
pub fn resolve_text(text: &str, source_map: &TargetTable) -> (out: Value)
    ensures
        out@ == substitute_text(text@, source_map@),
{
    if let Some(absolute_path) = extract_dependency(text) {
        if let Some(resolved_value) = source_map.get(absolute_path.as_str()) {
            return resolved_value.duplicate();
        }
    }
    resolve_embedded_refs(text, source_map)
}

/// The template with each placeholder resolved from `source_map`.
pub fn resolve_recursive(template: &Value, source_map: &TargetTable) -> (out: Value)
    ensures
        out@ == substitute(template@, source_map@),
    decreases template,
{
    match template {
        Value::Object(template_map) => {
            let mut resolved_map: Vec<(String, Value)> = Vec::new();
            let mut i: usize = 0;
            while i < template_map.len()
                invariant
                    i <= template_map.len(),
                    resolved_map.len() == i,
                    *template == Value::Object(*template_map),
                    forall|k: int|
                        0 <= k < i ==> resolved_map@[k].0@ == template_map@[k].0@
                            && resolved_map@[k].1@ == substitute(
                            template_map@[k].1@,
                            source_map@,
                        ),
                decreases template_map.len() - i,
            {
                let entry = &template_map[i];
                assert(decreases_to!(template => template->Object_0@[i as int].1));
                resolved_map.push((entry.0.clone(), resolve_recursive(&entry.1, source_map)));
                i += 1;
            }
            let out = Value::Object(resolved_map);
            assert(out@->Object_0 =~= substitute(template@, source_map@)->Object_0);
            out
        },
        Value::Array(template_array) => {
            let mut resolved: Vec<Value> = Vec::new();
            let mut i: usize = 0;
            while i < template_array.len()
                invariant
                    i <= template_array.len(),
                    resolved.len() == i,
                    *template == Value::Array(*template_array),
                    forall|k: int|
                        0 <= k < i ==> resolved@[k]@ == substitute(
                            template_array@[k]@,
                            source_map@,
                        ),
                decreases template_array.len() - i,
            {
                let item = &template_array[i];
                assert(decreases_to!(template => template->Array_0@[i as int]));
                resolved.push(resolve_recursive(item, source_map));
                i += 1;
            }
            let out = Value::Array(resolved);
            assert(out@->Array_0 =~= substitute(template@, source_map@)->Array_0);
            out
        },
        Value::String(text) => resolve_text(text.as_str(), source_map),
        _ => template.duplicate(),
    }
}

/// The document with each placeholder resolved from `context`.
pub fn resolve_values(json: &Value, context: &TargetTable) -> (out: Value)
    ensures
        out@ == substitute(json@, context@),
{
    resolve_recursive(json, context)
}

} // verus!
