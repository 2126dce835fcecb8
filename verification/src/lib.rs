//! Resolving placeholders in a document.
//!
//! A text leaf of a document may hold placeholders: a reference between
//! braces, as in `{/settings/name}` or `{../name}`. A reference names a node
//! of the same document, by an absolute path or by a path relative to the
//! place of the leaf. To resolve the document is to put, in place of each
//! placeholder, the value that its reference names. A placeholder whose
//! reference names nothing stays as it is. References are not followed
//! further: a value that is put in is taken as it stands in the document,
//! with its own placeholders unresolved.
use vstd::prelude::*;

pub mod collector;
pub mod expander;
pub mod extractor;
pub mod laws;
pub mod path;
pub mod scanner;
pub mod substituter;
pub mod text;
pub mod textmap;
pub mod value;

use crate::collector::{collect, make_deps_path_map, DependencyMap};
use crate::expander::{expand, expand_absolute_paths};
use crate::extractor::{
    capture, collect_all_absolute_paths, extract_values_by_paths, referenced, referenced_paths,
    TargetTable,
};
use crate::path::AbsolutePath;
use crate::substituter::{resolve_recursive, resolve_values, substitute};
use crate::value::{Json, Value};

verus! {

/// The path of the root.
pub open spec fn root_path() -> Seq<char> {
    seq!['/']
}

/// What each leaf of the document refers to.
pub open spec fn document_dependencies(j: Json) -> Map<Seq<char>, Map<Seq<char>, Seq<char>>> {
    collect(j, root_path(), Map::empty())
}

/// The document with every reference made absolute.
pub open spec fn expanded_document(j: Json) -> Json {
    expand(j, document_dependencies(j), root_path())
}

/// The values that the references of the document name, by path, as they
/// stand in the expanded document.
pub open spec fn document_targets(j: Json) -> Map<Seq<char>, Json> {
    capture(expanded_document(j), referenced(document_dependencies(j)), root_path(), Map::empty())
}

/// The document with its placeholders resolved from the document itself.
pub open spec fn resolve_document(j: Json) -> Json {
    substitute(expanded_document(j), document_targets(j))
}

/// Every node of the source, by its path.
pub open spec fn source_targets(source: Json) -> Map<Seq<char>, Json> {
    capture(source, Set::full(), root_path(), Map::empty())
}

/// The template with its placeholders resolved from the source.
pub open spec fn resolve_template(template: Json, source: Json) -> Json {
    substitute(template, source_targets(source))
}

/// The document with its placeholders resolved from the document itself.
pub fn resolve_json(input: &Value) -> (out: Value)
    ensures
        out@ == resolve_document(input@),
{
    let root = AbsolutePath::default();
    let mut path_map = DependencyMap::new();
    make_deps_path_map(input, &root, &mut path_map);

    let json_with_absolute_paths = expand_absolute_paths(input, &path_map, &root);

    let paths = referenced_paths(&path_map);

    let mut extracted_values = TargetTable::new();
    extract_values_by_paths(&json_with_absolute_paths, &paths, &root, &mut extracted_values);

    resolve_values(&json_with_absolute_paths, &extracted_values)
}

/// The template with its placeholders resolved from the source. Every
/// reference of the template is taken as absolute.
pub fn resolve_template_with_source(template: &Value, source: &Value) -> (out: Value)
    ensures
        out@ == resolve_template(template@, source@),
{
    let root = AbsolutePath::default();
    let mut source_map = TargetTable::new();
    collect_all_absolute_paths(source, &root, &mut source_map);

    resolve_recursive(template, &source_map)
}

/// Documents that can resolve their placeholders.
pub trait JsonResolvableFunctions {
    /// The document that this value stands for.
    spec fn document(&self) -> Json;

    /// The document with its placeholders resolved from the document itself.
    fn resolve_internal_dependencies(&self) -> (out: Value)
        ensures
            out@ == resolve_document(self.document()),
    ;

    /// The document, as a template, with its placeholders resolved from `source`.
    fn resolve_template_with_source(&self, source: &Value) -> (out: Value)
        ensures
            out@ == resolve_template(self.document(), source@),
    ;
}

impl JsonResolvableFunctions for Value {
    open spec fn document(&self) -> Json {
        self@
    }

    fn resolve_internal_dependencies(&self) -> (out: Value) {
        resolve_json(self)
    }

    fn resolve_template_with_source(&self, source: &Value) -> (out: Value) {
        resolve_template_with_source(self, source)
    }
}

} // verus!
