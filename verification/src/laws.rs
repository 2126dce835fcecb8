//! What holds of resolution whatever the document.
use crate::collector::{collect, collect_entries, collect_items};
use crate::expander::{expand, expansion_rule};
use crate::path::{
    advance, all_segments, is_segment, lemma_render_injective, lemma_segments_of_joined,
    lemma_split_slash_append, parent_segments, render, resolve_relative, segments, split_slash,
    up_piece, walk,
};
use crate::scanner::{is_plain, lemma_find_from, lemma_rewrite_plain, next_placeholder};
use crate::substituter::{embedded_rule, substitute, whole_reference};
use crate::text::decimal;
use crate::value::{Entry, Json};
use crate::{
    document_dependencies, document_targets, expanded_document, resolve_document, resolve_template,
    root_path, source_targets,
};
use vstd::prelude::*;

verus! {

/// A document is free of placeholders when none of its text leaves holds one.
/// Keys do not count: they are never scanned.
pub open spec fn placeholder_free(j: Json) -> bool
    decreases j,
{
    match j {
        Json::String(s) => is_plain(s),
        Json::Array(items) => forall|i: int|
            0 <= i < items.len() ==> placeholder_free(#[trigger] items[i]),
        Json::Object(entries) => forall|i: int|
            0 <= i < entries.len() ==> placeholder_free((#[trigger] entries[i]).value),
        _ => true,
    }
}

/// A document free of placeholders adds no dependencies.
pub proof fn lemma_collect_placeholder_free(
    j: Json,
    base: Seq<char>,
    acc: Map<Seq<char>, Map<Seq<char>, Seq<char>>>,
)
    requires
        placeholder_free(j),
    ensures
        collect(j, base, acc) == acc,
    decreases j, 0nat,
{
    match j {
        Json::String(s) => {
            lemma_rewrite_plain(s, 0, |r: Seq<char>| None::<Seq<char>>);
        },
        Json::Array(items) => {
            lemma_collect_items_placeholder_free(items, base, acc, items.len());
        },
        Json::Object(entries) => {
            lemma_collect_entries_placeholder_free(entries, base, acc, entries.len());
        },
        _ => {},
    }
}

proof fn lemma_collect_items_placeholder_free(
    items: Seq<Json>,
    base: Seq<char>,
    acc: Map<Seq<char>, Map<Seq<char>, Seq<char>>>,
    n: nat,
)
    requires
        forall|i: int| 0 <= i < items.len() ==> placeholder_free(#[trigger] items[i]),
    ensures
        collect_items(items, base, acc, n) == acc,
    decreases items, n,
{
    if n != 0 && n <= items.len() {
        lemma_collect_items_placeholder_free(items, base, acc, (n - 1) as nat);
        lemma_collect_placeholder_free(
            items[n - 1],
            crate::path::child_path(base, decimal((n - 1) as nat)),
            acc,
        );
    }
}

proof fn lemma_collect_entries_placeholder_free(
    entries: Seq<Entry>,
    base: Seq<char>,
    acc: Map<Seq<char>, Map<Seq<char>, Seq<char>>>,
    n: nat,
)
    requires
        forall|i: int| 0 <= i < entries.len() ==> placeholder_free((#[trigger] entries[i]).value),
    ensures
        collect_entries(entries, base, acc, n) == acc,
    decreases entries, n,
{
    if n != 0 && n <= entries.len() {
        lemma_collect_entries_placeholder_free(entries, base, acc, (n - 1) as nat);
        lemma_collect_placeholder_free(
            entries[n - 1].value,
            crate::path::child_path(base, entries[n - 1].key),
            acc,
        );
    }
}

/// A document free of placeholders is its own expansion, whatever the dependencies.
pub proof fn lemma_expand_placeholder_free(
    j: Json,
    dependencies: Map<Seq<char>, Map<Seq<char>, Seq<char>>>,
    path: Seq<char>,
)
    requires
        placeholder_free(j),
    ensures
        expand(j, dependencies, path) == j,
    decreases j,
{
    match j {
        Json::String(s) => {
            if dependencies.contains_key(path) {
                lemma_rewrite_plain(s, 0, expansion_rule(dependencies[path]));
            }
            assert(s.subrange(0, s.len() as int) =~= s);
        },
        Json::Array(items) => {
            let out = expand(j, dependencies, path)->Array_0;
            assert forall|i: int| 0 <= i < items.len() implies out[i] == items[i] by {
                lemma_expand_placeholder_free(
                    items[i],
                    dependencies,
                    crate::path::child_path(path, decimal(i as nat)),
                );
            }
            assert(out =~= items);
        },
        Json::Object(entries) => {
            let out = expand(j, dependencies, path)->Object_0;
            assert forall|i: int| 0 <= i < entries.len() implies out[i] == entries[i] by {
                lemma_expand_placeholder_free(
                    entries[i].value,
                    dependencies,
                    crate::path::child_path(path, entries[i].key),
                );
            }
            assert(out =~= entries);
        },
        _ => {},
    }
}

/// A text that is one placeholder and nothing else is not plain.
pub proof fn lemma_whole_reference_is_placeholder(s: Seq<char>)
    requires
        whole_reference(s) is Some,
    ensures
        next_placeholder(s, 0) == Some((0int, s.len() - 1)),
{
    lemma_find_from(s, '}', 1);
}

/// Substitution leaves a document free of placeholders as it is, whatever the table.
pub proof fn lemma_substitute_placeholder_free(j: Json, table: Map<Seq<char>, Json>)
    requires
        placeholder_free(j),
    ensures
        substitute(j, table) == j,
    decreases j,
{
    match j {
        Json::String(s) => {
            if whole_reference(s) is Some {
                lemma_whole_reference_is_placeholder(s);
            }
            lemma_rewrite_plain(s, 0, embedded_rule(table));
            assert(s.subrange(0, s.len() as int) =~= s);
        },
        Json::Array(items) => {
            let out = substitute(j, table)->Array_0;
            assert forall|i: int| 0 <= i < items.len() implies out[i] == items[i] by {
                lemma_substitute_placeholder_free(items[i], table);
            }
            assert(out =~= items);
        },
        Json::Object(entries) => {
            let out = substitute(j, table)->Object_0;
            assert forall|i: int| 0 <= i < entries.len() implies out[i] == entries[i] by {
                lemma_substitute_placeholder_free(entries[i].value, table);
            }
            assert(out =~= entries);
        },
        _ => {},
    }
}

/// Resolving a document that holds no placeholder gives the document back.
pub proof fn lemma_placeholder_free_document_is_resolved(j: Json)
    requires
        placeholder_free(j),
    ensures
        document_dependencies(j) == Map::<Seq<char>, Map<Seq<char>, Seq<char>>>::empty(),
        expanded_document(j) == j,
        resolve_document(j) == j,
{
    lemma_collect_placeholder_free(j, root_path(), Map::empty());
    lemma_expand_placeholder_free(j, document_dependencies(j), root_path());
    lemma_substitute_placeholder_free(j, document_targets(j));
}

/// Resolving a template that holds no placeholder gives the template back,
/// whatever the source.
pub proof fn lemma_placeholder_free_template_is_resolved(template: Json, source: Json)
    requires
        placeholder_free(template),
    ensures
        resolve_template(template, source) == template,
{
    lemma_substitute_placeholder_free(template, source_targets(source));
}

/// The reference that steps up once and then down to `key`.
pub open spec fn up_reference(key: Seq<char>) -> Seq<char> {
    up_piece() + seq!['/'] + key
}

/// From a leaf two levels or more below the root, the reference `../key`
/// names the child `key` of the structure that holds the leaf's parent.
pub proof fn lemma_up_reference(leaf: Seq<Seq<char>>, key: Seq<char>)
    requires
        all_segments(leaf),
        leaf.len() >= 2,
        is_segment(key),
        key != up_piece(),
    ensures
        resolve_relative(render(leaf), up_reference(key)) == render(
            leaf.drop_last().drop_last().push(key),
        ),
{
    lemma_segments_of_joined(leaf);
    let start = parent_segments(segments(render(leaf)));
    assert(start == leaf.drop_last());
    let up = up_piece();
    let empty = Seq::<char>::empty();
    // The pieces of `..` are the one piece `..`.
    assert(up.drop_last() =~= seq!['.']);
    assert(seq!['.'].drop_last() =~= empty);
    assert(split_slash(empty) == seq![empty]);
    assert(split_slash(seq!['.']) =~= seq![seq!['.']]) by {
        assert(seq![empty].drop_last().push(seq![empty].last().push('.')) =~= seq![seq!['.']]);
    }
    assert(split_slash(up) =~= seq![up]) by {
        assert(seq!['.'].push('.') =~= up);
        assert(seq![seq!['.']].drop_last().push(seq![seq!['.']].last().push('.')) =~= seq![up]);
    }
    lemma_split_slash_append(up, key);
    let pieces = split_slash(up_reference(key));
    assert(pieces == seq![up].push(key));
    assert(pieces.drop_last() =~= seq![up]);
    assert(seq![up].drop_last() =~= Seq::<Seq<char>>::empty());
    assert(walk(start, Seq::<Seq<char>>::empty(), true) == start);
    assert(walk(start, seq![up], true) == advance(start, up, true));
    assert(walk(start, pieces, true) == advance(advance(start, up, true), key, true));
}

/// Relative references are scoped by the leaf that holds them: the same
/// reference `../key`, written in two leaves whose parents stand in different
/// structures, names two different paths, each below its own structure.
pub proof fn lemma_relative_references_are_scoped(
    first: Seq<Seq<char>>,
    second: Seq<Seq<char>>,
    key: Seq<char>,
)
    requires
        all_segments(first),
        all_segments(second),
        first.len() >= 2,
        second.len() >= 2,
        first.drop_last().drop_last() != second.drop_last().drop_last(),
        is_segment(key),
        key != up_piece(),
    ensures
        render(first) != render(second),
        resolve_relative(render(first), up_reference(key)) == render(
            first.drop_last().drop_last().push(key),
        ),
        resolve_relative(render(second), up_reference(key)) == render(
            second.drop_last().drop_last().push(key),
        ),
        resolve_relative(render(first), up_reference(key)) != resolve_relative(
            render(second),
            up_reference(key),
        ),
{
    lemma_up_reference(first, key);
    lemma_up_reference(second, key);
    let a = first.drop_last().drop_last().push(key);
    let b = second.drop_last().drop_last().push(key);
    assert(all_segments(a));
    assert(all_segments(b));
    if render(a) == render(b) {
        lemma_render_injective(a, b);
        assert(a.drop_last() =~= first.drop_last().drop_last());
        assert(b.drop_last() =~= second.drop_last().drop_last());
    }
    if render(first) == render(second) {
        lemma_render_injective(first, second);
    }
}

} // verus!
