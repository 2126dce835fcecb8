//! Finding what each leaf refers to.
//!
//! The walk goes through the document depth first, the children of an array
//! or an object in their order. A text leaf with placeholders gets an entry
//! under its own path: a map from each reference text, as it is written in
//! the leaf, to the path that the reference names from there. The same
//! reference text in two leaves may name two different paths, and each leaf
//! keeps its own.
use crate::path::{child_path, reference_target, AbsolutePath, RelativePath};
use crate::scanner::{copy_range, next_span, references};
use crate::text::{chars_of, decimal, text_of};
use crate::textmap::TextMap;
use crate::value::{Entry, Json, Value};
use vstd::prelude::*;

verus! {

/// For one leaf: the path that each of its reference texts names.
pub type ReferenceMap = TextMap<AbsolutePath>;

/// For each leaf with placeholders, by its path: what its references name.
pub type DependencyMap = TextMap<ReferenceMap>;

/// What the references in the text of the leaf at `base` name.
pub open spec fn leaf_references(s: Seq<char>, base: Seq<char>) -> Map<Seq<char>, Seq<char>> {
    Map::new(
        |reference: Seq<char>| references(s, 0).contains(reference),
        |reference: Seq<char>| reference_target(base, reference),
    )
}

/// The dependencies `acc` with those of the document `j`, which stands at
/// `base`, added. A leaf without placeholders adds nothing; where two leaves
/// have the same path, the later one in the walk stays.
pub open spec fn collect(
    j: Json,
    base: Seq<char>,
    acc: Map<Seq<char>, Map<Seq<char>, Seq<char>>>,
) -> Map<Seq<char>, Map<Seq<char>, Seq<char>>>
    decreases j, 0nat,
{
    match j {
        Json::String(s) => if references(s, 0).len() > 0 {
            acc.insert(base, leaf_references(s, base))
        } else {
            acc
        },
        Json::Array(items) => collect_items(items, base, acc, items.len()),
        Json::Object(entries) => collect_entries(entries, base, acc, entries.len()),
        _ => acc,
    }
}

/// `collect` over the first `n` elements of an array at `base`.
pub open spec fn collect_items(
    items: Seq<Json>,
    base: Seq<char>,
    acc: Map<Seq<char>, Map<Seq<char>, Seq<char>>>,
    n: nat,
) -> Map<Seq<char>, Map<Seq<char>, Seq<char>>>
    decreases items, n,
{
    if n == 0 || n > items.len() {
        acc
    } else {
        collect(
            items[n - 1],
            child_path(base, decimal((n - 1) as nat)),
            collect_items(items, base, acc, (n - 1) as nat),
        )
    }
}

/// `collect` over the first `n` entries of an object at `base`.
pub open spec fn collect_entries(
    entries: Seq<Entry>,
    base: Seq<char>,
    acc: Map<Seq<char>, Map<Seq<char>, Seq<char>>>,
    n: nat,
) -> Map<Seq<char>, Map<Seq<char>, Seq<char>>>
    decreases entries, n,
{
    if n == 0 || n > entries.len() {
        acc
    } else {
        collect(
            entries[n - 1].value,
            child_path(base, entries[n - 1].key),
            collect_entries(entries, base, acc, (n - 1) as nat),
        )
    }
}

/// What the references in `text` name when the text is the leaf at `base_path`.
pub fn leaf_dependencies(text: &str, base_path: &AbsolutePath) -> (out: ReferenceMap)
    ensures
        out@ == leaf_references(text@, base_path@),
        (out@ == Map::<Seq<char>, Seq<char>>::empty()) == (references(text@, 0).len() == 0),
{
    let chars = chars_of(text);
    let mut out = ReferenceMap::new();
    let mut at: usize = 0;
    let ghost mut seen: Seq<Seq<char>> = Seq::empty();
    loop
        invariant_except_break
            at <= chars.len(),
            seen + references(chars@, at as int) == references(chars@, 0),
            out@ == Map::new(
                |reference: Seq<char>| seen.contains(reference),
                |reference: Seq<char>| reference_target(base_path@, reference),
            ),
        ensures
            seen == references(chars@, 0),
            out@ == Map::new(
                |reference: Seq<char>| seen.contains(reference),
                |reference: Seq<char>| reference_target(base_path@, reference),
            ),
        decreases chars.len() - at,
    {
        match next_span(&chars, at) {
            None => {
                assert(seen + Seq::<Seq<char>>::empty() =~= seen);
                break ;
            },
            Some(span) => {
                let reference = copy_range(&chars, span.open + 1, span.close);
                let written = text_of(&reference);
                let target = if reference.len() > 0 && reference[0] == '/' {
                    AbsolutePath::new(written.as_str())
                } else {
                    base_path.resolve_with(&RelativePath::new(written.as_str()))
                };
                out.insert(written.as_str(), target);
                proof {
                    let rest = references(chars@, span.close + 1);
                    assert(seen + (seq![reference@] + rest) =~= seen.push(reference@) + rest);
                    let longer = seen.push(reference@);
                    assert forall|r: Seq<char>| longer.contains(r) <==> (seen.contains(r) || r
                        == reference@) by {
                        if seen.contains(r) {
                            let i = seen.index_of(r);
                            assert(longer[i] == r);
                        }
                        if r == reference@ {
                            assert(longer[seen.len() as int] == r);
                        }
                    }
                    assert(out@ =~= Map::new(
                        |r: Seq<char>| longer.contains(r),
                        |r: Seq<char>| reference_target(base_path@, r),
                    ));
                    seen = longer;
                }
                at = span.close + 1;
            },
        }
    }
    proof {
        assert(out@ =~= leaf_references(text@, base_path@));
        if references(text@, 0).len() > 0 {
            assert(seen[0] == references(text@, 0)[0]);
            assert(seen.contains(seen[0]));
            assert(out@.contains_key(seen[0]));
        } else {
            assert(out@ =~= Map::<Seq<char>, Seq<char>>::empty());
        }
    }
    out
}

/// Adds to `complete_path_map` the dependencies of the document `json`, which
/// stands at `base_path`.
pub fn make_deps_path_map(
    json: &Value,
    base_path: &AbsolutePath,
    complete_path_map: &mut DependencyMap,
)
    ensures
        final(complete_path_map)@ == collect(json@, base_path@, old(complete_path_map)@),
    decreases json,
{
    match json {
        Value::Object(entries) => {
            let mut i: usize = 0;
            while i < entries.len()
                invariant
                    i <= entries.len(),
                    *json == Value::Object(*entries),
                    complete_path_map@ == collect_entries(
                        json@->Object_0,
                        base_path@,
                        old(complete_path_map)@,
                        i as nat,
                    ),
                decreases entries.len() - i,
            {
                let entry = &entries[i];
                assert(decreases_to!(json => json->Object_0@[i as int].1));
                let current_absolute_path = base_path.append(entry.0.as_str());
                make_deps_path_map(&entry.1, &current_absolute_path, complete_path_map);
                i += 1;
            }
        },
        Value::Array(items) => {
            let mut i: usize = 0;
            while i < items.len()
                invariant
                    i <= items.len(),
                    *json == Value::Array(*items),
                    complete_path_map@ == collect_items(
                        json@->Array_0,
                        base_path@,
                        old(complete_path_map)@,
                        i as nat,
                    ),
                decreases items.len() - i,
            {
                let item = &items[i];
                assert(decreases_to!(json => json->Array_0@[i as int]));
                let current_absolute_path = base_path.append_index(i);
                make_deps_path_map(item, &current_absolute_path, complete_path_map);
                i += 1;
            }
        },
        Value::String(text) => {
            let dependencies = leaf_dependencies(text.as_str(), base_path);
            if !dependencies.is_empty() {
                complete_path_map.insert(base_path.as_str(), dependencies);
            }
        },
        _ => {},
    }
}

} // verus!
