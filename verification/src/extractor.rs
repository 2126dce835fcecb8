//! Taking the values that stand at given paths.
//!
//! The walk goes through the document depth first, a node before its
//! children, the children in their order. A node whose path is wanted goes
//! into the table under that path, whole: a text, a number, an array or an
//! object alike. Where two nodes have the same path, the later one in the
//! walk stays.
use crate::collector::DependencyMap;
use crate::path::{child_path, AbsolutePath};
use crate::text::decimal;
use crate::textmap::{TextMap, TextSet};
use crate::value::{Entry, Json, Value};
use vstd::prelude::*;

verus! {

/// The values found at paths, by path.
pub type TargetTable = TextMap<Value>;

/// A set of paths.
pub type PathSet = TextSet;

/// The table `acc` with the wanted nodes of the document `j`, which stands at
/// `path`, added.
pub open spec fn capture(
    j: Json,
    wanted: Set<Seq<char>>,
    path: Seq<char>,
    acc: Map<Seq<char>, Json>,
) -> Map<Seq<char>, Json>
    decreases j, 0nat,
{
    let here = if wanted.contains(path) {
        acc.insert(path, j)
    } else {
        acc
    };
    match j {
        Json::Array(items) => capture_items(items, wanted, path, here, items.len()),
        Json::Object(entries) => capture_entries(entries, wanted, path, here, entries.len()),
        _ => here,
    }
}

/// `capture` over the first `n` elements of an array at `path`.
pub open spec fn capture_items(
    items: Seq<Json>,
    wanted: Set<Seq<char>>,
    path: Seq<char>,
    acc: Map<Seq<char>, Json>,
    n: nat,
) -> Map<Seq<char>, Json>
    decreases items, n,
{
    if n == 0 || n > items.len() {
        acc
    } else {
        capture(
            items[n - 1],
            wanted,
            child_path(path, decimal((n - 1) as nat)),
            capture_items(items, wanted, path, acc, (n - 1) as nat),
        )
    }
}

/// `capture` over the first `n` entries of an object at `path`.
pub open spec fn capture_entries(
    entries: Seq<Entry>,
    wanted: Set<Seq<char>>,
    path: Seq<char>,
    acc: Map<Seq<char>, Json>,
    n: nat,
) -> Map<Seq<char>, Json>
    decreases entries, n,
{
    if n == 0 || n > entries.len() {
        acc
    } else {
        capture(
            entries[n - 1].value,
            wanted,
            child_path(path, entries[n - 1].key),
            capture_entries(entries, wanted, path, acc, (n - 1) as nat),
        )
    }
}

/// Every path that some reference of some leaf names.
pub open spec fn referenced(dependencies: Map<Seq<char>, Map<Seq<char>, Seq<char>>>) -> Set<
    Seq<char>,
> {
    Set::new(
        |target: Seq<char>|
            exists|leaf: Seq<char>, reference: Seq<char>|
                dependencies.contains_key(leaf) && #[trigger] dependencies[leaf].contains_key(
                    reference,
                ) && dependencies[leaf][reference] == target,
    )
}

/// The paths that are wanted: those of the set, or every path where no set is given.
pub open spec fn wanted_paths(paths: Option<&PathSet>) -> Set<Seq<char>> {
    match paths {
        Some(set) => set@,
        None => Set::full(),
    }
}

/// Adds to `table` the wanted nodes of the document `json`, which stands at `path`.
fn capture_into(json: &Value, paths: Option<&PathSet>, path: &AbsolutePath, table: &mut TargetTable)
    ensures
        final(table)@ == capture(json@, wanted_paths(paths), path@, old(table)@),
    decreases json,
{
    let is_wanted = match paths {
        Some(set) => set.contains(path.as_str()),
        None => true,
    };
    if is_wanted {
        table.insert(path.as_str(), json.duplicate());
    }
    let ghost here = table@;
    match json {
        Value::Object(entries) => {
            let mut i: usize = 0;
            while i < entries.len()
                invariant
                    i <= entries.len(),
                    *json == Value::Object(*entries),
                    table@ == capture_entries(
                        json@->Object_0,
                        wanted_paths(paths),
                        path@,
                        here,
                        i as nat,
                    ),
                decreases entries.len() - i,
            {
                let entry = &entries[i];
                assert(decreases_to!(json => json->Object_0@[i as int].1));
                let new_path = path.append(entry.0.as_str());
                capture_into(&entry.1, paths, &new_path, table);
                i += 1;
            }
        },
        Value::Array(items) => {
            let mut i: usize = 0;
            while i < items.len()
                invariant
                    i <= items.len(),
                    *json == Value::Array(*items),
                    table@ == capture_items(
                        json@->Array_0,
                        wanted_paths(paths),
                        path@,
                        here,
                        i as nat,
                    ),
                decreases items.len() - i,
            {
                let item = &items[i];
                assert(decreases_to!(json => json->Array_0@[i as int]));
                let new_path = path.append_index(i);
                capture_into(item, paths, &new_path, table);
                i += 1;
            }
        },
        _ => {},
    }
}

/// Adds to `extracted_values` each node of the document `json`, which stands
/// at `current_path`, whose path is in `paths`.
pub fn extract_values_by_paths(
    json: &Value,
    paths: &PathSet,
    current_path: &AbsolutePath,
    extracted_values: &mut TargetTable,
)
    ensures
        final(extracted_values)@ == capture(
            json@,
            paths@,
            current_path@,
            old(extracted_values)@,
        ),
{
    capture_into(json, Some(paths), current_path, extracted_values);
}

/// Adds to `source_map` every node of the document `json`, which stands at
/// `current_path`, under its path.
pub fn collect_all_absolute_paths(
    json: &Value,
    current_path: &AbsolutePath,
    source_map: &mut TargetTable,
)
    ensures
        final(source_map)@ == capture(
            json@,
            Set::<Seq<char>>::full(),
            current_path@,
            old(source_map)@,
        ),
{
    capture_into(json, None, current_path, source_map);
}

/// Every path that some reference of some leaf names.
pub fn referenced_paths(path_map: &DependencyMap) -> (out: PathSet)
    ensures
        out@ == referenced(path_map@),
{
    let mut out = PathSet::new();
    let leaves = path_map.len();
    let mut i: usize = 0;
    while i < leaves
        invariant
            i <= leaves,
            leaves == path_map.keys().len(),
            path_map.items().len() == path_map.keys().len(),
            forall|a: int|
                0 <= a < path_map.keys().len() ==> path_map@.contains_key(
                    #[trigger] path_map.keys()[a],
                ) && path_map@[path_map.keys()[a]] == path_map.items()[a],
            out@ == Set::new(
                |target: Seq<char>|
                    exists|a: int, reference: Seq<char>|
                        0 <= a < i && #[trigger] path_map.items()[a].contains_key(reference)
                            && path_map.items()[a][reference] == target,
            ),
        decreases leaves - i,
    {
        let references = path_map.value_at(i);
        let count = references.len();
        let ghost before = out@;
        let mut j: usize = 0;
        while j < count
            invariant
                j <= count,
                count == references.keys().len(),
                references.items().len() == references.keys().len(),
                references@ == path_map.items()[i as int],
                forall|b: int|
                    0 <= b < references.keys().len() ==> references@.contains_key(
                        #[trigger] references.keys()[b],
                    ) && references@[references.keys()[b]] == references.items()[b],
                out@ == before.union(
                    Set::new(
                        |target: Seq<char>|
                            exists|b: int| 0 <= b < j && #[trigger] references.items()[b] == target,
                    ),
                ),
            decreases count - j,
        {
            let target = references.value_at(j);
            let ghost earlier = out@;
            out.insert(target.as_str());
            proof {
                let upto = Set::new(
                    |target: Seq<char>|
                        exists|b: int| 0 <= b < j && #[trigger] references.items()[b] == target,
                );
                let next = Set::new(
                    |target: Seq<char>|
                        exists|b: int|
                            0 <= b < j + 1 && #[trigger] references.items()[b] == target,
                );
                assert(references.items()[j as int] == target@);
                assert(next =~= upto.insert(target@));
                assert(out@ =~= before.union(next));
            }
            j += 1;
        }
        proof {
            let inner = Set::new(
                |target: Seq<char>|
                    exists|b: int| 0 <= b < count && #[trigger] references.items()[b] == target,
            );
            let now = Set::new(
                |target: Seq<char>|
                    exists|a: int, reference: Seq<char>|
                        0 <= a < i + 1 && #[trigger] path_map.items()[a].contains_key(reference)
                            && path_map.items()[a][reference] == target,
            );
            assert forall|target: Seq<char>| inner.contains(target) implies now.contains(
                target,
            ) by {
                let b = choose|b: int|
                    0 <= b < count && #[trigger] references.items()[b] == target;
                let reference = references.keys()[b];
                assert(path_map.items()[i as int].contains_key(reference));
            }
            assert forall|target: Seq<char>| now.contains(target) implies before.contains(target)
                || inner.contains(target) by {
                let (a, reference) = choose|a: int, reference: Seq<char>|
                    0 <= a < i + 1 && #[trigger] path_map.items()[a].contains_key(reference)
                        && path_map.items()[a][reference] == target;
                if a < i {
                    assert(before.contains(target));
                } else {
                    assert(references@.contains_key(reference));
                    let b = references.keys().index_of(reference);
                    assert(references.keys()[b] == reference);
                    assert(references.items()[b] == target);
                }
            }
            assert forall|target: Seq<char>| before.contains(target) implies now.contains(
                target,
            ) by {
                let (a, reference) = choose|a: int, reference: Seq<char>|
                    0 <= a < i && #[trigger] path_map.items()[a].contains_key(reference)
                        && path_map.items()[a][reference] == target;
                assert(path_map.items()[a].contains_key(reference));
            }
            assert(out@ =~= now);
        }
        i += 1;
    }
    proof {
        let all = referenced(path_map@);
        assert forall|target: Seq<char>| out@.contains(target) implies all.contains(target) by {
            let (a, reference) = choose|a: int, reference: Seq<char>|
                0 <= a < leaves && #[trigger] path_map.items()[a].contains_key(reference)
                    && path_map.items()[a][reference] == target;
            let leaf = path_map.keys()[a];
            assert(path_map@.contains_key(leaf));
            assert(path_map@[leaf].contains_key(reference));
        }
        assert forall|target: Seq<char>| all.contains(target) implies out@.contains(target) by {
            let (leaf, reference) = choose|leaf: Seq<char>, reference: Seq<char>|
                path_map@.contains_key(leaf) && #[trigger] path_map@[leaf].contains_key(reference)
                    && path_map@[leaf][reference] == target;
            let a = path_map.keys().index_of(leaf);
            assert(path_map.keys()[a] == leaf);
            assert(path_map.items()[a].contains_key(reference));
        }
        assert(out@ =~= all);
    }
    out
}

} // verus!
