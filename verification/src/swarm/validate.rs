//! Which lists of tasks make a swarm.

use crate::swarm::task;
use crate::swarm::types;
use crate::swarm::types::{
    SubAgentType, SwarmTaskSpec, SwarmTaskView, ToolError, ToolErrorView, MAX_TASK_RETRIES,
};
use crate::text;
use vstd::hash_map::StringHashMap;
use vstd::hash_set::StringHashSet;
use vstd::prelude::*;
use vstd::string::*;

verus! {

/// The dependencies of each task id. Of two tasks with one id the later counts.
pub open spec fn dependency_map(tasks: Seq<SwarmTaskView>) -> Map<Seq<char>, Seq<Seq<char>>>
    decreases tasks.len(),
{
    if tasks.len() == 0 {
        Map::empty()
    } else {
        dependency_map(tasks.drop_last()).insert(tasks.last().id, tasks.last().depends_on)
    }
}

/// Whether `a` depends on `b`.
pub open spec fn depends(deps: Map<Seq<char>, Seq<Seq<char>>>, a: Seq<char>, b: Seq<char>) -> bool {
    deps.contains_key(a) && deps[a].contains(b)
}

/// A path along dependencies: each id depends on the next.
pub open spec fn is_chain(deps: Map<Seq<char>, Seq<Seq<char>>>, path: Seq<Seq<char>>) -> bool {
    forall|i: int| 0 <= i < path.len() - 1 ==> depends(deps, #[trigger] path[i], path[i + 1])
}

/// A path along dependencies that comes back to where it started.
pub open spec fn is_cycle(deps: Map<Seq<char>, Seq<Seq<char>>>, path: Seq<Seq<char>>) -> bool {
    &&& path.len() >= 2
    &&& path[0] == path.last()
    &&& is_chain(deps, path)
}

/// Whether some task depends on itself, directly or through others.
pub open spec fn has_cycle(deps: Map<Seq<char>, Seq<Seq<char>>>) -> bool {
    exists|path: Seq<Seq<char>>| is_cycle(deps, path)
}

/// Each id in the list stands behind everything that it depends on.
pub open spec fn is_settled(deps: Map<Seq<char>, Seq<Seq<char>>>, order: Seq<Seq<char>>) -> bool {
    forall|i: int, b: Seq<char>|
        0 <= i < order.len() && #[trigger] depends(deps, order[i], b) ==> order.take(i).contains(b)
}

/// Each id in the list stands behind everything that it depends on, the known ids apart.
pub open spec fn is_settled_over(
    deps: Map<Seq<char>, Seq<Seq<char>>>,
    known: Set<Seq<char>>,
    order: Seq<Seq<char>>,
) -> bool {
    forall|i: int, b: Seq<char>|
        0 <= i < order.len() && #[trigger] depends(deps, order[i], b) ==> known.contains(b)
            || order.take(i).contains(b)
}

/// The ids that are not known can be listed so that each stands behind everything that it depends
/// on, the known ids apart.
pub open spec fn explored_over(
    deps: Map<Seq<char>, Seq<Seq<char>>>,
    known: Set<Seq<char>>,
    ids: Set<Seq<char>>,
) -> bool {
    exists|order: Seq<Seq<char>>| #[trigger]
        is_settled_over(deps, known, order) && order.to_set() == ids.difference(known)
}

/// A path along dependencies that starts at `id`, avoids `visited`, and ends in `visiting` or where
/// it has been before.
pub open spec fn is_trap(
    deps: Map<Seq<char>, Seq<Seq<char>>>,
    visiting: Set<Seq<char>>,
    visited: Set<Seq<char>>,
    id: Seq<char>,
    path: Seq<Seq<char>>,
) -> bool {
    &&& path.len() > 0
    &&& path[0] == id
    &&& is_chain(deps, path)
    &&& forall|i: int| 0 <= i < path.len() ==> !visited.contains(#[trigger] path[i])
    &&& visiting.contains(path.last()) || path.drop_last().contains(path.last())
}

/// Whether a search that starts at `id` runs into `visiting` or into a cycle, where it does not
/// look into `visited`.
pub open spec fn is_trapped(
    deps: Map<Seq<char>, Seq<Seq<char>>>,
    visiting: Set<Seq<char>>,
    visited: Set<Seq<char>>,
    id: Seq<char>,
) -> bool {
    exists|path: Seq<Seq<char>>| is_trap(deps, visiting, visited, id, path)
}

/// A path along dependencies from `id` into a cycle, which starts at position `k`.
pub open spec fn leads_into_cycle(
    deps: Map<Seq<char>, Seq<Seq<char>>>,
    id: Seq<char>,
    path: Seq<Seq<char>>,
    k: int,
) -> bool {
    &&& path.len() > 0
    &&& path[0] == id
    &&& is_chain(deps, path)
    &&& 0 <= k < path.len()
    &&& is_cycle(deps, path.skip(k))
}

/// A search from `id` that has seen nothing yet finds something exactly if a cycle can be reached
/// from `id`.
pub proof fn search_finds_reachable_cycles(deps: Map<Seq<char>, Seq<Seq<char>>>, id: Seq<char>)
    ensures
        is_trapped(deps, Set::empty(), Set::empty(), id) <==> exists|
            path: Seq<Seq<char>>,
            k: int,
        | #[trigger] leads_into_cycle(deps, id, path, k),
{
    let none = Set::<Seq<char>>::empty();
    if is_trapped(deps, none, none, id) {
        let path = choose|path: Seq<Seq<char>>| is_trap(deps, none, none, id, path);
        let k = lemma_trap_ends_in_cycle(deps, none, id, path);
        assert(leads_into_cycle(deps, id, path, k));
    }
    if exists|path: Seq<Seq<char>>, k: int| #[trigger] leads_into_cycle(deps, id, path, k) {
        let (path, k): (Seq<Seq<char>>, int) = choose|path: Seq<Seq<char>>, k: int| #[trigger]
            leads_into_cycle(deps, id, path, k);
        assert(path.skip(k)[0] == path[k]);
        assert(path.skip(k).last() == path.last());
        assert(path.drop_last()[k] == path.last());
        assert(is_trap(deps, none, none, id, path));
    }
}

/// A path that ends where it has been before ends in a cycle.
proof fn lemma_trap_ends_in_cycle(
    deps: Map<Seq<char>, Seq<Seq<char>>>,
    visited: Set<Seq<char>>,
    id: Seq<char>,
    path: Seq<Seq<char>>,
) -> (k: int)
    requires
        is_trap(deps, Set::empty(), visited, id, path),
    ensures
        0 <= k < path.len(),
        is_cycle(deps, path.skip(k)),
{
    let k = choose|k: int| 0 <= k < path.len() - 1 && path.drop_last()[k] == path.last();
    lemma_chain_skip(deps, path, k);
    k
}

/// Along a path that avoids the known ids each id stands further to the front of a settled list.
proof fn lemma_chain_descends(
    deps: Map<Seq<char>, Seq<Seq<char>>>,
    known: Set<Seq<char>>,
    order: Seq<Seq<char>>,
    path: Seq<Seq<char>>,
    first: int,
    k: int,
) -> (at: int)
    requires
        is_settled_over(deps, known, order),
        is_chain(deps, path),
        forall|i: int| 0 <= i < path.len() ==> !known.contains(#[trigger] path[i]),
        0 <= first < order.len(),
        0 <= k < path.len(),
        order[first] == path[0],
    ensures
        0 <= at <= first - k,
        order[at] == path[k],
    decreases k,
{
    if k == 0 {
        first
    } else {
        let before = lemma_chain_descends(deps, known, order, path, first, k - 1);
        assert(depends(deps, path[k - 1], path[k - 1 + 1]));
        assert(depends(deps, order[before], path[k]));
        assert(!known.contains(path[k]));
        assert(order.take(before).contains(path[k]));
        let at = choose|j: int| 0 <= j < before && order.take(before)[j] == path[k];
        at
    }
}

/// No path that avoids the known ids goes from a settled id into `visiting` or back to where it has
/// been.
proof fn lemma_settled_is_no_trap(
    deps: Map<Seq<char>, Seq<Seq<char>>>,
    visiting: Set<Seq<char>>,
    known: Set<Seq<char>>,
    ids: Set<Seq<char>>,
    id: Seq<char>,
)
    requires
        explored_over(deps, known, ids),
        ids.contains(id),
        forall|x: Seq<char>| #[trigger]
            ids.contains(x) && !known.contains(x) ==> !visiting.contains(x),
    ensures
        !is_trapped(deps, visiting, known, id),
{
    if is_trapped(deps, visiting, known, id) {
        let path = choose|path: Seq<Seq<char>>| is_trap(deps, visiting, known, id, path);
        let order = choose|order: Seq<Seq<char>>| #[trigger]
            is_settled_over(deps, known, order) && order.to_set() == ids.difference(known);
        assert(!known.contains(path[0]));
        assert(order.to_set().contains(id));
        let first = choose|j: int| 0 <= j < order.len() && order[j] == id;
        let end = path.len() - 1;
        let at = lemma_chain_descends(deps, known, order, path, first, end);
        assert(order.to_set().contains(order[at]));
        assert(!visiting.contains(path.last()));
        let k = choose|k: int| 0 <= k < end && path.drop_last()[k] == path.last();
        let upper = lemma_chain_descends(deps, known, order, path, first, k);
        lemma_no_way_back(deps, known, order, path, k, upper);
    }
}

/// The part of a path behind some position is a path.
proof fn lemma_chain_skip(deps: Map<Seq<char>, Seq<Seq<char>>>, path: Seq<Seq<char>>, k: int)
    requires
        is_chain(deps, path),
        0 <= k < path.len(),
    ensures
        is_chain(deps, path.skip(k)),
{
    let rest = path.skip(k);
    assert forall|i: int| 0 <= i < rest.len() - 1 implies depends(
        deps,
        #[trigger] rest[i],
        rest[i + 1],
    ) by {
        assert(depends(deps, path[k + i], path[k + i + 1]));
    }
}

/// A path that avoids the known ids does not come back to a settled id.
proof fn lemma_no_way_back(
    deps: Map<Seq<char>, Seq<Seq<char>>>,
    known: Set<Seq<char>>,
    order: Seq<Seq<char>>,
    path: Seq<Seq<char>>,
    k: int,
    at: int,
)
    requires
        is_settled_over(deps, known, order),
        is_chain(deps, path),
        forall|i: int| 0 <= i < path.len() ==> !known.contains(#[trigger] path[i]),
        0 <= k < path.len() - 1,
        0 <= at < order.len(),
        order[at] == path[k],
    ensures
        path[k] != path.last(),
{
    let rest = path.skip(k);
    lemma_chain_skip(deps, path, k);
    assert forall|i: int| 0 <= i < rest.len() implies !known.contains(#[trigger] rest[i]) by {
        assert(!known.contains(path[k + i]));
    }
    assert(order.contains(rest[0]));
    order.index_of_first_ensures(rest[0]);
    let lowest = order.index_of_first(rest[0])->0;
    let below = lemma_chain_descends(deps, known, order, rest, lowest, rest.len() - 1);
    assert(order[below] == path.last());
    assert(below < lowest);
}

/// What was explored beyond some ids, and then beyond that, was explored beyond the first.
proof fn lemma_explored_further(
    deps: Map<Seq<char>, Seq<Seq<char>>>,
    known: Set<Seq<char>>,
    ids: Set<Seq<char>>,
    more: Set<Seq<char>>,
)
    requires
        known.subset_of(ids),
        ids.subset_of(more),
        explored_over(deps, known, ids),
        explored_over(deps, ids, more),
    ensures
        explored_over(deps, known, more),
{
    let front = choose|order: Seq<Seq<char>>| #[trigger]
        is_settled_over(deps, known, order) && order.to_set() == ids.difference(known);
    let back = choose|order: Seq<Seq<char>>| #[trigger]
        is_settled_over(deps, ids, order) && order.to_set() == more.difference(ids);
    let order = front + back;
    assert forall|i: int, b: Seq<char>|
        0 <= i < order.len() && #[trigger] depends(deps, order[i], b) implies known.contains(b)
        || order.take(i).contains(b) by {
        if i < front.len() {
            assert(order[i] == front[i]);
            assert(order.take(i) =~= front.take(i));
        } else {
            let j = i - front.len();
            assert(order[i] == back[j]);
            if !known.contains(b) {
                if ids.contains(b) {
                    assert(front.to_set().contains(b));
                    let k = choose|k: int| 0 <= k < front.len() && front[k] == b;
                    assert(order.take(i)[k] == b);
                } else {
                    assert(back.take(j).contains(b));
                    let k = choose|k: int| 0 <= k < j && back.take(j)[k] == b;
                    assert(order.take(i)[front.len() + k] == b);
                }
            }
        }
    }
    assert(is_settled_over(deps, known, order));
    assert(order.to_set() =~= more.difference(known)) by {
        assert forall|x: Seq<char>| more.difference(known).contains(x) implies
            order.to_set().contains(x) by {
            if ids.contains(x) {
                assert(front.to_set().contains(x));
                let k = choose|k: int| 0 <= k < front.len() && front[k] == x;
                assert(order[k] == x);
            } else {
                assert(back.to_set().contains(x));
                let k = choose|k: int| 0 <= k < back.len() && back[k] == x;
                assert(order[front.len() + k] == x);
            }
        }
        assert forall|x: Seq<char>| order.to_set().contains(x) implies more.difference(
            known,
        ).contains(x) by {
            let k = choose|k: int| 0 <= k < order.len() && order[k] == x;
            if k < front.len() {
                assert(front.to_set().contains(front[k]));
            } else {
                assert(back.to_set().contains(back[k - front.len()]));
            }
        }
    }
}

/// An id whose dependencies are known can be explored next.
proof fn lemma_explored_one(
    deps: Map<Seq<char>, Seq<Seq<char>>>,
    known: Set<Seq<char>>,
    id: Seq<char>,
)
    requires
        !known.contains(id),
        forall|b: Seq<char>| #[trigger] depends(deps, id, b) ==> known.contains(b),
    ensures
        explored_over(deps, known, known.insert(id)),
{
    let order = seq![id];
    assert(order[0] == id);
    assert(is_settled_over(deps, known, order));
    assert(order.to_set() =~= known.insert(id).difference(known));
}

/// Nothing has to be explored where all is known.
proof fn lemma_explored_none(deps: Map<Seq<char>, Seq<Seq<char>>>, known: Set<Seq<char>>)
    ensures
        explored_over(deps, known, known),
{
    let order: Seq<Seq<char>> = seq![];
    assert(is_settled_over(deps, known, order));
    assert(order.to_set() =~= known.difference(known));
}

/// Where all ids were explored there is no cycle.
proof fn lemma_explored_has_no_cycle(deps: Map<Seq<char>, Seq<Seq<char>>>, ids: Set<Seq<char>>)
    requires
        explored_over(deps, Set::empty(), ids),
        deps.dom().subset_of(ids),
    ensures
        !has_cycle(deps),
{
    if has_cycle(deps) {
        let path = choose|path: Seq<Seq<char>>| is_cycle(deps, path);
        let none = Set::<Seq<char>>::empty();
        assert(depends(deps, path[0], path[1]));
        lemma_settled_is_no_trap(deps, none, none, ids, path[0]);
        assert(path.drop_last()[0] == path.last());
        assert(is_trap(deps, none, none, path[0], path));
    }
}

/// The dependencies that a table holds.
pub open spec fn table_view(table: Map<Seq<char>, Vec<String>>) -> Map<Seq<char>, Seq<Seq<char>>> {
    table.map_values(|list: Vec<String>| text::texts(list@))
}

/// Searches for a cycle from `id` on, where `visiting` holds the ids on the way here and `visited`
/// those that need not be looked at again. Where nothing is found, `visited` has grown by `id` and
/// all that it depends on, directly or through others.
pub fn visit(
    id: &str,
    deps: &StringHashMap<Vec<String>>,
    visiting: &mut StringHashSet,
    visited: &mut StringHashSet,
) -> (found: bool)
    requires
        deps@.dom().finite(),
    ensures
        found == is_trapped(table_view(deps@), old(visiting)@, old(visited)@, id@),
        old(visiting)@.subset_of(final(visiting)@),
        old(visited)@.subset_of(final(visited)@),
        !found ==> {
            &&& final(visiting)@ == old(visiting)@
            &&& final(visited)@.contains(id@)
            &&& forall|n: Seq<char>, b: Seq<char>|
                final(visited)@.contains(n) && !old(visited)@.contains(n) && #[trigger] depends(
                    table_view(deps@),
                    n,
                    b,
                ) ==> final(visited)@.contains(b)
            &&& forall|n: Seq<char>| #[trigger]
                final(visited)@.contains(n) && !old(visited)@.contains(n) ==> !old(
                    visiting,
                )@.contains(n)
            &&& explored_over(table_view(deps@), old(visited)@, final(visited)@)
        },
    decreases deps@.dom().difference(old(visiting)@).len(),
{
    let ghost graph = table_view(deps@);
    let ghost on_path = visiting@;
    let ghost known = visited@;
    if visited.contains(id) {
        proof {
            lemma_explored_none(graph, known);
            if is_trapped(graph, on_path, known, id@) {
                let path = choose|path: Seq<Seq<char>>| is_trap(graph, on_path, known, id@, path);
                assert(!known.contains(path[0]));
            }
        }
        return false;
    }
    if !visiting.insert(id.to_string()) {
        proof {
            let path = seq![id@];
            assert(path.last() == id@);
            assert(is_trap(graph, on_path, known, id@, path));
            assert(on_path.subset_of(visiting@));
        }
        return true;
    }
    proof {
        lemma_explored_none(graph, known);
    }
    if let Some(children) = deps.get(id) {
        assert(graph[id@] == text::texts(children@));
        proof {
            assert(deps@.dom().difference(visiting@) =~= deps@.dom().difference(on_path).remove(
                id@,
            ));
        }
        let mut i: usize = 0;
        while i < children.len()
            invariant
                i <= children@.len(),
                graph == table_view(deps@),
                deps@.dom().finite(),
                graph.contains_key(id@),
                graph[id@] == text::texts(children@),
                visiting@ == on_path.insert(id@),
                !on_path.contains(id@),
                !known.contains(id@),
                deps@.dom().difference(visiting@).len() < deps@.dom().difference(on_path).len(),
                known.subset_of(visited@),
                explored_over(graph, known, visited@),
                old(visiting)@ == on_path,
                old(visited)@ == known,
                forall|n: Seq<char>, b: Seq<char>|
                    visited@.contains(n) && !known.contains(n) && #[trigger] depends(graph, n, b)
                        ==> visited@.contains(b),
                forall|n: Seq<char>| #[trigger]
                    visited@.contains(n) && !known.contains(n) ==> !visiting@.contains(n),
                forall|j: int| 0 <= j < i ==> visited@.contains(#[trigger] children@[j]@),
            decreases children@.len() - i,
        {
            let child: &str = children[i].as_str();
            assert(text::texts(children@)[i as int] == child@);
            let ghost earlier = visited@;
            let ghost deeper = visiting@;
            if visit(child, deps, visiting, visited) {
                proof {
                    let rest = choose|path: Seq<Seq<char>>|
                        is_trap(graph, deeper, earlier, child@, path);
                    lemma_trap_from_above(graph, on_path, known, id@, earlier, rest);
                }
                return true;
            }
            proof {
                lemma_explored_further(graph, known, earlier, visited@);
                assert forall|j: int| 0 <= j < i + 1 implies visited@.contains(
                    #[trigger] children@[j]@,
                ) by {
                    if j < i {
                        assert(earlier.contains(children@[j]@));
                    }
                }
                assert forall|n: Seq<char>, b: Seq<char>|
                    visited@.contains(n) && !known.contains(n) && #[trigger] depends(
                        graph,
                        n,
                        b,
                    ) implies visited@.contains(b) by {
                    if earlier.contains(n) {
                        assert(earlier.contains(b));
                    }
                }
                assert forall|n: Seq<char>| #[trigger]
                    visited@.contains(n) && !known.contains(n) implies !visiting@.contains(n) by {
                    if earlier.contains(n) {
                    }
                }
            }
            i += 1;
        }
        assert forall|b: Seq<char>| depends(graph, id@, b) implies visited@.contains(b) by {
            let j = choose|j: int| 0 <= j < children@.len() && text::texts(children@)[j] == b;
            assert(visited@.contains(children@[j]@));
        }
    }
    let ghost finished = visited@;
    proof {
        assert(!finished.contains(id@)) by {
            if finished.contains(id@) {
                assert(!visiting@.contains(id@));
            }
        }
        lemma_explored_one(graph, finished, id@);
        lemma_explored_further(graph, known, finished, finished.insert(id@));
    }
    visiting.remove(id);
    visited.insert(id.to_string());
    proof {
        assert(visiting@ =~= on_path);
        assert forall|n: Seq<char>| #[trigger]
            visited@.contains(n) && !known.contains(n) implies !on_path.contains(n) by {
            if n != id@ {
                assert(finished.contains(n));
            }
        }
        lemma_settled_is_no_trap(graph, on_path, known, visited@, id@);
    }
    false
}

/// A trap behind a dependency of `id` is a trap for `id`.
proof fn lemma_trap_from_above(
    deps: Map<Seq<char>, Seq<Seq<char>>>,
    visiting: Set<Seq<char>>,
    known: Set<Seq<char>>,
    id: Seq<char>,
    visited: Set<Seq<char>>,
    rest: Seq<Seq<char>>,
)
    requires
        !known.contains(id),
        known.subset_of(visited),
        rest.len() > 0,
        depends(deps, id, rest[0]),
        is_trap(deps, visiting.insert(id), visited, rest[0], rest),
    ensures
        is_trapped(deps, visiting, known, id),
{
    let path = seq![id] + rest;
    assert forall|i: int| 0 <= i < path.len() - 1 implies depends(
        deps,
        #[trigger] path[i],
        path[i + 1],
    ) by {
        if i > 0 {
            assert(depends(deps, rest[i - 1], rest[i - 1 + 1]));
        }
    }
    assert forall|i: int| 0 <= i < path.len() implies !known.contains(#[trigger] path[i]) by {
        if i > 0 {
            assert(!visited.contains(rest[i - 1]));
        }
    }
    assert(path.last() == rest.last());
    if !visiting.contains(rest.last()) {
        if rest.last() == id {
            assert(path.drop_last()[0] == id);
        } else {
            let k = choose|k: int| 0 <= k < rest.len() - 1 && rest.drop_last()[k] == rest.last();
            assert(path.drop_last()[k + 1] == rest.last());
        }
    }
    assert(is_trap(deps, visiting, known, id, path));
}

/// Whether the tasks' dependencies contain a cycle.
pub fn has_dependency_cycle(tasks: &[SwarmTaskSpec]) -> (found: bool)
    ensures
        found == has_cycle(dependency_map(types::task_views(tasks@))),
{
    let ghost views = types::task_views(tasks@);
    let mut deps: StringHashMap<Vec<String>> = StringHashMap::new();
    let mut i: usize = 0;
    assert(views.take(0) =~= Seq::empty());
    assert(table_view(deps@) =~= dependency_map(views.take(0)));
    while i < tasks.len()
        invariant
            i <= tasks@.len(),
            views == types::task_views(tasks@),
            deps@.dom().finite(),
            table_view(deps@) == dependency_map(views.take(i as int)),
            forall|j: int| 0 <= j < i ==> deps@.contains_key(#[trigger] tasks@[j].id@),
            forall|id: Seq<char>| deps@.contains_key(id) ==> exists|j: int|
                0 <= j < i && #[trigger] tasks@[j].id@ == id,
        decreases tasks@.len() - i,
    {
        let list: Vec<String> = tasks[i].depends_on.clone();
        let ghost before = deps@;
        deps.insert(tasks[i].id.clone(), list);
        proof {
            assert(text::texts(list@) =~= views[i as int].depends_on);
            assert(views.take(i + 1).drop_last() =~= views.take(i as int));
            assert(table_view(deps@) =~= table_view(before).insert(
                views[i as int].id,
                views[i as int].depends_on,
            ));
            assert forall|id: Seq<char>| deps@.contains_key(id) implies exists|j: int|
                0 <= j < i + 1 && #[trigger] tasks@[j].id@ == id by {
                if id == tasks@[i as int].id@ {
                } else {
                    assert(before.contains_key(id));
                    let j = choose|j: int| 0 <= j < i && #[trigger] tasks@[j].id@ == id;
                    assert(tasks@[j].id@ == id);
                }
            }
        }
        i += 1;
    }
    assert(views.take(i as int) =~= views);
    let ghost graph = table_view(deps@);
    let mut visiting: StringHashSet = StringHashSet::new();
    let mut visited: StringHashSet = StringHashSet::new();
    proof {
        lemma_explored_none(graph, visited@);
    }
    let mut k: usize = 0;
    while k < tasks.len()
        invariant
            k <= tasks@.len(),
            graph == table_view(deps@),
            graph == dependency_map(types::task_views(tasks@)),
            deps@.dom().finite(),
            visiting@ == Set::<Seq<char>>::empty(),
            explored_over(graph, Set::empty(), visited@),
            forall|j: int| 0 <= j < k ==> visited@.contains(#[trigger] tasks@[j].id@),
        decreases tasks@.len() - k,
    {
        let ghost earlier = visited@;
        if visit(tasks[k].id.as_str(), &deps, &mut visiting, &mut visited) {
            proof {
                let id = tasks@[k as int].id@;
                let path = choose|path: Seq<Seq<char>>|
                    is_trap(graph, Set::empty(), earlier, id, path);
                let at = lemma_trap_ends_in_cycle(graph, earlier, id, path);
                assert(is_cycle(graph, path.skip(at)));
            }
            return true;
        }
        proof {
            lemma_explored_further(graph, Set::empty(), earlier, visited@);
        }
        assert forall|j: int| 0 <= j < k + 1 implies visited@.contains(#[trigger] tasks@[j].id@) by {
            if j < k {
                assert(earlier.contains(tasks@[j].id@));
            }
        }
        k += 1;
    }
    proof {
        assert forall|id: Seq<char>| graph.dom().contains(id) implies visited@.contains(id) by {
            assert(deps@.contains_key(id));
        }
        lemma_explored_has_no_cycle(graph, visited@);
    }
    false
}

/// What is wrong with one task on its own, or beside the tasks in front of it.
pub open spec fn own_error(tasks: Seq<SwarmTaskView>, i: int) -> Option<ToolErrorView> {
    let t = tasks[i];
    let id = text::trimmed(t.id);
    if id.len() == 0 {
        Some(ToolErrorView::InvalidInput { message: "task id cannot be empty"@ })
    } else if text::trimmed(t.prompt).len() == 0 {
        Some(
            ToolErrorView::InvalidInput {
                message: task::about_task(id, "' prompt cannot be empty"@),
            },
        )
    } else if t.retry_count is Some && t.retry_count->0 > MAX_TASK_RETRIES {
        Some(
            ToolErrorView::InvalidInput {
                message: task::about_task(
                    id,
                    "' retry_count must be <= "@ + text::decimal_text(MAX_TASK_RETRIES as nat),
                ),
            },
        )
    } else if t.task_timeout_ms == Some(0u64) {
        Some(
            ToolErrorView::InvalidInput {
                message: task::about_task(id, "' task_timeout_ms must be > 0"@),
            },
        )
    } else {
        match task::assignment(t) {
            Err(e) => Some(e),
            Ok(assignment) => if assignment.agent_type == SubAgentType::Custom && (
            t.allowed_tools is None || t.allowed_tools->0.len() == 0) {
                Some(
                    ToolErrorView::InvalidInput {
                        message: task::about_task(
                            id,
                            "' requires allowed_tools for custom type"@,
                        ),
                    },
                )
            } else if types::task_ids(tasks).take(i).contains(t.id) {
                Some(
                    ToolErrorView::InvalidInput {
                        message: "duplicate task id '"@ + id + "'"@,
                    },
                )
            } else if t.depends_on.contains(id) {
                Some(
                    ToolErrorView::InvalidInput {
                        message: task::about_task(id, "' cannot depend on itself"@),
                    },
                )
            } else {
                None
            },
        }
    }
}

/// What is wrong with the first task from `from` on that has an error of its own.
pub open spec fn first_own_error(tasks: Seq<SwarmTaskView>, from: int) -> Option<ToolErrorView>
    decreases tasks.len() - from,
{
    if from < 0 || from >= tasks.len() {
        None
    } else {
        match own_error(tasks, from) {
            Some(e) => Some(e),
            None => first_own_error(tasks, from + 1),
        }
    }
}

/// The first of the texts from `from` on that is not among `ids`.
pub open spec fn first_unknown(
    list: Seq<Seq<char>>,
    ids: Seq<Seq<char>>,
    from: int,
) -> Option<Seq<char>>
    decreases list.len() - from,
{
    if from < 0 || from >= list.len() {
        None
    } else if !ids.contains(list[from]) {
        Some(list[from])
    } else {
        first_unknown(list, ids, from + 1)
    }
}

/// The error about the first dependency, in the tasks from `from` on, that no task has as its id.
pub open spec fn first_unknown_error(
    tasks: Seq<SwarmTaskView>,
    from: int,
) -> Option<ToolErrorView>
    decreases tasks.len() - from,
{
    if from < 0 || from >= tasks.len() {
        None
    } else {
        match first_unknown(tasks[from].depends_on, types::task_ids(tasks), 0) {
            Some(dep) => Some(
                ToolErrorView::InvalidInput {
                    message: task::about_task(
                        tasks[from].id,
                        "' depends on unknown task '"@ + dep + "'"@,
                    ),
                },
            ),
            None => first_unknown_error(tasks, from + 1),
        }
    }
}

/// The error for which a list of tasks is refused, if it is.
pub open spec fn validation_error(tasks: Seq<SwarmTaskView>) -> Option<ToolErrorView> {
    if tasks.len() == 0 {
        Some(ToolErrorView::InvalidInput { message: "tasks cannot be empty"@ })
    } else if first_own_error(tasks, 0) is Some {
        first_own_error(tasks, 0)
    } else if first_unknown_error(tasks, 0) is Some {
        first_unknown_error(tasks, 0)
    } else if has_cycle(dependency_map(tasks)) {
        Some(ToolErrorView::InvalidInput { message: "task dependencies contain a cycle"@ })
    } else {
        None
    }
}

/// The result of a check.
pub open spec fn error_view(r: Result<(), ToolError>) -> Option<ToolErrorView> {
    match r {
        Ok(_) => None,
        Err(e) => Some(e@),
    }
}

/// Checks one task on its own, and against the ids of the tasks in front of it, which it joins.
fn check_task(
    tasks: &[SwarmTaskSpec],
    i: usize,
    ids: &mut StringHashSet,
) -> (r: Result<(), ToolError>)
    requires
        i < tasks@.len(),
        old(ids)@ == types::task_ids(types::task_views(tasks@)).take(i as int).to_set(),
    ensures
        error_view(r) == own_error(types::task_views(tasks@), i as int),
        r is Ok ==> final(ids)@ == types::task_ids(types::task_views(tasks@)).take(
            i + 1,
        ).to_set(),
{
    let ghost views = types::task_views(tasks@);
    let ghost all_ids = types::task_ids(views);
    let t: &SwarmTaskSpec = &tasks[i];
    assert(views[i as int] == t@);
    let id: &str = text::trim(t.id.as_str());
    if id.is_empty() {
        return Err(ToolError::InvalidInput { message: "task id cannot be empty".to_string() });
    }
    if text::trim(t.prompt.as_str()).is_empty() {
        return Err(task::task_error(id, "' prompt cannot be empty"));
    }
    if let Some(retry_count) = t.retry_count {
        if retry_count > MAX_TASK_RETRIES {
            let mut rest: String = "' retry_count must be <= ".to_string();
            rest.append(text::decimal(MAX_TASK_RETRIES as u64).as_str());
            return Err(task::task_error(id, rest.as_str()));
        }
    }
    if let Some(limit) = t.task_timeout_ms {
        if limit == 0 {
            return Err(task::task_error(id, "' task_timeout_ms must be > 0"));
        }
    }
    let resolved_type: SubAgentType = match task::resolve_task_assignment(t) {
        Ok((agent_type, _, _)) => agent_type,
        Err(e) => return Err(e),
    };
    if resolved_type == SubAgentType::Custom {
        let no_tools: bool = match &t.allowed_tools {
            Some(tools) => tools.len() == 0,
            None => true,
        };
        if no_tools {
            return Err(task::task_error(id, "' requires allowed_tools for custom type"));
        }
    }
    let fresh: bool = ids.insert(t.id.clone());
    proof {
        assert(all_ids[i as int] == t.id@);
        let earlier = all_ids.take(i as int);
        assert(fresh == !earlier.contains(t.id@));
        assert(all_ids.take(i + 1) =~= earlier.push(t.id@));
        assert(earlier.push(t.id@).to_set() =~= earlier.to_set().insert(t.id@)) by {
            assert forall|x: Seq<char>| earlier.to_set().insert(t.id@).contains(x) implies
                earlier.push(t.id@).to_set().contains(x) by {
                if x == t.id@ {
                    assert(earlier.push(t.id@)[i as int] == x);
                } else {
                    let k = choose|k: int| 0 <= k < earlier.len() && earlier[k] == x;
                    assert(earlier.push(t.id@)[k] == x);
                }
            }
        }
    }
    if !fresh {
        let mut message: String = "duplicate task id '".to_string();
        message.append(id);
        message.append("'");
        return Err(ToolError::InvalidInput { message });
    }
    if holds_text(&t.depends_on, id) {
        return Err(task::task_error(id, "' cannot depend on itself"));
    }
    Ok(())
}

/// Whether a list of strings holds a text.
pub fn holds_text(list: &Vec<String>, wanted: &str) -> (found: bool)
    ensures
        found == text::texts(list@).contains(wanted@),
{
    let mut i: usize = 0;
    while i < list.len()
        invariant
            i <= list@.len(),
            forall|j: int| 0 <= j < i ==> text::texts(list@)[j] != wanted@,
        decreases list@.len() - i,
    {
        if text::same_text(list[i].as_str(), wanted) {
            assert(text::texts(list@)[i as int] == wanted@);
            return true;
        }
        i += 1;
    }
    false
}

/// Checks that the tasks make a swarm.
pub fn validate_swarm_tasks(tasks: &[SwarmTaskSpec]) -> (r: Result<(), ToolError>)
    ensures
        error_view(r) == validation_error(types::task_views(tasks@)),
{
    let ghost views = types::task_views(tasks@);
    let ghost all_ids = types::task_ids(views);
    if tasks.len() == 0 {
        return Err(ToolError::InvalidInput { message: "tasks cannot be empty".to_string() });
    }
    let mut ids: StringHashSet = StringHashSet::new();
    assert(all_ids.take(0).to_set() =~= ids@);
    let mut i: usize = 0;
    while i < tasks.len()
        invariant
            i <= tasks@.len(),
            views == types::task_views(tasks@),
            all_ids == types::task_ids(views),
            tasks@.len() > 0,
            ids@ == all_ids.take(i as int).to_set(),
            first_own_error(views, 0) == first_own_error(views, i as int),
        decreases tasks@.len() - i,
    {
        match check_task(tasks, i, &mut ids) {
            Ok(_) => {},
            Err(e) => {
                return Err(e);
            },
        }
        i += 1;
    }
    assert(all_ids.take(i as int) =~= all_ids);
    let mut k: usize = 0;
    while k < tasks.len()
        invariant
            k <= tasks@.len(),
            views == types::task_views(tasks@),
            all_ids == types::task_ids(views),
            tasks@.len() > 0,
            ids@ == all_ids.to_set(),
            first_own_error(views, 0) is None,
            first_unknown_error(views, 0) == first_unknown_error(views, k as int),
        decreases tasks@.len() - k,
    {
        let deps: &Vec<String> = &tasks[k].depends_on;
        assert(views[k as int].depends_on == text::texts(deps@));
        let mut j: usize = 0;
        while j < deps.len()
            invariant
                k < tasks@.len(),
                j <= deps@.len(),
                views == types::task_views(tasks@),
                all_ids == types::task_ids(views),
                tasks@.len() > 0,
                deps == &tasks@[k as int].depends_on,
                views[k as int].depends_on == text::texts(deps@),
                ids@ == all_ids.to_set(),
                first_own_error(views, 0) is None,
                first_unknown_error(views, 0) == first_unknown_error(views, k as int),
                first_unknown(views[k as int].depends_on, all_ids, 0) == first_unknown(
                    views[k as int].depends_on,
                    all_ids,
                    j as int,
                ),
            decreases deps@.len() - j,
        {
            assert(text::texts(deps@)[j as int] == deps@[j as int]@);
            if !ids.contains(deps[j].as_str()) {
                let mut rest: String = "' depends on unknown task '".to_string();
                rest.append(deps[j].as_str());
                rest.append("'");
                return Err(task::task_error(tasks[k].id.as_str(), rest.as_str()));
            }
            j += 1;
        }
        k += 1;
    }
    if has_dependency_cycle(tasks) {
        return Err(
            ToolError::InvalidInput { message: "task dependencies contain a cycle".to_string() },
        );
    }
    Ok(())
}

/// A task that is accepted where its id is free and its dependencies are known.
pub open spec fn acceptable(t: SwarmTaskView) -> bool {
    &&& text::trimmed(t.id).len() > 0
    &&& t.retry_count is Some ==> t.retry_count->0 <= MAX_TASK_RETRIES
    &&& t.task_timeout_ms != Some(0u64)
    &&& task::assignment(t) is Ok
    &&& task::assignment(t)->Ok_0.agent_type == SubAgentType::Custom ==> t.allowed_tools is Some
        && t.allowed_tools->0.len() > 0
    &&& !t.depends_on.contains(text::trimmed(t.id))
}

/// The tasks that make a swarm: there is one, each is acceptable, no id occurs twice, every
/// dependency is the id of a task, and no task depends on itself through others.
pub open spec fn valid_tasks(tasks: Seq<SwarmTaskView>) -> bool {
    &&& tasks.len() > 0
    &&& forall|i: int| 0 <= i < tasks.len() ==> acceptable(#[trigger] tasks[i])
    &&& types::task_ids(tasks).no_duplicates()
    &&& forall|i: int, dep: Seq<char>|
        0 <= i < tasks.len() && #[trigger] tasks[i].depends_on.contains(dep) ==> types::task_ids(
            tasks,
        ).contains(dep)
    &&& !has_cycle(dependency_map(tasks))
}

proof fn lemma_own_errors(tasks: Seq<SwarmTaskView>, from: int)
    requires
        0 <= from <= tasks.len(),
    ensures
        first_own_error(tasks, from) is None <==> forall|i: int|
            from <= i < tasks.len() ==> #[trigger] own_error(tasks, i) is None,
    decreases tasks.len() - from,
{
    if from < tasks.len() {
        lemma_own_errors(tasks, from + 1);
        if own_error(tasks, from) is None && first_own_error(tasks, from + 1) is None {
            assert forall|i: int| from <= i < tasks.len() implies #[trigger] own_error(
                tasks,
                i,
            ) is None by {
                if i > from {
                    assert(own_error(tasks, i) is None);
                }
            }
        }
    }
}

proof fn lemma_first_unknown(list: Seq<Seq<char>>, ids: Seq<Seq<char>>, from: int)
    requires
        0 <= from <= list.len(),
    ensures
        first_unknown(list, ids, from) is None <==> forall|i: int|
            from <= i < list.len() ==> ids.contains(#[trigger] list[i]),
    decreases list.len() - from,
{
    if from < list.len() {
        lemma_first_unknown(list, ids, from + 1);
    }
}

proof fn lemma_unknown_errors(tasks: Seq<SwarmTaskView>, from: int)
    requires
        0 <= from <= tasks.len(),
    ensures
        first_unknown_error(tasks, from) is None <==> forall|i: int, dep: Seq<char>|
            from <= i < tasks.len() && #[trigger] tasks[i].depends_on.contains(dep)
                ==> types::task_ids(tasks).contains(dep),
    decreases tasks.len() - from,
{
    if from < tasks.len() {
        let ids = types::task_ids(tasks);
        let list = tasks[from].depends_on;
        lemma_unknown_errors(tasks, from + 1);
        lemma_first_unknown(list, ids, 0);
        if first_unknown_error(tasks, from) is None {
            assert forall|i: int, dep: Seq<char>|
                from <= i < tasks.len() && #[trigger] tasks[i].depends_on.contains(
                    dep,
                ) implies ids.contains(dep) by {
                if i == from {
                    let j = choose|j: int| 0 <= j < list.len() && list[j] == dep;
                    assert(ids.contains(list[j]));
                }
            }
        } else if first_unknown(list, ids, 0) is Some {
            let j = choose|j: int| 0 <= j < list.len() && !ids.contains(#[trigger] list[j]);
            assert(tasks[from].depends_on.contains(list[j]));
        } else {
            let (i, dep) = choose|i: int, dep: Seq<char>|
                from + 1 <= i < tasks.len() && #[trigger] tasks[i].depends_on.contains(dep)
                    && !ids.contains(dep);
            assert(tasks[i].depends_on.contains(dep));
        }
    }
}

/// A list of tasks is accepted exactly when it makes a swarm.
pub proof fn validation_accepts_exactly_valid_tasks(tasks: Seq<SwarmTaskView>)
    ensures
        validation_error(tasks) is None <==> valid_tasks(tasks),
{
    let ids = types::task_ids(tasks);
    lemma_own_errors(tasks, 0);
    lemma_unknown_errors(tasks, 0);
    if validation_error(tasks) is None {
        assert forall|i: int| 0 <= i < tasks.len() implies acceptable(#[trigger] tasks[i]) by {
            assert(own_error(tasks, i) is None);
        }
        assert forall|i: int, j: int| 0 <= i < j < ids.len() implies ids[i] != ids[j] by {
            assert(own_error(tasks, j) is None);
            assert(ids.take(j)[i] == ids[i]);
            assert(!ids.take(j).contains(tasks[j].id));
        }
    }
    if valid_tasks(tasks) {
        assert forall|i: int| 0 <= i < tasks.len() implies #[trigger] own_error(
            tasks,
            i,
        ) is None by {
            assert(acceptable(tasks[i]));
            if ids.take(i).contains(tasks[i].id) {
                let j = choose|j: int| 0 <= j < i && ids.take(i)[j] == tasks[i].id;
                assert(ids[j] == ids[i]);
            }
        }
    }
}

/// Where no cycle exists, any set of ids holds one that depends on none in the set.
pub proof fn acyclic_set_has_a_source(
    deps: Map<Seq<char>, Seq<Seq<char>>>,
    ids: Set<Seq<char>>,
) -> (source: Seq<char>)
    requires
        !has_cycle(deps),
        ids.finite(),
        ids.len() > 0,
    ensures
        ids.contains(source),
        forall|dep: Seq<char>| #[trigger] depends(deps, source, dep) ==> !ids.contains(dep),
{
    if forall|id: Seq<char>| #[trigger]
        ids.contains(id) ==> exists|dep: Seq<char>| depends(deps, id, dep) && ids.contains(dep) {
        let path = lemma_long_chain(deps, ids, ids.len() + 1);
        lemma_chain_repeats(deps, ids, path);
        assert(false);
    }
    choose|id: Seq<char>| #[trigger]
        ids.contains(id) && !exists|dep: Seq<char>| depends(deps, id, dep) && ids.contains(dep)
}

proof fn lemma_long_chain(
    deps: Map<Seq<char>, Seq<Seq<char>>>,
    ids: Set<Seq<char>>,
    len: nat,
) -> (path: Seq<Seq<char>>)
    requires
        ids.finite(),
        ids.len() > 0,
        len > 0,
        forall|id: Seq<char>| #[trigger]
            ids.contains(id) ==> exists|dep: Seq<char>| depends(deps, id, dep) && ids.contains(dep),
    ensures
        path.len() == len,
        is_chain(deps, path),
        forall|i: int| 0 <= i < path.len() ==> ids.contains(#[trigger] path[i]),
    decreases len,
{
    if len == 1 {
        let start = ids.choose();
        seq![start]
    } else {
        let shorter = lemma_long_chain(deps, ids, (len - 1) as nat);
        assert(ids.contains(shorter.last()));
        let next = choose|dep: Seq<char>| depends(deps, shorter.last(), dep) && ids.contains(dep);
        let path = shorter.push(next);
        assert forall|i: int| 0 <= i < path.len() - 1 implies depends(
            deps,
            #[trigger] path[i],
            path[i + 1],
        ) by {
            assert(path[i] == shorter[i]);
        }
        path
    }
}

proof fn lemma_chain_repeats(
    deps: Map<Seq<char>, Seq<Seq<char>>>,
    ids: Set<Seq<char>>,
    path: Seq<Seq<char>>,
)
    requires
        ids.finite(),
        path.len() > ids.len(),
        is_chain(deps, path),
        forall|i: int| 0 <= i < path.len() ==> ids.contains(#[trigger] path[i]),
    ensures
        has_cycle(deps),
{
    if path.no_duplicates() {
        path.unique_seq_to_set();
        assert(path.to_set().subset_of(ids)) by {
            assert forall|x: Seq<char>| path.to_set().contains(x) implies ids.contains(x) by {
                let i = choose|i: int| 0 <= i < path.len() && path[i] == x;
                assert(ids.contains(path[i]));
            }
        }
        vstd::set_lib::lemma_len_subset(path.to_set(), ids);
    }
    let (i, j) = choose|i: int, j: int|
        0 <= i < path.len() && 0 <= j < path.len() && i != j && path[i] == path[j];
    let low = if i < j {
        i
    } else {
        j
    };
    let high = if i < j {
        j
    } else {
        i
    };
    let cycle = path.subrange(low, high + 1);
    assert forall|k: int| 0 <= k < cycle.len() - 1 implies depends(
        deps,
        #[trigger] cycle[k],
        cycle[k + 1],
    ) by {
        assert(cycle[k] == path[low + k]);
        assert(cycle[k + 1] == path[low + k + 1]);
    }
    assert(is_cycle(deps, cycle));
}

/// What the dependency map holds of tasks whose ids are distinct.
pub proof fn lemma_dependency_map(tasks: Seq<SwarmTaskView>)
    requires
        types::task_ids(tasks).no_duplicates(),
    ensures
        forall|i: int|
            0 <= i < tasks.len() ==> dependency_map(tasks).contains_key(#[trigger] tasks[i].id)
                && dependency_map(tasks)[tasks[i].id] == tasks[i].depends_on,
        dependency_map(tasks).dom() == types::task_ids(tasks).to_set(),
        dependency_map(tasks).dom().finite(),
    decreases tasks.len(),
{
    let ids = types::task_ids(tasks);
    if tasks.len() > 0 {
        let front = tasks.drop_last();
        let front_ids = types::task_ids(front);
        assert(front_ids =~= ids.drop_last());
        lemma_dependency_map(front);
        assert forall|i: int| 0 <= i < tasks.len() implies dependency_map(tasks).contains_key(
            #[trigger] tasks[i].id,
        ) && dependency_map(tasks)[tasks[i].id] == tasks[i].depends_on by {
            if i < tasks.len() - 1 {
                assert(front[i] == tasks[i]);
                assert(ids[i] != ids[tasks.len() - 1]);
            }
        }
        assert(dependency_map(tasks).dom() =~= ids.to_set()) by {
            assert forall|x: Seq<char>| dependency_map(tasks).dom().contains(
                x,
            ) implies ids.to_set().contains(x) by {
                if x == tasks.last().id {
                    assert(ids[tasks.len() - 1] == x);
                } else {
                    assert(front_ids.to_set().contains(x));
                    let k = choose|k: int| 0 <= k < front_ids.len() && front_ids[k] == x;
                    assert(ids[k] == x);
                }
            }
            assert forall|x: Seq<char>| ids.to_set().contains(x) implies dependency_map(
                tasks,
            ).dom().contains(x) by {
                let k = choose|k: int| 0 <= k < ids.len() && ids[k] == x;
                assert(dependency_map(tasks).contains_key(tasks[k].id));
            }
        }
    } else {
        assert(dependency_map(tasks).dom() =~= ids.to_set());
    }
}

/// The tasks of a swarm can be put in an order in which each stands behind everything that it
/// depends on.
pub proof fn valid_tasks_can_be_ordered(tasks: Seq<SwarmTaskView>) -> (order: Seq<Seq<char>>)
    requires
        valid_tasks(tasks),
    ensures
        is_settled(dependency_map(tasks), order),
        order.no_duplicates(),
        order.to_set() == types::task_ids(tasks).to_set(),
{
    let ids = types::task_ids(tasks);
    lemma_dependency_map(tasks);
    let none: Seq<Seq<char>> = seq![];
    assert(ids.to_set().difference(none.to_set()) =~= ids.to_set());
    assert(none.to_set().subset_of(ids.to_set()));
    lemma_extend_order(tasks, none)
}

proof fn lemma_extend_order(tasks: Seq<SwarmTaskView>, front: Seq<Seq<char>>) -> (order: Seq<
    Seq<char>,
>)
    requires
        valid_tasks(tasks),
        is_settled(dependency_map(tasks), front),
        front.no_duplicates(),
        front.to_set().subset_of(types::task_ids(tasks).to_set()),
    ensures
        is_settled(dependency_map(tasks), order),
        order.no_duplicates(),
        order.to_set() == types::task_ids(tasks).to_set(),
    decreases types::task_ids(tasks).to_set().difference(front.to_set()).len(),
{
    let deps = dependency_map(tasks);
    let ids = types::task_ids(tasks);
    let rest = ids.to_set().difference(front.to_set());
    lemma_dependency_map(tasks);
    if rest.len() == 0 {
        assert(rest =~= Set::empty());
        assert forall|x: Seq<char>| ids.to_set().contains(x) implies front.to_set().contains(x) by {
            assert(!rest.contains(x));
        }
        assert(front.to_set() =~= ids.to_set());
        front
    } else {
        let next = acyclic_set_has_a_source(deps, rest);
        let longer = front.push(next);
        assert(longer.to_set() =~= front.to_set().insert(next)) by {
            assert forall|x: Seq<char>| front.to_set().insert(next).contains(
                x,
            ) implies longer.to_set().contains(x) by {
                if x == next {
                    assert(longer[front.len() as int] == x);
                } else {
                    let k = choose|k: int| 0 <= k < front.len() && front[k] == x;
                    assert(longer[k] == x);
                }
            }
        }
        assert(ids.to_set().difference(longer.to_set()) =~= rest.remove(next));
        assert forall|i: int, b: Seq<char>|
            0 <= i < longer.len() && #[trigger] depends(deps, longer[i], b) implies longer.take(
            i,
        ).contains(b) by {
            if i < front.len() {
                assert(longer[i] == front[i]);
                assert(front.take(i).contains(b));
                assert(longer.take(i) =~= front.take(i));
            } else {
                let k = choose|k: int| 0 <= k < ids.len() && ids[k] == next;
                assert(tasks[k].id == next);
                assert(tasks[k].depends_on.contains(b));
                assert(ids.contains(b));
                assert(front.to_set().contains(b));
                assert(longer.take(i) =~= front);
            }
        }
        assert(longer.no_duplicates()) by {
            assert forall|i: int, j: int| 0 <= i < longer.len() && 0 <= j < longer.len() && i
                != j implies longer[i] != longer[j] by {
                if i == front.len() {
                    assert(front.to_set().contains(front[j]));
                } else if j == front.len() {
                    assert(front.to_set().contains(front[i]));
                }
            }
        }
        lemma_extend_order(tasks, longer)
    }
}

/// A list of tasks is accepted if each task stands behind those that it depends on, no two have one
/// id, and each of them is sound: it has an id, asks for at most ten retries, allows some time if it
/// limits it, resolves to an agent, and names its tools if the agent is a custom one.
pub proof fn sound_lists_are_accepted(tasks: Seq<SwarmTaskView>)
    requires
        tasks.len() > 0,
        forall|i: int|
            0 <= i < tasks.len() ==> text::trimmed((#[trigger] tasks[i]).id).len() > 0 && (
            tasks[i].retry_count is None || tasks[i].retry_count->0 <= 10) && (
            tasks[i].task_timeout_ms is None || tasks[i].task_timeout_ms->0 > 0)
                && task::assignment(tasks[i]) is Ok && (task::assignment(tasks[i])->Ok_0.agent_type
                != SubAgentType::Custom || (tasks[i].allowed_tools is Some
                && tasks[i].allowed_tools->0.len() > 0)),
        forall|i: int, j: int|
            0 <= i < j < tasks.len() ==> (#[trigger] tasks[i]).id != (#[trigger] tasks[j]).id,
        forall|i: int, dep: Seq<char>|
            0 <= i < tasks.len() && #[trigger] tasks[i].depends_on.contains(dep) ==> dep
                != text::trimmed(tasks[i].id) && exists|j: int|
                0 <= j < i && (#[trigger] tasks[j]).id == dep,
    ensures
        validation_error(tasks) is None,
{
    let ids = types::task_ids(tasks);
    let deps = dependency_map(tasks);
    validation_accepts_exactly_valid_tasks(tasks);
    assert forall|i: int, j: int| 0 <= i < j < ids.len() implies ids[i] != ids[j] by {
        assert(tasks[i].id != tasks[j].id);
    }
    assert forall|i: int, dep: Seq<char>|
        0 <= i < tasks.len() && #[trigger] tasks[i].depends_on.contains(dep) implies ids.contains(
        dep,
    ) by {
        let j = choose|j: int| 0 <= j < i && (#[trigger] tasks[j]).id == dep;
        assert(ids[j] == dep);
    }
    lemma_dependency_map(tasks);
    assert(!has_cycle(deps)) by {
        let none = Set::<Seq<char>>::empty();
        assert forall|i: int, b: Seq<char>|
            0 <= i < ids.len() && #[trigger] depends(deps, ids[i], b) implies none.contains(b)
            || ids.take(i).contains(b) by {
            assert(tasks[i].id == ids[i]);
            assert(tasks[i].depends_on.contains(b));
            let j = choose|j: int| 0 <= j < i && (#[trigger] tasks[j]).id == b;
            assert(ids.take(i)[j] == b);
        }
        assert(is_settled_over(deps, none, ids));
        assert(ids.to_set() =~= ids.to_set().difference(none));
        assert(explored_over(deps, none, ids.to_set()));
        lemma_explored_has_no_cycle(deps, ids.to_set());
    }
    assert forall|i: int| 0 <= i < tasks.len() implies acceptable(#[trigger] tasks[i]) by {
        if tasks[i].depends_on.contains(text::trimmed(tasks[i].id)) {
            assert(text::trimmed(tasks[i].id) != text::trimmed(tasks[i].id));
        }
    }
}

/// A list of tasks is refused if there is none, or if one of them has no id, no prompt, too many
/// retries, no time at all, a custom agent without tools, the id of another, an unknown dependency,
/// or itself as a dependency.
pub proof fn unsound_lists_are_refused(tasks: Seq<SwarmTaskView>, i: int, j: int, dep: Seq<char>)
    requires
        0 <= i < tasks.len(),
        0 <= j < tasks.len(),
        ({
            ||| text::trimmed(tasks[i].id).len() == 0
            ||| text::trimmed(tasks[i].prompt).len() == 0
            ||| tasks[i].retry_count is Some && tasks[i].retry_count->0 > 10
            ||| tasks[i].task_timeout_ms == Some(0u64)
            ||| task::assignment(tasks[i]) is Err
            ||| tasks[i].agent_type == Some(SubAgentType::Custom) && (tasks[i].allowed_tools is None
                || tasks[i].allowed_tools->0.len() == 0)
            ||| i != j && tasks[i].id == tasks[j].id
            ||| tasks[i].depends_on.contains(text::trimmed(tasks[i].id))
            ||| tasks[i].depends_on.contains(dep) && forall|k: int|
                0 <= k < tasks.len() ==> (#[trigger] tasks[k]).id != dep
        }),
    ensures
        validation_error(tasks) is Some,
        validation_error(seq![]) is Some,
{
    validation_accepts_exactly_valid_tasks(tasks);
    let ids = types::task_ids(tasks);
    if valid_tasks(tasks) {
        assert(acceptable(tasks[i]));
        task::refusals_name_the_fault(tasks[i]);
        assert(ids[i] == tasks[i].id && ids[j] == tasks[j].id);
        if tasks[i].depends_on.contains(dep) {
            assert(ids.contains(dep));
            let k = choose|k: int| 0 <= k < ids.len() && ids[k] == dep;
            assert(tasks[k].id == dep);
        }
    }
}

/// Tasks of which each depends on the next, and the last on the first, are refused.
pub proof fn circular_tasks_are_refused(tasks: Seq<SwarmTaskView>, circle: Seq<int>)
    requires
        circle.len() > 0,
        forall|k: int| 0 <= k < circle.len() ==> 0 <= #[trigger] circle[k] < tasks.len(),
        forall|k: int|
            0 <= k < circle.len() - 1 ==> tasks[#[trigger] circle[k]].depends_on.contains(
                tasks[circle[k + 1]].id,
            ),
        tasks[circle.last()].depends_on.contains(tasks[circle[0]].id),
    ensures
        validation_error(tasks) is Some,
{
    validation_accepts_exactly_valid_tasks(tasks);
    if valid_tasks(tasks) {
        let deps = dependency_map(tasks);
        lemma_dependency_map(tasks);
        let path = Seq::new(
            circle.len() + 1,
            |k: int|
                if k < circle.len() {
                    tasks[circle[k]].id
                } else {
                    tasks[circle[0]].id
                },
        );
        assert forall|k: int| 0 <= k < path.len() - 1 implies depends(
            deps,
            #[trigger] path[k],
            path[k + 1],
        ) by {
            let at = circle[k];
            assert(0 <= at < tasks.len());
            assert(path[k] == tasks[at].id);
            if k == circle.len() - 1 {
                assert(circle.last() == at);
            }
            assert(tasks[at].depends_on.contains(path[k + 1]));
        }
        assert(is_cycle(deps, path));
    }
}

/// Of several faults the first task that has one of its own counts, and the refusal names it.
pub proof fn the_first_fault_is_named(tasks: Seq<SwarmTaskView>, i: int)
    requires
        0 <= i < tasks.len(),
        forall|k: int| 0 <= k < i ==> #[trigger] own_error(tasks, k) is None,
        own_error(tasks, i) is Some,
    ensures
        validation_error(tasks) == own_error(tasks, i),
        ({
            let id = text::trimmed(tasks[i].id);
            let refused = |message: Seq<char>|
                validation_error(tasks) == Some(ToolErrorView::InvalidInput { message });
            let no_id = id.len() == 0;
            let no_prompt = text::trimmed(tasks[i].prompt).len() == 0;
            let too_often = tasks[i].retry_count is Some && tasks[i].retry_count->0 > 10;
            let no_time = tasks[i].task_timeout_ms == Some(0u64);
            &&& no_id ==> refused("task id cannot be empty"@)
            &&& !no_id && no_prompt ==> refused("task '"@ + id + "' prompt cannot be empty"@)
            &&& !no_id && !no_prompt && too_often ==> refused(
                "task '"@ + id + ("' retry_count must be <= "@ + text::decimal_text(10)),
            )
            &&& !no_id && !no_prompt && !too_often && no_time ==> refused(
                "task '"@ + id + "' task_timeout_ms must be > 0"@,
            )
        }),
{
    lemma_first_own_error(tasks, 0, i);
}

proof fn lemma_first_own_error(tasks: Seq<SwarmTaskView>, from: int, i: int)
    requires
        0 <= from <= i < tasks.len(),
        forall|k: int| from <= k < i ==> #[trigger] own_error(tasks, k) is None,
        own_error(tasks, i) is Some,
    ensures
        first_own_error(tasks, from) == own_error(tasks, i),
    decreases i - from,
{
    if from < i {
        assert(own_error(tasks, from) is None);
        lemma_first_own_error(tasks, from + 1, i);
    }
}

/// Where a task asks for a custom agent without tools, has the id of an earlier task, or depends on
/// itself, the refusal says so.
pub proof fn later_faults_are_named(tasks: Seq<SwarmTaskView>, i: int)
    requires
        0 <= i < tasks.len(),
        forall|k: int| 0 <= k < i ==> #[trigger] own_error(tasks, k) is None,
        text::trimmed(tasks[i].id).len() > 0,
        text::trimmed(tasks[i].prompt).len() > 0,
        tasks[i].retry_count is None || tasks[i].retry_count->0 <= 10,
        tasks[i].task_timeout_ms != Some(0u64),
        task::assignment(tasks[i]) is Ok,
    ensures
        ({
            let id = text::trimmed(tasks[i].id);
            let refused = |message: Seq<char>|
                validation_error(tasks) == Some(ToolErrorView::InvalidInput { message });
            let no_tools = task::assignment(tasks[i])->Ok_0.agent_type == SubAgentType::Custom && (
            tasks[i].allowed_tools is None || tasks[i].allowed_tools->0.len() == 0);
            let twice = exists|k: int| 0 <= k < i && (#[trigger] tasks[k]).id == tasks[i].id;
            let on_itself = tasks[i].depends_on.contains(id);
            &&& no_tools ==> refused("task '"@ + id + "' requires allowed_tools for custom type"@)
            &&& !no_tools && twice ==> refused("duplicate task id '"@ + id + "'"@)
            &&& !no_tools && !twice && on_itself ==> refused(
                "task '"@ + id + "' cannot depend on itself"@,
            )
            &&& !no_tools && !twice && !on_itself ==> own_error(tasks, i) is None
        }),
{
    let ids = types::task_ids(tasks);
    if own_error(tasks, i) is Some {
        lemma_first_own_error(tasks, 0, i);
    }
    if exists|k: int| 0 <= k < i && (#[trigger] tasks[k]).id == tasks[i].id {
        let k = choose|k: int| 0 <= k < i && (#[trigger] tasks[k]).id == tasks[i].id;
        assert(ids.take(i)[k] == tasks[i].id);
    } else if ids.take(i).contains(tasks[i].id) {
        let k = choose|k: int| 0 <= k < i && ids.take(i)[k] == tasks[i].id;
        assert(tasks[k].id == tasks[i].id);
    }
}

/// Where no task has a fault of its own, the first dependency that is no task is named, and else a
/// circle of dependencies.
pub proof fn faults_between_tasks_are_named(tasks: Seq<SwarmTaskView>, i: int, j: int)
    requires
        tasks.len() > 0,
        forall|k: int| 0 <= k < tasks.len() ==> #[trigger] own_error(tasks, k) is None,
    ensures
        0 <= i < tasks.len() && 0 <= j < tasks[i].depends_on.len() && !types::task_ids(
            tasks,
        ).contains(tasks[i].depends_on[j]) && (forall|k: int, dep: Seq<char>|
            0 <= k < i && #[trigger] tasks[k].depends_on.contains(dep) ==> types::task_ids(
                tasks,
            ).contains(dep)) && (forall|k: int|
            0 <= k < j ==> types::task_ids(tasks).contains(#[trigger] tasks[i].depends_on[k]))
            ==> validation_error(tasks) == Some(
            ToolErrorView::InvalidInput {
                message: "task '"@ + tasks[i].id + ("' depends on unknown task '"@
                    + tasks[i].depends_on[j] + "'"@),
            },
        ),
        (forall|k: int, dep: Seq<char>|
            0 <= k < tasks.len() && #[trigger] tasks[k].depends_on.contains(dep)
                ==> types::task_ids(tasks).contains(dep)) && has_cycle(dependency_map(tasks))
            ==> validation_error(tasks) == Some(
            ToolErrorView::InvalidInput { message: "task dependencies contain a cycle"@ },
        ),
        validation_error(seq![]) == Some(
            ToolErrorView::InvalidInput { message: "tasks cannot be empty"@ },
        ),
{
    lemma_own_errors(tasks, 0);
    lemma_unknown_errors(tasks, 0);
    if 0 <= i < tasks.len() && 0 <= j < tasks[i].depends_on.len() && !types::task_ids(
        tasks,
    ).contains(tasks[i].depends_on[j]) && (forall|k: int, dep: Seq<char>|
        0 <= k < i && #[trigger] tasks[k].depends_on.contains(dep) ==> types::task_ids(
            tasks,
        ).contains(dep)) && (forall|k: int|
        0 <= k < j ==> types::task_ids(tasks).contains(#[trigger] tasks[i].depends_on[k])) {
        lemma_first_unknown_at(tasks[i].depends_on, types::task_ids(tasks), 0, j);
        lemma_unknown_error_at(tasks, 0, i);
    }
}

proof fn lemma_first_unknown_at(list: Seq<Seq<char>>, ids: Seq<Seq<char>>, from: int, j: int)
    requires
        0 <= from <= j < list.len(),
        !ids.contains(list[j]),
        forall|k: int| from <= k < j ==> ids.contains(#[trigger] list[k]),
    ensures
        first_unknown(list, ids, from) == Some(list[j]),
    decreases j - from,
{
    if from < j {
        lemma_first_unknown_at(list, ids, from + 1, j);
    }
}

proof fn lemma_unknown_error_at(tasks: Seq<SwarmTaskView>, from: int, i: int)
    requires
        0 <= from <= i < tasks.len(),
        first_unknown(tasks[i].depends_on, types::task_ids(tasks), 0) is Some,
        forall|k: int, dep: Seq<char>|
            from <= k < i && #[trigger] tasks[k].depends_on.contains(dep) ==> types::task_ids(
                tasks,
            ).contains(dep),
    ensures
        first_unknown_error(tasks, from) == first_unknown_error(tasks, i),
    decreases i - from,
{
    if from < i {
        lemma_first_unknown(tasks[from].depends_on, types::task_ids(tasks), 0);
        assert forall|k: int| 0 <= k < tasks[from].depends_on.len() implies types::task_ids(
            tasks,
        ).contains(#[trigger] tasks[from].depends_on[k]) by {
            assert(tasks[from].depends_on.contains(tasks[from].depends_on[k]));
        }
        lemma_unknown_error_at(tasks, from + 1, i);
    }
}

} // verus!
