//! The prefixes that the packages of a type may depend on: those of every
//! type that the type includes, directly or through other types.

use crate::config::Config;
use crate::config::PackageType;
use crate::config::PackageTypeView;
use crate::text::contains_text;
use crate::text::once;
use crate::text::views;
use vstd::prelude::*;

verus! {

/// Whether the type at `from` includes the type at `to` by its name.
pub open spec fn includes_type(types: Seq<PackageTypeView>, from: int, to: int) -> bool {
    types[from].includes.contains(types[to].name)
}

/// Whether `route` is a chain of types that starts at a type that `start`
/// names and in which each type includes the next.
pub open spec fn is_route(types: Seq<PackageTypeView>, start: Seq<Seq<char>>, route: Seq<int>) -> bool {
    &&& route.len() > 0
    &&& forall|k: int| 0 <= k < route.len() ==> 0 <= #[trigger] route[k] < types.len()
    &&& start.contains(types[route[0]].name)
    &&& forall|k: int|
        0 <= k < route.len() - 1 ==> includes_type(types, #[trigger] route[k], route[k + 1])
}

/// Whether the type at `at` is reached from the names `start`: one of them
/// names it, or a type that is reached includes it.
pub open spec fn reached(types: Seq<PackageTypeView>, start: Seq<Seq<char>>, at: int) -> bool {
    exists|route: Seq<int>| #[trigger] is_route(types, start, route) && route.last() == at
}

/// Whether `prefix` is a prefix of a type that is reached from the names
/// `start`.
pub open spec fn allowed_prefix(
    types: Seq<PackageTypeView>,
    start: Seq<Seq<char>>,
    prefix: Seq<char>,
) -> bool {
    exists|at: int| reached(types, start, at) && (#[trigger] types[at]).prefixes.contains(prefix)
}

/// The prefixes of the types among the first `upto` that are reached from the
/// names `start`, type by type.
pub open spec fn reached_prefixes(
    types: Seq<PackageTypeView>,
    start: Seq<Seq<char>>,
    upto: int,
) -> Seq<Seq<char>>
    decreases upto,
{
    if upto <= 0 {
        Seq::empty()
    } else {
        reached_prefixes(types, start, upto - 1) + if reached(types, start, upto - 1) {
            types[upto - 1].prefixes
        } else {
            Seq::empty()
        }
    }
}

/// The prefixes that are allowed from the names `start`, in the order of the
/// types and of their prefixes, each once.
pub open spec fn closure(types: Seq<PackageTypeView>, start: Seq<Seq<char>>) -> Seq<Seq<char>> {
    once(reached_prefixes(types, start, types.len() as int))
}

/// How many of `marks` are not set.
pub open spec fn unmarked(marks: Seq<bool>) -> nat
    decreases marks.len(),
{
    if marks.len() == 0 {
        0
    } else {
        unmarked(marks.drop_last()) + if marks.last() {
            0nat
        } else {
            1nat
        }
    }
}

/// Setting one more mark leaves one fewer unset.
pub proof fn lemma_mark(marks: Seq<bool>, at: int)
    requires
        0 <= at < marks.len(),
        !marks[at],
    ensures
        unmarked(marks.update(at, true)) + 1 == unmarked(marks),
    decreases marks.len(),
{
    let after = marks.update(at, true);
    if at == marks.len() - 1 {
        assert(after.drop_last() =~= marks.drop_last());
    } else {
        assert(after.drop_last() =~= marks.drop_last().update(at, true));
        lemma_mark(marks.drop_last(), at);
    }
}

/// A type that `start` names is reached.
pub proof fn lemma_reached_start(types: Seq<PackageTypeView>, start: Seq<Seq<char>>, at: int)
    requires
        0 <= at < types.len(),
        start.contains(types[at].name),
    ensures
        reached(types, start, at),
{
    assert(is_route(types, start, seq![at]));
}

/// A type that a reached type includes is reached.
pub proof fn lemma_reached_step(
    types: Seq<PackageTypeView>,
    start: Seq<Seq<char>>,
    via: int,
    at: int,
)
    requires
        reached(types, start, via),
        0 <= at < types.len(),
        includes_type(types, via, at),
    ensures
        reached(types, start, at),
{
    let route = choose|route: Seq<int>|
        #[trigger] is_route(types, start, route) && route.last() == via;
    let longer = route.push(at);
    assert forall|k: int| 0 <= k < longer.len() - 1 implies includes_type(
        types,
        #[trigger] longer[k],
        longer[k + 1],
    ) by {
        if k < route.len() - 1 {
            assert(longer[k] == route[k] && longer[k + 1] == route[k + 1]);
        }
    }
    assert(longer[0] == route[0]);
    assert(is_route(types, start, longer));
    assert(longer.last() == at);
}

/// A type is reached only in one of these two ways: `start` names it, or a
/// type that is reached includes it.
pub proof fn lemma_reached_cases(types: Seq<PackageTypeView>, start: Seq<Seq<char>>, at: int)
    requires
        reached(types, start, at),
    ensures
        0 <= at < types.len(),
        start.contains(types[at].name) || exists|via: int|
            #[trigger] reached(types, start, via) && includes_type(types, via, at),
{
    let route = choose|route: Seq<int>|
        #[trigger] is_route(types, start, route) && route.last() == at;
    assert(route[route.len() - 1] == at);
    if route.len() > 1 {
        let shorter = route.drop_last();
        assert(shorter[0] == route[0]);
        assert forall|k: int| 0 <= k < shorter.len() - 1 implies includes_type(
            types,
            #[trigger] shorter[k],
            shorter[k + 1],
        ) by {
            assert(shorter[k] == route[k] && shorter[k + 1] == route[k + 1]);
        }
        assert forall|k: int| 0 <= k < shorter.len() implies 0 <= #[trigger] shorter[k]
            < types.len() by {
            assert(shorter[k] == route[k]);
        }
        assert(is_route(types, start, shorter));
        let via = shorter.last();
        assert(via == route[route.len() - 2]);
        assert(includes_type(types, route[route.len() - 2], route[route.len() - 2 + 1]));
        assert(reached(types, start, via) && includes_type(types, via, at));
    }
}

/// A type that includes itself may depend on packages of its own prefixes.
pub proof fn lemma_own_prefixes(types: Seq<PackageTypeView>, at: int, prefix: Seq<char>)
    requires
        0 <= at < types.len(),
        types[at].includes.contains(types[at].name),
        types[at].prefixes.contains(prefix),
    ensures
        allowed_prefix(types, types[at].includes, prefix),
{
    lemma_reached_start(types, types[at].includes, at);
}

/// Marks that hold every type that `start` names, and with a marked type
/// every type that it includes, hold every type of a route, up to any point
/// of it.
pub proof fn lemma_closed_marks(
    types: Seq<PackageTypeView>,
    start: Seq<Seq<char>>,
    marks: Seq<bool>,
    route: Seq<int>,
    upto: int,
)
    requires
        marks.len() == types.len(),
        forall|j: int| 0 <= j < types.len() && start.contains(types[j].name) ==> marks[j],
        forall|i: int, j: int|
            0 <= i < types.len() && 0 <= j < types.len() && marks[i] && includes_type(types, i, j)
                ==> marks[j],
        is_route(types, start, route),
        0 <= upto < route.len(),
    ensures
        marks[route[upto]],
    decreases upto,
{
    if upto > 0 {
        lemma_closed_marks(types, start, marks, route, upto - 1);
        assert(includes_type(types, route[upto - 1], route[upto - 1 + 1]));
    }
}

/// The prefixes that a package of the type `pkg_type` may depend on under the
/// policy of `config`: each prefix of each type that `pkg_type` includes,
/// directly or through the includes of other types, once.
///
/// The type's own prefixes are among them only where the type is reached in
/// this way, as it is when it includes itself. Includes that form a cycle are
/// followed once.
pub fn valid_include_prefixes(pkg_type: &PackageType, config: &Config) -> (prefixes: Vec<String>)
    ensures
        views(prefixes@) == closure(config@.package_types, pkg_type@.includes),
        forall|prefix: Seq<char>|
            views(prefixes@).contains(prefix) <==> allowed_prefix(
                config@.package_types,
                pkg_type@.includes,
                prefix,
            ),
        views(prefixes@).no_duplicates(),
{
    let types = &config.package_types;
    let n = types.len();
    let ghost all = config@.package_types;
    let ghost start = pkg_type@.includes;
    let mut marks: Vec<bool> = Vec::new();
    let mut j: usize = 0;
    while j < n
        invariant
            j <= n,
            n == types@.len(),
            types == &config.package_types,
            all == config@.package_types,
            start == pkg_type@.includes,
            marks@.len() == j,
            forall|k: int| 0 <= k < j ==> marks@[k] == start.contains(all[k].name),
        decreases n - j,
    {
        let named = contains_text(&pkg_type.includes, types[j].name.as_str());
        marks.push(named);
        j += 1;
    }
    proof {
        assert forall|k: int| 0 <= k < n && marks@[k] implies reached(all, start, k) by {
            lemma_reached_start(all, start, k);
        }
    }
    let mut changed = true;
    while changed
        invariant
            n == types@.len(),
            types == &config.package_types,
            all == config@.package_types,
            start == pkg_type@.includes,
            marks@.len() == n,
            forall|k: int| 0 <= k < n && marks@[k] ==> reached(all, start, k),
            forall|k: int| 0 <= k < n && start.contains(all[k].name) ==> marks@[k],
            !changed ==> forall|a: int, b: int|
                0 <= a < n && 0 <= b < n && marks@[a] && includes_type(all, a, b) ==> marks@[b],
        decreases unmarked(marks@) + if changed { 1nat } else { 0nat },
    {
        changed = false;
        let ghost before = marks@;
        let mut i: usize = 0;
        while i < n
            invariant
                i <= n,
                n == types@.len(),
                types == &config.package_types,
                all == config@.package_types,
                start == pkg_type@.includes,
                marks@.len() == n,
                before.len() == n,
                forall|k: int| 0 <= k < n && marks@[k] ==> reached(all, start, k),
                forall|k: int| 0 <= k < n && start.contains(all[k].name) ==> marks@[k],
                !changed ==> marks@ == before,
                changed ==> unmarked(marks@) < unmarked(before),
                !changed ==> forall|a: int, b: int|
                    0 <= a < i && 0 <= b < n && marks@[a] && includes_type(all, a, b) ==> marks@[b],
            decreases n - i,
        {
            if marks[i] {
                let mut j: usize = 0;
                while j < n
                    invariant
                        j <= n,
                        i < n,
                        n == types@.len(),
                        types == &config.package_types,
                        all == config@.package_types,
                        start == pkg_type@.includes,
                        marks@.len() == n,
                        before.len() == n,
                        marks@[i as int],
                        forall|k: int| 0 <= k < n && marks@[k] ==> reached(all, start, k),
                        forall|k: int| 0 <= k < n && start.contains(all[k].name) ==> marks@[k],
                        !changed ==> marks@ == before,
                        changed ==> unmarked(marks@) < unmarked(before),
                        !changed ==> forall|a: int, b: int|
                            0 <= a < i && 0 <= b < n && marks@[a] && includes_type(all, a, b)
                                ==> marks@[b],
                        !changed ==> forall|b: int|
                            0 <= b < j && includes_type(all, i as int, b) ==> marks@[b],
                    decreases n - j,
                {
                    if !marks[j] && contains_text(&types[i].includes, types[j].name.as_str()) {
                        proof {
                            lemma_mark(marks@, j as int);
                            lemma_reached_step(all, start, i as int, j as int);
                        }
                        marks.set(j, true);
                        changed = true;
                    }
                    j += 1;
                }
            }
            i += 1;
        }
    }
    proof {
        assert forall|k: int| reached(all, start, k) implies 0 <= k < n && marks@[k] by {
            let route = choose|route: Seq<int>|
                #[trigger] is_route(all, start, route) && route.last() == k;
            lemma_closed_marks(all, start, marks@, route, route.len() - 1);
        }
    }
    let mut prefixes: Vec<String> = Vec::new();
    let mut i: usize = 0;
    assert(views(prefixes@) =~= once(reached_prefixes(all, start, 0)));
    while i < n
        invariant
            i <= n,
            n == types@.len(),
            types == &config.package_types,
            all == config@.package_types,
            marks@.len() == n,
            forall|k: int| 0 <= k < n ==> marks@[k] == reached(all, start, k),
            views(prefixes@) == once(reached_prefixes(all, start, i as int)),
            views(prefixes@).no_duplicates(),
            forall|p: Seq<char>|
                views(prefixes@).contains(p) <==> exists|k: int|
                    0 <= k < i && marks@[k] && (#[trigger] all[k]).prefixes.contains(p),
        decreases n - i,
    {
        let ghost earlier = reached_prefixes(all, start, i as int);
        if marks[i] {
            let own = &types[i].prefixes;
            let mut k: usize = 0;
            assert(earlier + views(own@).take(0) =~= earlier);
            while k < own.len()
                invariant
                    k <= own.len(),
                    i < n,
                    earlier == reached_prefixes(all, start, i as int),
                    views(prefixes@) == once(earlier + views(own@).take(k as int)),
                    n == types@.len(),
                    types == &config.package_types,
                    all == config@.package_types,
                    own == &types@[i as int].prefixes,
                    marks@.len() == n,
                    marks@[i as int],
                    views(prefixes@).no_duplicates(),
                    forall|p: Seq<char>|
                        views(prefixes@).contains(p) <==> (exists|m: int|
                            0 <= m < i && marks@[m] && (#[trigger] all[m]).prefixes.contains(p))
                            || (exists|m: int| 0 <= m < k && #[trigger] views(own@)[m] == p),
                decreases own.len() - k,
            {
                let ghost before = views(prefixes@);
                let ghost item = own@[k as int]@;
                if !contains_text(&prefixes, own[k].as_str()) {
                    prefixes.push(own[k].clone());
                    proof {
                        assert(views(prefixes@) =~= before.push(item));
                        assert forall|p: Seq<char>| views(prefixes@).contains(p) <==> (
                            before.contains(p) || p == item) by {
                            if views(prefixes@).contains(p) {
                                let m = choose|m: int|
                                    0 <= m < views(prefixes@).len() && views(prefixes@)[m] == p;
                                if m < before.len() {
                                    assert(before[m] == p);
                                }
                            }
                            if before.contains(p) {
                                let m = choose|m: int| 0 <= m < before.len() && before[m] == p;
                                assert(views(prefixes@)[m] == p);
                            }
                            if p == item {
                                assert(views(prefixes@)[before.len() as int] == p);
                            }
                        }
                    }
                }
                proof {
                    let now = views(prefixes@);
                    assert(views(own@)[k as int] == item);
                    let longer = earlier + views(own@).take(k + 1);
                    assert(longer.drop_last() =~= earlier + views(own@).take(k as int));
                    assert(longer.last() == item);
                    assert(now == once(longer));
                    assert forall|p: Seq<char>| now.contains(p) <==> (before.contains(p) || p
                        == item) by {
                        if now == before {
                            assert(before.contains(item));
                        }
                    }
                    assert forall|p: Seq<char>|
                        now.contains(p) <==> (exists|m: int|
                            0 <= m < i && marks@[m] && (#[trigger] all[m]).prefixes.contains(p))
                            || (exists|m: int| 0 <= m < k + 1 && #[trigger] views(own@)[m] == p) by {
                        let earlier = exists|m: int|
                            0 <= m < i && marks@[m] && (#[trigger] all[m]).prefixes.contains(p);
                        let own_before = exists|m: int| 0 <= m < k && #[trigger] views(own@)[m] == p;
                        let own_now = exists|m: int|
                            0 <= m < k + 1 && #[trigger] views(own@)[m] == p;
                        assert(before.contains(p) <==> (earlier || own_before));
                        if own_before {
                            let m = choose|m: int| 0 <= m < k && #[trigger] views(own@)[m] == p;
                            assert(0 <= m < k + 1 && views(own@)[m] == p);
                        }
                        if p == item {
                            assert(0 <= k < k + 1 && views(own@)[k as int] == p);
                        }
                        if own_now {
                            let m = choose|m: int| 0 <= m < k + 1 && #[trigger] views(own@)[m] == p;
                            if m < k {
                                assert(own_before);
                            } else {
                                assert(p == item);
                            }
                        }
                    }
                }
                k += 1;
            }
            proof {
                assert(views(own@).take(own@.len() as int) =~= views(own@));
                assert(all[i as int].prefixes == views(own@));
                assert forall|p: Seq<char>|
                    views(prefixes@).contains(p) <==> exists|m: int|
                        0 <= m < i + 1 && marks@[m] && (#[trigger] all[m]).prefixes.contains(p) by {
                    if exists|m: int| 0 <= m < own@.len() && #[trigger] views(own@)[m] == p {
                        assert(all[i as int].prefixes.contains(p));
                    }
                    if exists|m: int|
                        0 <= m < i + 1 && marks@[m] && (#[trigger] all[m]).prefixes.contains(p) {
                        let m = choose|m: int|
                            0 <= m < i + 1 && marks@[m] && (#[trigger] all[m]).prefixes.contains(p);
                        if m == i {
                            let q = choose|q: int| 0 <= q < views(own@).len() && views(own@)[q] == p;
                            assert(views(own@)[q] == p);
                        }
                    }
                }
            }
        } else {
            assert(reached_prefixes(all, start, i + 1) =~= earlier);
        }
        i += 1;
    }
    proof {
        assert forall|prefix: Seq<char>|
            views(prefixes@).contains(prefix) <==> allowed_prefix(all, start, prefix) by {
            if views(prefixes@).contains(prefix) {
                let k = choose|k: int|
                    0 <= k < n && marks@[k] && (#[trigger] all[k]).prefixes.contains(prefix);
                assert(reached(all, start, k));
            }
            if allowed_prefix(all, start, prefix) {
                let at = choose|at: int|
                    reached(all, start, at) && (#[trigger] all[at]).prefixes.contains(prefix);
                assert(0 <= at < n && marks@[at]);
            }
        }
    }
    prefixes
}

} // verus!
