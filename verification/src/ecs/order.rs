//! Why the systems of a stage may run side by side: every order of running
//! them that keeps conflicting systems in the order of their registration
//! leaves the same store, with the same commands recorded by each system.

use vstd::prelude::*;
use crate::ecs::command::CommandView;
use crate::ecs::independence::{lemma_independent_systems_commute, lemma_run_system_frame};
use crate::ecs::model::{
    batch_of,
    declarations,
    dispatch,
    lemma_conflicting_systems_are_ordered,
    run_system,
    Store,
};
use crate::ecs::system::System;

verus! {

/// The store after the systems at the places `order[0]` to `order[m - 1]`
/// have run, one after the other.
pub open spec fn run_in_order<S: System>(
    systems: Seq<S>,
    order: Seq<int>,
    store: Store<S::Component, S::Resource>,
    m: int,
) -> Store<S::Component, S::Resource>
    decreases m,
{
    if m <= 0 {
        store
    } else {
        run_system(systems[order[m - 1]], run_in_order(systems, order, store, m - 1)).store
    }
}

/// The commands that the system whose turn is number `p` records.
pub open spec fn recorded_in_order<S: System>(
    systems: Seq<S>,
    order: Seq<int>,
    store: Store<S::Component, S::Resource>,
    p: int,
) -> Seq<CommandView<S::Component>> {
    run_system(systems[order[p]], run_in_order(systems, order, store, p)).commands
}

/// The commands that the system at place `i` records when the systems run
/// in the order of their registration.
pub open spec fn recorded<S: System>(
    systems: Seq<S>,
    store: Store<S::Component, S::Resource>,
    i: int,
) -> Seq<CommandView<S::Component>> {
    run_system(systems[i], dispatch(systems, store, i).store).commands
}

/// `order` names each of the first `n` places once.
pub open spec fn is_order(order: Seq<int>, n: int) -> bool {
    &&& order.len() == n
    &&& order.no_duplicates()
    &&& forall|p: int| 0 <= p < n ==> 0 <= #[trigger] order[p] < n
    &&& forall|i: int| 0 <= i < n ==> order.contains(i)
}

/// Of two systems that conflict, `order` gives the first turn to the one
/// that was registered first.
pub open spec fn respects_conflicts<S: System>(systems: Seq<S>, order: Seq<int>) -> bool {
    forall|p: int, q: int|
        #![trigger order[p], order[q]]
        0 <= p < q < order.len() && systems[order[p]].declared().conflicts(
            systems[order[q]].declared(),
        ) ==> order[p] < order[q]
}

/// What has run depends on the turns taken so far only.
pub proof fn lemma_run_in_order_prefix<S: System>(
    systems: Seq<S>,
    a: Seq<int>,
    b: Seq<int>,
    store: Store<S::Component, S::Resource>,
    m: int,
)
    requires
        m <= a.len(),
        m <= b.len(),
        forall|p: int| 0 <= p < m ==> a[p] == b[p],
    ensures
        run_in_order(systems, a, store, m) == run_in_order(systems, b, store, m),
    decreases m,
{
    if m > 0 {
        lemma_run_in_order_prefix(systems, a, b, store, m - 1);
    }
}

/// To run one list of turns after another is to run the second on what the
/// first leaves.
pub proof fn lemma_run_in_order_concat<S: System>(
    systems: Seq<S>,
    a: Seq<int>,
    b: Seq<int>,
    store: Store<S::Component, S::Resource>,
    m: int,
)
    requires
        0 <= m <= b.len(),
    ensures
        run_in_order(systems, a + b, store, a.len() + m) == run_in_order(
            systems,
            b,
            run_in_order(systems, a, store, a.len() as int),
            m,
        ),
    decreases m,
{
    if m > 0 {
        lemma_run_in_order_concat(systems, a, b, store, m - 1);
        assert((a + b)[a.len() + m - 1] == b[m - 1]);
    } else {
        lemma_run_in_order_prefix(systems, a + b, a, store, a.len() as int);
    }
}

/// While systems run, the slots of the world stay countable.
pub proof fn lemma_run_in_order_bounded<S: System>(
    systems: Seq<S>,
    order: Seq<int>,
    store: Store<S::Component, S::Resource>,
    m: int,
)
    requires
        store.world.bounded(),
    ensures
        run_in_order(systems, order, store, m).world.bounded(),
    decreases m,
{
    if m > 0 {
        lemma_run_in_order_bounded(systems, order, store, m - 1);
        lemma_run_system_frame(systems[order[m - 1]], run_in_order(systems, order, store, m - 1));
    }
}

/// To run the systems in the order of their places is to dispatch them.
pub proof fn lemma_registration_order<S: System>(
    systems: Seq<S>,
    order: Seq<int>,
    store: Store<S::Component, S::Resource>,
    m: int,
)
    requires
        m <= order.len(),
        forall|p: int| 0 <= p < m ==> order[p] == p,
    ensures
        run_in_order(systems, order, store, m) == dispatch(systems, store, m).store,
    decreases m,
{
    if m > 0 {
        lemma_registration_order(systems, order, store, m - 1);
    }
}

/// A system that conflicts with none of the systems of `turns` may as well
/// run behind them as before them: the store that is left is the same, each
/// system of `turns` records the same commands, and so does the system
/// itself.
pub proof fn lemma_move_behind<S: System>(
    systems: Seq<S>,
    x: int,
    turns: Seq<int>,
    store: Store<S::Component, S::Resource>,
    m: int,
)
    requires
        store.world.bounded(),
        0 <= m <= turns.len(),
        forall|k: int|
            0 <= k < turns.len() ==> !systems[x].declared().conflicts(
                systems[#[trigger] turns[k]].declared(),
            ),
    ensures
        run_in_order(systems, seq![x] + turns, store, m + 1) == run_system(
            systems[x],
            run_in_order(systems, turns, store, m),
        ).store,
        run_system(systems[x], run_in_order(systems, turns, store, m)).commands == run_system(
            systems[x],
            store,
        ).commands,
        forall|k: int|
            0 <= k < m ==> recorded_in_order(systems, seq![x] + turns, store, k + 1)
                == recorded_in_order(systems, turns, store, k),
    decreases m,
{
    let shifted = seq![x] + turns;
    if m > 0 {
        lemma_move_behind(systems, x, turns, store, m - 1);
        let before = run_in_order(systems, turns, store, m - 1);
        lemma_run_in_order_bounded(systems, turns, store, m - 1);
        assert(shifted[m] == turns[m - 1]);
        assert(!systems[x].declared().conflicts(systems[turns[m - 1]].declared()));
        lemma_independent_systems_commute(systems[x], systems[turns[m - 1]], before);
        assert(run_in_order(systems, shifted, store, m) == run_system(systems[x], before).store);
        assert(run_in_order(systems, shifted, store, m + 1) == run_system(
            systems[shifted[m]],
            run_in_order(systems, shifted, store, m),
        ).store);
        assert(run_in_order(systems, turns, store, m) == run_system(
            systems[turns[m - 1]],
            before,
        ).store);
        assert forall|k: int| 0 <= k < m implies recorded_in_order(systems, shifted, store, k + 1)
            == recorded_in_order(systems, turns, store, k) by {
            assert(shifted[k + 1] == turns[k]);
        }
    } else {
        assert(shifted[0] == x);
        assert(run_in_order(systems, shifted, store, 0) == store);
        assert(run_in_order(systems, shifted, store, 1) == run_system(
            systems[shifted[0]],
            run_in_order(systems, shifted, store, 0),
        ).store);
    }
}

/// An order without the turn of the system that was registered last is an
/// order of the systems before it, and respects their conflicts as the whole
/// order did.
proof fn lemma_without_last<S: System>(systems: Seq<S>, order: Seq<int>, n: int, turn: int)
    requires
        0 < n <= systems.len(),
        is_order(order, n),
        respects_conflicts(systems, order),
        0 <= turn < n,
        order[turn] == n - 1,
    ensures
        is_order(order.take(turn) + order.skip(turn + 1), n - 1),
        respects_conflicts(systems, order.take(turn) + order.skip(turn + 1)),
        forall|k: int|
            0 <= k < n - 1 - turn ==> !systems[n - 1].declared().conflicts(
                systems[#[trigger] order.skip(turn + 1)[k]].declared(),
            ),
{
    let rest = order.take(turn) + order.skip(turn + 1);
    assert forall|a: int| 0 <= a < n - 1 implies #[trigger] rest[a] == order[if a < turn {
        a
    } else {
        a + 1
    }] by {}
    assert forall|a: int, b: int| 0 <= a < rest.len() && 0 <= b < rest.len() && a != b implies
        rest[a] != rest[b] by {
        let a0 = if a < turn { a } else { a + 1 };
        let b0 = if b < turn { b } else { b + 1 };
        assert(rest[a] == order[a0] && rest[b] == order[b0]);
        assert(order[a0] != order[b0]);
    }
    assert forall|a: int| 0 <= a < n - 1 implies 0 <= #[trigger] rest[a] < n - 1 by {
        let a0 = if a < turn { a } else { a + 1 };
        assert(rest[a] == order[a0]);
        assert(order[a0] != order[turn]);
    }
    assert forall|i: int| 0 <= i < n - 1 implies rest.contains(i) by {
        assert(order.contains(i));
        let q = choose|q: int| 0 <= q < order.len() && order[q] == i;
        if q < turn {
            assert(rest[q] == i);
        } else {
            assert(rest[q - 1] == i);
        }
    }
    assert forall|a: int, b: int|
        #![trigger rest[a], rest[b]]
        0 <= a < b < rest.len() && systems[rest[a]].declared().conflicts(
            systems[rest[b]].declared(),
        ) implies rest[a] < rest[b] by {
        let a0 = if a < turn { a } else { a + 1 };
        let b0 = if b < turn { b } else { b + 1 };
        assert(rest[a] == order[a0] && rest[b] == order[b0]);
    }
    assert forall|k: int| 0 <= k < n - 1 - turn implies !systems[n - 1].declared().conflicts(
        systems[#[trigger] order.skip(turn + 1)[k]].declared(),
    ) by {
        assert(order.skip(turn + 1)[k] == order[turn + 1 + k]);
        if systems[order[turn]].declared().conflicts(systems[order[turn + 1 + k]].declared()) {
            assert(order[turn] < order[turn + 1 + k]);
        }
    }
}

/// The order in which the systems of a stage run does not matter as long as
/// conflicting systems run in the order of their registration: every such
/// order leaves the store that the order of registration leaves, and in
/// every such order each system records the commands that it records in the
/// order of registration.
pub proof fn lemma_order_does_not_matter<S: System>(
    systems: Seq<S>,
    order: Seq<int>,
    store: Store<S::Component, S::Resource>,
    n: int,
)
    requires
        store.world.bounded(),
        0 <= n <= systems.len(),
        is_order(order, n),
        respects_conflicts(systems, order),
    ensures
        run_in_order(systems, order, store, n) == dispatch(systems, store, n).store,
        forall|p: int|
            0 <= p < n ==> #[trigger] recorded_in_order(systems, order, store, p) == recorded(
                systems,
                store,
                order[p],
            ),
    decreases n,
{
    if n > 0 {
        let x = n - 1;
        assert(order.contains(x));
        let turn = choose|p: int| 0 <= p < order.len() && order[p] == x;
        let before = order.take(turn);
        let behind = order.skip(turn + 1);
        let rest = before + behind;
        let moved = seq![x] + behind;
        lemma_without_last(systems, order, n, turn);
        lemma_order_does_not_matter(systems, rest, store, n - 1);
        let base = run_in_order(systems, before, store, turn);
        assert(order =~= before + moved);
        lemma_run_in_order_bounded(systems, before, store, turn);
        lemma_move_behind(systems, x, behind, base, behind.len() as int);
        lemma_run_in_order_concat(systems, before, moved, store, behind.len() as int + 1);
        lemma_run_in_order_concat(systems, before, behind, store, behind.len() as int);
        let others = run_in_order(systems, behind, base, behind.len() as int);
        assert(others == dispatch(systems, store, n - 1).store);
        assert(run_in_order(systems, order, store, n) == run_system(systems[x], others).store);
        assert forall|p: int| 0 <= p < n implies #[trigger] recorded_in_order(
            systems,
            order,
            store,
            p,
        ) == recorded(systems, store, order[p]) by {
            if p < turn {
                lemma_run_in_order_prefix(systems, order, rest, store, p);
                assert(order[p] == rest[p]);
                assert(recorded_in_order(systems, rest, store, p) == recorded(
                    systems,
                    store,
                    rest[p],
                ));
            } else if p == turn {
                lemma_run_in_order_prefix(systems, order, before, store, turn);
            } else {
                let k = p - turn - 1;
                lemma_run_in_order_concat(systems, before, moved, store, k + 1);
                lemma_run_in_order_concat(systems, before, behind, store, k);
                assert(order[p] == behind[k]);
                assert(moved[k + 1] == behind[k]);
                assert(rest[turn + k] == behind[k]);
                assert(recorded_in_order(systems, moved, base, k + 1) == recorded_in_order(
                    systems,
                    behind,
                    base,
                    k,
                ));
                assert(recorded_in_order(systems, rest, store, turn + k) == recorded(
                    systems,
                    store,
                    rest[turn + k],
                ));
            }
        }
    }
}

/// The batches of a plan can run one after the other, the systems of each
/// batch in any order or side by side: an order that never gives a system
/// its turn before a system of an earlier batch respects the conflicts.
pub proof fn lemma_batches_respect_conflicts<S: System>(systems: Seq<S>, order: Seq<int>)
    requires
        is_order(order, systems.len() as int),
        forall|p: int, q: int|
            #![trigger order[p], order[q]]
            0 <= p < q < order.len() ==> batch_of(declarations(systems), order[p]) <= batch_of(
                declarations(systems),
                order[q],
            ),
    ensures
        respects_conflicts(systems, order),
{
    let accesses = declarations(systems);
    assert forall|p: int, q: int|
        #![trigger order[p], order[q]]
        0 <= p < q < order.len() && systems[order[p]].declared().conflicts(
            systems[order[q]].declared(),
        ) implies order[p] < order[q] by {
        assert(order[p] != order[q]);
        if order[p] > order[q] {
            assert(accesses[order[q]] == systems[order[q]].declared());
            assert(accesses[order[p]] == systems[order[p]].declared());
            assert(accesses[order[q]].conflicts(accesses[order[p]]));
            lemma_conflicting_systems_are_ordered(accesses, order[q], order[p]);
        }
    }
}

} // verus!
