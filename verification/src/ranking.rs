//! Ranking of groups by their number of files, largest first. Groups with
//! the same number of files keep the order in which they came.

use vstd::prelude::*;
use crate::owners::{group_views, OwnerGroup, OwnerGroupView};

verus! {

/// The predicate "has `amount` files".
pub open spec fn has_amount(amount: nat) -> spec_fn(OwnerGroupView) -> bool {
    |group: OwnerGroupView| group.amount == amount
}

/// The groups among `groups` that have `amount` files, in their order.
pub open spec fn with_amount(groups: Seq<OwnerGroupView>, amount: nat) -> Seq<OwnerGroupView> {
    groups.filter(has_amount(amount))
}

/// No group has fewer files than one that follows it.
pub open spec fn ordered(groups: Seq<OwnerGroupView>) -> bool {
    forall|i: int, j: int| 0 <= i < j < groups.len() ==> groups[i].amount >= groups[j].amount
}

/// `ranked` holds the groups of `groups`, largest first, those of one size in
/// the order that they have in `groups`.
pub open spec fn ranks(ranked: Seq<OwnerGroupView>, groups: Seq<OwnerGroupView>) -> bool {
    &&& ordered(ranked)
    &&& same_picks(ranked, groups)
}

/// Sum of the numbers of files of `groups`.
pub open spec fn total_amount(groups: Seq<OwnerGroupView>) -> nat
    decreases groups.len(),
{
    if groups.len() == 0 {
        0
    } else {
        total_amount(groups.drop_last()) + groups.last().amount
    }
}

/// `a` and `b` hold the same groups of each size, in the same order.
pub open spec fn same_picks(a: Seq<OwnerGroupView>, b: Seq<OwnerGroupView>) -> bool {
    forall|amount: nat| with_amount(a, amount) == with_amount(b, amount)
}

/// Index of the last group of `groups` that has `amount` files, or -1.
pub open spec fn last_with(groups: Seq<OwnerGroupView>, amount: nat) -> int
    decreases groups.len(),
{
    if groups.len() == 0 {
        -1
    } else if groups.last().amount == amount {
        groups.len() - 1
    } else {
        last_with(groups.drop_last(), amount)
    }
}

/// Where no group has `amount` files, none is picked.
proof fn lemma_none_with_amount(groups: Seq<OwnerGroupView>, amount: nat)
    requires
        forall|i: int| 0 <= i < groups.len() ==> groups[i].amount != amount,
    ensures
        with_amount(groups, amount) == Seq::<OwnerGroupView>::empty(),
    decreases groups.len(),
{
    reveal(Seq::filter);
    if groups.len() > 0 {
        lemma_none_with_amount(groups.drop_last(), amount);
    }
}

/// Putting `group` into a ranked sequence, in front of the first group that
/// is no larger, ranks what was ranked with `group` in front of it.
proof fn lemma_insert_ranks(
    ranked: Seq<OwnerGroupView>,
    at: int,
    group: OwnerGroupView,
    later: Seq<OwnerGroupView>,
)
    requires
        ranks(ranked, later),
        0 <= at <= ranked.len(),
        forall|j: int| 0 <= j < at ==> ranked[j].amount > group.amount,
        at < ranked.len() ==> ranked[at].amount <= group.amount,
    ensures
        ranks(ranked.insert(at, group), seq![group] + later),
{
    let front = ranked.take(at);
    let back = ranked.skip(at);
    let grown = ranked.insert(at, group);
    assert(grown =~= front + seq![group] + back);
    assert(ranked =~= front + back);
    assert(ordered(grown)) by {
        assert forall|i: int, j: int| 0 <= i < j < grown.len() implies grown[i].amount
            >= grown[j].amount by {
            if j > at {
                assert(grown[j] == ranked[j - 1]);
                assert(ranked[at].amount >= ranked[j - 1].amount || at == j - 1);
            }
            if i > at {
                assert(grown[i] == ranked[i - 1]);
            }
        }
    }
    assert forall|amount: nat| with_amount(grown, amount) == with_amount(
        seq![group] + later,
        amount,
    ) by {
        let pick = has_amount(amount);
        Seq::filter_distributes_over_add(front + seq![group], back, pick);
        Seq::filter_distributes_over_add(front, seq![group], pick);
        Seq::filter_distributes_over_add(front, back, pick);
        later.lemma_filter_prepend(group, pick);
        Seq::<OwnerGroupView>::empty().lemma_filter_prepend(group, pick);
        assert(Seq::<OwnerGroupView>::empty().filter(pick) =~= Seq::<OwnerGroupView>::empty())
            by {
            reveal(Seq::filter);
        }
        assert(seq![group] + Seq::<OwnerGroupView>::empty() =~= seq![group]);
        assert(with_amount(ranked, amount) == with_amount(later, amount));
        if amount == group.amount {
            lemma_none_with_amount(front, amount);
            assert(with_amount(grown, amount) =~= seq![group] + with_amount(later, amount));
        } else {
            assert(with_amount(grown, amount) =~= with_amount(later, amount));
        }
    }
}

/// Only the empty sequence picks nothing for every size.
proof fn lemma_no_picks_is_empty(groups: Seq<OwnerGroupView>)
    requires
        forall|amount: nat| with_amount(groups, amount).len() == 0,
    ensures
        groups.len() == 0,
{
    reveal(Seq::filter);
    if groups.len() > 0 {
        assert(with_amount(groups, groups.last().amount).len() == 0);
    }
}

/// A sequence that picks something for `amount` holds a group of that size.
proof fn lemma_pick_has_source(groups: Seq<OwnerGroupView>, amount: nat) -> (i: int)
    requires
        with_amount(groups, amount).len() > 0,
    ensures
        0 <= i < groups.len(),
        groups[i].amount == amount,
{
    let first = with_amount(groups, amount)[0];
    groups.lemma_filter_pred(has_amount(amount), 0);
    assert(with_amount(groups, amount).contains(first));
    groups.lemma_filter_contains_rev(has_amount(amount), first);
    choose|i: int| 0 <= i < groups.len() && groups[i] == first
}

/// Two ranked sequences that hold the same groups of each size, in the same
/// order, are one sequence.
proof fn lemma_same_picks_same_order(a: Seq<OwnerGroupView>, b: Seq<OwnerGroupView>)
    requires
        ordered(a),
        ordered(b),
        same_picks(a, b),
    ensures
        a == b,
    decreases a.len(),
{
    reveal(Seq::filter);
    if a.len() == 0 {
        assert forall|amount: nat| with_amount(b, amount).len() == 0 by {
            assert(with_amount(a, amount) == with_amount(b, amount));
        }
        lemma_no_picks_is_empty(b);
        assert(a =~= b);
    } else {
        let x = a.last();
        assert(with_amount(a, x.amount) == with_amount(b, x.amount));
        assert(with_amount(a, x.amount).last() == x);
        let y = b.last();
        assert(with_amount(a, y.amount) == with_amount(b, y.amount));
        assert(with_amount(b, y.amount).last() == y);
        let i = lemma_pick_has_source(a, y.amount);
        let j = lemma_pick_has_source(b, x.amount);
        assert(x.amount <= y.amount) by {
            if i < a.len() - 1 {
                assert(a[i].amount >= a[a.len() - 1].amount);
            }
        }
        assert(y.amount <= x.amount) by {
            if j < b.len() - 1 {
                assert(b[j].amount >= b[b.len() - 1].amount);
            }
        }
        assert(x == y);
        let shorter_a = a.drop_last();
        let shorter_b = b.drop_last();
        assert forall|amount: nat| with_amount(shorter_a, amount) == with_amount(
            shorter_b,
            amount,
        ) by {
            assert(with_amount(a, amount) == with_amount(b, amount));
            if amount == x.amount {
                assert(with_amount(shorter_a, amount) =~= with_amount(a, amount).drop_last());
                assert(with_amount(shorter_b, amount) =~= with_amount(b, amount).drop_last());
            }
        }
        assert(ordered(shorter_a)) by {
            assert forall|i: int, j: int| 0 <= i < j < shorter_a.len() implies shorter_a[i].amount
                >= shorter_a[j].amount by {
                assert(a[i].amount >= a[j].amount);
            }
        }
        assert(ordered(shorter_b)) by {
            assert forall|i: int, j: int| 0 <= i < j < shorter_b.len() implies shorter_b[i].amount
                >= shorter_b[j].amount by {
                assert(b[i].amount >= b[j].amount);
            }
        }
        lemma_same_picks_same_order(shorter_a, shorter_b);
        assert(a =~= shorter_a.push(x));
        assert(b =~= shorter_b.push(y));
    }
}

/// Taking out the last group of a size takes it off the end of the groups
/// picked for that size, changes nothing for the other sizes, and lowers the
/// sum of the amounts by that size.
proof fn lemma_take_out_last(groups: Seq<OwnerGroupView>, amount: nat)
    requires
        with_amount(groups, amount).len() > 0,
    ensures
        0 <= last_with(groups, amount) < groups.len(),
        groups[last_with(groups, amount)] == with_amount(groups, amount).last(),
        with_amount(groups.remove(last_with(groups, amount)), amount) == with_amount(
            groups,
            amount,
        ).drop_last(),
        forall|other: nat|
            other != amount ==> with_amount(groups.remove(last_with(groups, amount)), other)
                == with_amount(groups, other),
        total_amount(groups) == total_amount(groups.remove(last_with(groups, amount))) + amount,
    decreases groups.len(),
{
    reveal(Seq::filter);
    let k = last_with(groups, amount);
    let shorter = groups.drop_last();
    let last = groups.last();
    if last.amount == amount {
        assert(groups.remove(k) =~= shorter);
        assert(with_amount(shorter, amount) =~= with_amount(groups, amount).drop_last());
    } else {
        lemma_take_out_last(shorter, amount);
        let rest = shorter.remove(k);
        assert(groups.remove(k) =~= rest.push(last));
        assert(rest.push(last).drop_last() =~= rest);
        assert forall|other: nat| other != amount implies with_amount(groups.remove(k), other)
            == with_amount(groups, other) by {
            rest.lemma_filter_push(last, has_amount(other));
            shorter.lemma_filter_push(last, has_amount(other));
            assert(groups =~= shorter.push(last));
            assert(with_amount(rest, other) == with_amount(shorter, other));
            assert(with_amount(rest.push(last), other) == with_amount(shorter.push(last), other));
        }
        rest.lemma_filter_push(last, has_amount(amount));
    }
}

/// Sequences that hold the same groups of each size have the same sum of
/// amounts.
proof fn lemma_same_picks_same_total(a: Seq<OwnerGroupView>, b: Seq<OwnerGroupView>)
    requires
        same_picks(a, b),
    ensures
        total_amount(a) == total_amount(b),
    decreases a.len(),
{
    reveal(Seq::filter);
    if a.len() == 0 {
        assert forall|amount: nat| with_amount(b, amount).len() == 0 by {
            assert(with_amount(a, amount) == with_amount(b, amount));
        }
        lemma_no_picks_is_empty(b);
    } else {
        let x = a.last();
        let shorter = a.drop_last();
        assert(with_amount(a, x.amount) == with_amount(b, x.amount));
        lemma_take_out_last(b, x.amount);
        let rest = b.remove(last_with(b, x.amount));
        assert forall|amount: nat| with_amount(shorter, amount) == with_amount(rest, amount) by {
            assert(with_amount(a, amount) == with_amount(b, amount));
            if amount == x.amount {
                assert(with_amount(shorter, amount) =~= with_amount(a, amount).drop_last());
            }
        }
        lemma_same_picks_same_total(shorter, rest);
    }
}

/// The ranking of a sequence of groups is unique: whatever ranks the same
/// groups is the same sequence.
pub proof fn ranking_is_unique(
    a: Seq<OwnerGroupView>,
    b: Seq<OwnerGroupView>,
    groups: Seq<OwnerGroupView>,
)
    requires
        ranks(a, groups),
        ranks(b, groups),
    ensures
        a == b,
{
    lemma_same_picks_same_order(a, b);
}

/// A ranking holds the groups that were ranked, no other and none twice
/// over: a group is in the one exactly if it is in the other, and the
/// amounts sum to the same.
pub proof fn ranking_keeps_the_groups(ranked: Seq<OwnerGroupView>, groups: Seq<OwnerGroupView>)
    requires
        ranks(ranked, groups),
    ensures
        ranked.len() == groups.len(),
        forall|group: OwnerGroupView| ranked.contains(group) <==> groups.contains(group),
        total_amount(ranked) == total_amount(groups),
{
    lemma_same_picks_same_total(ranked, groups);
    assert forall|group: OwnerGroupView| ranked.contains(group) <==> groups.contains(group) by {
        let pick = has_amount(group.amount);
        assert(with_amount(ranked, group.amount) == with_amount(groups, group.amount));
        if ranked.contains(group) {
            let i = choose|i: int| 0 <= i < ranked.len() && ranked[i] == group;
            ranked.lemma_filter_contains(pick, i);
            groups.lemma_filter_contains_rev(pick, group);
        }
        if groups.contains(group) {
            let i = choose|i: int| 0 <= i < groups.len() && groups[i] == group;
            groups.lemma_filter_contains(pick, i);
            ranked.lemma_filter_contains_rev(pick, group);
        }
    }
    lemma_same_picks_same_len(ranked, groups);
}

/// Sequences that hold the same groups of each size have the same length.
proof fn lemma_same_picks_same_len(a: Seq<OwnerGroupView>, b: Seq<OwnerGroupView>)
    requires
        same_picks(a, b),
    ensures
        a.len() == b.len(),
    decreases a.len(),
{
    reveal(Seq::filter);
    if a.len() == 0 {
        assert forall|amount: nat| with_amount(b, amount).len() == 0 by {
            assert(with_amount(a, amount) == with_amount(b, amount));
        }
        lemma_no_picks_is_empty(b);
    } else {
        let x = a.last();
        let shorter = a.drop_last();
        assert(with_amount(a, x.amount) == with_amount(b, x.amount));
        lemma_take_out_last(b, x.amount);
        let rest = b.remove(last_with(b, x.amount));
        assert forall|amount: nat| with_amount(shorter, amount) == with_amount(rest, amount) by {
            assert(with_amount(a, amount) == with_amount(b, amount));
            if amount == x.amount {
                assert(with_amount(shorter, amount) =~= with_amount(a, amount).drop_last());
            }
        }
        lemma_same_picks_same_len(shorter, rest);
    }
}

/// Puts `groups` in order of their number of files, largest first. Groups
/// with the same number of files keep their order.
pub fn sort_by_amount(groups: Vec<OwnerGroup>) -> (ranked: Vec<OwnerGroup>)
    ensures
        ranks(group_views(ranked@), group_views(groups@)),
{
    let ghost all = group_views(groups@);
    let mut rest = groups;
    let mut ranked: Vec<OwnerGroup> = Vec::new();
    proof {
        assert(all.take(all.len() as int) =~= all);
        assert(all.skip(all.len() as int) =~= Seq::<OwnerGroupView>::empty());
        assert(group_views(ranked@) =~= Seq::<OwnerGroupView>::empty());
    }
    while rest.len() > 0
        invariant
            rest.len() <= all.len(),
            group_views(rest@) == all.take(rest.len() as int),
            ranks(group_views(ranked@), all.skip(rest.len() as int)),
        decreases rest.len(),
    {
        let ghost left = rest.len();
        let ghost before = group_views(ranked@);
        let ghost waiting = rest@;
        let group = rest.pop().unwrap();
        proof {
            assert(group@ == group_views(waiting)[left - 1]);
            assert(group@ == all[left - 1]);
        }
        let mut at: usize = 0;
        while at < ranked.len() && ranked[at].amount > group.amount
            invariant
                at <= ranked.len(),
                before == group_views(ranked@),
                forall|j: int| 0 <= j < at ==> before[j].amount > group@.amount,
            decreases ranked.len() - at,
        {
            at += 1;
        }
        ranked.insert(at, group);
        proof {
            assert(group_views(ranked@) =~= before.insert(at as int, group@));
            lemma_insert_ranks(before, at as int, group@, all.skip(left as int));
            assert(seq![group@] + all.skip(left as int) =~= all.skip(left - 1));
            assert(group_views(rest@) =~= all.take(left - 1));
        }
    }
    assert(all.skip(0) =~= all);
    ranked
}

} // verus!
