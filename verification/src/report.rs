//! The report: the groups of the owners whose name is known, ranked by their
//! number of files.

use vstd::prelude::*;
use crate::entry::{entry_views, FileEntry, FileEntryView};
use crate::owners::{
    distinct_owners, group_by_owner, group_of, group_under, group_views, grouped, has_owner,
    is_resolved, lemma_size_grows, owned_by, owners, owners_are_distinct, owners_cover_entries,
    resolved, sizes_fit, total_size, OwnerGroup, OwnerGroupView,
};
use crate::ranking::{ranking_keeps_the_groups, ranks, sort_by_amount, total_amount};
use crate::userdb::{resolve_names, UserTable};

verus! {

/// `out` is the report on `entries` where the users' names are `names`: one
/// group for each owner that has a name, largest first, groups of one size
/// in the order in which their owners first occur.
pub open spec fn is_report(
    out: Seq<OwnerGroupView>,
    entries: Seq<FileEntryView>,
    names: Map<u32, Seq<char>>,
) -> bool {
    ranks(out, resolved(grouped(entries, names)))
}

/// The predicate "belongs to a user that has a name".
pub open spec fn is_named(names: Map<u32, Seq<char>>) -> spec_fn(FileEntryView) -> bool {
    |entry: FileEntryView| names.contains_key(entry.uid)
}

/// The files among `entries` whose owner has a name, in their order.
pub open spec fn named_entries(
    entries: Seq<FileEntryView>,
    names: Map<u32, Seq<char>>,
) -> Seq<FileEntryView> {
    entries.filter(is_named(names))
}

/// Some group of `out` lists the file `path`.
pub open spec fn lists(out: Seq<OwnerGroupView>, path: Seq<char>) -> bool {
    exists|i: int, k: int|
        0 <= i < out.len() && 0 <= k < out[i].files.len() && #[trigger] out[i].files[k] == path
}

/// Some file among `entries` has the path `path` and an owner with a name.
pub open spec fn has_named(
    entries: Seq<FileEntryView>,
    names: Map<u32, Seq<char>>,
    path: Seq<char>,
) -> bool {
    exists|j: int|
        0 <= j < entries.len() && (#[trigger] entries[j]).path == path && names.contains_key(
            entries[j].uid,
        )
}

/// One if `uid` has a name, else nothing.
pub open spec fn one_if_named(names: Map<u32, Seq<char>>, uid: u32) -> nat {
    if names.contains_key(uid) {
        1
    } else {
        0
    }
}

/// Number of files among `entries` that belong to those of `ids` that have a
/// name.
pub open spec fn named_amount(
    ids: Seq<u32>,
    entries: Seq<FileEntryView>,
    names: Map<u32, Seq<char>>,
) -> nat
    decreases ids.len(),
{
    if ids.len() == 0 {
        0
    } else {
        named_amount(ids.drop_last(), entries, names) + if names.contains_key(ids.last()) {
            owned_by(entries, ids.last()).len()
        } else {
            0
        }
    }
}

/// The amounts of the named groups of `ids` sum to the number of their files.
proof fn lemma_named_amount_is_total(
    ids: Seq<u32>,
    entries: Seq<FileEntryView>,
    names: Map<u32, Seq<char>>,
)
    ensures
        total_amount(resolved(ids.map_values(group_under(entries, names)))) == named_amount(
            ids,
            entries,
            names,
        ),
    decreases ids.len(),
{
    reveal(Seq::filter);
    let make = group_under(entries, names);
    if ids.len() == 0 {
        assert(ids.map_values(make) =~= Seq::<OwnerGroupView>::empty());
    } else {
        let shorter = ids.drop_last();
        lemma_named_amount_is_total(shorter, entries, names);
        let made = shorter.map_values(make);
        let group = make(ids.last());
        assert(ids.map_values(make) =~= made.push(group));
        made.lemma_filter_push(group, is_resolved());
        if is_resolved()(group) {
            assert(resolved(made).push(group).drop_last() =~= resolved(made));
        }
    }
}

/// A file of a user that is not among `ids` adds nothing to their files.
proof fn lemma_push_stranger(
    ids: Seq<u32>,
    entries: Seq<FileEntryView>,
    entry: FileEntryView,
    names: Map<u32, Seq<char>>,
)
    requires
        !ids.contains(entry.uid),
    ensures
        named_amount(ids, entries.push(entry), names) == named_amount(ids, entries, names),
    decreases ids.len(),
{
    if ids.len() > 0 {
        let shorter = ids.drop_last();
        assert(ids[ids.len() - 1] != entry.uid);
        assert forall|i: int| 0 <= i < shorter.len() implies shorter[i] != entry.uid by {
            assert(ids[i] != entry.uid);
        }
        lemma_push_stranger(shorter, entries, entry, names);
        entries.lemma_filter_push(entry, has_owner(ids.last()));
    }
}

/// A file of one of `ids` adds one to their files if its owner has a name,
/// and nothing otherwise.
proof fn lemma_push_owner(
    ids: Seq<u32>,
    entries: Seq<FileEntryView>,
    entry: FileEntryView,
    names: Map<u32, Seq<char>>,
)
    requires
        ids.no_duplicates(),
        ids.contains(entry.uid),
    ensures
        named_amount(ids, entries.push(entry), names) == named_amount(ids, entries, names)
            + one_if_named(names, entry.uid),
    decreases ids.len(),
{
    let shorter = ids.drop_last();
    entries.lemma_filter_push(entry, has_owner(ids.last()));
    if ids.last() == entry.uid {
        assert forall|i: int| 0 <= i < shorter.len() implies shorter[i] != entry.uid by {
            assert(ids[i] != ids[ids.len() - 1]);
        }
        lemma_push_stranger(shorter, entries, entry, names);
    } else {
        let at = choose|at: int| 0 <= at < ids.len() && ids[at] == entry.uid;
        assert(shorter[at] == entry.uid);
        assert(shorter.no_duplicates());
        lemma_push_owner(shorter, entries, entry, names);
    }
}

/// The files of the named owners are the files whose owner has a name.
proof fn lemma_named_amount_counts(entries: Seq<FileEntryView>, names: Map<u32, Seq<char>>)
    ensures
        named_amount(owners(entries), entries, names) == named_entries(entries, names).len(),
    decreases entries.len(),
{
    reveal(Seq::filter);
    if entries.len() > 0 {
        let shorter = entries.drop_last();
        let last = entries.last();
        let before = owners(shorter);
        lemma_named_amount_counts(shorter, names);
        owners_are_distinct(shorter);
        assert(entries =~= shorter.push(last));
        shorter.lemma_filter_push(last, is_named(names));
        if before.contains(last.uid) {
            lemma_push_owner(before, shorter, last, names);
        } else {
            lemma_push_stranger(before, shorter, last, names);
            lemma_stranger_owns_nothing(shorter, last.uid);
            shorter.lemma_filter_push(last, has_owner(last.uid));
            assert(before.push(last.uid).drop_last() =~= before);
        }
    }
}

/// All of `entries` are picked exactly if each of them has an owner with a
/// name.
proof fn lemma_all_named(entries: Seq<FileEntryView>, names: Map<u32, Seq<char>>)
    ensures
        named_entries(entries, names).len() <= entries.len(),
        named_entries(entries, names).len() == entries.len() <==> forall|j: int|
            0 <= j < entries.len() ==> names.contains_key((#[trigger] entries[j]).uid),
    decreases entries.len(),
{
    reveal(Seq::filter);
    if entries.len() > 0 {
        let shorter = entries.drop_last();
        lemma_all_named(shorter, names);
        if named_entries(entries, names).len() == entries.len() {
            assert forall|j: int| 0 <= j < entries.len() implies names.contains_key(
                (#[trigger] entries[j]).uid,
            ) by {
                if j < entries.len() - 1 {
                    assert(names.contains_key(shorter[j].uid));
                }
            }
        }
        if forall|j: int|
            0 <= j < entries.len() ==> names.contains_key((#[trigger] entries[j]).uid) {
            assert forall|j: int| 0 <= j < shorter.len() implies names.contains_key(
                (#[trigger] shorter[j]).uid,
            ) by {
                assert(names.contains_key(entries[j].uid));
            }
            assert(names.contains_key(entries[entries.len() - 1].uid));
        }
    }
}

/// The amounts of a report sum to the number of files whose owner has a
/// name: to no more than the number of files, and to that number exactly if
/// every owner has a name.
pub proof fn amounts_count_named_entries(
    entries: Seq<FileEntryView>,
    names: Map<u32, Seq<char>>,
    out: Seq<OwnerGroupView>,
)
    requires
        is_report(out, entries, names),
    ensures
        total_amount(out) == named_entries(entries, names).len(),
        total_amount(out) <= entries.len(),
        total_amount(out) == entries.len() <==> forall|j: int|
            0 <= j < entries.len() ==> names.contains_key((#[trigger] entries[j]).uid),
{
    ranking_keeps_the_groups(out, resolved(grouped(entries, names)));
    lemma_named_amount_is_total(owners(entries), entries, names);
    lemma_named_amount_counts(entries, names);
    lemma_all_named(entries, names);
}

/// Each group of a report is the group of an owner that has a name, each
/// such owner has its group in the report, and the files that the report
/// lists are the files whose owner has a name: a file whose owner has none
/// is in no group, and no group lacks a name.
pub proof fn report_lists_named_entries(
    entries: Seq<FileEntryView>,
    names: Map<u32, Seq<char>>,
    out: Seq<OwnerGroupView>,
)
    requires
        is_report(out, entries, names),
    ensures
        forall|i: int|
            0 <= i < out.len() ==> {
                &&& names.contains_key((#[trigger] out[i]).uid)
                &&& owners(entries).contains(out[i].uid)
                &&& out[i].username == Some(names[out[i].uid])
                &&& out[i] == group_of(entries, names, out[i].uid)
            },
        forall|uid: u32|
            owners(entries).contains(uid) && names.contains_key(uid) ==> out.contains(
                #[trigger] group_of(entries, names, uid),
            ),
        forall|path: Seq<char>| lists(out, path) <==> has_named(entries, names, path),
{
    let all = grouped(entries, names);
    let named = resolved(all);
    ranking_keeps_the_groups(out, named);
    assert forall|i: int| 0 <= i < out.len() implies {
        &&& names.contains_key((#[trigger] out[i]).uid)
        &&& owners(entries).contains(out[i].uid)
        &&& out[i].username == Some(names[out[i].uid])
        &&& out[i] == group_of(entries, names, out[i].uid)
    } by {
        lemma_group_of_report(entries, names, out, i);
    }
    assert forall|uid: u32|
        owners(entries).contains(uid) && names.contains_key(uid) implies out.contains(
        #[trigger] group_of(entries, names, uid),
    ) by {
        let m = choose|m: int| 0 <= m < owners(entries).len() && owners(entries)[m] == uid;
        assert(all[m] == group_of(entries, names, uid));
        all.lemma_filter_contains(is_resolved(), m);
    }
    assert forall|path: Seq<char>| lists(out, path) <==> has_named(entries, names, path) by {
        if lists(out, path) {
            let (i, k) = choose|i: int, k: int|
                0 <= i < out.len() && 0 <= k < out[i].files.len() && #[trigger] out[i].files[k]
                    == path;
            lemma_group_of_report(entries, names, out, i);
            let uid = out[i].uid;
            let mine = owned_by(entries, uid);
            let entry = mine[k];
            entries.lemma_filter_pred(has_owner(uid), k);
            assert(mine.contains(entry));
            entries.lemma_filter_contains_rev(has_owner(uid), entry);
            let j = choose|j: int| 0 <= j < entries.len() && entries[j] == entry;
            assert(entries[j].path == path && names.contains_key(entries[j].uid));
        }
        if has_named(entries, names, path) {
            let j = choose|j: int|
                0 <= j < entries.len() && (#[trigger] entries[j]).path == path
                    && names.contains_key(entries[j].uid);
            let uid = entries[j].uid;
            owners_cover_entries(entries, uid);
            let group = group_of(entries, names, uid);
            assert(out.contains(group));
            let i = choose|i: int| 0 <= i < out.len() && out[i] == group;
            entries.lemma_filter_contains(has_owner(uid), j);
            let mine = owned_by(entries, uid);
            let k = choose|k: int| 0 <= k < mine.len() && mine[k] == entries[j];
            assert(out[i].files[k] == path);
        }
    }
}

/// The group at place `i` of a report is the group of an owner that has a
/// name.
proof fn lemma_group_of_report(
    entries: Seq<FileEntryView>,
    names: Map<u32, Seq<char>>,
    out: Seq<OwnerGroupView>,
    i: int,
)
    requires
        is_report(out, entries, names),
        0 <= i < out.len(),
    ensures
        names.contains_key(out[i].uid),
        owners(entries).contains(out[i].uid),
        out[i].username == Some(names[out[i].uid]),
        out[i] == group_of(entries, names, out[i].uid),
{
    let all = grouped(entries, names);
    let named = resolved(all);
    let group = out[i];
    ranking_keeps_the_groups(out, named);
    assert(out.contains(group));
    assert(named.contains(group));
    let at = choose|at: int| 0 <= at < named.len() && named[at] == group;
    all.lemma_filter_pred(is_resolved(), at);
    all.lemma_filter_contains_rev(is_resolved(), group);
    let m = choose|m: int| 0 <= m < all.len() && all[m] == group;
    assert(all[m] == group_of(entries, names, owners(entries)[m]));
}

/// A user that is no owner of `entries` has no file among them.
proof fn lemma_stranger_owns_nothing(entries: Seq<FileEntryView>, uid: u32)
    requires
        !owners(entries).contains(uid),
    ensures
        owned_by(entries, uid) == Seq::<FileEntryView>::empty(),
    decreases entries.len(),
{
    reveal(Seq::filter);
    if entries.len() > 0 {
        let shorter = entries.drop_last();
        let before = owners(shorter);
        if before.contains(entries.last().uid) {
        } else {
            assert(before.push(entries.last().uid).last() == entries.last().uid);
            assert forall|i: int| 0 <= i < before.len() implies before[i] != uid by {
                assert(before.push(entries.last().uid)[i] == before[i]);
            }
        }
        lemma_stranger_owns_nothing(shorter, uid);
    }
}

/// Sum of the sizes of the files among `entries` that belong to `uid`, or
/// `None` where the sum is larger than any `u64`.
pub fn owner_size(entries: &Vec<FileEntry>, uid: u32) -> (sum: Option<u64>)
    ensures
        match sum {
            Some(size) => size == total_size(owned_by(entry_views(entries@), uid)),
            None => total_size(owned_by(entry_views(entries@), uid)) > u64::MAX,
        },
{
    let ghost all = entry_views(entries@);
    let mut size: u64 = 0;
    let mut i: usize = 0;
    proof {
        reveal(Seq::filter);
        assert(all.take(0) =~= Seq::<FileEntryView>::empty());
        assert(owned_by(all.take(0), uid) =~= Seq::<FileEntryView>::empty());
    }
    while i < entries.len()
        invariant
            i <= entries.len(),
            all == entry_views(entries@),
            size == total_size(owned_by(all.take(i as int), uid)),
        decreases entries.len() - i,
    {
        let entry = &entries[i];
        let ghost seen = all.take(i as int);
        proof {
            assert(all.take(i + 1) =~= seen.push(entry@));
            seen.lemma_filter_push(entry@, has_owner(uid));
            lemma_size_grows(all, uid, i + 1);
        }
        if entry.uid == uid {
            proof {
                assert(owned_by(seen.push(entry@), uid).drop_last() =~= owned_by(seen, uid));
            }
            match size.checked_add(entry.size) {
                Some(more) => {
                    size = more;
                },
                None => {
                    return None;
                },
            }
        }
        i += 1;
    }
    assert(all.take(entries.len() as int) =~= all);
    Some(size)
}

/// Tells whether the sizes of each owner's files sum to a `u64`, as the
/// grouping needs.
pub fn sizes_in_range(entries: &Vec<FileEntry>) -> (ok: bool)
    ensures
        ok == sizes_fit(entry_views(entries@)),
{
    let ghost all = entry_views(entries@);
    let ids = distinct_owners(entries);
    let mut i: usize = 0;
    while i < ids.len()
        invariant
            i <= ids.len(),
            all == entry_views(entries@),
            ids@ == owners(all),
            forall|j: int| 0 <= j < i ==> total_size(owned_by(all, #[trigger] ids@[j])) <= u64::MAX,
        decreases ids.len() - i,
    {
        if owner_size(entries, ids[i]).is_none() {
            return false;
        }
        i += 1;
    }
    proof {
        assert forall|uid: u32| total_size(#[trigger] owned_by(all, uid)) <= u64::MAX by {
            if ids@.contains(uid) {
                let j = choose|j: int| 0 <= j < ids@.len() && ids@[j] == uid;
                assert(total_size(owned_by(all, ids@[j])) <= u64::MAX);
            } else {
                lemma_stranger_owns_nothing(all, uid);
            }
        }
    }
    true
}

/// The groups in the opposite order.
fn reversed(groups: Vec<OwnerGroup>) -> (back: Vec<OwnerGroup>)
    ensures
        back@.len() == groups@.len(),
        forall|i: int| 0 <= i < back@.len() ==> back@[i] == groups@[groups@.len() - 1 - i],
{
    let ghost all = groups@;
    let mut rest = groups;
    let mut back: Vec<OwnerGroup> = Vec::new();
    while rest.len() > 0
        invariant
            rest@.len() + back@.len() == all.len(),
            forall|i: int| 0 <= i < rest@.len() ==> rest@[i] == all[i],
            forall|i: int| 0 <= i < back@.len() ==> back@[i] == all[all.len() - 1 - i],
        decreases rest.len(),
    {
        let group = rest.pop().unwrap();
        back.push(group);
    }
    back
}

/// Leaves out the groups whose owner has no name. The others keep their
/// order.
pub fn drop_unresolved(groups: Vec<OwnerGroup>) -> (named: Vec<OwnerGroup>)
    ensures
        group_views(named@) == resolved(group_views(groups@)),
{
    let ghost all = group_views(groups@);
    let ghost total = groups@.len();
    let mut rest = reversed(groups);
    let mut named: Vec<OwnerGroup> = Vec::new();
    proof {
        reveal(Seq::filter);
        assert(all.take(0) =~= Seq::<OwnerGroupView>::empty());
        assert(group_views(named@) =~= resolved(all.take(0)));
    }
    while rest.len() > 0
        invariant
            rest@.len() <= total,
            total == all.len(),
            forall|i: int| 0 <= i < rest@.len() ==> (#[trigger] rest@[i])@ == all[total - 1 - i],
            group_views(named@) == resolved(all.take(total - rest@.len())),
        decreases rest.len(),
    {
        let ghost done = total - rest@.len();
        let ghost kept = group_views(named@);
        let ghost last = rest@[rest@.len() - 1];
        let group = rest.pop().unwrap();
        proof {
            assert(group == last);
            assert(group@ == all[done]);
            assert(all.take(done + 1) =~= all.take(done).push(group@));
            all.take(done).lemma_filter_push(group@, is_resolved());
        }
        if group.username.is_some() {
            named.push(group);
            proof {
                assert(group_views(named@) =~= kept.push(group@));
            }
        }
    }
    assert(all.take(total as int) =~= all);
    named
}

/// Makes the report on `entries`, with the names that `table` has: the
/// files are grouped by owner, the groups whose owner has no name are left
/// out, and the others are ranked by their number of files, largest first.
pub fn report(entries: &Vec<FileEntry>, table: &UserTable) -> (out: Vec<OwnerGroup>)
    requires
        sizes_fit(entry_views(entries@)),
    ensures
        is_report(group_views(out@), entry_views(entries@), table@),
{
    sort_by_amount(drop_unresolved(group_by_owner(entries, table)))
}

/// Makes the report on `entries`, with the names that the system's user
/// database has for their owners. Which owners have a name depends on the
/// database: the result is the report for some set of names.
pub fn get_owners(entries: &Vec<FileEntry>) -> (out: Vec<OwnerGroup>)
    requires
        sizes_fit(entry_views(entries@)),
    ensures
        exists|names: Map<u32, Seq<char>>|
            is_report(group_views(out@), entry_views(entries@), names),
{
    let ids = distinct_owners(entries);
    let table = resolve_names(&ids);
    let out = report(entries, &table);
    assert(is_report(group_views(out@), entry_views(entries@), table@));
    out
}

} // verus!
