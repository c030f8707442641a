//! Grouping of matched files by owner: one group for each distinct owner,
//! with the owner's name where it is known, the files in the order of their
//! discovery, their number and the sum of their sizes.

use vstd::prelude::*;
use crate::entry::{entry_views, FileEntry, FileEntryView};
use crate::userdb::UserTable;

verus! {

/// The matched files of one owner.
#[derive(Clone, Debug, PartialEq, Eq)]
pub struct OwnerGroup {
    /// Numeric id of the owner.
    pub uid: u32,
    /// The owner's name; `None` where no name is known for the id.
    pub username: Option<String>,
    /// Paths of the owner's files, in the order of their discovery.
    pub files: Vec<String>,
    /// Number of files.
    pub amount: usize,
    /// Sum of the files' sizes in bytes.
    pub size: u64,
}

/// Mathematical value of an [`OwnerGroup`].
pub struct OwnerGroupView {
    pub uid: u32,
    pub username: Option<Seq<char>>,
    pub files: Seq<Seq<char>>,
    pub amount: nat,
    pub size: nat,
}

impl View for OwnerGroup {
    type V = OwnerGroupView;

    open spec fn view(&self) -> OwnerGroupView {
        OwnerGroupView {
            uid: self.uid,
            username: match self.username {
                Some(name) => Some(name@),
                None => None,
            },
            files: self.files@.map_values(|path: String| path@),
            amount: self.amount as nat,
            size: self.size as nat,
        }
    }
}

/// The values of a sequence of groups.
pub open spec fn group_views(groups: Seq<OwnerGroup>) -> Seq<OwnerGroupView> {
    groups.map_values(|group: OwnerGroup| group@)
}

/// The predicate "belongs to the user `uid`".
pub open spec fn has_owner(uid: u32) -> spec_fn(FileEntryView) -> bool {
    |entry: FileEntryView| entry.uid == uid
}

/// The files among `entries` that belong to `uid`, in their order.
pub open spec fn owned_by(entries: Seq<FileEntryView>, uid: u32) -> Seq<FileEntryView> {
    entries.filter(has_owner(uid))
}

/// Sum of the sizes of `entries`.
pub open spec fn total_size(entries: Seq<FileEntryView>) -> nat
    decreases entries.len(),
{
    if entries.len() == 0 {
        0
    } else {
        total_size(entries.drop_last()) + entries.last().size as nat
    }
}

/// The paths of `entries`, in their order.
pub open spec fn paths_of(entries: Seq<FileEntryView>) -> Seq<Seq<char>> {
    entries.map_values(|entry: FileEntryView| entry.path)
}

/// The distinct owners of `entries`, each at the place of its first file.
pub open spec fn owners(entries: Seq<FileEntryView>) -> Seq<u32>
    decreases entries.len(),
{
    if entries.len() == 0 {
        Seq::empty()
    } else {
        let before = owners(entries.drop_last());
        if before.contains(entries.last().uid) {
            before
        } else {
            before.push(entries.last().uid)
        }
    }
}

/// The sum of the sizes of each owner's files fits the size field of a group.
pub open spec fn sizes_fit(entries: Seq<FileEntryView>) -> bool {
    forall|uid: u32| total_size(#[trigger] owned_by(entries, uid)) <= u64::MAX
}

/// The group of the files among `entries` that belong to `uid`, named as
/// `names` has it.
pub open spec fn group_of(
    entries: Seq<FileEntryView>,
    names: Map<u32, Seq<char>>,
    uid: u32,
) -> OwnerGroupView {
    let mine = owned_by(entries, uid);
    OwnerGroupView {
        uid,
        username: if names.contains_key(uid) {
            Some(names[uid])
        } else {
            None
        },
        files: paths_of(mine),
        amount: mine.len(),
        size: total_size(mine),
    }
}

/// [`group_of`] as a function of the owner.
pub open spec fn group_under(entries: Seq<FileEntryView>, names: Map<u32, Seq<char>>) -> spec_fn(
    u32,
) -> OwnerGroupView {
    |uid: u32| group_of(entries, names, uid)
}

/// One group for each distinct owner of `entries`, in the order in which the
/// owners first occur.
pub open spec fn grouped(entries: Seq<FileEntryView>, names: Map<u32, Seq<char>>) -> Seq<
    OwnerGroupView,
> {
    owners(entries).map_values(group_under(entries, names))
}

/// The predicate "the owner's name is known".
pub open spec fn is_resolved() -> spec_fn(OwnerGroupView) -> bool {
    |group: OwnerGroupView| group.username is Some
}

/// The groups among `groups` whose owner's name is known, in their order.
pub open spec fn resolved(groups: Seq<OwnerGroupView>) -> Seq<OwnerGroupView> {
    groups.filter(is_resolved())
}

/// No owner is listed twice.
pub proof fn owners_are_distinct(entries: Seq<FileEntryView>)
    ensures
        owners(entries).no_duplicates(),
    decreases entries.len(),
{
    if entries.len() > 0 {
        owners_are_distinct(entries.drop_last());
    }
}

/// The owners listed are the users that own one of the entries, and no
/// others.
pub proof fn owners_cover_entries(entries: Seq<FileEntryView>, uid: u32)
    ensures
        owners(entries).contains(uid) <==> exists|j: int|
            0 <= j < entries.len() && (#[trigger] entries[j]).uid == uid,
    decreases entries.len(),
{
    if entries.len() > 0 {
        let shorter = entries.drop_last();
        let before = owners(shorter);
        let last = entries.last();
        owners_cover_entries(shorter, uid);
        if owners(entries).contains(uid) {
            if before.contains(uid) {
                let j = choose|j: int|
                    0 <= j < shorter.len() && (#[trigger] shorter[j]).uid == uid;
                assert(entries[j].uid == uid);
            } else {
                let listed = owners(entries);
                let at = choose|at: int| 0 <= at < listed.len() && listed[at] == uid;
                if !before.contains(last.uid) && at < before.len() {
                    assert(before[at] == uid);
                }
                assert(last.uid == uid);
                assert(entries[entries.len() - 1].uid == uid);
            }
        }
        if exists|j: int| 0 <= j < entries.len() && (#[trigger] entries[j]).uid == uid {
            let j = choose|j: int| 0 <= j < entries.len() && (#[trigger] entries[j]).uid == uid;
            if j < entries.len() - 1 {
                assert(shorter[j].uid == uid);
                assert(before.contains(uid));
                let at = choose|at: int| 0 <= at < before.len() && before[at] == uid;
                if !before.contains(last.uid) {
                    assert(before.push(last.uid)[at] == uid);
                }
            } else {
                if !before.contains(last.uid) {
                    assert(before.push(last.uid)[before.len() as int] == uid);
                }
            }
        }
    }
}

/// The files of `uid` among the first entries sum to no more than the files
/// of `uid` among all of them.
pub(crate) proof fn lemma_size_grows(entries: Seq<FileEntryView>, uid: u32, upto: int)
    requires
        0 <= upto <= entries.len(),
    ensures
        total_size(owned_by(entries.take(upto), uid)) <= total_size(owned_by(entries, uid)),
    decreases entries.len(),
{
    if upto == entries.len() {
        assert(entries.take(upto) =~= entries);
    } else {
        let shorter = entries.drop_last();
        assert(shorter.take(upto) =~= entries.take(upto));
        lemma_size_grows(shorter, uid, upto);
        assert(entries =~= shorter.push(entries.last()));
        shorter.lemma_filter_push(entries.last(), has_owner(uid));
        if has_owner(uid)(entries.last()) {
            assert(owned_by(entries, uid).drop_last() =~= owned_by(shorter, uid));
        }
    }
}

/// Tells whether `uid` is among `ids`.
pub fn has_id(ids: &Vec<u32>, uid: u32) -> (found: bool)
    ensures
        found == ids@.contains(uid),
{
    let mut i: usize = 0;
    while i < ids.len()
        invariant
            i <= ids.len(),
            forall|j: int| 0 <= j < i ==> ids@[j] != uid,
        decreases ids.len() - i,
    {
        if ids[i] == uid {
            return true;
        }
        i += 1;
    }
    false
}

/// The distinct owners of `entries`, each at the place of its first file.
pub fn distinct_owners(entries: &Vec<FileEntry>) -> (ids: Vec<u32>)
    ensures
        ids@ == owners(entry_views(entries@)),
{
    let ghost all = entry_views(entries@);
    let mut ids: Vec<u32> = Vec::new();
    let mut i: usize = 0;
    assert(all.take(0) =~= Seq::<FileEntryView>::empty());
    while i < entries.len()
        invariant
            i <= entries.len(),
            all == entry_views(entries@),
            ids@ == owners(all.take(i as int)),
        decreases entries.len() - i,
    {
        proof {
            assert(all.take(i + 1).drop_last() =~= all.take(i as int));
            assert(all.take(i + 1).last() == entries@[i as int]@);
        }
        let uid = entries[i].uid;
        if !has_id(&ids, uid) {
            ids.push(uid);
        }
        i += 1;
    }
    assert(all.take(entries.len() as int) =~= all);
    ids
}

/// Gathers the files among `entries` that belong to `uid` into one group
/// with the name `username`.
pub fn group_for(entries: &Vec<FileEntry>, uid: u32, username: Option<String>) -> (group:
    OwnerGroup)
    requires
        total_size(owned_by(entry_views(entries@), uid)) <= u64::MAX,
    ensures
        group@ == (OwnerGroupView {
            uid,
            username: match username {
                Some(name) => Some(name@),
                None => None,
            },
            files: paths_of(owned_by(entry_views(entries@), uid)),
            amount: owned_by(entry_views(entries@), uid).len(),
            size: total_size(owned_by(entry_views(entries@), uid)),
        }),
{
    let ghost all = entry_views(entries@);
    let mut files: Vec<String> = Vec::new();
    let mut size: u64 = 0;
    let mut i: usize = 0;
    proof {
        reveal(Seq::filter);
        assert(all.take(0) =~= Seq::<FileEntryView>::empty());
        assert(owned_by(all.take(0), uid) =~= Seq::<FileEntryView>::empty());
        assert(files@.map_values(|path: String| path@) =~= paths_of(owned_by(all.take(0), uid)));
    }
    while i < entries.len()
        invariant
            i <= entries.len(),
            all == entry_views(entries@),
            total_size(owned_by(all, uid)) <= u64::MAX,
            files@.map_values(|path: String| path@) == paths_of(owned_by(all.take(i as int), uid)),
            files@.len() <= i,
            size == total_size(owned_by(all.take(i as int), uid)),
        decreases entries.len() - i,
    {
        let entry = &entries[i];
        let ghost seen = all.take(i as int);
        proof {
            assert(all.take(i + 1) =~= seen.push(entry@));
            seen.lemma_filter_push(entry@, has_owner(uid));
            lemma_size_grows(all, uid, i + 1);
        }
        if entry.uid == uid {
            let ghost listed = files@.map_values(|path: String| path@);
            proof {
                assert(owned_by(seen.push(entry@), uid).drop_last() =~= owned_by(seen, uid));
            }
            files.push(entry.path.clone());
            size = size + entry.size;
            proof {
                assert(files@.map_values(|path: String| path@) =~= listed.push(entry.path@));
                assert(paths_of(owned_by(seen.push(entry@), uid)) =~= paths_of(
                    owned_by(seen, uid),
                ).push(entry.path@));
            }
        }
        i += 1;
    }
    proof {
        assert(all.take(entries.len() as int) =~= all);
        assert(files@.len() == files@.map_values(|path: String| path@).len());
    }
    let amount = files.len();
    OwnerGroup { uid, username, files, amount, size }
}

/// Makes one group for each distinct owner of `entries`, in the order in
/// which the owners first occur, each with the name that `table` has for it.
pub fn group_by_owner(entries: &Vec<FileEntry>, table: &UserTable) -> (groups: Vec<OwnerGroup>)
    requires
        sizes_fit(entry_views(entries@)),
    ensures
        group_views(groups@) == grouped(entry_views(entries@), table@),
{
    let ghost all = entry_views(entries@);
    let ids = distinct_owners(entries);
    let mut groups: Vec<OwnerGroup> = Vec::new();
    let mut i: usize = 0;
    assert(group_views(groups@) =~= ids@.take(0).map_values(group_under(all, table@)));
    while i < ids.len()
        invariant
            i <= ids.len(),
            all == entry_views(entries@),
            sizes_fit(all),
            group_views(groups@) == ids@.take(i as int).map_values(group_under(all, table@)),
        decreases ids.len() - i,
    {
        let uid = ids[i];
        let ghost made = group_views(groups@);
        assert(total_size(owned_by(all, uid)) <= u64::MAX);
        let group = group_for(entries, uid, table.lookup(uid));
        groups.push(group);
        proof {
            assert(group@ == group_of(all, table@, uid));
            assert(group_views(groups@) =~= made.push(group@));
            assert(ids@.take(i + 1) =~= ids@.take(i as int).push(uid));
            assert(ids@.take(i + 1).map_values(group_under(all, table@)) =~= made.push(
                group_of(all, table@, uid),
            ));
        }
        i += 1;
    }
    assert(ids@.take(ids.len() as int) =~= ids@);
    groups
}

} // verus!
