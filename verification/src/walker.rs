//! Breadth-first walk of a directory tree, as a machine that the caller
//! drives: the walk hands out the next directory to read, the caller reads it
//! and hands back its entries, and the walk decides what becomes of each.

use std::collections::VecDeque;
use vstd::prelude::*;
use crate::classify::{elf_magic, is_elf};
use crate::entry::{
    entry_of, entry_views, item_views, DirItem, DirItemView, FileEntry, FileEntryView, FileKind,
};
use crate::pattern::{contains, is_substring};
use crate::userdb::lookup_uid;

verus! {

/// The filters of a walk.
#[derive(Clone, Debug, PartialEq, Eq)]
pub struct WalkConfig {
    /// Whether the walk enters subdirectories.
    pub recursive: bool,
    /// Entries whose base name contains this text are skipped.
    pub exclude: Option<String>,
    /// Entries owned by this user are skipped.
    pub exclude_uid: Option<u32>,
}

/// Mathematical value of a [`WalkConfig`].
pub struct WalkConfigView {
    pub recursive: bool,
    pub exclude: Option<Seq<char>>,
    pub exclude_uid: Option<u32>,
}

impl View for WalkConfig {
    type V = WalkConfigView;

    open spec fn view(&self) -> WalkConfigView {
        WalkConfigView {
            recursive: self.recursive,
            exclude: match self.exclude {
                Some(pat) => Some(pat@),
                None => None,
            },
            exclude_uid: self.exclude_uid,
        }
    }
}

impl WalkConfig {
    /// The filters of a walk that skips the entries whose name contains
    /// `exclude` and those that belong to the user `exclude_uid`.
    pub fn new(recursive: bool, exclude: Option<String>, exclude_uid: Option<u32>) -> (config:
        WalkConfig)
        ensures
            config@ == (WalkConfigView {
                recursive,
                exclude: match exclude {
                    Some(pat) => Some(pat@),
                    None => None,
                },
                exclude_uid,
            }),
    {
        WalkConfig { recursive, exclude, exclude_uid }
    }

    /// The filters of a walk that skips the entries whose name contains
    /// `exclude` and those that belong to the user called `exclude_user`.
    /// The name is looked up once, in the system's user database; a name
    /// that the database does not know excludes nothing.
    pub fn resolve(
        recursive: bool,
        exclude: Option<String>,
        exclude_user: Option<String>,
    ) -> (config: WalkConfig)
        ensures
            config@.recursive == recursive,
            config@.exclude == match exclude {
                Some(pat) => Some(pat@),
                None => None::<Seq<char>>,
            },
            exclude_user is None ==> config@.exclude_uid is None,
    {
        let exclude_uid = match exclude_user {
            Some(name) => lookup_uid(name.as_str()),
            None => None,
        };
        WalkConfig::new(recursive, exclude, exclude_uid)
    }
}

/// What a walk does with one directory entry.
#[derive(Clone, Copy, Debug, PartialEq, Eq)]
pub enum Verdict {
    /// The entry is left out: neither matched nor entered.
    Skip,
    /// The entry is a directory that the walk will read later.
    Enter,
    /// The entry is a match.
    Keep,
    /// The entry passed the filters but is neither entered nor a match.
    Pass,
}

/// The name filter is set and the entry's base name contains its text. An
/// entry whose name is not valid Unicode is never excluded by name.
pub open spec fn name_excluded(cfg: WalkConfigView, item: DirItemView) -> bool {
    match (cfg.exclude, item.name) {
        (Some(pat), Some(name)) => is_substring(name, pat),
        _ => false,
    }
}

/// The owner filter is set and the entry belongs to that user.
pub open spec fn owner_excluded(cfg: WalkConfigView, item: DirItemView) -> bool {
    cfg.exclude_uid == Some(item.uid)
}

/// The entry is a symbolic link or is excluded by a filter.
pub open spec fn skips(cfg: WalkConfigView, item: DirItemView) -> bool {
    item.kind is Symlink || name_excluded(cfg, item) || owner_excluded(cfg, item)
}

/// The walk will read the entry as a directory.
pub open spec fn enters(cfg: WalkConfigView, item: DirItemView) -> bool {
    !skips(cfg, item) && cfg.recursive && item.kind is Directory
}

/// The entry is a match: a regular file that no filter excludes and whose
/// first bytes carry the ELF signature.
pub open spec fn keeps(cfg: WalkConfigView, item: DirItemView) -> bool {
    !skips(cfg, item) && item.kind is Regular && elf_magic(item.head)
}

/// What the walk does with `item`.
pub open spec fn verdict(cfg: WalkConfigView, item: DirItemView) -> Verdict {
    if skips(cfg, item) {
        Verdict::Skip
    } else if enters(cfg, item) {
        Verdict::Enter
    } else if keeps(cfg, item) {
        Verdict::Keep
    } else {
        Verdict::Pass
    }
}

/// [`keeps`] as a predicate on entries.
pub open spec fn keeps_under(cfg: WalkConfigView) -> spec_fn(DirItemView) -> bool {
    |item: DirItemView| keeps(cfg, item)
}

/// [`enters`] as a predicate on entries.
pub open spec fn enters_under(cfg: WalkConfigView) -> spec_fn(DirItemView) -> bool {
    |item: DirItemView| enters(cfg, item)
}

/// The entries of one directory that are matches, in the directory's order.
pub open spec fn kept_items(cfg: WalkConfigView, items: Seq<DirItemView>) -> Seq<DirItemView> {
    items.filter(keeps_under(cfg))
}

/// The records of the matches among the entries of one directory.
pub open spec fn kept(cfg: WalkConfigView, items: Seq<DirItemView>) -> Seq<FileEntryView> {
    kept_items(cfg, items).map_values(|item: DirItemView| entry_of(item))
}

/// The paths of the subdirectories that the walk will read, in the
/// directory's order.
pub open spec fn entered(cfg: WalkConfigView, items: Seq<DirItemView>) -> Seq<Seq<char>> {
    items.filter(enters_under(cfg)).map_values(|item: DirItemView| item.path)
}

/// `found` are the records of `sources`, each of which is a match.
pub open spec fn traces(
    cfg: WalkConfigView,
    sources: Seq<DirItemView>,
    found: Seq<FileEntryView>,
) -> bool {
    &&& found == sources.map_values(|item: DirItemView| entry_of(item))
    &&& forall|i: int| 0 <= i < sources.len() ==> keeps(cfg, #[trigger] sources[i])
}

/// Every match among the entries of a directory was made from one of them
/// that is a regular file, no symbolic link, and excluded neither by its
/// name nor by its owner.
pub proof fn kept_pass_the_filters(cfg: WalkConfigView, items: Seq<DirItemView>, i: int)
    requires
        0 <= i < kept(cfg, items).len(),
    ensures
        exists|j: int|
            {
                &&& 0 <= j < items.len()
                &&& kept(cfg, items)[i] == entry_of(#[trigger] items[j])
                &&& items[j].kind is Regular
                &&& !(items[j].kind is Symlink)
                &&& !name_excluded(cfg, items[j])
                &&& !owner_excluded(cfg, items[j])
                &&& elf_magic(items[j].head)
            },
        !kept(cfg, items)[i].is_dir,
{
    let source = kept_items(cfg, items)[i];
    items.lemma_filter_pred(keeps_under(cfg), i);
    assert(kept_items(cfg, items).contains(source));
    items.lemma_filter_contains_rev(keeps_under(cfg), source);
    let j = choose|j: int| 0 <= j < items.len() && items[j] == source;
    assert(kept(cfg, items)[i] == entry_of(items[j]));
}

/// A walk that does not enter subdirectories queues none of a directory's
/// entries, whatever they are.
pub proof fn flat_walk_enters_nothing(cfg: WalkConfigView, items: Seq<DirItemView>)
    requires
        !cfg.recursive,
    ensures
        entered(cfg, items) == Seq::<Seq<char>>::empty(),
    decreases items.len(),
{
    reveal(Seq::filter);
    if items.len() > 0 {
        flat_walk_enters_nothing(cfg, items.drop_last());
        assert(entered(cfg, items.drop_last()).len() == 0);
    }
    assert(entered(cfg, items) =~= Seq::<Seq<char>>::empty());
}

/// Every record of a walk was made from a directory entry that is a regular
/// file, no symbolic link, and excluded neither by its name nor by its owner.
pub proof fn traced_pass_the_filters(
    cfg: WalkConfigView,
    sources: Seq<DirItemView>,
    found: Seq<FileEntryView>,
    i: int,
)
    requires
        traces(cfg, sources, found),
        0 <= i < found.len(),
    ensures
        sources.len() == found.len(),
        found[i] == entry_of(sources[i]),
        !found[i].is_dir,
        sources[i].kind is Regular,
        !(sources[i].kind is Symlink),
        !name_excluded(cfg, sources[i]),
        !owner_excluded(cfg, sources[i]),
        elf_magic(sources[i].head),
{
    assert(keeps(cfg, sources[i]));
}

/// Decides what a walk with the filters `config` does with `item`.
pub fn decide(config: &WalkConfig, item: &DirItem) -> (v: Verdict)
    ensures
        v == verdict(config@, item@),
{
    if let FileKind::Symlink = item.kind {
        return Verdict::Skip;
    }
    if let Some(pat) = &config.exclude {
        if let Some(name) = &item.name {
            if contains(name.as_str(), pat.as_str()) {
                return Verdict::Skip;
            }
        }
    }
    if let Some(uid) = config.exclude_uid {
        if uid == item.uid {
            return Verdict::Skip;
        }
    }
    match item.kind {
        FileKind::Directory => if config.recursive {
            Verdict::Enter
        } else {
            Verdict::Pass
        },
        FileKind::Regular => if is_elf(item.head.as_slice()) {
            Verdict::Keep
        } else {
            Verdict::Pass
        },
        _ => Verdict::Pass,
    }
}

/// A walk in progress: the directories still to read, first come first
/// read, and the matches so far in the order of their discovery.
pub struct Walker {
    config: WalkConfig,
    pending: VecDeque<String>,
    found: Vec<FileEntry>,
    sources: Ghost<Seq<DirItemView>>,
}

impl Walker {
    #[verifier::type_invariant]
    spec fn inv(&self) -> bool {
        traces(self.config@, self.sources@, entry_views(self.found@))
    }

    /// The filters of the walk.
    pub closed spec fn config(&self) -> WalkConfigView {
        self.config@
    }

    /// The paths of the directories still to read, the next one first.
    pub closed spec fn pending(&self) -> Seq<Seq<char>> {
        self.pending@.map_values(|path: String| path@)
    }

    /// The records of the matches so far, in the order of their discovery.
    pub closed spec fn found(&self) -> Seq<FileEntryView> {
        entry_views(self.found@)
    }

    /// The directory entries that the matches so far were made from.
    pub closed spec fn sources(&self) -> Seq<DirItemView> {
        self.sources@
    }

    /// Starts a walk at the directory `root`.
    pub fn new(root: String, config: WalkConfig) -> (walker: Walker)
        ensures
            walker.config() == config@,
            walker.pending() == seq![root@],
            walker.found() == Seq::<FileEntryView>::empty(),
            walker.sources() == Seq::<DirItemView>::empty(),
    {
        let mut pending: VecDeque<String> = VecDeque::new();
        pending.push_back(root);
        let found: Vec<FileEntry> = Vec::new();
        assert(entry_views(found@) =~= Seq::<DirItemView>::empty().map_values(
            |item: DirItemView| entry_of(item),
        ));
        let walker = Walker { config, pending, found, sources: Ghost(Seq::empty()) };
        assert(walker.pending() =~= seq![root@]);
        assert(walker.found() =~= Seq::<FileEntryView>::empty());
        walker
    }

    /// Tells whether no directory is left to read.
    pub fn is_done(&self) -> (done: bool)
        ensures
            done == (self.pending().len() == 0),
    {
        self.pending.len() == 0
    }

    /// Takes the next directory to read off the queue and hands it out with
    /// the walk that is left. `None` means that the walk is over.
    pub fn next_dir(self) -> (step: (Option<String>, Walker))
        ensures
            step.1.config() == self.config(),
            step.1.found() == self.found(),
            step.1.sources() == self.sources(),
            match step.0 {
                Some(path) => {
                    &&& self.pending().len() > 0
                    &&& path@ == self.pending()[0]
                    &&& step.1.pending() == self.pending().drop_first()
                },
                None => {
                    &&& self.pending().len() == 0
                    &&& step.1.pending() == self.pending()
                },
            },
    {
        proof {
            use_type_invariant(&self);
        }
        let ghost before = self.pending();
        let Walker { config, mut pending, found, sources } = self;
        let dir = pending.pop_front();
        let rest = Walker { config, pending, found, sources };
        assert(rest.pending() =~= if dir is Some {
            before.drop_first()
        } else {
            before
        });
        (dir, rest)
    }

    /// Takes in the entries of the directory that was handed out last, in
    /// the order in which they were read: the subdirectories to enter join
    /// the end of the queue, the matches join the end of the matches. For a
    /// directory that could not be read, hand in no entries or do not call.
    pub fn visit(self, items: &Vec<DirItem>) -> (next: Walker)
        ensures
            next.config() == self.config(),
            next.pending() == self.pending() + entered(self.config(), item_views(items@)),
            next.found() == self.found() + kept(self.config(), item_views(items@)),
            next.sources() == self.sources() + kept_items(self.config(), item_views(items@)),
    {
        proof {
            use_type_invariant(&self);
        }
        let ghost cfg = self.config();
        let ghost pending0 = self.pending();
        let ghost found0 = self.found();
        let ghost sources0 = self.sources();
        let ghost all = item_views(items@);
        let Walker { config, mut pending, mut found, sources } = self;
        let ghost mut src = sources@;
        let mut i: usize = 0;
        proof {
            reveal(Seq::filter);
            assert(all.take(0) =~= Seq::<DirItemView>::empty());
            assert(entered(cfg, all.take(0)) =~= Seq::<Seq<char>>::empty());
            assert(kept_items(cfg, all.take(0)) =~= Seq::<DirItemView>::empty());
            assert(kept(cfg, all.take(0)) =~= Seq::<FileEntryView>::empty());
            assert(pending0 + entered(cfg, all.take(0)) =~= pending0);
            assert(found0 + kept(cfg, all.take(0)) =~= found0);
            assert(sources0 + kept_items(cfg, all.take(0)) =~= sources0);
        }
        while i < items.len()
            invariant
                i <= items.len(),
                cfg == config@,
                all == item_views(items@),
                pending@.map_values(|path: String| path@) == pending0 + entered(
                    cfg,
                    all.take(i as int),
                ),
                entry_views(found@) == found0 + kept(cfg, all.take(i as int)),
                src == sources0 + kept_items(cfg, all.take(i as int)),
                traces(cfg, src, entry_views(found@)),
            decreases items.len() - i,
        {
            let item = &items[i];
            let ghost seen = all.take(i as int);
            proof {
                assert(all.take(i + 1) =~= seen.push(item@));
                seen.lemma_filter_push(item@, enters_under(cfg));
                seen.lemma_filter_push(item@, keeps_under(cfg));
            }
            match decide(&config, item) {
                Verdict::Enter => {
                    let ghost queued = pending@.map_values(|path: String| path@);
                    pending.push_back(item.path.clone());
                    proof {
                        assert(pending@.map_values(|path: String| path@) =~= queued.push(
                            item.path@,
                        ));
                        assert(entered(cfg, seen.push(item@)) =~= entered(cfg, seen).push(
                            item.path@,
                        ));
                        assert(queued.push(item.path@) =~= pending0 + entered(
                            cfg,
                            seen.push(item@),
                        ));
                    }
                },
                Verdict::Keep => {
                    let ghost records = entry_views(found@);
                    found.push(FileEntry::of_item(item));
                    proof {
                        assert(entry_views(found@) =~= records.push(entry_of(item@)));
                        assert(kept(cfg, seen.push(item@)) =~= kept(cfg, seen).push(
                            entry_of(item@),
                        ));
                        assert(records.push(entry_of(item@)) =~= found0 + kept(
                            cfg,
                            seen.push(item@),
                        ));
                        assert(src.push(item@) =~= sources0 + kept_items(cfg, seen.push(item@)));
                        src = src.push(item@);
                        assert(entry_views(found@) =~= src.map_values(
                            |item: DirItemView| entry_of(item),
                        ));
                    }
                },
                _ => {},
            }
            i += 1;
        }
        assert(all.take(items.len() as int) =~= all);
        Walker { config, pending, found, sources: Ghost(src) }
    }

    /// The matches so far. Each was made from a directory entry that is a
    /// regular file, no symbolic link, and excluded by no filter.
    pub fn matches(&self) -> (found: &Vec<FileEntry>)
        ensures
            entry_views(found@) == self.found(),
            traces(self.config(), self.sources(), self.found()),
    {
        proof {
            use_type_invariant(self);
        }
        &self.found
    }

    /// Ends the walk and gives up its matches.
    pub fn into_matches(self) -> (found: Vec<FileEntry>)
        ensures
            entry_views(found@) == self.found(),
            traces(self.config(), self.sources(), self.found()),
    {
        proof {
            use_type_invariant(&self);
        }
        self.found
    }
}

} // verus!
