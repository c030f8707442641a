//! User names and numeric ids: a table of known users, and the lookups in
//! the system's user database that fill it.

use vstd::prelude::*;

verus! {

/// The map that a list of rows stands for. Of two rows with one id the
/// later one counts.
pub open spec fn names_of(rows: Seq<(u32, Seq<char>)>) -> Map<u32, Seq<char>>
    decreases rows.len(),
{
    if rows.len() == 0 {
        Map::empty()
    } else {
        names_of(rows.drop_last()).insert(rows.last().0, rows.last().1)
    }
}

/// The values of a list of rows.
pub open spec fn row_views(rows: Seq<(u32, String)>) -> Seq<(u32, Seq<char>)> {
    rows.map_values(|row: (u32, String)| (row.0, row.1@))
}

/// Known users: a name for each numeric id that could be resolved.
#[derive(Clone, Debug)]
pub struct UserTable {
    rows: Vec<(u32, String)>,
}

impl View for UserTable {
    type V = Map<u32, Seq<char>>;

    closed spec fn view(&self) -> Map<u32, Seq<char>> {
        names_of(row_views(self.rows@))
    }
}

impl UserTable {
    /// A table that knows no user.
    pub fn new() -> (table: UserTable)
        ensures
            table@ == Map::<u32, Seq<char>>::empty(),
    {
        let table = UserTable { rows: Vec::new() };
        assert(row_views(table.rows@) =~= Seq::empty());
        table
    }

    /// Records that the user `uid` is called `name`, in place of any name
    /// that the table had for that id.
    pub fn insert(&mut self, uid: u32, name: String)
        ensures
            final(self)@ == old(self)@.insert(uid, name@),
    {
        let ghost before = row_views(self.rows@);
        self.rows.push((uid, name));
        proof {
            let after = row_views(self.rows@);
            assert(after =~= before.push((uid, name@)));
            assert(after.drop_last() =~= before);
        }
    }

    /// The name of the user `uid`, if the table has one.
    pub fn lookup(&self, uid: u32) -> (name: Option<String>)
        ensures
            match name {
                Some(n) => self@.contains_key(uid) && n@ == self@[uid],
                None => !self@.contains_key(uid),
            },
    {
        let ghost all = row_views(self.rows@);
        let mut i: usize = self.rows.len();
        assert(all.take(i as int) =~= all);
        while i > 0
            invariant
                i <= self.rows.len(),
                all == row_views(self.rows@),
                names_of(all).contains_key(uid) == names_of(all.take(i as int)).contains_key(uid),
                names_of(all).contains_key(uid) ==> names_of(all)[uid] == names_of(
                    all.take(i as int),
                )[uid],
            decreases i,
        {
            i -= 1;
            proof {
                assert(all.take(i + 1).drop_last() =~= all.take(i as int));
                assert(all.take(i + 1).last() == all[i as int]);
            }
            if self.rows[i].0 == uid {
                return Some(self.rows[i].1.clone());
            }
        }
        None
    }
}

/// Asks the system's user database for the numeric id of the user called
/// `name`, through `users::get_user_by_name`. Nothing is claimed of the
/// answer: it is whatever the database held at the moment of the call.
#[verifier::external_body]
pub(crate) fn lookup_uid(name: &str) -> (uid: Option<u32>) {
    match users::get_user_by_name(name) {
        Some(user) => Some(user.uid()),
        None => None,
    }
}

/// Asks the system's user database for the name of the user `uid`, through
/// `users::get_user_by_uid`. Nothing is claimed of the answer: it is
/// whatever the database held at the moment of the call. Bytes of the name
/// that are no valid Unicode come out as the replacement character.
#[verifier::external_body]
pub(crate) fn lookup_name(uid: u32) -> (name: Option<String>) {
    match users::get_user_by_uid(uid) {
        Some(user) => Some(user.name().to_string_lossy().into_owned()),
        None => None,
    }
}

/// Resolves each of `ids` in the system's user database. The table holds
/// the name that the database gave for each id, and no other id; which ids
/// have a name depends on the database.
pub fn resolve_names(ids: &Vec<u32>) -> (table: UserTable)
    ensures
        exists|answers: Seq<(u32, Option<Seq<char>>)>|
            asks(answers, ids@) && table@ == names_from(answers),
        forall|uid: u32| table@.contains_key(uid) ==> ids@.contains(uid),
{
    let answers = ask_names(ids);
    let table = table_from(&answers);
    proof {
        let given = answer_views(answers@);
        assert(asks(given, ids@) && table@ == names_from(given));
        assert forall|uid: u32| table@.contains_key(uid) implies ids@.contains(uid) by {
            named_was_answered(given, uid);
            let i = choose|i: int|
                0 <= i < given.len() && (#[trigger] given[i]).0 == uid && given[i].1 is Some;
            assert(ids@[i] == uid);
        }
    }
    table
}

/// `answers` pairs each of `ids`, in their order, with what the user
/// database said of it: a name, or that it knows none.
pub open spec fn asks(answers: Seq<(u32, Option<Seq<char>>)>, ids: Seq<u32>) -> bool {
    &&& answers.len() == ids.len()
    &&& forall|i: int| 0 <= i < ids.len() ==> (#[trigger] answers[i]).0 == ids[i]
}

/// The table that a list of answers makes: each id that got a name has that
/// name, the later one where it got two, and an id that got none is absent.
pub open spec fn names_from(answers: Seq<(u32, Option<Seq<char>>)>) -> Map<u32, Seq<char>>
    decreases answers.len(),
{
    if answers.len() == 0 {
        Map::empty()
    } else {
        let before = names_from(answers.drop_last());
        match answers.last().1 {
            Some(name) => before.insert(answers.last().0, name),
            None => before,
        }
    }
}

/// The value of one answer.
pub open spec fn answer_view(answer: (u32, Option<String>)) -> (u32, Option<Seq<char>>) {
    (
        answer.0,
        match answer.1 {
            Some(name) => Some(name@),
            None => None,
        },
    )
}

/// The values of a list of answers.
pub open spec fn answer_views(answers: Seq<(u32, Option<String>)>) -> Seq<
    (u32, Option<Seq<char>>),
> {
    answers.map_values(|answer: (u32, Option<String>)| answer_view(answer))
}

/// The table made from a list of answers knows a user exactly if some
/// answer gave that user a name.
pub proof fn named_was_answered(answers: Seq<(u32, Option<Seq<char>>)>, uid: u32)
    ensures
        names_from(answers).contains_key(uid) <==> exists|i: int|
            0 <= i < answers.len() && (#[trigger] answers[i]).0 == uid && answers[i].1 is Some,
    decreases answers.len(),
{
    if answers.len() > 0 {
        let shorter = answers.drop_last();
        let last = answers.last();
        named_was_answered(shorter, uid);
        if names_from(answers).contains_key(uid) {
            if names_from(shorter).contains_key(uid) {
                let i = choose|i: int|
                    0 <= i < shorter.len() && (#[trigger] shorter[i]).0 == uid
                        && shorter[i].1 is Some;
                assert(answers[i].0 == uid && answers[i].1 is Some);
            } else {
                assert(answers[answers.len() - 1].0 == uid && last.1 is Some);
            }
        }
        if exists|i: int|
            0 <= i < answers.len() && (#[trigger] answers[i]).0 == uid && answers[i].1 is Some {
            let i = choose|i: int|
                0 <= i < answers.len() && (#[trigger] answers[i]).0 == uid && answers[i].1 is Some;
            if i < answers.len() - 1 {
                assert(shorter[i].0 == uid && shorter[i].1 is Some);
            }
        }
    }
}

/// Asks the system's user database for the name of each of `ids`, in their
/// order, and pairs each id with the answer. What the answers are depends on
/// the database.
pub fn ask_names(ids: &Vec<u32>) -> (answers: Vec<(u32, Option<String>)>)
    ensures
        asks(answer_views(answers@), ids@),
{
    let mut answers: Vec<(u32, Option<String>)> = Vec::new();
    let mut i: usize = 0;
    while i < ids.len()
        invariant
            i <= ids.len(),
            answers@.len() == i,
            forall|j: int| 0 <= j < i ==> (#[trigger] answers@[j]).0 == ids@[j],
        decreases ids.len() - i,
    {
        let uid = ids[i];
        answers.push((uid, lookup_name(uid)));
        i += 1;
    }
    answers
}

/// Makes the table of a list of answers: each id that got a name is
/// recorded under it, in the order of the answers.
pub fn table_from(answers: &Vec<(u32, Option<String>)>) -> (table: UserTable)
    ensures
        table@ == names_from(answer_views(answers@)),
{
    let ghost all = answer_views(answers@);
    let mut table = UserTable::new();
    let mut i: usize = 0;
    assert(all.take(0) =~= Seq::<(u32, Option<Seq<char>>)>::empty());
    while i < answers.len()
        invariant
            i <= answers.len(),
            all == answer_views(answers@),
            table@ == names_from(all.take(i as int)),
        decreases answers.len() - i,
    {
        proof {
            assert(all.take(i + 1).drop_last() =~= all.take(i as int));
            assert(all.take(i + 1).last() == answer_view(answers@[i as int]));
        }
        let uid = answers[i].0;
        match &answers[i].1 {
            Some(name) => {
                table.insert(uid, name.clone());
            },
            None => {},
        }
        i += 1;
    }
    assert(all.take(answers.len() as int) =~= all);
    table
}

} // verus!
