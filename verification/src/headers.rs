//! Header fields: names with one value each, in the order in which the names
//! first came.

use crate::text::{find, lemma_find_from, lemma_find_from_is, lemma_find_from_none,
    lemma_occurs_at_one, occurs_at, str_eq};
use vstd::prelude::*;

verus! {

/// A list of header fields: pairs of a name and a value.
pub type HeaderList = Seq<(Seq<char>, Seq<char>)>;

/// The names of a list of header fields, in order.
pub open spec fn names(list: HeaderList) -> Seq<Seq<char>> {
    list.map_values(|field: (Seq<char>, Seq<char>)| field.0)
}

/// Where the first field called `name` stands in `list`.
pub open spec fn position(list: HeaderList, name: Seq<char>) -> Option<nat> {
    find(names(list), seq![name])
}

/// The value of the first field called `name` in `list`.
pub open spec fn value_of(list: HeaderList, name: Seq<char>) -> Option<Seq<char>> {
    match position(list, name) {
        Some(i) => Some(list[i as int].1),
        None => None,
    }
}

/// `list` with `value` for `name`: in the place of the field of that name, or
/// at the end where there is none.
pub open spec fn with_field(list: HeaderList, name: Seq<char>, value: Seq<char>) -> HeaderList {
    match position(list, name) {
        Some(i) => list.update(i as int, (name, value)),
        None => list.push((name, value)),
    }
}

/// What `position` returns is the index of the first field of that name.
pub proof fn lemma_position(list: HeaderList, name: Seq<char>)
    ensures
        match position(list, name) {
            Some(i) => i < list.len() && list[i as int].0 == name && forall|j: int|
                0 <= j < i ==> list[j].0 != name,
            None => forall|j: int| 0 <= j < list.len() ==> list[j].0 != name,
        },
{
    lemma_find_from(names(list), seq![name], 0);
    match position(list, name) {
        Some(i) => {
            lemma_occurs_at_one(names(list), name, i as int);
            assert forall|j: int| 0 <= j < i implies list[j].0 != name by {
                lemma_occurs_at_one(names(list), name, j);
                assert(!occurs_at(names(list), seq![name], j));
                assert(names(list)[j] == list[j].0);
            }
        },
        None => {
            assert forall|j: int| 0 <= j < list.len() implies list[j].0 != name by {
                lemma_occurs_at_one(names(list), name, j);
                assert(!occurs_at(names(list), seq![name], j));
                assert(names(list)[j] == list[j].0);
            }
        },
    }
}

/// The first field of a name is at the index that `position` returns.
pub proof fn lemma_position_is(list: HeaderList, name: Seq<char>, i: nat)
    requires
        i < list.len(),
        list[i as int].0 == name,
        forall|j: int| 0 <= j < i ==> list[j].0 != name,
    ensures
        position(list, name) == Some(i),
{
    lemma_occurs_at_one(names(list), name, i as int);
    assert forall|j: int| 0 <= j < i implies !occurs_at(
        names(list),
        seq![name],
        j,
    ) by {
        lemma_occurs_at_one(names(list), name, j);
    }
    lemma_find_from_is(names(list), seq![name], 0, i);
}

/// Where no field has the name, `position` returns `None`.
pub proof fn lemma_position_none(list: HeaderList, name: Seq<char>)
    requires
        forall|j: int| 0 <= j < list.len() ==> list[j].0 != name,
    ensures
        position(list, name) is None,
{
    assert forall|j: int| 0 <= j implies !occurs_at(names(list), seq![name], j) by {
        lemma_occurs_at_one(names(list), name, j);
    }
    lemma_find_from_none(names(list), seq![name], 0);
}

/// Setting a field keeps the names distinct, and the field then has the
/// value that was set; the other names keep their values.
pub proof fn lemma_with_field(list: HeaderList, name: Seq<char>, value: Seq<char>)
    requires
        names(list).no_duplicates(),
    ensures
        names(with_field(list, name, value)).no_duplicates(),
        value_of(with_field(list, name, value), name) == Some(value),
        forall|other: Seq<char>|
            other != name ==> value_of(with_field(list, name, value), other) == value_of(
                list,
                other,
            ),
{
    let after = with_field(list, name, value);
    lemma_position(list, name);
    match position(list, name) {
        Some(i) => {
            assert(names(after) =~= names(list));
            lemma_position_is(after, name, i);
        },
        None => {
            assert(names(after) =~= names(list).push(name));
            lemma_position_is(after, name, list.len());
        },
    }
    assert forall|other: Seq<char>| other != name implies value_of(after, other) == value_of(
        list,
        other,
    ) by {
        lemma_position(list, other);
        match position(list, other) {
            Some(k) => {
                lemma_position_is(after, other, k);
            },
            None => {
                lemma_position_none(after, other);
            },
        }
    }
}

/// Header fields with distinct names.
#[derive(Debug)]
pub struct HeaderMap {
    fields: Vec<(String, String)>,
}

impl View for HeaderMap {
    type V = HeaderList;

    closed spec fn view(&self) -> HeaderList {
        self.fields@.map_values(|field: (String, String)| (field.0@, field.1@))
    }
}

impl HeaderMap {
    #[verifier::type_invariant]
    spec fn distinct_names(&self) -> bool {
        names(self@).no_duplicates()
    }

    pub fn new() -> (map: Self)
        ensures
            map@ == HeaderList::empty(),
    {
        let map = HeaderMap { fields: Vec::new() };
        assert(map@ =~= HeaderList::empty());
        map
    }

    /// The number of fields, no two of which have the same name.
    pub fn len(&self) -> (n: usize)
        ensures
            n == self@.len(),
            names(self@).no_duplicates(),
    {
        proof {
            use_type_invariant(self);
        }
        self.fields.len()
    }

    /// The name of the field at `i`.
    pub fn name_at(&self, i: usize) -> (name: &str)
        requires
            i < self@.len(),
        ensures
            name@ == self@[i as int].0,
    {
        self.fields[i].0.as_str()
    }

    /// The value of the field at `i`.
    pub fn value_at(&self, i: usize) -> (value: &String)
        requires
            i < self@.len(),
        ensures
            value@ == self@[i as int].1,
    {
        &self.fields[i].1
    }

    /// Where the field called `name` stands.
    pub fn index_of(&self, name: &str) -> (r: Option<usize>)
        ensures
            match r {
                Some(i) => position(self@, name@) == Some(i as nat) && i < self@.len(),
                None => position(self@, name@) is None,
            },
    {
        let mut i: usize = 0;
        while i < self.fields.len()
            invariant
                i <= self@.len(),
                self@.len() == self.fields@.len(),
                forall|j: int| 0 <= j < i ==> self@[j].0 != name@,
            decreases self.fields.len() - i,
        {
            if str_eq(self.fields[i].0.as_str(), name) {
                proof {
                    lemma_position_is(self@, name@, i as nat);
                }
                return Some(i);
            }
            i += 1;
        }
        proof {
            lemma_position_none(self@, name@);
        }
        None
    }

    /// The value of the field called `name`.
    pub fn get(&self, name: &str) -> (r: Option<&String>)
        ensures
            match r {
                Some(value) => value_of(self@, name@) == Some(value@),
                None => value_of(self@, name@) is None,
            },
    {
        match self.index_of(name) {
            Some(i) => Some(self.value_at(i)),
            None => None,
        }
    }

    /// Whether there is a field called `name`.
    pub fn contains_key(&self, name: &str) -> (r: bool)
        ensures
            r == value_of(self@, name@).is_some(),
    {
        self.index_of(name).is_some()
    }

    /// Gives the field called `name` the value `value`; a new name goes to
    /// the end.
    pub fn insert(&mut self, name: String, value: String)
        ensures
            final(self)@ == with_field(old(self)@, name@, value@),
    {
        proof {
            use_type_invariant(&*self);
            lemma_with_field(self@, name@, value@);
        }
        let ghost before = self@;
        let found = self.index_of(name.as_str());
        let mut taken = HeaderMap::new();
        std::mem::swap(self, &mut taken);
        let mut fields = taken.fields;
        match found {
            Some(i) => {
                fields.set(i, (name, value));
            },
            None => {
                fields.push((name, value));
            },
        }
        let ghost after = fields@.map_values(|field: (String, String)| (field.0@, field.1@));
        assert(after =~= with_field(before, name@, value@));
        *self = HeaderMap { fields };
    }
}

} // verus!
