//! Sets of names, kept as an ascending list so that every set has exactly one
//! listing and reports come out in the same order on every run.

use vstd::prelude::*;
use crate::text::{
    lemma_precedes_asymmetric, lemma_precedes_total, lemma_precedes_transitive, precedes, rank_of, Rank,
};

verus! {

/// The character sequences of a list of strings, in the same order.
pub open spec fn texts(names: Seq<String>) -> Seq<Seq<char>> {
    names.map_values(|name: String| name@)
}

/// Whether every name in the list comes before all the names after it.
pub open spec fn is_ascending(list: Seq<Seq<char>>) -> bool {
    forall|i: int, j: int| 0 <= i < j < list.len() ==> precedes(#[trigger] list[i], #[trigger] list[j])
}

/// Whether `list` is the ascending listing of the set `names`.
pub open spec fn lists(list: Seq<Seq<char>>, names: Set<Seq<char>>) -> bool {
    is_ascending(list) && list.to_set() == names
}

/// The ascending listing of a finite set of names.
pub open spec fn ascending(names: Set<Seq<char>>) -> Seq<Seq<char>> {
    choose|list: Seq<Seq<char>>| lists(list, names)
}

/// An ascending list holds no name twice.
pub proof fn lemma_ascending_no_duplicates(list: Seq<Seq<char>>)
    requires
        is_ascending(list),
    ensures
        list.no_duplicates(),
{
    assert forall|i: int, j: int| 0 <= i < list.len() && 0 <= j < list.len() && i != j implies list[i]
        != list[j] by {
        if i < j {
            lemma_precedes_asymmetric(list[i], list[j]);
        } else {
            lemma_precedes_asymmetric(list[j], list[i]);
        }
    }
}

/// Two ascending lists of the same names are the same list.
pub proof fn lemma_ascending_unique(first: Seq<Seq<char>>, second: Seq<Seq<char>>)
    requires
        is_ascending(first),
        is_ascending(second),
        first.to_set() == second.to_set(),
    ensures
        first == second,
    decreases first.len(),
{
    if first.len() == 0 {
        if second.len() > 0 {
            assert(second.to_set().contains(second[0]));
            assert(first.contains(second[0]));
        }
        assert(first =~= second);
    } else if second.len() == 0 {
        assert(first.to_set().contains(first[0]));
        assert(second.contains(first[0]));
    } else {
        assert(first.to_set().contains(first[0]));
        assert(second.contains(first[0]));
        assert(second.to_set().contains(second[0]));
        assert(first.contains(second[0]));
        let i = choose|i: int| 0 <= i < first.len() && first[i] == second[0];
        let j = choose|j: int| 0 <= j < second.len() && second[j] == first[0];
        if i > 0 && j > 0 {
            assert(precedes(first[0], first[i]));
            assert(precedes(second[0], second[j]));
            lemma_precedes_asymmetric(first[0], second[0]);
        }
        if i > 0 && j == 0 {
            lemma_precedes_asymmetric(first[0], first[i]);
        }
        if j > 0 && i == 0 {
            lemma_precedes_asymmetric(second[0], second[j]);
        }
        assert(first[0] == second[0]);
        let rest_first = first.drop_first();
        let rest_second = second.drop_first();
        assert(is_ascending(rest_first)) by {
            assert forall|a: int, b: int| 0 <= a < b < rest_first.len() implies precedes(
                #[trigger] rest_first[a],
                #[trigger] rest_first[b],
            ) by {
                assert(precedes(first[a + 1], first[b + 1]));
            }
        }
        assert(is_ascending(rest_second)) by {
            assert forall|a: int, b: int| 0 <= a < b < rest_second.len() implies precedes(
                #[trigger] rest_second[a],
                #[trigger] rest_second[b],
            ) by {
                assert(precedes(second[a + 1], second[b + 1]));
            }
        }
        lemma_ascending_no_duplicates(first);
        lemma_ascending_no_duplicates(second);
        assert(rest_first.to_set() =~= rest_second.to_set()) by {
            assert forall|name: Seq<char>| rest_first.to_set().contains(name)
                == rest_second.to_set().contains(name) by {
                if rest_first.contains(name) {
                    let a = choose|a: int| 0 <= a < rest_first.len() && rest_first[a] == name;
                    assert(first[a + 1] == name);
                    assert(first.to_set().contains(name));
                    assert(second.contains(name));
                    let b = choose|b: int| 0 <= b < second.len() && second[b] == name;
                    assert(b != 0);
                    assert(rest_second[b - 1] == name);
                }
                if rest_second.contains(name) {
                    let b = choose|b: int| 0 <= b < rest_second.len() && rest_second[b] == name;
                    assert(second[b + 1] == name);
                    assert(second.to_set().contains(name));
                    assert(first.contains(name));
                    let a = choose|a: int| 0 <= a < first.len() && first[a] == name;
                    assert(a != 0);
                    assert(rest_first[a - 1] == name);
                }
            }
        }
        lemma_ascending_unique(rest_first, rest_second);
        assert(first =~= seq![first[0]] + rest_first);
        assert(second =~= seq![second[0]] + rest_second);
    }
}

/// An ascending list is the listing of the set of its own names.
pub proof fn lemma_ascending_of_listing(list: Seq<Seq<char>>)
    requires
        is_ascending(list),
    ensures
        ascending(list.to_set()) == list,
{
    assert(lists(list, list.to_set()));
    lemma_ascending_unique(ascending(list.to_set()), list);
}

/// How many names at the head of a list come before `name`.
spec fn count_before(list: Seq<Seq<char>>, name: Seq<char>) -> int
    decreases list.len(),
{
    if list.len() > 0 && precedes(list[0], name) {
        1 + count_before(list.drop_first(), name)
    } else {
        0
    }
}

/// The names that `count_before` counts come before `name`, and the name
/// after them, if there is one, does not.
proof fn lemma_count_before(list: Seq<Seq<char>>, name: Seq<char>)
    ensures
        0 <= count_before(list, name) <= list.len(),
        forall|i: int| 0 <= i < count_before(list, name) ==> precedes(#[trigger] list[i], name),
        count_before(list, name) < list.len() ==> !precedes(
            list[count_before(list, name)],
            name,
        ),
    decreases list.len(),
{
    if list.len() > 0 && precedes(list[0], name) {
        let rest = list.drop_first();
        lemma_count_before(rest, name);
        assert forall|i: int| 0 <= i < count_before(list, name) implies precedes(
            #[trigger] list[i],
            name,
        ) by {
            if i > 0 {
                assert(list[i] == rest[i - 1]);
            }
        }
        if count_before(list, name) < list.len() {
            assert(list[count_before(list, name)] == rest[count_before(rest, name)]);
        }
    }
}

/// Every finite set of names has an ascending listing, and `ascending` is it.
pub proof fn lemma_ascending_lists(names: Set<Seq<char>>)
    requires
        names.finite(),
    ensures
        lists(ascending(names), names),
    decreases names.len(),
{
    if names.is_empty() {
        let none = Seq::<Seq<char>>::empty();
        assert(none.to_set() =~= names);
        assert(lists(none, names));
    } else {
        let name = names.choose();
        let others = names.remove(name);
        lemma_ascending_lists(others);
        let list = ascending(others);
        let at = count_before(list, name);
        lemma_count_before(list, name);
        if at < list.len() {
            assert(others.contains(list[at])) by {
                assert(list.contains(list[at]));
            }
            lemma_precedes_total(name, list[at]);
        }
        lemma_insert_keeps_ascending(list, name, at);
        lemma_insert_to_set(list, name, at);
        assert(others.insert(name) =~= names);
        assert(lists(list.insert(at, name), names));
    }
}

/// The names of a list with one more put in are those of the list, and that
/// one.
proof fn lemma_insert_to_set(list: Seq<Seq<char>>, name: Seq<char>, at: int)
    requires
        0 <= at <= list.len(),
    ensures
        list.insert(at, name).to_set() == list.to_set().insert(name),
{
    let longer = list.insert(at, name);
    assert forall|n: Seq<char>| longer.to_set().contains(n) == list.to_set().insert(name).contains(
        n,
    ) by {
        if longer.contains(n) {
            let k = choose|k: int| 0 <= k < longer.len() && longer[k] == n;
            if k < at {
                assert(list[k] == n);
            } else if k > at {
                assert(list[k - 1] == n);
            }
        }
        if list.contains(n) {
            let k = choose|k: int| 0 <= k < list.len() && list[k] == n;
            if k < at {
                assert(longer[k] == n);
            } else {
                assert(longer[k + 1] == n);
            }
        }
        if n == name {
            assert(longer[at] == n);
        }
    }
    assert(longer.to_set() =~= list.to_set().insert(name));
}

/// A finite set of names.
#[derive(Debug)]
pub struct NameSet {
    names: Vec<String>,
}

impl View for NameSet {
    type V = Set<Seq<char>>;

    closed spec fn view(&self) -> Set<Seq<char>> {
        texts(self.names@).to_set()
    }
}

impl NameSet {
    #[verifier::type_invariant]
    spec fn listed_ascending(&self) -> bool {
        is_ascending(texts(self.names@))
    }

    /// The set without names.
    pub fn new() -> (set: Self)
        ensures
            set@ == Set::<Seq<char>>::empty(),
    {
        let set = NameSet { names: Vec::new() };
        assert(set@ =~= Set::<Seq<char>>::empty());
        set
    }

    /// The number of names in the set.
    pub fn len(&self) -> (count: usize)
        ensures
            self@.finite(),
            count == self@.len(),
    {
        proof {
            use_type_invariant(self);
            lemma_ascending_no_duplicates(texts(self.names@));
            texts(self.names@).unique_seq_to_set();
        }
        self.names.len()
    }

    /// Whether the set holds no name.
    pub fn is_empty(&self) -> (empty: bool)
        ensures
            empty == (self@ == Set::<Seq<char>>::empty()),
    {
        proof {
            if self.names@.len() > 0 {
                assert(texts(self.names@)[0] == self.names@[0]@);
                assert(self@.contains(self.names@[0]@));
            } else {
                assert(self@ =~= Set::<Seq<char>>::empty());
            }
        }
        self.names.len() == 0
    }

    /// The place of `name` in the listing: the number of names that come
    /// before it, and whether the name at that place is `name` itself.
    fn place(&self, name: &str) -> (at: (usize, bool))
        ensures
            at.0 <= self.names@.len(),
            forall|i: int| 0 <= i < at.0 ==> precedes(#[trigger] texts(self.names@)[i], name@),
            at.1 ==> at.0 < self.names@.len() && texts(self.names@)[at.0 as int] == name@,
            !at.1 && at.0 < self.names@.len() ==> precedes(name@, texts(self.names@)[at.0 as int]),
            at.1 == self@.contains(name@),
    {
        proof {
            use_type_invariant(self);
        }
        let ghost list = texts(self.names@);
        let mut low: usize = 0;
        let mut high: usize = self.names.len();
        while low < high
            invariant
                low <= high <= self.names@.len(),
                list == texts(self.names@),
                is_ascending(list),
                forall|k: int| 0 <= k < low ==> precedes(#[trigger] list[k], name@),
                forall|k: int| high <= k < list.len() ==> precedes(name@, #[trigger] list[k]),
            decreases high - low,
        {
            let middle: usize = low + (high - low) / 2;
            assert(list[middle as int] == self.names@[middle as int]@);
            match rank_of(self.names[middle].as_str(), name) {
                Rank::Before => {
                    proof {
                        assert forall|k: int| 0 <= k < middle + 1 implies precedes(
                            #[trigger] list[k],
                            name@,
                        ) by {
                            if k < middle {
                                lemma_precedes_transitive(list[k], list[middle as int], name@);
                            }
                        }
                    }
                    low = middle + 1;
                },
                Rank::Same => {
                    proof {
                        assert(list.contains(name@));
                        assert forall|k: int| 0 <= k < middle implies precedes(
                            #[trigger] list[k],
                            name@,
                        ) by {
                            assert(precedes(list[k], list[middle as int]));
                        }
                    }
                    return (middle, true);
                },
                Rank::After => {
                    proof {
                        assert forall|k: int| middle <= k < list.len() implies precedes(
                            name@,
                            #[trigger] list[k],
                        ) by {
                            if middle < k {
                                lemma_precedes_transitive(name@, list[middle as int], list[k]);
                            }
                        }
                    }
                    high = middle;
                },
            }
        }
        proof {
            lemma_absent_between(list, name@, low as int);
        }
        (low, false)
    }

    /// Whether `name` is in the set.
    pub fn contains(&self, name: &str) -> (found: bool)
        ensures
            found == self@.contains(name@),
    {
        self.place(name).1
    }

    /// Adds `name` to the set. Returns whether it was new.
    pub fn insert(&mut self, name: String) -> (added: bool)
        ensures
            final(self)@ == old(self)@.insert(name@),
            added == !old(self)@.contains(name@),
    {
        proof {
            use_type_invariant(&*self);
        }
        let (at, found) = self.place(name.as_str());
        if found {
            assert(self@.insert(name@) =~= self@);
            return false;
        }
        let ghost before = texts(self.names@);
        let ghost added_name = name@;
        let mut names: Vec<String> = Vec::new();
        core::mem::swap(&mut self.names, &mut names);
        names.insert(at, name);
        proof {
            assert(texts(names@) =~= before.insert(at as int, added_name));
            lemma_insert_keeps_ascending(before, added_name, at as int);
        }
        core::mem::swap(&mut self.names, &mut names);
        proof {
            lemma_insert_to_set(before, added_name, at as int);
        }
        true
    }

    /// The set of the names in `names`, whatever their order, each once.
    pub fn from_vec(names: Vec<String>) -> (set: Self)
        ensures
            set@ == texts(names@).to_set(),
    {
        let ghost all = texts(names@);
        let mut rest = names;
        let mut set = NameSet::new();
        assert(all.skip(all.len() as int).to_set() =~= Set::<Seq<char>>::empty());
        while rest.len() > 0
            invariant
                rest@.len() <= all.len(),
                texts(rest@) == all.take(rest@.len() as int),
                set@ == all.skip(rest@.len() as int).to_set(),
            decreases rest@.len(),
        {
            let ghost count = rest@.len() as int;
            assert(texts(rest@)[count - 1] == rest@[count - 1]@);
            let name = rest.pop().unwrap();
            proof {
                assert(texts(rest@) =~= all.take(count - 1));
                lemma_skip_one_less(all, count - 1);
            }
            set.insert(name);
        }
        assert(all.skip(0) =~= all);
        set
    }

    /// The names of the set, in ascending order.
    pub fn names(&self) -> (list: &Vec<String>)
        ensures
            self@.finite(),
            texts(list@) == ascending(self@),
            lists(texts(list@), self@),
    {
        proof {
            use_type_invariant(self);
            lemma_ascending_of_listing(texts(self.names@));
        }
        &self.names
    }
}

impl Clone for NameSet {
    /// A set of the same names.
    fn clone(&self) -> (copy: Self)
        ensures
            copy@ == self@,
    {
        proof {
            use_type_invariant(self);
        }
        let mut names: Vec<String> = Vec::new();
        let mut i: usize = 0;
        while i < self.names.len()
            invariant
                i <= self.names@.len(),
                names@.len() == i,
                forall|k: int| 0 <= k < i ==> names@[k]@ == self.names@[k]@,
            decreases self.names@.len() - i,
        {
            names.push(self.names[i].clone());
            i = i + 1;
        }
        assert(texts(names@) =~= texts(self.names@));
        NameSet { names }
    }
}

impl PartialEq for NameSet {
    /// Two sets are equal when they hold the same names.
    fn eq(&self, other: &Self) -> (same: bool) {
        proof {
            use_type_invariant(self);
            use_type_invariant(other);
            lemma_ascending_no_duplicates(texts(self.names@));
            lemma_ascending_no_duplicates(texts(other.names@));
            texts(self.names@).unique_seq_to_set();
            texts(other.names@).unique_seq_to_set();
            if self@ == other@ {
                lemma_ascending_unique(texts(self.names@), texts(other.names@));
            }
        }
        if self.names.len() != other.names.len() {
            return false;
        }
        let mut i: usize = 0;
        while i < self.names.len()
            invariant
                i <= self.names@.len(),
                self.names@.len() == other.names@.len(),
                self@ == other@ ==> texts(self.names@) == texts(other.names@),
                forall|k: int| 0 <= k < i ==> self.names@[k]@ == other.names@[k]@,
            decreases self.names@.len() - i,
        {
            if !(self.names[i] == other.names[i]) {
                assert(texts(self.names@)[i as int] != texts(other.names@)[i as int]);
                return false;
            }
            i = i + 1;
        }
        assert(texts(self.names@) =~= texts(other.names@));
        true
    }
}

impl vstd::std_specs::cmp::PartialEqSpecImpl for NameSet {
    open spec fn obeys_eq_spec() -> bool {
        true
    }

    open spec fn eq_spec(&self, other: &Self) -> bool {
        self@ == other@
    }
}

/// The names among the first `count + 1` of a list are those among the
/// first `count`, and the one after them.
pub proof fn lemma_take_one_more(list: Seq<Seq<char>>, count: int)
    requires
        0 <= count < list.len(),
    ensures
        list.take(count + 1).to_set() == list.take(count).to_set().insert(list[count]),
{
    let shorter = list.take(count);
    let longer = list.take(count + 1);
    assert(longer =~= shorter.push(list[count]));
    assert forall|name: Seq<char>| longer.to_set().contains(name) == shorter.to_set().insert(
        list[count],
    ).contains(name) by {
        if longer.contains(name) {
            let k = choose|k: int| 0 <= k < longer.len() && longer[k] == name;
            if k < count {
                assert(shorter[k] == name);
            }
        }
        if shorter.contains(name) {
            let k = choose|k: int| 0 <= k < shorter.len() && shorter[k] == name;
            assert(longer[k] == name);
        }
        if name == list[count] {
            assert(longer[count] == name);
        }
    }
    assert(longer.to_set() =~= shorter.to_set().insert(list[count]));
}

/// The names of a list from place `from` on are those after that place, and
/// the one at it.
proof fn lemma_skip_one_less(list: Seq<Seq<char>>, from: int)
    requires
        0 <= from < list.len(),
    ensures
        list.skip(from).to_set() == list.skip(from + 1).to_set().insert(list[from]),
{
    let longer = list.skip(from);
    let shorter = list.skip(from + 1);
    assert forall|name: Seq<char>| longer.to_set().contains(name) == shorter.to_set().insert(
        list[from],
    ).contains(name) by {
        if longer.contains(name) {
            let k = choose|k: int| 0 <= k < longer.len() && longer[k] == name;
            if k > 0 {
                assert(shorter[k - 1] == name);
            }
        }
        if shorter.contains(name) {
            let k = choose|k: int| 0 <= k < shorter.len() && shorter[k] == name;
            assert(longer[k + 1] == name);
        }
        if name == list[from] {
            assert(longer[0] == name);
        }
    }
    assert(longer.to_set() =~= shorter.to_set().insert(list[from]));
}

/// A name that is not at place `at` of an ascending list, while all names
/// earlier in the list come before it and the name at `at` comes after it,
/// is not in the list.
proof fn lemma_absent_between(list: Seq<Seq<char>>, name: Seq<char>, at: int)
    requires
        is_ascending(list),
        0 <= at <= list.len(),
        forall|i: int| 0 <= i < at ==> precedes(#[trigger] list[i], name),
        at < list.len() ==> precedes(name, list[at]),
    ensures
        !list.to_set().contains(name),
{
    if list.contains(name) {
        let k = choose|k: int| 0 <= k < list.len() && list[k] == name;
        if k < at {
            lemma_precedes_asymmetric(list[k], name);
        } else if k == at {
            lemma_precedes_asymmetric(name, list[at]);
        } else {
            assert(precedes(list[at], list[k]));
            lemma_precedes_asymmetric(name, list[at]);
        }
    }
}

/// Putting a name at its place in an ascending list leaves the list ascending.
proof fn lemma_insert_keeps_ascending(list: Seq<Seq<char>>, name: Seq<char>, at: int)
    requires
        is_ascending(list),
        0 <= at <= list.len(),
        forall|i: int| 0 <= i < at ==> precedes(#[trigger] list[i], name),
        at < list.len() ==> precedes(name, list[at]),
    ensures
        is_ascending(list.insert(at, name)),
{
    let longer = list.insert(at, name);
    assert forall|i: int, j: int| 0 <= i < j < longer.len() implies precedes(
        #[trigger] longer[i],
        #[trigger] longer[j],
    ) by {
        if j < at {
            assert(precedes(list[i], list[j]));
        } else if j == at {
            assert(precedes(list[i], name));
        } else if i == at {
            if j - 1 > at {
                assert(precedes(list[at], list[j - 1]));
                lemma_precedes_transitive(name, list[at], list[j - 1]);
            }
        } else if i < at {
            assert(precedes(list[i], list[j - 1]));
        } else {
            assert(precedes(list[i - 1], list[j - 1]));
        }
    }
}

} // verus!
