//! Names as sequences of characters: qualification by a prefix, prefix tests,
//! and the order in which names are listed.

use vstd::prelude::*;
use vstd::std_specs::iter::IteratorSpec;

verus! {

/// The qualified form of a bare name: the prefix followed by the name.
pub open spec fn qualify(prefix: Seq<char>, bare: Seq<char>) -> Seq<char> {
    prefix + bare
}

/// Builds the qualified form of `bare` under `prefix`, by plain concatenation.
pub fn qualified_name(prefix: &str, bare: &str) -> (name: String)
    ensures
        name@ == qualify(prefix@, bare@),
{
    let mut name = String::from_str(prefix);
    name.append(bare);
    name
}

/// Whether `name` begins with `prefix`, character for character.
pub fn starts_with(name: &str, prefix: &str) -> (found: bool)
    ensures
        found == prefix@.is_prefix_of(name@),
{
    let mut rest_name = name.chars();
    let mut rest_prefix = prefix.chars();
    let ghost mut seen: int = 0;
    loop
        invariant
            0 <= seen <= prefix@.len(),
            seen <= name@.len(),
            rest_name.remaining() == name@.skip(seen),
            rest_prefix.remaining() == prefix@.skip(seen),
            name@.take(seen) == prefix@.take(seen),
        decreases prefix@.len() - seen,
    {
        match rest_prefix.next() {
            None => {
                assert(prefix@ =~= prefix@.take(seen));
                assert(name@.subrange(0, prefix@.len() as int) =~= name@.take(seen));
                return true;
            },
            Some(expected) => {
                match rest_name.next() {
                    None => {
                        return false;
                    },
                    Some(actual) => {
                        if actual != expected {
                            assert(name@[seen] != prefix@[seen]);
                            return false;
                        }
                        proof {
                            assert(name@.take(seen + 1) =~= name@.take(seen).push(name@[seen]));
                            assert(prefix@.take(seen + 1) =~= prefix@.take(seen).push(prefix@[seen]));
                            assert(name@.skip(seen).drop_first() =~= name@.skip(seen + 1));
                            assert(prefix@.skip(seen).drop_first() =~= prefix@.skip(seen + 1));
                            seen = seen + 1;
                        }
                    },
                }
            },
        }
    }
}

/// Whether position `at` decides that `a` comes before `b`: the two agree on
/// all earlier characters, and there `a` ends while `b` goes on, or holds the
/// character with the smaller code point.
pub open spec fn decides_before(a: Seq<char>, b: Seq<char>, at: int) -> bool {
    &&& 0 <= at <= a.len()
    &&& at < b.len()
    &&& a.take(at) == b.take(at)
    &&& at < a.len() ==> a[at] < b[at]
}

/// The order in which names are listed: lexicographic, character by
/// character, by code point. A proper prefix comes before its extensions.
pub open spec fn precedes(a: Seq<char>, b: Seq<char>) -> bool {
    exists|at: int| decides_before(a, b, at)
}

/// Where one name stands relative to another in the listing order.
#[derive(Clone, Copy, Debug, PartialEq, Eq, Structural)]
pub enum Rank {
    Before,
    Same,
    After,
}

/// What each `Rank` says of two names.
pub open spec fn ranks(a: Seq<char>, b: Seq<char>, rank: Rank) -> bool {
    match rank {
        Rank::Before => precedes(a, b),
        Rank::Same => a == b,
        Rank::After => precedes(b, a),
    }
}

/// Where `a` stands relative to `b`.
pub open spec fn order_of(a: Seq<char>, b: Seq<char>) -> Rank {
    if a == b {
        Rank::Same
    } else if precedes(a, b) {
        Rank::Before
    } else {
        Rank::After
    }
}

/// Compares two names in the listing order.
pub fn rank_of(a: &str, b: &str) -> (rank: Rank)
    ensures
        rank == order_of(a@, b@),
        ranks(a@, b@, rank),
{
    let mut rest_a = a.chars();
    let mut rest_b = b.chars();
    let ghost mut seen: int = 0;
    loop
        invariant
            0 <= seen <= a@.len(),
            seen <= b@.len(),
            rest_a.remaining() == a@.skip(seen),
            rest_b.remaining() == b@.skip(seen),
            a@.take(seen) == b@.take(seen),
        decreases a@.len() - seen,
    {
        let next_a = rest_a.next();
        let next_b = rest_b.next();
        match (next_a, next_b) {
            (None, None) => {
                assert(a@ =~= a@.take(seen));
                assert(b@ =~= b@.take(seen));
                return Rank::Same;
            },
            (None, Some(_)) => {
                assert(decides_before(a@, b@, seen));
                return Rank::Before;
            },
            (Some(_), None) => {
                assert(decides_before(b@, a@, seen));
                proof {
                    lemma_precedes_asymmetric(b@, a@);
                }
                return Rank::After;
            },
            (Some(in_a), Some(in_b)) => {
                if in_a < in_b {
                    assert(decides_before(a@, b@, seen));
                    return Rank::Before;
                }
                if in_b < in_a {
                    assert(decides_before(b@, a@, seen));
                    proof {
                        lemma_precedes_asymmetric(b@, a@);
                    }
                    return Rank::After;
                }
                proof {
                    assert(in_a == in_b);
                    assert(a@.take(seen + 1) =~= a@.take(seen).push(a@[seen]));
                    assert(b@.take(seen + 1) =~= b@.take(seen).push(b@[seen]));
                    assert(a@.skip(seen).drop_first() =~= a@.skip(seen + 1));
                    assert(b@.skip(seen).drop_first() =~= b@.skip(seen + 1));
                    seen = seen + 1;
                }
            },
        }
    }
}

/// Whether two names are the same, character for character.
pub fn same_name(a: &str, b: &str) -> (same: bool)
    ensures
        same == (a@ == b@),
{
    match rank_of(a, b) {
        Rank::Same => true,
        _ => false,
    }
}

/// No name comes before itself.
pub proof fn lemma_precedes_irreflexive(a: Seq<char>)
    ensures
        !precedes(a, a),
{
}

/// Of two names, at most one comes before the other.
pub proof fn lemma_precedes_asymmetric(a: Seq<char>, b: Seq<char>)
    requires
        precedes(a, b),
    ensures
        !precedes(b, a),
{
    if precedes(b, a) {
        let i = choose|at: int| decides_before(a, b, at);
        let j = choose|at: int| decides_before(b, a, at);
        if i < j {
            assert(b.take(j)[i] == a.take(j)[i]);
        } else if j < i {
            assert(a.take(i)[j] == b.take(i)[j]);
        }
    }
}

/// The listing order is transitive.
pub proof fn lemma_precedes_transitive(a: Seq<char>, b: Seq<char>, c: Seq<char>)
    requires
        precedes(a, b),
        precedes(b, c),
    ensures
        precedes(a, c),
{
    let i = choose|at: int| decides_before(a, b, at);
    let j = choose|at: int| decides_before(b, c, at);
    let k = if i <= j { i } else { j };
    assert(a.take(k) =~= c.take(k)) by {
        assert forall|n: int| 0 <= n < k implies a[n] == c[n] by {
            assert(a.take(i)[n] == b.take(i)[n]);
            assert(b.take(j)[n] == c.take(j)[n]);
        }
    }
    if i < j {
        assert(b.take(j)[i] == c.take(j)[i]);
    } else if j < i {
        assert(a.take(i)[j] == b.take(i)[j]);
    }
    assert(decides_before(a, c, k));
}

/// Any two names are ordered one way, the other, or are the same name.
pub proof fn lemma_precedes_total(a: Seq<char>, b: Seq<char>)
    ensures
        precedes(a, b) || a == b || precedes(b, a),
    decreases a.len(),
{
    if a.len() == 0 {
        if b.len() == 0 {
            assert(a =~= b);
        } else {
            assert(a.take(0) =~= b.take(0));
            assert(decides_before(a, b, 0));
        }
    } else if b.len() == 0 {
        assert(a.take(0) =~= b.take(0));
        assert(decides_before(b, a, 0));
    } else if a[0] != b[0] {
        assert(a.take(0) =~= b.take(0));
        if a[0] < b[0] {
            assert(decides_before(a, b, 0));
        } else {
            assert(decides_before(b, a, 0));
        }
    } else {
        let ta = a.drop_first();
        let tb = b.drop_first();
        lemma_precedes_total(ta, tb);
        if ta == tb {
            assert(a =~= seq![a[0]] + ta);
            assert(b =~= seq![b[0]] + tb);
        } else if precedes(ta, tb) {
            let at = choose|at: int| decides_before(ta, tb, at);
            assert(a.take(at + 1) =~= seq![a[0]] + ta.take(at));
            assert(b.take(at + 1) =~= seq![b[0]] + tb.take(at));
            assert(decides_before(a, b, at + 1));
        } else {
            let at = choose|at: int| decides_before(tb, ta, at);
            assert(a.take(at + 1) =~= seq![a[0]] + ta.take(at));
            assert(b.take(at + 1) =~= seq![b[0]] + tb.take(at));
            assert(decides_before(b, a, at + 1));
        }
    }
}

} // verus!
