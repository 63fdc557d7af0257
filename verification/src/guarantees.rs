//! What validation guarantees, stated over sets of names and proved from the
//! definitions in `environment`.

use vstd::prelude::*;
use crate::controller::{AppError, AppErrorView};
use crate::environment::{
    classify, extra_error, extra_names, missing_error, missing_names, outcome_view, provided_names,
    qualified_names, validation, OutcomeView,
};
use crate::text::qualify;

verus! {

/// The qualified forms of a set of bare names.
pub open spec fn qualified_set(names: Set<Seq<char>>, prefix: Seq<char>) -> Set<Seq<char>> {
    Set::new(
        |full: Seq<char>| exists|bare: Seq<char>| names.contains(bare) && full == qualify(prefix, bare),
    )
}

/// Two bare names with the same qualified form are the same name.
pub proof fn lemma_qualify_injective(prefix: Seq<char>, first: Seq<char>, second: Seq<char>)
    requires
        qualify(prefix, first) == qualify(prefix, second),
    ensures
        first == second,
{
    let full_first = qualify(prefix, first);
    let full_second = qualify(prefix, second);
    assert(full_first.skip(prefix.len() as int) =~= first);
    assert(full_second.skip(prefix.len() as int) =~= second);
}

/// The qualified names of a list are the qualified forms of the set of its
/// names: order and repetition in the list play no part.
pub proof fn lemma_qualified_names_of_set(bare: Seq<Seq<char>>, prefix: Seq<char>)
    ensures
        qualified_names(bare, prefix) == qualified_set(bare.to_set(), prefix),
{
    let full = bare.map_values(|name: Seq<char>| qualify(prefix, name));
    assert forall|name: Seq<char>| full.to_set().contains(name) == qualified_set(
        bare.to_set(),
        prefix,
    ).contains(name) by {
        if full.contains(name) {
            let i = choose|i: int| 0 <= i < full.len() && full[i] == name;
            assert(bare.contains(bare[i]));
            assert(name == qualify(prefix, bare[i]));
        }
        if qualified_set(bare.to_set(), prefix).contains(name) {
            let short = choose|short: Seq<char>|
                bare.to_set().contains(short) && name == qualify(prefix, short);
            let i = choose|i: int| 0 <= i < bare.len() && bare[i] == short;
            assert(full[i] == name);
        }
    }
    assert(qualified_names(bare, prefix) =~= qualified_set(bare.to_set(), prefix));
}

/// Where the required names fall into those that are set and those that are
/// not, and the environment provides exactly the qualified forms of the
/// former, the missing names are exactly the qualified forms of the latter:
/// validation reports them, and succeeds if and only if there is none.
pub proof fn lemma_unset_names_are_missing(
    bare: Seq<Seq<char>>,
    prefix: Seq<char>,
    keys: Seq<Seq<char>>,
    unset: Set<Seq<char>>,
    set: Set<Seq<char>>,
)
    requires
        unset.disjoint(set),
        bare.to_set() == unset.union(set),
        provided_names(keys, prefix) == qualified_set(set, prefix),
    ensures
        missing_names(bare, provided_names(keys, prefix), prefix) == qualified_set(unset, prefix),
        unset.is_empty() ==> validation(bare, prefix, keys) == Ok::<(), AppErrorView>(()),
        !unset.is_empty() ==> validation(bare, prefix, keys) == Err::<(), AppErrorView>(
            missing_error(qualified_set(unset, prefix)),
        ),
        validation(bare, prefix, keys) is Ok <==> unset.is_empty(),
{
    let provided = provided_names(keys, prefix);
    let required = qualified_names(bare, prefix);
    let missing = missing_names(bare, provided, prefix);
    lemma_qualified_names_of_set(bare, prefix);
    assert forall|name: Seq<char>| missing.contains(name) == qualified_set(unset, prefix).contains(
        name,
    ) by {
        if missing.contains(name) {
            let short = choose|short: Seq<char>|
                bare.to_set().contains(short) && name == qualify(prefix, short);
            if set.contains(short) {
                assert(qualified_set(set, prefix).contains(name));
            }
            assert(unset.contains(short));
        }
        if qualified_set(unset, prefix).contains(name) {
            let short = choose|short: Seq<char>| unset.contains(short) && name == qualify(prefix, short);
            assert(bare.to_set().contains(short));
            assert(required.contains(name));
            if provided.contains(name) {
                let other = choose|other: Seq<char>|
                    set.contains(other) && name == qualify(prefix, other);
                lemma_qualify_injective(prefix, short, other);
            }
        }
    }
    assert(missing =~= qualified_set(unset, prefix));
    if unset.is_empty() {
        assert(missing =~= Set::<Seq<char>>::empty());
        let extra = extra_names(bare, provided, prefix);
        assert forall|name: Seq<char>| !extra.contains(name) by {
            if provided.contains(name) {
                let short = choose|short: Seq<char>| set.contains(short) && name == qualify(prefix, short);
                assert(bare.to_set().contains(short));
                assert(required.contains(name));
            }
        }
        assert(extra =~= Set::<Seq<char>>::empty());
    } else {
        let short = choose|short: Seq<char>| unset.contains(short);
        assert(qualified_set(unset, prefix).contains(qualify(prefix, short)));
    }
}

/// Where the environment provides exactly the qualified forms of the required
/// names, validation succeeds.
pub proof fn lemma_exact_environment_is_valid(
    bare: Seq<Seq<char>>,
    prefix: Seq<char>,
    keys: Seq<Seq<char>>,
)
    requires
        provided_names(keys, prefix) == qualified_names(bare, prefix),
    ensures
        validation(bare, prefix, keys) == Ok::<(), AppErrorView>(()),
{
    let provided = provided_names(keys, prefix);
    assert(missing_names(bare, provided, prefix) =~= Set::<Seq<char>>::empty());
    assert(extra_names(bare, provided, prefix) =~= Set::<Seq<char>>::empty());
}

/// Where the environment provides the qualified form of every required name
/// and other names besides, validation fails with the error that reports
/// exactly those other names as extra.
pub proof fn lemma_surplus_names_are_extra(
    bare: Seq<Seq<char>>,
    prefix: Seq<char>,
    keys: Seq<Seq<char>>,
)
    requires
        qualified_names(bare, prefix).subset_of(provided_names(keys, prefix)),
        qualified_names(bare, prefix) != provided_names(keys, prefix),
    ensures
        classify(bare, provided_names(keys, prefix), prefix) == OutcomeView::ExtraVariables(
            provided_names(keys, prefix).difference(qualified_names(bare, prefix)),
        ),
        validation(bare, prefix, keys) == Err::<(), AppErrorView>(
            extra_error(provided_names(keys, prefix).difference(qualified_names(bare, prefix))),
        ),
{
    let provided = provided_names(keys, prefix);
    let required = qualified_names(bare, prefix);
    assert(missing_names(bare, provided, prefix) =~= Set::<Seq<char>>::empty());
    let extra = extra_names(bare, provided, prefix);
    if extra.is_empty() {
        assert forall|name: Seq<char>| provided.contains(name) == required.contains(name) by {
            if provided.contains(name) && !required.contains(name) {
                assert(extra.contains(name));
            }
        }
        assert(provided =~= required);
    }
}

/// Where names are missing and other names are extra at once, validation
/// reports the missing names, not the extra ones.
pub proof fn lemma_missing_reported_first(
    bare: Seq<Seq<char>>,
    prefix: Seq<char>,
    keys: Seq<Seq<char>>,
)
    requires
        !missing_names(bare, provided_names(keys, prefix), prefix).is_empty(),
        !extra_names(bare, provided_names(keys, prefix), prefix).is_empty(),
    ensures
        classify(bare, provided_names(keys, prefix), prefix) == OutcomeView::MissingVariables(
            missing_names(bare, provided_names(keys, prefix), prefix),
        ),
        validation(bare, prefix, keys) == Err::<(), AppErrorView>(
            missing_error(missing_names(bare, provided_names(keys, prefix), prefix)),
        ),
        validation(bare, prefix, keys) != Err::<(), AppErrorView>(
            extra_error(extra_names(bare, provided_names(keys, prefix), prefix)),
        ),
{
}

/// Validation keeps nothing between calls: two outcomes of validating the
/// same required names, prefix and environment are equal.
pub proof fn lemma_validation_repeatable(
    first: Result<(), AppError>,
    second: Result<(), AppError>,
    bare: Seq<Seq<char>>,
    prefix: Seq<char>,
    keys: Seq<Seq<char>>,
)
    requires
        outcome_view(first) == validation(bare, prefix, keys),
        outcome_view(second) == validation(bare, prefix, keys),
    ensures
        outcome_view(first) == outcome_view(second),
        first is Ok <==> second is Ok,
        first is Err ==> first->Err_0@ == second->Err_0@,
{
}

} // verus!
