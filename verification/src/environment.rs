//! Reconciliation of the variables that the environment provides under the
//! application's prefix with the variables that the application requires.

use vstd::prelude::*;
use crate::constants::{ENV_VAR_PREFIX, REQUIRED_ENV_VARS};
use crate::controller::{AppError, AppErrorView, ErrorKind, ErrorKindView};
use crate::names::{ascending, lemma_take_one_more, texts, NameSet};
use crate::text::{qualified_name, qualify, same_name, starts_with};

verus! {

/// The keys of an environment, in the order of its entries.
pub open spec fn keys(environment: Seq<(String, String)>) -> Seq<Seq<char>> {
    environment.map_values(|entry: (String, String)| entry.0@)
}

/// The characters of each name of a list of required names.
pub open spec fn bare_names(required: Seq<&str>) -> Seq<Seq<char>> {
    required.map_values(|name: &str| name@)
}

/// The provided names: the keys that begin with the prefix.
pub open spec fn provided_names(keys: Seq<Seq<char>>, prefix: Seq<char>) -> Set<Seq<char>> {
    keys.to_set().filter(|key: Seq<char>| prefix.is_prefix_of(key))
}

/// The required names in qualified form. A bare name that is listed more than
/// once counts once.
pub open spec fn qualified_names(bare: Seq<Seq<char>>, prefix: Seq<char>) -> Set<Seq<char>> {
    bare.map_values(|name: Seq<char>| qualify(prefix, name)).to_set()
}

/// Collects the keys of `environment` that begin with `app_var_prefix`.
/// The values play no part: a variable that is set to the empty string is
/// provided.
pub fn collect_provided_vars(environment: &[(String, String)], app_var_prefix: &str) -> (provided:
    NameSet)
    ensures
        provided@ == provided_names(keys(environment@), app_var_prefix@),
{
    let ghost all = keys(environment@);
    let mut provided = NameSet::new();
    let mut i: usize = 0;
    while i < environment.len()
        invariant
            i <= environment@.len(),
            all == keys(environment@),
            provided@ == provided_names(all.take(i as int), app_var_prefix@),
        decreases environment@.len() - i,
    {
        proof {
            lemma_take_one_more(all, i as int);
        }
        let key = &environment[i].0;
        if starts_with(key.as_str(), app_var_prefix) {
            provided.insert(key.clone());
        }
        assert(provided@ =~= provided_names(all.take(i + 1), app_var_prefix@));
        i = i + 1;
    }
    assert(all.take(i as int) =~= all);
    provided
}

/// Qualifies every required name with the prefix.
pub fn qualify_all(required_vars: &[&str], app_var_prefix: &str) -> (qualified: NameSet)
    ensures
        qualified@ == qualified_names(bare_names(required_vars@), app_var_prefix@),
{
    let ghost full = bare_names(required_vars@).map_values(
        |name: Seq<char>| qualify(app_var_prefix@, name),
    );
    let mut qualified = NameSet::new();
    let mut i: usize = 0;
    while i < required_vars.len()
        invariant
            i <= required_vars@.len(),
            full == bare_names(required_vars@).map_values(
                |name: Seq<char>| qualify(app_var_prefix@, name),
            ),
            qualified@ == full.take(i as int).to_set(),
        decreases required_vars@.len() - i,
    {
        proof {
            lemma_take_one_more(full, i as int);
        }
        qualified.insert(qualified_name(app_var_prefix, required_vars[i]));
        i = i + 1;
    }
    assert(full.take(i as int) =~= full);
    qualified
}

/// The names of a list one after the other, with the separator between each
/// two neighbours.
pub open spec fn joined(names: Seq<Seq<char>>, separator: Seq<char>) -> Seq<char>
    decreases names.len(),
{
    if names.len() == 0 {
        Seq::empty()
    } else if names.len() == 1 {
        names[0]
    } else {
        joined(names.drop_last(), separator) + separator + names.last()
    }
}

/// Writes the names of a list one after the other, with the separator between
/// each two neighbours.
pub fn join(names: &Vec<String>, separator: &str) -> (line: String)
    ensures
        line@ == joined(texts(names@), separator@),
{
    let ghost list = texts(names@);
    let mut line = String::new();
    let mut i: usize = 0;
    while i < names.len()
        invariant
            i <= names@.len(),
            list == texts(names@),
            line@ == joined(list.take(i as int), separator@),
        decreases names@.len() - i,
    {
        proof {
            let longer = list.take(i + 1);
            assert(longer.drop_last() =~= list.take(i as int));
            assert(longer.last() == names@[i as int]@);
            if i == 0 {
                assert(line@ + names@[0]@ =~= names@[0]@);
            }
        }
        if i > 0 {
            line.append(separator);
        }
        line.append(names[i].as_str());
        i = i + 1;
    }
    assert(list.take(i as int) =~= list);
    line
}

/// The text that reports the missing names: ascending, separated by a comma
/// and a space.
pub open spec fn missing_message(missing: Set<Seq<char>>) -> Seq<char> {
    "Missing required environment variables: "@ + joined(ascending(missing), ", "@)
}

/// The text that reports the extra names: ascending, separated by a comma and
/// a space, and closed by a full stop.
pub open spec fn extra_message(extra: Set<Seq<char>>) -> Seq<char> {
    "Extra variables not in REQUIRED_ENV_VARS detected: "@ + joined(ascending(extra), ", "@)
        + "."@
}

/// The error that reports a set of missing names.
pub open spec fn missing_error(missing: Set<Seq<char>>) -> AppErrorView {
    AppErrorView { kind: ErrorKindView::MissingEnvVars(missing_message(missing)), cause: None }
}

/// The error that reports a set of extra names.
pub open spec fn extra_error(extra: Set<Seq<char>>) -> AppErrorView {
    AppErrorView { kind: ErrorKindView::ExtraEnvVars(extra_message(extra)), cause: None }
}

/// A result of validation with its error as a view.
pub open spec fn outcome_view(outcome: Result<(), AppError>) -> Result<(), AppErrorView> {
    match outcome {
        Ok(()) => Ok(()),
        Err(error) => Err(error@),
    }
}

/// The missing names: required, in qualified form, and not provided.
pub open spec fn missing_names(
    bare: Seq<Seq<char>>,
    provided: Set<Seq<char>>,
    prefix: Seq<char>,
) -> Set<Seq<char>> {
    qualified_names(bare, prefix).difference(provided)
}

/// The extra names: provided, and not the qualified form of a required name.
pub open spec fn extra_names(
    bare: Seq<Seq<char>>,
    provided: Set<Seq<char>>,
    prefix: Seq<char>,
) -> Set<Seq<char>> {
    provided.difference(qualified_names(bare, prefix))
}

/// The check for missing names: it fails exactly when there is one, with the
/// error that reports them all.
pub open spec fn missing_check(
    bare: Seq<Seq<char>>,
    provided: Set<Seq<char>>,
    prefix: Seq<char>,
) -> Result<(), AppErrorView> {
    let missing = missing_names(bare, provided, prefix);
    if missing.is_empty() {
        Ok(())
    } else {
        Err(missing_error(missing))
    }
}

/// The check for extra names: it fails exactly when there is one, with the
/// error that reports them all.
pub open spec fn extra_check(
    bare: Seq<Seq<char>>,
    provided: Set<Seq<char>>,
    prefix: Seq<char>,
) -> Result<(), AppErrorView> {
    let extra = extra_names(bare, provided, prefix);
    if extra.is_empty() {
        Ok(())
    } else {
        Err(extra_error(extra))
    }
}

/// The error for an environment file at `path` that could not be loaded,
/// with the loader's message as its cause.
pub fn env_file_error(path: &str, cause: String) -> (error: AppError)
    ensures
        error@ == (AppErrorView {
            kind: ErrorKindView::InvalidEnvFile(
                "Environment file is invalid at provided path: "@ + path@ + "."@,
            ),
            cause: Some(cause@),
        }),
{
    let mut message = String::from_str("Environment file is invalid at provided path: ");
    message.append(path);
    message.append(".");
    AppError::new(ErrorKind::InvalidEnvFile(message), Some(cause))
}

/// The error that reports the names of `missing` as missing.
pub fn missing_report(missing: &NameSet) -> (error: AppError)
    ensures
        error@ == missing_error(missing@),
{
    let mut message = String::from_str("Missing required environment variables: ");
    message.append(join(missing.names(), ", ").as_str());
    AppError::new(ErrorKind::MissingEnvVars(message), None)
}

/// The error that reports the names of `extra` as extra.
pub fn extra_report(extra: &NameSet) -> (error: AppError)
    ensures
        error@ == extra_error(extra@),
{
    let mut err_msg = String::from_str("Extra variables not in REQUIRED_ENV_VARS detected: ");
    err_msg.append(join(extra.names(), ", ").as_str());
    err_msg.append(".");
    AppError::new(ErrorKind::ExtraEnvVars(err_msg), None)
}

/// The required names, in qualified form, that `provided_vars` lacks.
pub fn missing_vars(required_vars: &[&str], provided_vars: &NameSet, app_var_prefix: &str) -> (missing:
    NameSet)
    ensures
        missing@ == missing_names(bare_names(required_vars@), provided_vars@, app_var_prefix@),
{
    let full_var_names = qualify_all(required_vars, app_var_prefix);
    crate::find_missing(&full_var_names, provided_vars)
}

/// Checks that every required variable is provided. The names that are not
/// are reported together, in qualified form.
pub fn check_env(required_vars: &[&str], provided_vars: &NameSet, app_var_prefix: &str) -> (outcome:
    Result<(), AppError>)
    ensures
        outcome_view(outcome) == missing_check(
            bare_names(required_vars@),
            provided_vars@,
            app_var_prefix@,
        ),
{
    let missing = missing_vars(required_vars, provided_vars, app_var_prefix);
    if !missing.is_empty() {
        return Err(missing_report(&missing));
    }
    Ok(())
}

/// Whether `var` is the qualified form of one of the required names.
pub fn is_required_var(var: &str, required_vars: &[&str], app_var_prefix: &str) -> (required: bool)
    ensures
        required == qualified_names(bare_names(required_vars@), app_var_prefix@).contains(var@),
{
    let ghost full = bare_names(required_vars@).map_values(
        |name: Seq<char>| qualify(app_var_prefix@, name),
    );
    let mut i: usize = 0;
    while i < required_vars.len()
        invariant
            i <= required_vars@.len(),
            full == bare_names(required_vars@).map_values(
                |name: Seq<char>| qualify(app_var_prefix@, name),
            ),
            forall|k: int| 0 <= k < i ==> full[k] != var@,
        decreases required_vars@.len() - i,
    {
        let full_name = qualified_name(app_var_prefix, required_vars[i]);
        if same_name(full_name.as_str(), var) {
            assert(full[i as int] == var@);
            assert(full.contains(var@));
            return true;
        }
        i = i + 1;
    }
    false
}

/// The provided names that are not the qualified form of a required name.
pub fn extra_vars(required_vars: &[&str], provided_vars: &NameSet, app_var_prefix: &str) -> (extra:
    NameSet)
    ensures
        extra@ == extra_names(bare_names(required_vars@), provided_vars@, app_var_prefix@),
{
    let provided = provided_vars.names();
    let ghost list = texts(provided@);
    let ghost required = qualified_names(bare_names(required_vars@), app_var_prefix@);
    let mut extra = NameSet::new();
    let mut i: usize = 0;
    while i < provided.len()
        invariant
            i <= provided@.len(),
            list == texts(provided@),
            list.to_set() == provided_vars@,
            required == qualified_names(bare_names(required_vars@), app_var_prefix@),
            extra@ == list.take(i as int).to_set().difference(required),
        decreases provided@.len() - i,
    {
        proof {
            lemma_take_one_more(list, i as int);
        }
        if !is_required_var(provided[i].as_str(), required_vars, app_var_prefix) {
            extra.insert(provided[i].clone());
        }
        assert(extra@ =~= list.take(i + 1).to_set().difference(required));
        i = i + 1;
    }
    assert(list.take(i as int) =~= list);
    extra
}

/// Checks that no provided variable is outside the required ones. The names
/// that are are reported together.
pub fn print_extra_vars(
    required_vars: &[&str],
    provided_vars: &NameSet,
    app_var_prefix: &str,
) -> (outcome: Result<(), AppError>)
    ensures
        outcome_view(outcome) == extra_check(
            bare_names(required_vars@),
            provided_vars@,
            app_var_prefix@,
        ),
{
    let extra = extra_vars(required_vars, provided_vars, app_var_prefix);
    if !extra.is_empty() {
        return Err(extra_report(&extra));
    }
    Ok(())
}

/// How a reconciliation ends.
#[derive(Debug)]
pub enum ValidationOutcome {
    /// Every required variable is provided, and no other.
    Valid,
    /// These required variables, in qualified form, are not provided.
    MissingVariables(NameSet),
    /// Every required variable is provided, and so are these others.
    ExtraVariables(NameSet),
}

/// A `ValidationOutcome` with its names as a set.
pub enum OutcomeView {
    Valid,
    MissingVariables(Set<Seq<char>>),
    ExtraVariables(Set<Seq<char>>),
}

impl View for ValidationOutcome {
    type V = OutcomeView;

    open spec fn view(&self) -> OutcomeView {
        match self {
            ValidationOutcome::Valid => OutcomeView::Valid,
            ValidationOutcome::MissingVariables(missing) => OutcomeView::MissingVariables(missing@),
            ValidationOutcome::ExtraVariables(extra) => OutcomeView::ExtraVariables(extra@),
        }
    }
}

impl OutcomeView {
    /// The outcome as success or the error that reports it.
    pub open spec fn result(self) -> Result<(), AppErrorView> {
        match self {
            OutcomeView::Valid => Ok(()),
            OutcomeView::MissingVariables(missing) => Err(missing_error(missing)),
            OutcomeView::ExtraVariables(extra) => Err(extra_error(extra)),
        }
    }
}

/// The outcome of reconciling the required names with the provided ones.
/// Missing names are looked for first; extra names are reported only when
/// none is missing.
pub open spec fn classify(
    bare: Seq<Seq<char>>,
    provided: Set<Seq<char>>,
    prefix: Seq<char>,
) -> OutcomeView {
    let missing = missing_names(bare, provided, prefix);
    let extra = extra_names(bare, provided, prefix);
    if !missing.is_empty() {
        OutcomeView::MissingVariables(missing)
    } else if !extra.is_empty() {
        OutcomeView::ExtraVariables(extra)
    } else {
        OutcomeView::Valid
    }
}

/// The outcome of validating an environment with the given keys.
pub open spec fn validation(
    bare: Seq<Seq<char>>,
    prefix: Seq<char>,
    keys: Seq<Seq<char>>,
) -> Result<(), AppErrorView> {
    classify(bare, provided_names(keys, prefix), prefix).result()
}

impl ValidationOutcome {
    /// Success, or the error that reports the outcome.
    pub fn into_result(self) -> (outcome: Result<(), AppError>)
        ensures
            outcome_view(outcome) == self@.result(),
    {
        match self {
            ValidationOutcome::Valid => Ok(()),
            ValidationOutcome::MissingVariables(missing) => Err(missing_report(&missing)),
            ValidationOutcome::ExtraVariables(extra) => Err(extra_report(&extra)),
        }
    }
}

/// Reconciles the required names with the provided ones.
pub fn reconcile(required_vars: &[&str], provided_vars: &NameSet, app_var_prefix: &str) -> (outcome:
    ValidationOutcome)
    ensures
        outcome@ == classify(bare_names(required_vars@), provided_vars@, app_var_prefix@),
{
    let missing = missing_vars(required_vars, provided_vars, app_var_prefix);
    if !missing.is_empty() {
        return ValidationOutcome::MissingVariables(missing);
    }
    let extra = extra_vars(required_vars, provided_vars, app_var_prefix);
    if !extra.is_empty() {
        return ValidationOutcome::ExtraVariables(extra);
    }
    ValidationOutcome::Valid
}

/// Validates an environment: every required variable must be set under the
/// prefix, and no other variable may carry the prefix. Missing variables are
/// reported before extra ones.
pub fn validate(required: &[&str], prefix: &str, environment: &[(String, String)]) -> (outcome:
    Result<(), AppError>)
    ensures
        outcome_view(outcome) == validation(bare_names(required@), prefix@, keys(environment@)),
{
    let provided_vars = collect_provided_vars(environment, prefix);
    reconcile(required, &provided_vars, prefix).into_result()
}

/// Validates an environment for this application: against the variables that
/// it requires, under its own prefix.
pub fn validate_app_env(environment: &[(String, String)]) -> (outcome: Result<(), AppError>)
    ensures
        outcome_view(outcome) == validation(
            bare_names(REQUIRED_ENV_VARS@),
            ENV_VAR_PREFIX@,
            keys(environment@),
        ),
{
    validate(&REQUIRED_ENV_VARS, ENV_VAR_PREFIX, environment)
}

/// Validation is the check for missing names followed, where it passes, by
/// the check for extra names.
pub proof fn lemma_validation_in_steps(bare: Seq<Seq<char>>, prefix: Seq<char>, keys: Seq<Seq<char>>)
    ensures
        validation(bare, prefix, keys) == match missing_check(
            bare,
            provided_names(keys, prefix),
            prefix,
        ) {
            Err(error) => Err(error),
            Ok(()) => extra_check(bare, provided_names(keys, prefix), prefix),
        },
{
}

} // verus!
