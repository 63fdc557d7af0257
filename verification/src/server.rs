//! What the server's startup computes: the address to listen on, and the
//! errors that report a failed startup.

use vstd::prelude::*;
use crate::constants::{APP_ADDRESS, APP_PORT, ENV_VAR_PREFIX, REQUIRED_ENV_VARS};
use crate::controller::{text_of, AppError, AppErrorView, ErrorKind, ErrorKindView};
use crate::environment::{
    bare_names, keys, missing_names, outcome_view, provided_names, qualified_names, validate_app_env,
    validation,
};
use crate::text::{qualified_name, qualify, same_name};

verus! {

/// The value that an environment gives a name: that of the first entry with
/// the name as its key.
pub open spec fn value_of(environment: Seq<(String, String)>, name: Seq<char>) -> Option<Seq<char>>
    decreases environment.len(),
{
    if environment.len() == 0 {
        None
    } else if environment[0].0@ == name {
        Some(environment[0].1@)
    } else {
        value_of(environment.drop_first(), name)
    }
}

/// Looks a variable up in an environment by its full name.
pub fn lookup<'a>(environment: &'a [(String, String)], name: &str) -> (value: Option<&'a String>)
    ensures
        views(value) == value_of(environment@, name@),
{
    let mut i: usize = 0;
    assert(environment@.skip(0) =~= environment@);
    while i < environment.len()
        invariant
            i <= environment@.len(),
            value_of(environment@, name@) == value_of(environment@.skip(i as int), name@),
        decreases environment@.len() - i,
    {
        let ghost rest = environment@.skip(i as int);
        assert(rest[0] == environment@[i as int]);
        assert(rest.drop_first() =~= environment@.skip(i + 1));
        if same_name(environment[i].0.as_str(), name) {
            return Some(&environment[i].1);
        }
        i = i + 1;
    }
    None
}

/// The characters of a borrowed value that may be absent.
pub open spec fn views(value: Option<&String>) -> Option<Seq<char>> {
    match value {
        Some(value) => Some(value@),
        None => None,
    }
}

/// The address to listen on: the host, a colon and the port, where the
/// environment sets both.
pub open spec fn server_address(
    environment: Seq<(String, String)>,
    prefix: Seq<char>,
    address_name: Seq<char>,
    port_name: Seq<char>,
) -> Option<Seq<char>> {
    match (
        value_of(environment, qualify(prefix, address_name)),
        value_of(environment, qualify(prefix, port_name)),
    ) {
        (Some(host), Some(port)) => Some(host + ":"@ + port),
        _ => None,
    }
}

/// Puts the address to listen on together from the two variables that hold
/// the host and the port. There is none where either variable is not set.
pub fn construct_server_address(
    environment: &[(String, String)],
    env_var_prefix: &str,
    address_env_var_name: &str,
    port_env_var_name: &str,
) -> (address: Option<String>)
    ensures
        text_of(address) == server_address(
            environment@,
            env_var_prefix@,
            address_env_var_name@,
            port_env_var_name@,
        ),
{
    let address_var_name_constructed = qualified_name(env_var_prefix, address_env_var_name);
    let port_var_name_constructed = qualified_name(env_var_prefix, port_env_var_name);
    let host = lookup(environment, address_var_name_constructed.as_str());
    let port = lookup(environment, port_var_name_constructed.as_str());
    match (host, port) {
        (Some(host), Some(port)) => {
            let mut address = host.clone();
            address.append(":");
            address.append(port.as_str());
            Some(address)
        },
        _ => None,
    }
}

/// The error for a server that could not listen on `address`.
pub fn binding_error(address: &str, cause: String) -> (error: AppError)
    ensures
        error@ == (AppErrorView {
            kind: ErrorKindView::AddressBindingFail(
                "Failed to bind server to address: "@ + address@,
            ),
            cause: Some(cause@),
        }),
{
    let mut message = String::from_str("Failed to bind server to address: ");
    message.append(address);
    AppError::new(ErrorKind::AddressBindingFail(message), Some(cause))
}

/// The error for a server that stopped with a failure.
pub fn server_error(cause: String) -> (error: AppError)
    ensures
        error@ == (AppErrorView { kind: ErrorKindView::HttpServerFail, cause: Some(cause@) }),
{
    AppError::new(ErrorKind::HttpServerFail, Some(cause))
}

/// An environment gives a value to exactly the names that are among its keys.
pub proof fn lemma_value_of_key(environment: Seq<(String, String)>, name: Seq<char>)
    ensures
        value_of(environment, name) is Some <==> keys(environment).contains(name),
    decreases environment.len(),
{
    let all = keys(environment);
    if environment.len() > 0 {
        assert(all[0] == environment[0].0@);
        if environment[0].0@ != name {
            let rest = environment.drop_first();
            lemma_value_of_key(rest, name);
            assert(keys(rest) =~= all.drop_first());
            if all.contains(name) {
                let i = choose|i: int| 0 <= i < all.len() && all[i] == name;
                assert(all.drop_first()[i - 1] == name);
            }
            if keys(rest).contains(name) {
                let i = choose|i: int| 0 <= i < keys(rest).len() && keys(rest)[i] == name;
                assert(all[i + 1] == name);
            }
        }
    }
}

/// An environment that validation accepts sets every required variable.
pub proof fn lemma_valid_environment_sets_required(
    bare: Seq<Seq<char>>,
    prefix: Seq<char>,
    environment: Seq<(String, String)>,
    at: int,
)
    requires
        validation(bare, prefix, keys(environment)) is Ok,
        0 <= at < bare.len(),
    ensures
        value_of(environment, qualify(prefix, bare[at])) is Some,
{
    let name = qualify(prefix, bare[at]);
    let provided = provided_names(keys(environment), prefix);
    let full = bare.map_values(|short: Seq<char>| qualify(prefix, short));
    assert(full[at] == name);
    assert(qualified_names(bare, prefix).contains(name));
    if !provided.contains(name) {
        assert(missing_names(bare, provided, prefix).contains(name));
    }
    assert(keys(environment).to_set().contains(name));
    lemma_value_of_key(environment, name);
}

/// The address that the application listens on in a validated environment.
pub open spec fn app_address(environment: Seq<(String, String)>) -> Option<Seq<char>> {
    server_address(environment, ENV_VAR_PREFIX@, APP_ADDRESS@, APP_PORT@)
}

/// Validates the environment for this application and, where it is valid,
/// gives the address to listen on. An environment that is not valid gives
/// the error of validation and no address: the server does not start on an
/// incomplete configuration.
pub fn listen_address(environment: &[(String, String)]) -> (address: Result<String, AppError>)
    ensures
        match validation(bare_names(REQUIRED_ENV_VARS@), ENV_VAR_PREFIX@, keys(environment@)) {
            Ok(()) => address is Ok && Some(address->Ok_0@) == app_address(environment@),
            Err(error) => address is Err && address->Err_0@ == error,
        },
{
    match validate_app_env(environment) {
        Err(error) => Err(error),
        Ok(()) => {
            proof {
                let bare = bare_names(REQUIRED_ENV_VARS@);
                assert(bare[8] == APP_ADDRESS@);
                assert(bare[9] == APP_PORT@);
                lemma_valid_environment_sets_required(bare, ENV_VAR_PREFIX@, environment@, 8);
                lemma_valid_environment_sets_required(bare, ENV_VAR_PREFIX@, environment@, 9);
            }
            let address = construct_server_address(
                environment,
                ENV_VAR_PREFIX,
                APP_ADDRESS,
                APP_PORT,
            );
            Ok(address.unwrap())
        },
    }
}

} // verus!
