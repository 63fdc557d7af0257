//! The application's configuration: where its environment file lies, the
//! prefix of its variables, and the variables that it requires.

use vstd::prelude::*;

verus! {

pub const ENV_FILE_PATH: &'static str = "./environment/.env";

pub const ENV_VAR_PREFIX: &'static str = "RRAA_";

pub const DB_PROTOCOL: &'static str = "DB_PROTOCOL";

pub const DB_USER: &'static str = "DB_USER";

pub const DB_PASSWORD: &'static str = "DB_PASSWORD";

pub const DB_HOST: &'static str = "DB_HOST";

pub const DB_PORT: &'static str = "DB_PORT";

pub const DB_NAME: &'static str = "DB_NAME";

pub const DB_SLL_MODE: &'static str = "DB_SLL_MODE";

pub const DB_SSL_CERTIFICATE_PATH: &'static str = "DB_SSL_CERTIFICATE_PATH";

pub const APP_ADDRESS: &'static str = "APP_ADDRESS";

pub const APP_PORT: &'static str = "APP_PORT";

/// Every variable that the application requires, as a bare name.
pub const REQUIRED_ENV_VARS: [&'static str; 10] = [
    DB_PROTOCOL,
    DB_USER,
    DB_PASSWORD,
    DB_HOST,
    DB_PORT,
    DB_NAME,
    DB_SLL_MODE,
    DB_SSL_CERTIFICATE_PATH,
    APP_ADDRESS,
    APP_PORT,
];

} // verus!
