//! Configuration parameters of the dispatcher.
//!
//! Reading the process environment is left to the binary; this module holds
//! the verified part: the parameter record and the defaulting and parsing
//! rules for the raw variable values.

use vstd::prelude::*;
use crate::text::{all_digits, digits_val, parse_decimal_u16, parse_decimal_u32};

verus! {

/// Default HTTP port used when `HTTP_PORT` is not set.
pub const DEFAULT_HTTP_PORT: u16 = 8081;

/// Default pool size used when `MAX_DB_CONNECTIONS` is not set.
pub const DEFAULT_MAX_DB_CONNECTIONS: u32 = 10;

pub struct EnvParams {
    http_port: u16,
    max_db_connections: u32,
    mvp_db_url: String,
    pd_db_url: String,
}

impl EnvParams {
    pub fn new(
        http_port: u16,
        max_db_connections: u32,
        mvp_db_url: String,
        pd_db_url: String,
    ) -> (r: Self)
        ensures
            r.spec_http_port() == http_port,
            r.spec_max_db_connections() == max_db_connections,
            r.spec_mvp_db_url() == mvp_db_url@,
            r.spec_pd_db_url() == pd_db_url@,
    {
        EnvParams { http_port, max_db_connections, mvp_db_url, pd_db_url }
    }

    pub closed spec fn spec_http_port(&self) -> u16 {
        self.http_port
    }

    pub closed spec fn spec_max_db_connections(&self) -> u32 {
        self.max_db_connections
    }

    pub closed spec fn spec_mvp_db_url(&self) -> Seq<char> {
        self.mvp_db_url@
    }

    pub closed spec fn spec_pd_db_url(&self) -> Seq<char> {
        self.pd_db_url@
    }

    pub fn http_port(&self) -> (r: u16)
        ensures
            r == self.spec_http_port(),
    {
        self.http_port
    }

    pub fn max_db_connections(&self) -> (r: u32)
        ensures
            r == self.spec_max_db_connections(),
    {
        self.max_db_connections
    }

    pub fn mvp_db_url(&self) -> (r: &str)
        ensures
            r@ == self.spec_mvp_db_url(),
    {
        self.mvp_db_url.as_str()
    }

    pub fn pd_db_url(&self) -> (r: &str)
        ensures
            r@ == self.spec_pd_db_url(),
    {
        self.pd_db_url.as_str()
    }
}

/// Resolves the raw `HTTP_PORT` variable: absent means the default, present
/// means the decimal value, and `None` is returned exactly when the present
/// value does not parse as a `u16` (the caller treats that as fatal).
pub fn resolve_http_port(raw: Option<&str>) -> (r: Option<u16>)
    ensures
        raw is None ==> r == Some(DEFAULT_HTTP_PORT),
        raw matches Some(s) ==> {
            &&& r is Some <==> (s@.len() > 0 && all_digits(s@) && digits_val(s@) <= u16::MAX)
            &&& r matches Some(v) ==> v as int == digits_val(s@)
        },
{
    match raw {
        None => Some(DEFAULT_HTTP_PORT),
        Some(s) => parse_decimal_u16(s),
    }
}

/// Resolves the raw `MAX_DB_CONNECTIONS` variable, as `resolve_http_port`
/// does for the port.
pub fn resolve_max_db_connections(raw: Option<&str>) -> (r: Option<u32>)
    ensures
        raw is None ==> r == Some(DEFAULT_MAX_DB_CONNECTIONS),
        raw matches Some(s) ==> {
            &&& r is Some <==> (s@.len() > 0 && all_digits(s@) && digits_val(s@) <= u32::MAX)
            &&& r matches Some(v) ==> v as int == digits_val(s@)
        },
{
    match raw {
        None => Some(DEFAULT_MAX_DB_CONNECTIONS),
        Some(s) => parse_decimal_u32(s),
    }
}

} // verus!
