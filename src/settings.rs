use vstd::prelude::*;
use vstd::string::StringExecFns;

verus! {

/// Logging is structured (JSON) unless configured otherwise.
pub fn default_is_json_logging() -> (r: bool)
    ensures
        r,
{
    true
}

/// The log level used when none is configured.
pub fn default_loglevel() -> (r: String)
    ensures
        r@ == "info"@,
{
    String::from_str("info")
}

/// The listen address used when none is configured.
pub fn default_listener() -> (r: String)
    ensures
        r@ == "0.0.0.0:3000"@,
{
    String::from_str("0.0.0.0:3000")
}

/// The durable store's connection string used when none is configured.
pub fn default_redis_uri() -> (r: String)
    ensures
        r@ == "redis://localhost:6379"@,
{
    String::from_str("redis://localhost:6379")
}

} // verus!
