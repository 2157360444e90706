//! Bridge library for republishing PREMIS provenance events onto a message
//! broker: it splits a multi-event XML payload into the exact original
//! substrings of its `event` children, parses each into a typed model while
//! keeping the serialized form verbatim, and derives the routing key and
//! broker envelope from the parsed fields.

use vstd::prelude::*;

pub mod batch;
pub mod envelope;
pub mod model;
pub mod parse;
pub mod time;
pub mod xml;

verus! {

/// Process configuration for the broker connection.
pub struct Config {
    pub pulsar_host: String,
    pub pulsar_port: String,
    pub pulsar_namespace: String,
}

/// Default broker host used when none is configured.
pub fn default_pulsar_host() -> (r: String)
    ensures
        r@ == "localhost"@,
{
    "localhost".to_owned()
}

/// Default broker port used when none is configured.
pub fn default_pulsar_port() -> (r: String)
    ensures
        r@ == "6650"@,
{
    "6650".to_owned()
}

/// Default broker namespace used when none is configured.
pub fn default_pulsar_namespace() -> (r: String)
    ensures
        r@ == "default"@,
{
    "default".to_owned()
}

} // verus!
