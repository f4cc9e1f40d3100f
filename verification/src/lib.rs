//! Front-end of a CAN-bus network description compiler: walks a loosely
//! typed configuration document (nodes, object dictionaries, streams,
//! commands, custom types, buses), enforces the expected shape at every
//! level, and translates it into an ordered sequence of calls against an
//! external network-model builder, failing fast with a precise error on the
//! first schema violation.

pub mod calls;
pub mod doc;
pub mod errors;
pub mod laws;
pub mod model;
pub mod parser;
