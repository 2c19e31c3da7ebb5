//! A decoder for the entity deltas and the string tables of Source 2 replays.
//!
//! The library reads the bit stream of a replay into entities, each a map from field keys to
//! values, and into the rows of string tables. It holds no floating-point numbers: a real
//! number is held as the wire code that stands for it (see [`floatcode`]), and the caller
//! computes the real. Every function is verified against its contract; what is believed of
//! `hashbrown`, `snap` and `Rc::clone` is stated where they are called.

pub mod bitreader;
pub mod entities;
pub mod entityclasses;
pub mod fielddecoder;
pub mod fieldmetadata;
pub mod fieldpath;
pub mod fieldvalue;
pub mod flattenedserializers;
pub mod floatcode;
pub mod fxhash;
pub mod instancebaseline;
pub mod quantizedfloat;
pub mod sendtables;
pub mod snappy;
pub mod stringtables;
pub mod varint;
pub mod vartype;
