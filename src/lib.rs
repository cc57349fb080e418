//! Calling interface functions whose signatures are only known at run time.
//!
//! - [`value`]: the closed set of interface types and their runtime values;
//!   [`codec`], [`encoder`] and [`decoder`]: their inline wire form, with
//!   the proof that decoding undoes encoding.
//! - [`paths`] and [`completion`]: the subchannels that streams and futures
//!   travel on, and when an invocation as a whole is complete.
//! - [`resource`] and [`counter`]: handles of exported resource instances.
//! - [`resolve`]: the shape of a call, from a function declaration.
//! - [`polyfill`] and [`bridge`]: which imports get a synthesized
//!   implementation, and the decisions of each such call.
//! - [`ident`], [`deps`], [`modules`], [`exports`], [`serve`] and
//!   [`world`]: naming and layout of Go bindings.
//! - [`wire`]: fixed-width little-endian integers; [`order`]: the order of
//!   strings.

pub mod bridge;
pub mod codec;
pub mod completion;
pub mod counter;
pub mod decoder;
pub mod deps;
pub mod encoder;
pub mod exports;
pub mod ident;
pub mod modules;
pub mod order;
pub mod paths;
pub mod polyfill;
pub mod resolve;
pub mod resource;
pub mod serve;
pub mod value;
pub mod wire;
pub mod world;
