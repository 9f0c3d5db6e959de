//! A wire codec for a binary, self-describing, extensible request/reply
//! protocol in the style of the X window system.
//!
//! A message is described by a schema ([`schema`]): an ordered list of
//! fields, where a field may be fixed or alignment padding, a plain
//! integer, an enumerated value, a nested structure, a list, a tagged
//! union, a constant byte, a file descriptor, or a virtual length report.
//! Expressions over already-known fields ([`expr`]) give list lengths and
//! union discriminants, and deduction rules compute fields whose wire
//! value is determined by the rest of the message.
//!
//! The encoder ([`encode`]) walks a schema in declaration order and
//! produces the exact byte image of a message value plus the side channel
//! of file descriptors; the decoder ([`decode`]) is its inverse on
//! untrusted bytes.  The resolver ([`size`]) decides when a message's size
//! is static, letting a caller pick the fixed-size emission strategy.  The
//! laws tying these together — above all, that decoding inverts encoding
//! for every schema and canonical value — are stated and proved in
//! [`laws`].
//!
//! Around the codec sit the request bookkeeping types ([`cookie`]) and the
//! protocol's error vocabulary ([`errors`]); transport I/O stays outside
//! this crate.

pub mod bytes;
pub mod cookie;
pub mod decode;
pub mod encode;
pub mod errors;
pub mod expr;
pub mod laws;
pub mod schema;
pub mod size;
