//! Cookies: handles to submitted requests, identified by sequence number.
//!
//! A cookie pairs a connection with the sequence number of a request that
//! was sent on it.  Waiting for the actual reply bytes is transport work and
//! lives outside this crate; the cookie types here carry the bookkeeping
//! that the reply machinery needs, and the decisions (such as when a stream
//! of replies ends) that are pure functions of a reply's content.

use vstd::prelude::*;

use crate::errors::ParseError;

verus! {

/// The sequence number of a request sent on a connection.
pub type SequenceNumber = u64;

/// The interface of a connection on which requests can be sent.  Connections
/// are implemented by the transport layer outside this crate.
pub trait RequestConnection {
}

/// A connection that can also wait for replies and errors.
pub trait Connection: RequestConnection {
}

/// A type that can be parsed from a byte slice.
pub trait TryParse where Self: core::marker::Sized {
    /// Parse `value`, returning the parsed result and the remaining bytes.
    fn try_parse(value: &[u8]) -> Result<(Self, usize), ParseError>;
}

/// A type that can be parsed from a byte slice plus file descriptors.
pub trait TryParseFd where Self: core::marker::Sized {
    /// Parse `value`, consuming descriptors from `fds` as needed.
    fn try_parse_fd(value: &[u8], fds: &mut Vec<u64>) -> Result<(Self, usize), ParseError>;
}

/// A cookie for a request without a reply.
///
/// Dropping a cookie is inert: telling the connection to discard a pending
/// outcome is transport work and must be requested explicitly through the
/// connection.
#[derive(Debug)]
pub struct VoidCookie<'conn, C: RequestConnection + ?Sized> {
    conn: &'conn C,
    sequence: SequenceNumber,
}

impl<'conn, C: Connection + ?Sized> VoidCookie<'conn, C> {
    /// The sequence number this cookie stands for.
    pub closed spec fn spec_sequence(self) -> SequenceNumber {
        self.sequence
    }

    /// The connection this cookie's request was sent on.
    pub closed spec fn spec_conn(self) -> &'conn C {
        self.conn
    }

    /// Create a new cookie from its raw parts.
    pub fn new(conn: &'conn C, sequence: SequenceNumber) -> (r: Self)
        ensures
            r.spec_sequence() == sequence,
            r.spec_conn() == conn,
    {
        Self { conn, sequence }
    }

    /// Get the sequence number of this cookie.
    pub fn sequence_number(&self) -> (r: SequenceNumber)
        ensures
            r == self.spec_sequence(),
    {
        self.sequence
    }

    /// Eat the cookie and return its own connection and sequence number.
    pub fn consume(self) -> (r: (&'conn C, SequenceNumber))
        ensures
            r.0 == self.spec_conn(),
            r.1 == self.spec_sequence(),
    {
        (self.conn, self.sequence)
    }
}

/// Helper for cookies that hold a reply.
#[derive(Debug)]
struct RawCookie<'a, C: RequestConnection + ?Sized> {
    conn: &'a C,
    sequence: SequenceNumber,
}

impl<'a, C: RequestConnection + ?Sized> RawCookie<'a, C> {
    spec fn spec_sequence(self) -> SequenceNumber {
        self.sequence
    }

    spec fn spec_conn(self) -> &'a C {
        self.conn
    }

    fn new(conn: &'a C, sequence: SequenceNumber) -> (r: Self)
        ensures
            r.spec_sequence() == sequence,
            r.spec_conn() == conn,
    {
        Self { conn, sequence }
    }

    fn consume(self) -> (r: (&'a C, SequenceNumber))
        ensures
            r.0 == self.spec_conn(),
            r.1 == self.spec_sequence(),
    {
        (self.conn, self.sequence)
    }
}

/// A cookie for a request that has a reply.
///
/// Dropping a cookie is inert: telling the connection to discard a pending
/// reply is transport work and must be requested explicitly through the
/// connection.
#[derive(Debug)]
pub struct Cookie<'conn, C: RequestConnection + ?Sized, R> {
    raw: RawCookie<'conn, C>,
    capture: core::marker::PhantomData<R>,
}

impl<'conn, C: RequestConnection + ?Sized, R> Cookie<'conn, C, R> {
    /// The sequence number this cookie stands for.
    pub closed spec fn spec_sequence(self) -> SequenceNumber {
        self.raw.sequence
    }

    /// The connection this cookie's request was sent on.
    pub closed spec fn spec_conn(self) -> &'conn C {
        self.raw.conn
    }

    /// Eat the cookie and return its own connection and sequence number.
    pub fn consume(self) -> (r: (&'conn C, SequenceNumber))
        ensures
            r.0 == self.spec_conn(),
            r.1 == self.spec_sequence(),
    {
        self.raw.consume()
    }
}

impl<'conn, C: Connection + ?Sized, R: TryParse> Cookie<'conn, C, R> {
    /// Create a new cookie from its raw parts.
    pub fn new(conn: &'conn C, sequence: SequenceNumber) -> (r: Self)
        ensures
            r.spec_sequence() == sequence,
            r.spec_conn() == conn,
    {
        Self { raw: RawCookie::new(conn, sequence), capture: core::marker::PhantomData }
    }

    /// Get the sequence number of this cookie.
    pub fn sequence_number(&self) -> (r: SequenceNumber)
        ensures
            r == self.spec_sequence(),
    {
        self.raw.sequence
    }
}

/// A cookie for a request that has a reply containing file descriptors.
#[derive(Debug)]
pub struct CookieWithFds<'conn, C: RequestConnection + ?Sized, R> {
    raw: RawCookie<'conn, C>,
    capture: core::marker::PhantomData<R>,
}

impl<'conn, C: RequestConnection + ?Sized, R> CookieWithFds<'conn, C, R> {
    /// The sequence number this cookie stands for.
    pub closed spec fn spec_sequence(self) -> SequenceNumber {
        self.raw.sequence
    }

    /// The connection this cookie's request was sent on.
    pub closed spec fn spec_conn(self) -> &'conn C {
        self.raw.conn
    }

    /// Eat the cookie and return its own connection and sequence number.
    pub fn consume(self) -> (r: (&'conn C, SequenceNumber))
        ensures
            r.0 == self.spec_conn(),
            r.1 == self.spec_sequence(),
    {
        self.raw.consume()
    }
}

impl<'conn, C: Connection + ?Sized, R: TryParseFd> CookieWithFds<'conn, C, R> {
    /// Create a new cookie from its raw parts.
    pub fn new(conn: &'conn C, sequence: SequenceNumber) -> (r: Self)
        ensures
            r.spec_sequence() == sequence,
            r.spec_conn() == conn,
    {
        Self { raw: RawCookie::new(conn, sequence), capture: core::marker::PhantomData }
    }

    /// Get the sequence number of this cookie.
    pub fn sequence_number(&self) -> (r: SequenceNumber)
        ensures
            r == self.spec_sequence(),
    {
        self.raw.sequence
    }

}

/// One reply to a request listing fonts with information; the stream of
/// such replies ends with a reply whose name is empty.
#[derive(Debug, Clone, PartialEq, Eq)]
pub struct ListFontsWithInfoReply {
    pub name: Vec<u8>,
}

/// One reply of a stream of recorded events; the stream ends with the
/// end-of-data category.
#[derive(Debug, Clone, PartialEq, Eq)]
pub struct EnableContextReply {
    pub category: u8,
}

/// A handle to the replies to a request that generates more than one reply,
/// listing fonts with information.
#[derive(Debug)]
pub struct ListFontsWithInfoCookie<'conn, C: RequestConnection + ?Sized> {
    raw: Option<RawCookie<'conn, C>>,
}

impl<'conn, C: Connection + ?Sized> ListFontsWithInfoCookie<'conn, C> {
    /// The sequence number this cookie stands for, if it is still live.
    pub closed spec fn spec_sequence(self) -> Option<SequenceNumber> {
        match self.raw {
            Option::Some(raw) => Option::Some(raw.sequence),
            Option::None => Option::None,
        }
    }

    /// Wrap a plain reply cookie.
    pub fn new(cookie: Cookie<'conn, C, ListFontsWithInfoReply>) -> (r: Self)
        ensures
            r.spec_sequence() == Option::Some(cookie.spec_sequence()),
    {
        let (conn, sequence) = cookie.consume();
        Self { raw: Option::Some(RawCookie::new(conn, sequence)) }
    }

    /// Get the sequence number of this cookie.
    pub fn sequence_number(&self) -> (r: Option<SequenceNumber>)
        ensures
            r == self.spec_sequence(),
    {
        match &self.raw {
            Option::Some(raw) => Option::Some(raw.sequence),
            Option::None => Option::None,
        }
    }

    /// Whether this reply is the last one of the stream.
    pub fn is_last(reply: &ListFontsWithInfoReply) -> (r: bool)
        ensures
            r == (reply.name@.len() == 0),
    {
        reply.name.len() == 0
    }
}

/// A handle to the replies to a request that generates more than one reply,
/// recording events.
#[derive(Debug)]
pub struct RecordEnableContextCookie<'conn, C: RequestConnection + ?Sized> {
    raw: Option<RawCookie<'conn, C>>,
}

impl<'conn, C: Connection + ?Sized> RecordEnableContextCookie<'conn, C> {
    /// The sequence number this cookie stands for, if it is still live.
    pub closed spec fn spec_sequence(self) -> Option<SequenceNumber> {
        match self.raw {
            Option::Some(raw) => Option::Some(raw.sequence),
            Option::None => Option::None,
        }
    }

    /// Wrap a plain reply cookie.
    pub fn new(cookie: Cookie<'conn, C, EnableContextReply>) -> (r: Self)
        ensures
            r.spec_sequence() == Option::Some(cookie.spec_sequence()),
    {
        let (conn, sequence) = cookie.consume();
        Self { raw: Option::Some(RawCookie::new(conn, sequence)) }
    }

    /// Get the sequence number of this cookie.
    pub fn sequence_number(&self) -> (r: Option<SequenceNumber>)
        ensures
            r == self.spec_sequence(),
    {
        match &self.raw {
            Option::Some(raw) => Option::Some(raw.sequence),
            Option::None => Option::None,
        }
    }

    /// Whether this reply is the last one of the stream.
    pub fn is_last(reply: &EnableContextReply) -> (r: bool)
        ensures
            r == (reply.category == 5),
    {
        reply.category == 5
    }
}

impl ListFontsWithInfoReply {
    /// Parse a reply: a length byte followed by that many name bytes.
    pub fn parse(value: &[u8]) -> (r: Result<(Self, usize), ParseError>)
        ensures
            match r {
                Ok((reply, used)) => {
                    &&& value@.len() >= 1
                    &&& used == 1 + value@[0]
                    &&& used <= value@.len()
                    &&& reply.name@ == value@.subrange(1, 1 + value@[0] as int)
                },
                Err(e) => {
                    &&& e == ParseError::InsufficientData
                    &&& value@.len() < 1 || value@.len() < 1 + value@[0]
                },
            },
    {
        if value.len() < 1 {
            return Err(ParseError::InsufficientData);
        }
        let n: usize = value[0] as usize;
        if value.len() < 1 + n {
            return Err(ParseError::InsufficientData);
        }
        let mut name: Vec<u8> = Vec::new();
        let mut i: usize = 0;
        while i < n
            invariant
                i <= n,
                1 + n <= value@.len(),
                name@ =~= value@.subrange(1, 1 + i as int),
            decreases n - i,
        {
            name.push(value[1 + i]);
            i = i + 1;
        }
        proof {
            assert(name@ =~= value@.subrange(1, 1 + value@[0] as int));
        }
        Ok((Self { name }, 1 + n))
    }
}

impl TryParse for ListFontsWithInfoReply {
    fn try_parse(value: &[u8]) -> Result<(Self, usize), ParseError> {
        Self::parse(value)
    }
}

impl EnableContextReply {
    /// Parse a reply: the leading byte is its category.
    pub fn parse(value: &[u8]) -> (r: Result<(Self, usize), ParseError>)
        ensures
            match r {
                Ok((reply, used)) => {
                    &&& value@.len() >= 1
                    &&& used == 1
                    &&& reply.category == value@[0]
                },
                Err(e) => {
                    &&& e == ParseError::InsufficientData
                    &&& value@.len() == 0
                },
            },
    {
        if value.len() < 1 {
            return Err(ParseError::InsufficientData);
        }
        Ok((Self { category: value[0] }, 1))
    }
}

impl TryParse for EnableContextReply {
    fn try_parse(value: &[u8]) -> Result<(Self, usize), ParseError> {
        Self::parse(value)
    }
}

impl TryParseFd for EnableContextReply {
    fn try_parse_fd(value: &[u8], _fds: &mut Vec<u64>) -> Result<(Self, usize), ParseError> {
        Self::parse(value)
    }
}

} // verus!
