//! A compact binary encoding: a serializer that appends bytes, and a deserializer that
//! reads them back in order.
use vstd::prelude::*;
use crate::types::{decimal, decimal_digits};

verus! {

/// Why encoding or decoding failed.
#[derive(PartialEq, Eq, Debug)]
pub enum Error {
    /// A read asked for more bytes than remained.
    EndOfStream { total: usize, read: usize, requested: usize },
    /// A sequence was longer than its length prefix can say.
    ByteLenTooLong { len: usize },
    /// The bytes do not encode a value of the expected type.
    InvalidType,
}

impl Error {
    /// The error as text.
    pub fn to_string(&self) -> (r: String)
        ensures
            self is EndOfStream ==> r@ == "Attempted to read "@ + decimal_digits(
                self->EndOfStream_requested as nat,
            ) + " bytes but only "@ + decimal_digits(
                (if self->EndOfStream_read <= self->EndOfStream_total {
                    self->EndOfStream_total - self->EndOfStream_read
                } else {
                    0
                }) as nat,
            ) + " remained."@,
            self is ByteLenTooLong ==> r@ == "Sequence item length ("@ + decimal_digits(
                self->ByteLenTooLong_len as nat,
            ) + ") exceeded."@,
            self is InvalidType ==> r@ == "Invalid type."@,
    {
        match self {
            Error::EndOfStream { total, read, requested } => {
                let left = total.saturating_sub(*read);
                let mut s = "Attempted to read ".to_owned();
                s.append(decimal(*requested as u64).as_str());
                s.append(" bytes but only ");
                s.append(decimal(left as u64).as_str());
                s.append(" remained.");
                s
            },
            Error::ByteLenTooLong { len } => {
                let mut s = "Sequence item length (".to_owned();
                s.append(decimal(*len as u64).as_str());
                s.append(") exceeded.");
                s
            },
            Error::InvalidType => "Invalid type.".to_owned(),
        }
    }
}

/// A value that can write itself to a serializer.
pub trait FadromaSerialize {
    /// How many bytes the value is expected to take.
    fn size_hint(&self) -> usize;

    fn to_bytes(&self, ser: &mut Serializer) -> Result<(), Error>;
}

/// A value that can read itself from a deserializer.
pub trait FadromaDeserialize: Sized {
    fn from_bytes(de: &mut Deserializer) -> Result<Self, Error>;
}

/// Encoding a value into a fresh buffer.
pub trait FadromaSerializeExt: FadromaSerialize {
    fn serialize(&self) -> Result<Vec<u8>, Error>;
}

impl<T: FadromaSerialize> FadromaSerializeExt for T {
    fn serialize(&self) -> Result<Vec<u8>, Error> {
        let hint = self.size_hint();
        let mut ser = if hint <= isize::MAX as usize {
            Serializer::with_capacity(hint)
        } else {
            Serializer::new()
        };
        match self.to_bytes(&mut ser) {
            Ok(()) => Ok(ser.finish()),
            Err(e) => Err(e),
        }
    }
}

/// Relies on `Vec::capacity`, which is never below the length.
#[verifier::external_body]
fn vec_capacity(v: &Vec<u8>) -> (r: usize)
    ensures
        r >= v@.len(),
{
    v.capacity()
}

/// Relies on `Vec::reserve_exact`, which leaves the elements as they are; it panics only
/// when the new capacity exceeds `isize::MAX` bytes.
#[verifier::external_body]
fn vec_reserve_exact(v: &mut Vec<u8>, additional: usize)
    requires
        old(v)@.len() + additional <= isize::MAX,
    ensures
        final(v)@ == old(v)@,
{
    v.reserve_exact(additional)
}

/// Appends bytes to a buffer.
pub struct Serializer {
    buf: Vec<u8>,
}

impl View for Serializer {
    type V = Seq<u8>;

    closed spec fn view(&self) -> Seq<u8> {
        self.buf@
    }
}

impl Serializer {
    /// An empty serializer.
    pub fn new() -> (r: Serializer)
        ensures
            r@ == Seq::<u8>::empty(),
    {
        Serializer { buf: Vec::new() }
    }

    /// An empty serializer with room for `capacity` bytes.
    pub fn with_capacity(capacity: usize) -> (r: Serializer)
        requires
            capacity <= isize::MAX,
        ensures
            r@ == Seq::<u8>::empty(),
    {
        Serializer { buf: Vec::with_capacity(capacity) }
    }

    /// How many bytes the buffer holds without growing; never fewer than it holds now.
    pub fn capacity(&self) -> (r: usize)
        ensures
            r >= self@.len(),
    {
        vec_capacity(&self.buf)
    }

    /// Makes room for at least `additional` more bytes.
    pub fn reserve(&mut self, additional: usize)
        requires
            old(self)@.len() + additional <= isize::MAX,
        ensures
            final(self)@ == old(self)@,
    {
        self.buf.reserve(additional);
    }

    /// Makes room for exactly `additional` more bytes.
    pub fn reserve_exact(&mut self, additional: usize)
        requires
            old(self)@.len() + additional <= isize::MAX,
        ensures
            final(self)@ == old(self)@,
    {
        vec_reserve_exact(&mut self.buf, additional);
    }

    /// Appends `bytes`.
    pub fn write(&mut self, bytes: &[u8])
        ensures
            final(self)@ == old(self)@ + bytes@,
    {
        let mut i: usize = 0;
        while i < bytes.len()
            invariant
                i <= bytes@.len(),
                self@ == old(self)@ + bytes@.subrange(0, i as int),
            decreases bytes@.len() - i,
        {
            self.buf.push(bytes[i]);
            i = i + 1;
            assert(self@ =~= old(self)@ + bytes@.subrange(0, i as int));
        }
        assert(bytes@.subrange(0, i as int) =~= bytes@);
    }

    /// Appends one byte.
    pub fn write_byte(&mut self, byte: u8)
        ensures
            final(self)@ == old(self)@.push(byte),
    {
        self.buf.push(byte);
    }

    /// The bytes written.
    pub fn finish(self) -> (r: Vec<u8>)
        ensures
            r@ == self@,
    {
        self.buf
    }
}

/// Reads bytes in order from a buffer.
pub struct Deserializer<'a> {
    read: usize,
    bytes: &'a [u8],
}

impl<'a> Deserializer<'a> {
    #[verifier::type_invariant]
    closed spec fn inv(&self) -> bool {
        self.read <= self.bytes@.len()
    }

    /// All the bytes, read or not.
    pub closed spec fn bytes(&self) -> Seq<u8> {
        self.bytes@
    }

    /// How many bytes have been read.
    pub closed spec fn position(&self) -> nat {
        self.read as nat
    }

    /// A deserializer at the start of `bytes`.
    pub fn from(bytes: &'a [u8]) -> (r: Deserializer<'a>)
        ensures
            r.bytes() == bytes@,
            r.position() == 0,
    {
        Deserializer { read: 0, bytes }
    }

    /// Reads a value of type `T`.
    pub fn deserialize<T: FadromaDeserialize>(&mut self) -> Result<T, Error> {
        T::from_bytes(self)
    }

    fn end_of_stream_err(&self, requested: usize) -> (r: Error)
        ensures
            r == (Error::EndOfStream {
                total: self.bytes@.len() as usize,
                read: self.read,
                requested,
            }),
    {
        Error::EndOfStream { total: self.bytes.len(), read: self.read, requested }
    }

    /// Reads the next `n` bytes. Fails with `EndOfStream`, reading nothing, when fewer
    /// remain.
    pub fn read(&mut self, n: usize) -> (r: Result<&[u8], Error>)
        ensures
            final(self).bytes() == old(self).bytes(),
            r is Ok <==> old(self).position() + n <= old(self).bytes().len(),
            r is Ok ==> r->Ok_0@ == old(self).bytes().subrange(
                old(self).position() as int,
                old(self).position() + n,
            ) && final(self).position() == old(self).position() + n,
            r is Err ==> final(self).position() == old(self).position() && r->Err_0 == (
            Error::EndOfStream {
                total: old(self).bytes().len() as usize,
                read: old(self).position() as usize,
                requested: n,
            }),
    {
        proof {
            use_type_invariant(&*self);
        }
        if n > self.bytes.len() - self.read {
            return Err(self.end_of_stream_err(n));
        }
        let start = self.read;
        let upper = start + n;
        self.read = upper;
        Ok(&self.bytes[start..upper])
    }

    /// Reads the next byte. Fails with `EndOfStream`, reading nothing, when none remains.
    pub fn read_byte(&mut self) -> (r: Result<u8, Error>)
        ensures
            final(self).bytes() == old(self).bytes(),
            r is Ok <==> old(self).position() < old(self).bytes().len(),
            r is Ok ==> r->Ok_0 == old(self).bytes()[old(self).position() as int]
                && final(self).position() == old(self).position() + 1,
            r is Err ==> final(self).position() == old(self).position() && r->Err_0 == (
            Error::EndOfStream {
                total: old(self).bytes().len() as usize,
                read: old(self).position() as usize,
                requested: 1,
            }),
    {
        match self.read(1) {
            Ok(b) => Ok(b[0]),
            Err(e) => Err(e),
        }
    }

    /// How many bytes there are in all.
    pub fn len(&self) -> (r: usize)
        ensures
            r == self.bytes().len(),
    {
        self.bytes.len()
    }

    /// Whether every byte has been read.
    pub fn is_finished(&self) -> (r: bool)
        ensures
            r == (self.position() == self.bytes().len()),
    {
        self.read == self.bytes.len()
    }
}

} // verus!
