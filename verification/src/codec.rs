use crate::error::Error;
use vstd::prelude::*;

verus! {

/// A value that can be written as bytes deterministically.
pub trait Encode: DeepView {
    /// The canonical bytes of a logical value.
    spec fn encoding(value: Self::V) -> Seq<u8>;

    /// Appends the encoding of the value to `dest`.
    fn encode_into(&self, dest: &mut Vec<u8>) -> (res: Result<(), Error>)
        ensures
            res is Ok,
            final(dest)@ == old(dest)@ + Self::encoding(self.deep_view()),
    ;

    /// The exact number of bytes that `encode_into` appends, for a value
    /// whose encoding is short enough for its length to be a `usize`.
    fn encoding_length(&self) -> (res: Result<usize, Error>)
        requires
            Self::encoding(self.deep_view()).len() <= usize::MAX,
        ensures
            res == Ok::<usize, Error>(Self::encoding(self.deep_view()).len() as usize),
    ;

    /// The encoding of the value in a vector of its own.
    fn encode(&self) -> (res: Result<Vec<u8>, Error>)
        ensures
            res matches Ok(bytes) && bytes@ == Self::encoding(self.deep_view()),
    {
        let mut bytes: Vec<u8> = Vec::new();
        self.encode_into(&mut bytes)?;
        Ok(bytes)
    }
}

/// A type whose values can be read back from bytes.
pub trait Decode: Sized + DeepView {
    /// What a decoder makes of `bytes`: the logical value read from the front
    /// and the bytes left behind it, or the reason why no value was read.
    spec fn parse(bytes: Seq<u8>) -> Result<(Self::V, Seq<u8>), Error>;

    /// Reads a value from the front of `input` and leaves in `input` the
    /// bytes that follow it.
    fn decode(input: &mut &[u8]) -> (res: Result<Self, Error>)
        ensures
            match Self::parse((*old(input))@) {
                Ok((value, rest)) => {
                    &&& res matches Ok(v) && v.deep_view() == value
                    &&& (*final(input))@ == rest
                },
                Err(e) => res matches Err(err) && err == e,
            },
    ;

    /// Reads a value from the front of `input` into `self`, keeping the
    /// storage that `self` already owns where the type allows it. When the
    /// call fails, `self` may have been changed in part.
    fn decode_into(&mut self, input: &mut &[u8]) -> (res: Result<(), Error>)
        ensures
            match Self::parse((*old(input))@) {
                Ok((value, rest)) => {
                    &&& res is Ok
                    &&& final(self).deep_view() == value
                    &&& (*final(input))@ == rest
                },
                Err(e) => res matches Err(err) && err == e,
            },
    {
        let value = Self::decode(input)?;
        *self = value;
        Ok(())
    }
}

/// A type whose decoder consumes exactly the bytes of the value it reads,
/// whatever follows them. Only such a type may stand before another field,
/// or as the element of an array or a vector.
pub trait Terminated: Encode + Decode {
    /// Decoding the encoding of a value followed by any other bytes gives the
    /// value back and leaves those bytes untouched.
    proof fn lemma_terminated(value: Self, rest: Seq<u8>)
        ensures
            Self::parse(Self::encoding(value.deep_view()) + rest) == Ok::<
                (Self::V, Seq<u8>),
                Error,
            >((value.deep_view(), rest)),
    ;
}

/// The length that `encoding_length` reports of a value is the number of
/// bytes that `encode` returns for it.
pub proof fn lemma_length_exact<T: Encode + ?Sized>(value: &T, bytes: Vec<u8>, length: usize)
    requires
        bytes@ == T::encoding(value.deep_view()),
        length == T::encoding(value.deep_view()).len(),
    ensures
        bytes@.len() == length,
{
}

/// Two values that are logically the same have the same encoding.
pub proof fn lemma_encoding_deterministic<T: Encode + ?Sized>(first: &T, second: &T)
    requires
        first.deep_view() == second.deep_view(),
    ensures
        T::encoding(first.deep_view()) == T::encoding(second.deep_view()),
{
}

/// Whether decoding the encoding of `value` alone gives `value` back and
/// uses up every byte.
pub open spec fn round_trips<T: Encode + Decode>(value: T::V) -> bool {
    T::parse(T::encoding(value)) == Ok::<(T::V, Seq<u8>), Error>((value, Seq::empty()))
}

/// Every value of a terminated type survives encoding and decoding.
pub proof fn lemma_terminated_round_trips<T: Terminated>(value: T)
    ensures
        round_trips::<T>(value.deep_view()),
{
    T::lemma_terminated(value, Seq::empty());
}

} // verus!
