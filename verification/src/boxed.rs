use crate::codec::{round_trips, Decode, Encode, Terminated};
use crate::error::Error;
use vstd::prelude::*;

verus! {

impl<T: Encode> Encode for Box<T> {
    open spec fn encoding(value: T::V) -> Seq<u8> {
        T::encoding(value)
    }

    /// Writes the value in the box.
    fn encode_into(&self, dest: &mut Vec<u8>) -> (res: Result<(), Error>) {
        (**self).encode_into(dest)
    }

    /// The length of the value in the box.
    fn encoding_length(&self) -> (res: Result<usize, Error>) {
        (**self).encoding_length()
    }
}

impl<T: Decode> Decode for Box<T> {
    open spec fn parse(bytes: Seq<u8>) -> Result<(T::V, Seq<u8>), Error> {
        T::parse(bytes)
    }

    /// Reads a value into a new box.
    fn decode(input: &mut &[u8]) -> (res: Result<Self, Error>) {
        Ok(Box::new(T::decode(input)?))
    }

    /// Reads a value into the box that is there.
    fn decode_into(&mut self, input: &mut &[u8]) -> (res: Result<(), Error>) {
        (**self).decode_into(input)
    }
}

impl<T: Terminated> Terminated for Box<T> {
    proof fn lemma_terminated(value: Box<T>, rest: Seq<u8>) {
        T::lemma_terminated(*value, rest);
    }
}

/// A box survives encoding and decoding where the value in it does.
pub proof fn lemma_box_round_trips<T: Encode + Decode>(value: T::V)
    requires
        round_trips::<T>(value),
    ensures
        round_trips::<Box<T>>(value),
{
}

} // verus!
