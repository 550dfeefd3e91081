use crate::codec::{Decode, Encode, Terminated};
use crate::error::Error;
use vstd::prelude::*;

verus! {

impl Encode for () {
    open spec fn encoding(value: ()) -> Seq<u8> {
        Seq::empty()
    }

    /// Writes nothing.
    fn encode_into(&self, dest: &mut Vec<u8>) -> (res: Result<(), Error>) {
        Ok(())
    }

    fn encoding_length(&self) -> (res: Result<usize, Error>) {
        Ok(0)
    }
}

impl Decode for () {
    open spec fn parse(bytes: Seq<u8>) -> Result<((), Seq<u8>), Error> {
        Ok(((), bytes))
    }

    /// Reads nothing.
    fn decode(input: &mut &[u8]) -> (res: Result<Self, Error>) {
        Ok(())
    }
}

impl Terminated for () {
    proof fn lemma_terminated(value: (), rest: Seq<u8>) {
    }
}

} // verus!
