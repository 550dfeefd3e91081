use crate::codec::{Decode, Encode, Terminated};
use crate::error::Error;
use crate::tag::{parse_tag, read_tag};
use vstd::prelude::*;

verus! {

impl Encode for bool {
    open spec fn encoding(value: bool) -> Seq<u8> {
        if value {
            seq![1u8]
        } else {
            seq![0u8]
        }
    }

    /// Writes a single byte: 0 for `false`, 1 for `true`.
    fn encode_into(&self, dest: &mut Vec<u8>) -> (res: Result<(), Error>) {
        let byte: u8 = if *self {
            1
        } else {
            0
        };
        dest.push(byte);
        Ok(())
    }

    /// Always 1.
    fn encoding_length(&self) -> (res: Result<usize, Error>) {
        Ok(1)
    }
}

impl Decode for bool {
    open spec fn parse(bytes: Seq<u8>) -> Result<(bool, Seq<u8>), Error> {
        match parse_tag(bytes) {
            Ok((tag, rest)) => if tag == 0 {
                Ok((false, rest))
            } else if tag == 1 {
                Ok((true, rest))
            } else {
                Err(Error::UnexpectedByte(tag))
            },
            Err(e) => Err(e),
        }
    }

    /// Reads a single byte: 0 is `false`, 1 is `true`, and any other byte is
    /// refused.
    fn decode(input: &mut &[u8]) -> (res: Result<Self, Error>) {
        match read_tag(input)? {
            0 => Ok(false),
            1 => Ok(true),
            byte => Err(Error::UnexpectedByte(byte)),
        }
    }
}

impl Terminated for bool {
    proof fn lemma_terminated(value: bool, rest: Seq<u8>) {
        assert((Self::encoding(value) + rest).skip(1) =~= rest);
    }
}

} // verus!
