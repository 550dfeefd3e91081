//! Unsigned integers, each written as its bytes in big-endian order.

use crate::codec::{Decode, Encode, Terminated};
use crate::error::Error;
use crate::integer::{
    be_bytes, lemma_be_value_bound, lemma_parse_be, lemma_pow256_values, parse_be, read_be,
    write_be,
};
use vstd::prelude::*;

verus! {

impl Encode for u8 {
    open spec fn encoding(value: u8) -> Seq<u8> {
        be_bytes(value as nat, 1)
    }

    /// Writes the integer as 1 big-endian byte.
    fn encode_into(&self, dest: &mut Vec<u8>) -> (res: Result<(), Error>) {
        write_be(*self as u128, 1, dest);
        Ok(())
    }

    /// Always 1.
    fn encoding_length(&self) -> (res: Result<usize, Error>) {
        Ok(1)
    }
}

impl Decode for u8 {
    open spec fn parse(bytes: Seq<u8>) -> Result<(u8, Seq<u8>), Error> {
        match parse_be(bytes, 1) {
            Ok((x, rest)) => Ok((x as u8, rest)),
            Err(e) => Err(e),
        }
    }

    /// Reads the integer from 1 big-endian byte.
    fn decode(input: &mut &[u8]) -> (res: Result<Self, Error>) {
        let x: u128 = read_be(input, 1)?;
        proof {
            lemma_be_value_bound((*old(input))@.take(1));
            lemma_pow256_values();
        }
        Ok(x as u8)
    }
}

impl Terminated for u8 {
    proof fn lemma_terminated(value: u8, rest: Seq<u8>) {
        lemma_pow256_values();
        lemma_parse_be(value as nat, 1, rest);
    }
}

impl Encode for u16 {
    open spec fn encoding(value: u16) -> Seq<u8> {
        be_bytes(value as nat, 2)
    }

    /// Writes the integer as 2 big-endian bytes.
    fn encode_into(&self, dest: &mut Vec<u8>) -> (res: Result<(), Error>) {
        write_be(*self as u128, 2, dest);
        Ok(())
    }

    /// Always 2.
    fn encoding_length(&self) -> (res: Result<usize, Error>) {
        Ok(2)
    }
}

impl Decode for u16 {
    open spec fn parse(bytes: Seq<u8>) -> Result<(u16, Seq<u8>), Error> {
        match parse_be(bytes, 2) {
            Ok((x, rest)) => Ok((x as u16, rest)),
            Err(e) => Err(e),
        }
    }

    /// Reads the integer from 2 big-endian bytes.
    fn decode(input: &mut &[u8]) -> (res: Result<Self, Error>) {
        let x: u128 = read_be(input, 2)?;
        proof {
            lemma_be_value_bound((*old(input))@.take(2));
            lemma_pow256_values();
        }
        Ok(x as u16)
    }
}

impl Terminated for u16 {
    proof fn lemma_terminated(value: u16, rest: Seq<u8>) {
        lemma_pow256_values();
        lemma_parse_be(value as nat, 2, rest);
    }
}

impl Encode for u32 {
    open spec fn encoding(value: u32) -> Seq<u8> {
        be_bytes(value as nat, 4)
    }

    /// Writes the integer as 4 big-endian bytes.
    fn encode_into(&self, dest: &mut Vec<u8>) -> (res: Result<(), Error>) {
        write_be(*self as u128, 4, dest);
        Ok(())
    }

    /// Always 4.
    fn encoding_length(&self) -> (res: Result<usize, Error>) {
        Ok(4)
    }
}

impl Decode for u32 {
    open spec fn parse(bytes: Seq<u8>) -> Result<(u32, Seq<u8>), Error> {
        match parse_be(bytes, 4) {
            Ok((x, rest)) => Ok((x as u32, rest)),
            Err(e) => Err(e),
        }
    }

    /// Reads the integer from 4 big-endian bytes.
    fn decode(input: &mut &[u8]) -> (res: Result<Self, Error>) {
        let x: u128 = read_be(input, 4)?;
        proof {
            lemma_be_value_bound((*old(input))@.take(4));
            lemma_pow256_values();
        }
        Ok(x as u32)
    }
}

impl Terminated for u32 {
    proof fn lemma_terminated(value: u32, rest: Seq<u8>) {
        lemma_pow256_values();
        lemma_parse_be(value as nat, 4, rest);
    }
}

impl Encode for u64 {
    open spec fn encoding(value: u64) -> Seq<u8> {
        be_bytes(value as nat, 8)
    }

    /// Writes the integer as 8 big-endian bytes.
    fn encode_into(&self, dest: &mut Vec<u8>) -> (res: Result<(), Error>) {
        write_be(*self as u128, 8, dest);
        Ok(())
    }

    /// Always 8.
    fn encoding_length(&self) -> (res: Result<usize, Error>) {
        Ok(8)
    }
}

impl Decode for u64 {
    open spec fn parse(bytes: Seq<u8>) -> Result<(u64, Seq<u8>), Error> {
        match parse_be(bytes, 8) {
            Ok((x, rest)) => Ok((x as u64, rest)),
            Err(e) => Err(e),
        }
    }

    /// Reads the integer from 8 big-endian bytes.
    fn decode(input: &mut &[u8]) -> (res: Result<Self, Error>) {
        let x: u128 = read_be(input, 8)?;
        proof {
            lemma_be_value_bound((*old(input))@.take(8));
            lemma_pow256_values();
        }
        Ok(x as u64)
    }
}

impl Terminated for u64 {
    proof fn lemma_terminated(value: u64, rest: Seq<u8>) {
        lemma_pow256_values();
        lemma_parse_be(value as nat, 8, rest);
    }
}

impl Encode for u128 {
    open spec fn encoding(value: u128) -> Seq<u8> {
        be_bytes(value as nat, 16)
    }

    /// Writes the integer as 16 big-endian bytes.
    fn encode_into(&self, dest: &mut Vec<u8>) -> (res: Result<(), Error>) {
        write_be(*self, 16, dest);
        Ok(())
    }

    /// Always 16.
    fn encoding_length(&self) -> (res: Result<usize, Error>) {
        Ok(16)
    }
}

impl Decode for u128 {
    open spec fn parse(bytes: Seq<u8>) -> Result<(u128, Seq<u8>), Error> {
        match parse_be(bytes, 16) {
            Ok((x, rest)) => Ok((x as u128, rest)),
            Err(e) => Err(e),
        }
    }

    /// Reads the integer from 16 big-endian bytes.
    fn decode(input: &mut &[u8]) -> (res: Result<Self, Error>) {
        let x: u128 = read_be(input, 16)?;
        proof {
            lemma_be_value_bound((*old(input))@.take(16));
            lemma_pow256_values();
        }
        Ok(x)
    }
}

impl Terminated for u128 {
    proof fn lemma_terminated(value: u128, rest: Seq<u8>) {
        lemma_pow256_values();
        lemma_parse_be(value as nat, 16, rest);
    }
}

} // verus!
