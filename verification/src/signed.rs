//! Signed integers, each written as its bytes in big-endian order.

use crate::codec::{Decode, Encode, Terminated};
use crate::error::Error;
use crate::integer::{
    be_bytes, from_twos_complement, lemma_be_value_bound, lemma_parse_be, lemma_pow256_values,
    lemma_twos_complement, parse_be, read_be, twos_complement, write_be,
};
use vstd::prelude::*;

verus! {

impl Encode for i8 {
    open spec fn encoding(value: i8) -> Seq<u8> {
        be_bytes(twos_complement(value as int, 1), 1)
    }

    /// Writes the integer as 1 big-endian byte, in two's complement.
    fn encode_into(&self, dest: &mut Vec<u8>) -> (res: Result<(), Error>) {
        proof {
            lemma_pow256_values();
        }
        let x: u128 = if *self >= 0 {
            *self as u128
        } else {
            (*self as i16 + 0x100) as u128
        };
        write_be(x, 1, dest);
        Ok(())
    }

    /// Always 1.
    fn encoding_length(&self) -> (res: Result<usize, Error>) {
        Ok(1)
    }
}

impl Decode for i8 {
    open spec fn parse(bytes: Seq<u8>) -> Result<(i8, Seq<u8>), Error> {
        match parse_be(bytes, 1) {
            Ok((x, rest)) => Ok((from_twos_complement(x, 1) as i8, rest)),
            Err(e) => Err(e),
        }
    }

    /// Reads the integer from 1 big-endian byte, in two's complement.
    fn decode(input: &mut &[u8]) -> (res: Result<Self, Error>) {
        let x: u128 = read_be(input, 1)?;
        proof {
            lemma_be_value_bound((*old(input))@.take(1));
            lemma_pow256_values();
        }
        if x < 0x80 {
            Ok(x as i8)
        } else {
            Ok((x as i16 - 0x100) as i8)
        }
    }
}

impl Terminated for i8 {
    proof fn lemma_terminated(value: i8, rest: Seq<u8>) {
        lemma_pow256_values();
        lemma_twos_complement(value as int, 1);
        lemma_parse_be(twos_complement(value as int, 1), 1, rest);
    }
}

impl Encode for i16 {
    open spec fn encoding(value: i16) -> Seq<u8> {
        be_bytes(twos_complement(value as int, 2), 2)
    }

    /// Writes the integer as 2 big-endian bytes, in two's complement.
    fn encode_into(&self, dest: &mut Vec<u8>) -> (res: Result<(), Error>) {
        proof {
            lemma_pow256_values();
        }
        let x: u128 = if *self >= 0 {
            *self as u128
        } else {
            (*self as i32 + 0x1_0000) as u128
        };
        write_be(x, 2, dest);
        Ok(())
    }

    /// Always 2.
    fn encoding_length(&self) -> (res: Result<usize, Error>) {
        Ok(2)
    }
}

impl Decode for i16 {
    open spec fn parse(bytes: Seq<u8>) -> Result<(i16, Seq<u8>), Error> {
        match parse_be(bytes, 2) {
            Ok((x, rest)) => Ok((from_twos_complement(x, 2) as i16, rest)),
            Err(e) => Err(e),
        }
    }

    /// Reads the integer from 2 big-endian bytes, in two's complement.
    fn decode(input: &mut &[u8]) -> (res: Result<Self, Error>) {
        let x: u128 = read_be(input, 2)?;
        proof {
            lemma_be_value_bound((*old(input))@.take(2));
            lemma_pow256_values();
        }
        if x < 0x8000 {
            Ok(x as i16)
        } else {
            Ok((x as i32 - 0x1_0000) as i16)
        }
    }
}

impl Terminated for i16 {
    proof fn lemma_terminated(value: i16, rest: Seq<u8>) {
        lemma_pow256_values();
        lemma_twos_complement(value as int, 2);
        lemma_parse_be(twos_complement(value as int, 2), 2, rest);
    }
}

impl Encode for i32 {
    open spec fn encoding(value: i32) -> Seq<u8> {
        be_bytes(twos_complement(value as int, 4), 4)
    }

    /// Writes the integer as 4 big-endian bytes, in two's complement.
    fn encode_into(&self, dest: &mut Vec<u8>) -> (res: Result<(), Error>) {
        proof {
            lemma_pow256_values();
        }
        let x: u128 = if *self >= 0 {
            *self as u128
        } else {
            (*self as i64 + 0x1_0000_0000) as u128
        };
        write_be(x, 4, dest);
        Ok(())
    }

    /// Always 4.
    fn encoding_length(&self) -> (res: Result<usize, Error>) {
        Ok(4)
    }
}

impl Decode for i32 {
    open spec fn parse(bytes: Seq<u8>) -> Result<(i32, Seq<u8>), Error> {
        match parse_be(bytes, 4) {
            Ok((x, rest)) => Ok((from_twos_complement(x, 4) as i32, rest)),
            Err(e) => Err(e),
        }
    }

    /// Reads the integer from 4 big-endian bytes, in two's complement.
    fn decode(input: &mut &[u8]) -> (res: Result<Self, Error>) {
        let x: u128 = read_be(input, 4)?;
        proof {
            lemma_be_value_bound((*old(input))@.take(4));
            lemma_pow256_values();
        }
        if x < 0x8000_0000 {
            Ok(x as i32)
        } else {
            Ok((x as i64 - 0x1_0000_0000) as i32)
        }
    }
}

impl Terminated for i32 {
    proof fn lemma_terminated(value: i32, rest: Seq<u8>) {
        lemma_pow256_values();
        lemma_twos_complement(value as int, 4);
        lemma_parse_be(twos_complement(value as int, 4), 4, rest);
    }
}

impl Encode for i64 {
    open spec fn encoding(value: i64) -> Seq<u8> {
        be_bytes(twos_complement(value as int, 8), 8)
    }

    /// Writes the integer as 8 big-endian bytes, in two's complement.
    fn encode_into(&self, dest: &mut Vec<u8>) -> (res: Result<(), Error>) {
        proof {
            lemma_pow256_values();
        }
        let x: u128 = if *self >= 0 {
            *self as u128
        } else {
            (*self as i128 + 0x1_0000_0000_0000_0000) as u128
        };
        write_be(x, 8, dest);
        Ok(())
    }

    /// Always 8.
    fn encoding_length(&self) -> (res: Result<usize, Error>) {
        Ok(8)
    }
}

impl Decode for i64 {
    open spec fn parse(bytes: Seq<u8>) -> Result<(i64, Seq<u8>), Error> {
        match parse_be(bytes, 8) {
            Ok((x, rest)) => Ok((from_twos_complement(x, 8) as i64, rest)),
            Err(e) => Err(e),
        }
    }

    /// Reads the integer from 8 big-endian bytes, in two's complement.
    fn decode(input: &mut &[u8]) -> (res: Result<Self, Error>) {
        let x: u128 = read_be(input, 8)?;
        proof {
            lemma_be_value_bound((*old(input))@.take(8));
            lemma_pow256_values();
        }
        if x < 0x8000_0000_0000_0000 {
            Ok(x as i64)
        } else {
            Ok((x as i128 - 0x1_0000_0000_0000_0000) as i64)
        }
    }
}

impl Terminated for i64 {
    proof fn lemma_terminated(value: i64, rest: Seq<u8>) {
        lemma_pow256_values();
        lemma_twos_complement(value as int, 8);
        lemma_parse_be(twos_complement(value as int, 8), 8, rest);
    }
}

impl Encode for i128 {
    open spec fn encoding(value: i128) -> Seq<u8> {
        be_bytes(twos_complement(value as int, 16), 16)
    }

    /// Writes the integer as 16 big-endian bytes, in two's complement.
    fn encode_into(&self, dest: &mut Vec<u8>) -> (res: Result<(), Error>) {
        proof {
            lemma_pow256_values();
        }
        let x: u128 = if *self >= 0 {
            *self as u128
        } else {
            (*self - i128::MIN) as u128 + 0x8000_0000_0000_0000_0000_0000_0000_0000
        };
        write_be(x, 16, dest);
        Ok(())
    }

    /// Always 16.
    fn encoding_length(&self) -> (res: Result<usize, Error>) {
        Ok(16)
    }
}

impl Decode for i128 {
    open spec fn parse(bytes: Seq<u8>) -> Result<(i128, Seq<u8>), Error> {
        match parse_be(bytes, 16) {
            Ok((x, rest)) => Ok((from_twos_complement(x, 16) as i128, rest)),
            Err(e) => Err(e),
        }
    }

    /// Reads the integer from 16 big-endian bytes, in two's complement.
    fn decode(input: &mut &[u8]) -> (res: Result<Self, Error>) {
        let x: u128 = read_be(input, 16)?;
        proof {
            lemma_be_value_bound((*old(input))@.take(16));
            lemma_pow256_values();
        }
        if x < 0x8000_0000_0000_0000_0000_0000_0000_0000 {
            Ok(x as i128)
        } else {
            Ok((x - 0x8000_0000_0000_0000_0000_0000_0000_0000) as i128 + i128::MIN)
        }
    }
}

impl Terminated for i128 {
    proof fn lemma_terminated(value: i128, rest: Seq<u8>) {
        lemma_pow256_values();
        lemma_twos_complement(value as int, 16);
        lemma_parse_be(twos_complement(value as int, 16), 16, rest);
    }
}

} // verus!
