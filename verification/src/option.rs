use crate::codec::{round_trips, Decode, Encode, Terminated};
use crate::error::Error;
use crate::tag::{parse_tag, read_tag};
use vstd::prelude::*;

verus! {

impl<T: Encode> Encode for Option<T> {
    open spec fn encoding(value: Option<T::V>) -> Seq<u8> {
        match value {
            None => seq![0u8],
            Some(inner) => seq![1u8] + T::encoding(inner),
        }
    }

    /// Writes a 0 byte for `None`, or a 1 byte and then the inner value for
    /// `Some`.
    fn encode_into(&self, dest: &mut Vec<u8>) -> (res: Result<(), Error>) {
        match self {
            None => {
                dest.push(0);
                Ok(())
            },
            Some(value) => {
                dest.push(1);
                value.encode_into(dest)
            },
        }
    }

    /// 1 for `None`, or 1 more than the length of the inner value for `Some`.
    fn encoding_length(&self) -> (res: Result<usize, Error>) {
        match self {
            None => Ok(1),
            Some(value) => Ok(1 + value.encoding_length()?),
        }
    }
}

impl<T: Decode> Decode for Option<T> {
    open spec fn parse(bytes: Seq<u8>) -> Result<(Option<T::V>, Seq<u8>), Error> {
        match parse_tag(bytes) {
            Ok((tag, rest)) => if tag == 0 {
                Ok((None, rest))
            } else if tag == 1 {
                match T::parse(rest) {
                    Ok((inner, rest)) => Ok((Some(inner), rest)),
                    Err(e) => Err(e),
                }
            } else {
                Err(Error::UnexpectedByte(tag))
            },
            Err(e) => Err(e),
        }
    }

    /// Reads a 0 byte as `None`, or a 1 byte and then the inner value as
    /// `Some`; any other first byte is refused.
    fn decode(input: &mut &[u8]) -> (res: Result<Self, Error>) {
        let mut option: Option<T> = None;
        option.decode_into(input)?;
        Ok(option)
    }

    /// As `decode`, but where `self` is `Some` and the bytes hold `Some`, the
    /// inner value is decoded in place.
    fn decode_into(&mut self, input: &mut &[u8]) -> (res: Result<(), Error>) {
        match read_tag(input)? {
            0 => {
                *self = None;
            },
            1 => match self {
                None => {
                    *self = Some(T::decode(input)?);
                },
                Some(value) => {
                    value.decode_into(input)?;
                },
            },
            byte => {
                return Err(Error::UnexpectedByte(byte));
            },
        }
        Ok(())
    }
}

impl<T: Terminated> Terminated for Option<T> {
    proof fn lemma_terminated(value: Option<T>, rest: Seq<u8>) {
        let bytes = Self::encoding(value.deep_view()) + rest;
        match value {
            None => {
                assert(bytes.skip(1) =~= rest);
            },
            Some(inner) => {
                T::lemma_terminated(inner, rest);
                assert(bytes.skip(1) =~= T::encoding(inner.deep_view()) + rest);
            },
        }
    }
}

/// An option survives encoding and decoding where the value inside it does.
pub proof fn lemma_option_round_trips<T: Encode + Decode>(value: Option<T::V>)
    requires
        value matches Some(inner) ==> round_trips::<T>(inner),
    ensures
        round_trips::<Option<T>>(value),
{
    let bytes = <Option<T> as Encode>::encoding(value);
    match value {
        None => {
            assert(bytes.skip(1) =~= Seq::<u8>::empty());
        },
        Some(inner) => {
            assert(bytes.skip(1) =~= T::encoding(inner));
        },
    }
}

} // verus!
