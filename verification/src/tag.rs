//! The single byte that tells the cases of a value apart: the tag of an
//! option or a boolean, and the discriminant of an enum.

use crate::error::Error;
use vstd::prelude::*;
use vstd::slice::slice_subrange;

verus! {

/// Reading one tag byte: the byte and what follows it, or `ShortRead` on
/// empty input.
pub open spec fn parse_tag(bytes: Seq<u8>) -> Result<(u8, Seq<u8>), Error> {
    if bytes.len() == 0 {
        Err(Error::ShortRead)
    } else {
        Ok((bytes[0], bytes.skip(1)))
    }
}

/// Reading the discriminant of an enum with `variants` variants: a tag byte
/// that must be the index of one of them.
pub open spec fn parse_discriminant(bytes: Seq<u8>, variants: nat) -> Result<(u8, Seq<u8>), Error> {
    match parse_tag(bytes) {
        Ok((tag, rest)) => if (tag as nat) < variants {
            Ok((tag, rest))
        } else {
            Err(Error::UnexpectedByte(tag))
        },
        Err(e) => Err(e),
    }
}

/// Takes the first byte of `input`.
pub fn read_tag(input: &mut &[u8]) -> (res: Result<u8, Error>)
    ensures
        match parse_tag((*old(input))@) {
            Ok((tag, rest)) => res == Ok::<u8, Error>(tag) && (*final(input))@ == rest,
            Err(e) => res == Err::<u8, Error>(e) && *final(input) == *old(input),
        },
{
    let bytes: &[u8] = *input;
    if bytes.len() == 0 {
        return Err(Error::ShortRead);
    }
    let tag: u8 = bytes[0];
    *input = slice_subrange(bytes, 1, bytes.len());
    Ok(tag)
}

/// Writes the discriminant of the variant declared at `index`, counting
/// from zero. The fields of the variant follow it, written as a tuple is.
pub fn encode_discriminant(index: u8, dest: &mut Vec<u8>) -> (res: Result<(), Error>)
    ensures
        res is Ok,
        final(dest)@ == old(dest)@ + seq![index],
{
    dest.push(index);
    Ok(())
}

/// Reads the discriminant of an enum with `variants` variants. A byte that
/// is the index of none of them is refused.
pub fn decode_discriminant(input: &mut &[u8], variants: usize) -> (res: Result<u8, Error>)
    ensures
        match parse_discriminant((*old(input))@, variants as nat) {
            Ok((index, rest)) => res == Ok::<u8, Error>(index) && (*final(input))@ == rest,
            Err(e) => res == Err::<u8, Error>(e),
        },
{
    let tag: u8 = read_tag(input)?;
    if (tag as usize) < variants {
        Ok(tag)
    } else {
        Err(Error::UnexpectedByte(tag))
    }
}

/// The discriminant of a variant is read back whatever follows it, and what
/// follows it is left for the fields.
pub proof fn lemma_discriminant_terminated(index: u8, variants: nat, rest: Seq<u8>)
    requires
        (index as nat) < variants,
    ensures
        parse_discriminant(seq![index] + rest, variants) == Ok::<(u8, Seq<u8>), Error>(
            (index, rest),
        ),
{
    assert((seq![index] + rest).skip(1) =~= rest);
}

} // verus!
