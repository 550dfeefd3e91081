//! Arrays: a fixed number of elements, written one after another.

use crate::codec::{Decode, Encode, Terminated};
use crate::error::Error;
use crate::sequence::{concat, elements_length, encode_elements, lemma_concat_front, models};
use vstd::prelude::*;

verus! {

/// `parsed` with `done` put in front of the values that it holds.
pub open spec fn after_n<V>(done: Seq<V>, parsed: Result<(Seq<V>, Seq<u8>), Error>) -> Result<
    (Seq<V>, Seq<u8>),
    Error,
> {
    match parsed {
        Ok((values, rest)) => Ok((done + values, rest)),
        Err(e) => Err(e),
    }
}

/// Reading `n` elements from the front of `bytes`: their values and the bytes
/// behind the last of them, or the error of the first that cannot be read.
pub open spec fn parse_n<T: Decode>(bytes: Seq<u8>, n: nat) -> Result<(Seq<T::V>, Seq<u8>), Error>
    decreases n,
{
    if n == 0 {
        Ok((Seq::empty(), bytes))
    } else {
        match T::parse(bytes) {
            Ok((value, rest)) => after_n(seq![value], parse_n::<T>(rest, (n - 1) as nat)),
            Err(e) => Err(e),
        }
    }
}

/// `<[T; N]>::try_from` of std on a vector: the elements of the vector as an
/// array where there are exactly `N` of them, and nothing otherwise.
#[verifier::external_body]
fn vec_into_array<T, const N: usize>(items: Vec<T>) -> (res: Option<[T; N]>)
    ensures
        res is Some <==> items@.len() == N,
        res matches Some(array) ==> array@ == items@,
{
    match <[T; N]>::try_from(items) {
        Ok(array) => Some(array),
        Err(_) => None,
    }
}

impl<T: Encode + Terminated, const N: usize> Encode for [T; N] {
    open spec fn encoding(value: Seq<T::V>) -> Seq<u8> {
        concat::<T>(value)
    }

    /// Writes the elements of the array one after another, in order.
    fn encode_into(&self, dest: &mut Vec<u8>) -> (res: Result<(), Error>) {
        let items: &[T] = self;
        encode_elements(items, dest)
    }

    /// The sum of the encoding lengths of the elements.
    fn encoding_length(&self) -> (res: Result<usize, Error>) {
        let items: &[T] = self;
        elements_length(items)
    }
}

impl<T: Decode + Terminated, const N: usize> Decode for [T; N] {
    open spec fn parse(bytes: Seq<u8>) -> Result<(Seq<T::V>, Seq<u8>), Error> {
        parse_n::<T>(bytes, N as nat)
    }

    /// Reads `N` elements one after another into a new array.
    fn decode(input: &mut &[u8]) -> (res: Result<Self, Error>) {
        let mut items: Vec<T> = Vec::with_capacity(N);
        let ghost mut done: Seq<T::V> = Seq::empty();
        let mut i: usize = 0;
        while i < N
            invariant
                i <= N,
                parse_n::<T>((*old(input))@, N as nat) == after_n(
                    done,
                    parse_n::<T>((*input)@, (N - i) as nat),
                ),
                done.len() == i,
                items@.len() == i,
                forall|j: int| 0 <= j < i ==> (#[trigger] items@[j]).deep_view() == done[j],
            decreases N - i,
        {
            let ghost bytes = (*input)@;
            let element = T::decode(input)?;
            items.push(element);
            proof {
                let value = T::parse(bytes)->Ok_0.0;
                assert forall|tail: Seq<T::V>| done + (seq![value] + tail) == done.push(value) + tail
                    by {
                    assert(done + (seq![value] + tail) =~= done.push(value) + tail);
                }
                done = done.push(value);
            }
            i += 1;
        }
        let array: [T; N] = vec_into_array::<T, N>(items).unwrap();
        assert(array.deep_view() =~= done);
        Ok(array)
    }

    /// Reads `N` elements one after another, each into the element that is
    /// already in its place.
    fn decode_into(&mut self, input: &mut &[u8]) -> (res: Result<(), Error>) {
        let ghost mut done: Seq<T::V> = Seq::empty();
        let mut i: usize = 0;
        while i < N
            invariant
                i <= N,
                parse_n::<T>((*old(input))@, N as nat) == after_n(
                    done,
                    parse_n::<T>((*input)@, (N - i) as nat),
                ),
                done.len() == i,
                forall|j: int| 0 <= j < i ==> (#[trigger] self@[j]).deep_view() == done[j],
            decreases N - i,
        {
            let ghost bytes = (*input)@;
            self[i].decode_into(input)?;
            proof {
                let value = T::parse(bytes)->Ok_0.0;
                assert forall|tail: Seq<T::V>| done + (seq![value] + tail) == done.push(value) + tail
                    by {
                    assert(done + (seq![value] + tail) =~= done.push(value) + tail);
                }
                done = done.push(value);
            }
            i += 1;
        }
        assert(self.deep_view() =~= done);
        Ok(())
    }
}

/// Reading back the encodings of `items`, whatever follows them, gives their
/// values and leaves what follows.
pub proof fn lemma_parse_n_concat<T: Terminated>(items: Seq<T>, rest: Seq<u8>)
    ensures
        parse_n::<T>(concat::<T>(models(items)) + rest, items.len()) == Ok::<
            (Seq<T::V>, Seq<u8>),
            Error,
        >((models(items), rest)),
    decreases items.len(),
{
    let values = models(items);
    if items.len() == 0 {
        assert(values =~= Seq::<T::V>::empty());
    } else {
        let tail = items.skip(1);
        let tail_bytes = concat::<T>(models(tail));
        lemma_concat_front::<T>(values);
        assert(values.skip(1) =~= models(tail));
        assert(concat::<T>(values) + rest =~= T::encoding(values[0]) + (tail_bytes + rest));
        T::lemma_terminated(items[0], tail_bytes + rest);
        lemma_parse_n_concat::<T>(tail, rest);
        assert(seq![values[0]] + models(tail) =~= values);
    }
}

impl<T: Terminated, const N: usize> Terminated for [T; N] {
    proof fn lemma_terminated(value: [T; N], rest: Seq<u8>) {
        lemma_parse_n_concat::<T>(value@, rest);
    }
}

} // verus!
