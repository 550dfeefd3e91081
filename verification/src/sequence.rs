//! Sequences of unknown length: vectors and slices. Their elements are
//! written one after another with nothing before, between or behind them, so
//! a sequence can only be read back to the end of the input.

use crate::codec::{round_trips, Decode, Encode, Terminated};
use crate::error::Error;
use vstd::prelude::*;
use vstd::slice::slice_subrange;

verus! {

/// The encodings of `values`, one after another.
pub open spec fn concat<T: Encode>(values: Seq<T::V>) -> Seq<u8>
    decreases values.len(),
{
    if values.len() == 0 {
        Seq::empty()
    } else {
        concat::<T>(values.drop_last()) + T::encoding(values.last())
    }
}

/// `parsed` with `done` put in front of the values that it holds.
pub open spec fn after<V>(done: Seq<V>, parsed: Result<Seq<V>, Error>) -> Result<Seq<V>, Error> {
    match parsed {
        Ok(values) => Ok(done + values),
        Err(e) => Err(e),
    }
}

/// Reading elements until `bytes` is used up. The first element that cannot
/// be read gives its error. An element that a decoder reads without taking a
/// byte could never use the input up: the byte it stands before is refused.
pub open spec fn parse_all<T: Decode>(bytes: Seq<u8>) -> Result<Seq<T::V>, Error>
    decreases bytes.len(),
{
    if bytes.len() == 0 {
        Ok(Seq::empty())
    } else {
        match T::parse(bytes) {
            Ok((value, rest)) => if rest.len() < bytes.len() {
                after(seq![value], parse_all::<T>(rest))
            } else {
                Err(Error::UnexpectedByte(bytes[0]))
            },
            Err(e) => Err(e),
        }
    }
}

/// The logical values of `items`.
pub open spec fn models<T: DeepView>(items: Seq<T>) -> Seq<T::V> {
    Seq::new(items.len(), |i: int| items[i].deep_view())
}

/// The encodings of the first `n` values are no longer than those of all.
pub proof fn lemma_concat_len_monotonic<T: Encode>(values: Seq<T::V>, n: int)
    requires
        0 <= n <= values.len(),
    ensures
        concat::<T>(values.take(n)).len() <= concat::<T>(values).len(),
    decreases values.len(),
{
    if n == values.len() {
        assert(values.take(n) =~= values);
    } else {
        lemma_concat_len_monotonic::<T>(values.drop_last(), n);
        assert(values.drop_last().take(n) =~= values.take(n));
    }
}

/// Where each value takes `width` bytes, the sequence takes `width` bytes
/// for each of its values.
pub proof fn lemma_concat_len_uniform<T: Encode>(values: Seq<T::V>, width: nat)
    requires
        forall|i: int| 0 <= i < values.len() ==> T::encoding(#[trigger] values[i]).len() == width,
    ensures
        concat::<T>(values).len() == values.len() * width,
    decreases values.len(),
{
    if values.len() > 0 {
        lemma_concat_len_uniform::<T>(values.drop_last(), width);
        assert(values.len() * width == (values.len() - 1) * width + width) by (nonlinear_arith);
    }
}

/// The encodings of a sequence are those of its first value and then those
/// of the others.
pub proof fn lemma_concat_front<T: Encode>(values: Seq<T::V>)
    requires
        values.len() > 0,
    ensures
        concat::<T>(values) == T::encoding(values[0]) + concat::<T>(values.skip(1)),
    decreases values.len(),
{
    if values.len() == 1 {
        assert(values.drop_last() =~= Seq::<T::V>::empty());
        assert(values.skip(1) =~= Seq::<T::V>::empty());
    } else {
        lemma_concat_front::<T>(values.drop_last());
        assert(values.drop_last().skip(1) =~= values.skip(1).drop_last());
    }
}

/// Appends the encoding of each element of `items` to `dest`, in order.
pub fn encode_elements<T: Encode>(items: &[T], dest: &mut Vec<u8>) -> (res: Result<(), Error>)
    ensures
        res is Ok,
        final(dest)@ == old(dest)@ + concat::<T>(items.deep_view()),
{
    let mut i: usize = 0;
    while i < items.len()
        invariant
            i <= items.len(),
            dest@ == old(dest)@ + concat::<T>(items.deep_view().take(i as int)),
        decreases items.len() - i,
    {
        items[i].encode_into(dest)?;
        proof {
            let next = items.deep_view().take(i + 1);
            assert(next.drop_last() =~= items.deep_view().take(i as int));
        }
        i += 1;
    }
    assert(items.deep_view().take(i as int) =~= items.deep_view());
    Ok(())
}

/// The sum of the encoding lengths of the elements of `items`.
pub fn elements_length<T: Encode>(items: &[T]) -> (res: Result<usize, Error>)
    requires
        concat::<T>(items.deep_view()).len() <= usize::MAX,
    ensures
        res == Ok::<usize, Error>(concat::<T>(items.deep_view()).len() as usize),
{
    let mut sum: usize = 0;
    let mut i: usize = 0;
    while i < items.len()
        invariant
            i <= items.len(),
            sum == concat::<T>(items.deep_view().take(i as int)).len(),
            concat::<T>(items.deep_view()).len() <= usize::MAX,
        decreases items.len() - i,
    {
        proof {
            let next = items.deep_view().take(i + 1);
            lemma_concat_len_monotonic::<T>(items.deep_view(), i + 1);
            assert(next.drop_last() =~= items.deep_view().take(i as int));
        }
        sum += items[i].encoding_length()?;
        i += 1;
    }
    assert(items.deep_view().take(i as int) =~= items.deep_view());
    Ok(sum)
}

impl<T: Encode + Terminated> Encode for [T] {
    open spec fn encoding(value: Seq<T::V>) -> Seq<u8> {
        concat::<T>(value)
    }

    /// Writes the elements of the slice one after another, in order.
    fn encode_into(&self, dest: &mut Vec<u8>) -> (res: Result<(), Error>) {
        encode_elements(self, dest)
    }

    /// The sum of the encoding lengths of the elements.
    fn encoding_length(&self) -> (res: Result<usize, Error>) {
        elements_length(self)
    }
}

impl<T: Encode + Terminated> Encode for Vec<T> {
    open spec fn encoding(value: Seq<T::V>) -> Seq<u8> {
        concat::<T>(value)
    }

    /// Writes the elements of the vector one after another, in order.
    fn encode_into(&self, dest: &mut Vec<u8>) -> (res: Result<(), Error>) {
        let items: &[T] = self.as_slice();
        encode_elements(items, dest)
    }

    /// The sum of the encoding lengths of the elements.
    fn encoding_length(&self) -> (res: Result<usize, Error>) {
        let items: &[T] = self.as_slice();
        elements_length(items)
    }
}

impl<T: Decode + Terminated> Decode for Vec<T> {
    open spec fn parse(bytes: Seq<u8>) -> Result<(Seq<T::V>, Seq<u8>), Error> {
        match parse_all::<T>(bytes) {
            Ok(values) => Ok((values, Seq::empty())),
            Err(e) => Err(e),
        }
    }

    /// Reads elements until the input is used up.
    fn decode(input: &mut &[u8]) -> (res: Result<Self, Error>) {
        let mut vec: Vec<T> = Vec::with_capacity(128);
        vec.decode_into(input)?;
        Ok(vec)
    }

    /// Reads elements until the input is used up. The elements that `self`
    /// already holds are decoded in place, one after another from the front;
    /// further elements are appended, and those that the input does not
    /// reach are dropped.
    fn decode_into(&mut self, input: &mut &[u8]) -> (res: Result<(), Error>)
        ensures
            parse_all::<T>((*old(input))@) matches Ok(values) ==> final(self)@.len()
                == values.len(),
    {
        let old_len: usize = self.len();
        let mut slice: &[u8] = *input;
        *input = slice_subrange(slice, slice.len(), slice.len());

        let ghost all = slice@;
        let ghost mut done: Seq<T::V> = Seq::empty();
        let mut i: usize = 0;
        while slice.len() > 0
            invariant
                (*input)@ == Seq::<u8>::empty(),
                all == (*old(input))@,
                parse_all::<T>(all) == after(done, parse_all::<T>(slice@)),
                i + slice@.len() <= all.len() <= usize::MAX,
                done.len() == i,
                self@.len() == if i <= old_len { old_len as int } else { i as int },
                forall|j: int| 0 <= j < i ==> (#[trigger] self@[j]).deep_view() == done[j],
            decreases slice@.len(),
        {
            let before: usize = slice.len();
            let first: u8 = slice[0];
            let ghost bytes = slice@;
            if i < old_len {
                self[i].decode_into(&mut slice)?;
            } else {
                let el = T::decode(&mut slice)?;
                self.push(el);
            }
            if slice.len() >= before {
                return Err(Error::UnexpectedByte(first));
            }
            proof {
                let value = T::parse(bytes)->Ok_0.0;
                assert forall|tail: Seq<T::V>| done + (seq![value] + tail) == done.push(value) + tail
                    by {
                    assert(done + (seq![value] + tail) =~= done.push(value) + tail);
                }
                done = done.push(value);
            }
            i += 1;
        }

        if i < old_len {
            self.truncate(i);
        }
        assert(self.deep_view() =~= done);
        Ok(())
    }
}

/// Reading back the encodings of `items`, where each of them takes at
/// least one byte, gives their values.
pub proof fn lemma_parse_all_concat<T: Terminated>(items: Seq<T>)
    requires
        forall|i: int| 0 <= i < items.len() ==> T::encoding(#[trigger] items[i].deep_view()).len() > 0,
    ensures
        parse_all::<T>(concat::<T>(models(items))) == Ok::<Seq<T::V>, Error>(models(items)),
    decreases items.len(),
{
    let values = models(items);
    if items.len() == 0 {
        assert(values =~= Seq::<T::V>::empty());
    } else {
        let tail = items.skip(1);
        let tail_bytes = concat::<T>(models(tail));
        lemma_concat_front::<T>(values);
        assert(values.skip(1) =~= models(tail));
        T::lemma_terminated(items[0], tail_bytes);
        lemma_parse_all_concat::<T>(tail);
        assert(seq![values[0]] + models(tail) =~= values);
    }
}

/// A vector survives encoding and decoding where each of its elements takes
/// at least one byte. Elements without bytes leave no trace in the encoding,
/// so their number cannot be read back.
pub proof fn lemma_vec_round_trips<T: Terminated>(value: Vec<T>)
    requires
        forall|i: int| 0 <= i < value@.len() ==> T::encoding(#[trigger] value@[i].deep_view()).len() > 0,
    ensures
        round_trips::<Vec<T>>(value.deep_view()),
{
    lemma_parse_all_concat::<T>(value@);
}

} // verus!
