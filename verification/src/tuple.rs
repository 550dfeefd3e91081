//! Tuples: the fields one after another, in order. Every field but the last
//! must be terminated, so that the field behind it starts at the right byte.

use crate::codec::{round_trips, Decode, Encode, Terminated};
use crate::error::Error;
use vstd::prelude::*;

verus! {

impl<A: Encode> Encode for (A,) {
    open spec fn encoding(value: (A::V,)) -> Seq<u8> {
        A::encoding(value.0)
    }

    /// Writes the field of the tuple.
    fn encode_into(&self, dest: &mut Vec<u8>) -> (res: Result<(), Error>) {
        self.0.encode_into(dest)
    }

    /// The encoding length of the field.
    fn encoding_length(&self) -> (res: Result<usize, Error>) {
        self.0.encoding_length()
    }
}

impl<A: Decode> Decode for (A,) {
    open spec fn parse(bytes: Seq<u8>) -> Result<((A::V,), Seq<u8>), Error> {
        match A::parse(bytes) {
            Ok((a, rest)) => Ok(((a,), rest)),
            Err(e) => Err(e),
        }
    }

    /// Reads the field of the tuple.
    fn decode(input: &mut &[u8]) -> (res: Result<Self, Error>) {
        let a: A = A::decode(input)?;
        Ok((a,))
    }

    /// Reads the field into the value that is already in its place.
    fn decode_into(&mut self, input: &mut &[u8]) -> (res: Result<(), Error>) {
        self.0.decode_into(input)
    }
}

impl<A: Terminated> Terminated for (A,) {
    proof fn lemma_terminated(value: (A,), rest: Seq<u8>) {
        A::lemma_terminated(value.0, rest);
    }
}

/// A tuple of one field survives encoding and decoding where the field does.
pub proof fn lemma_tuple1_round_trips<A: Encode + Decode>(last: A::V)
    requires
        round_trips::<A>(last),
    ensures
        round_trips::<(A,)>((last,)),
{
}

impl<A: Encode + Terminated, B: Encode> Encode for (A, B) {
    open spec fn encoding(value: (A::V, B::V)) -> Seq<u8> {
        A::encoding(value.0) + B::encoding(value.1)
    }

    /// Writes the fields of the tuple one after another, in order.
    fn encode_into(&self, dest: &mut Vec<u8>) -> (res: Result<(), Error>) {
        self.0.encode_into(dest)?;
        self.1.encode_into(dest)
    }

    /// The sum of the encoding lengths of the fields.
    fn encoding_length(&self) -> (res: Result<usize, Error>) {
        let a: usize = self.0.encoding_length()?;
        let b: usize = self.1.encoding_length()?;
        Ok(a + b)
    }
}

impl<A: Decode + Terminated, B: Decode> Decode for (A, B) {
    open spec fn parse(bytes: Seq<u8>) -> Result<((A::V, B::V), Seq<u8>), Error> {
        match A::parse(bytes) {
            Ok((a, rest)) => match B::parse(rest) {
                Ok((b, rest)) => Ok(((a, b), rest)),
                Err(e) => Err(e),
            },
            Err(e) => Err(e),
        }
    }

    /// Reads the fields of the tuple one after another, in order.
    fn decode(input: &mut &[u8]) -> (res: Result<Self, Error>) {
        let a: A = A::decode(input)?;
        let b: B = B::decode(input)?;
        Ok((a, b))
    }

    /// Reads each field into the value that is already in its place, in order.
    fn decode_into(&mut self, input: &mut &[u8]) -> (res: Result<(), Error>) {
        self.0.decode_into(input)?;
        self.1.decode_into(input)
    }
}

impl<A: Terminated, B: Terminated> Terminated for (A, B) {
    proof fn lemma_terminated(value: (A, B), rest: Seq<u8>) {
        let from_b = B::encoding(value.1.deep_view()) + rest;
        B::lemma_terminated(value.1, rest);
        let from_a = A::encoding(value.0.deep_view()) + from_b;
        A::lemma_terminated(value.0, from_b);
        assert(Self::encoding(value.deep_view()) + rest =~= from_a);
    }
}

/// A tuple of two fields survives encoding and decoding where its last
/// field does.
pub proof fn lemma_tuple2_round_trips<A: Terminated, B: Encode + Decode>(a: A, last: B::V)
    requires
        round_trips::<B>(last),
    ensures
        round_trips::<(A, B)>((a.deep_view(), last)),
{
    let from_a = A::encoding(a.deep_view()) + B::encoding(last);
    A::lemma_terminated(a, B::encoding(last));
    assert(<(A, B) as Encode>::encoding((a.deep_view(), last)) =~= from_a);
}

impl<A: Encode + Terminated, B: Encode + Terminated, C: Encode> Encode for (A, B, C) {
    open spec fn encoding(value: (A::V, B::V, C::V)) -> Seq<u8> {
        A::encoding(value.0) + B::encoding(value.1) + C::encoding(value.2)
    }

    /// Writes the fields of the tuple one after another, in order.
    fn encode_into(&self, dest: &mut Vec<u8>) -> (res: Result<(), Error>) {
        self.0.encode_into(dest)?;
        self.1.encode_into(dest)?;
        self.2.encode_into(dest)
    }

    /// The sum of the encoding lengths of the fields.
    fn encoding_length(&self) -> (res: Result<usize, Error>) {
        let a: usize = self.0.encoding_length()?;
        let b: usize = self.1.encoding_length()?;
        let c: usize = self.2.encoding_length()?;
        Ok(a + b + c)
    }
}

impl<A: Decode + Terminated, B: Decode + Terminated, C: Decode> Decode for (A, B, C) {
    open spec fn parse(bytes: Seq<u8>) -> Result<((A::V, B::V, C::V), Seq<u8>), Error> {
        match A::parse(bytes) {
            Ok((a, rest)) => match B::parse(rest) {
                Ok((b, rest)) => match C::parse(rest) {
                    Ok((c, rest)) => Ok(((a, b, c), rest)),
                    Err(e) => Err(e),
                },
                Err(e) => Err(e),
            },
            Err(e) => Err(e),
        }
    }

    /// Reads the fields of the tuple one after another, in order.
    fn decode(input: &mut &[u8]) -> (res: Result<Self, Error>) {
        let a: A = A::decode(input)?;
        let b: B = B::decode(input)?;
        let c: C = C::decode(input)?;
        Ok((a, b, c))
    }

    /// Reads each field into the value that is already in its place, in order.
    fn decode_into(&mut self, input: &mut &[u8]) -> (res: Result<(), Error>) {
        self.0.decode_into(input)?;
        self.1.decode_into(input)?;
        self.2.decode_into(input)
    }
}

impl<A: Terminated, B: Terminated, C: Terminated> Terminated for (A, B, C) {
    proof fn lemma_terminated(value: (A, B, C), rest: Seq<u8>) {
        let from_c = C::encoding(value.2.deep_view()) + rest;
        C::lemma_terminated(value.2, rest);
        let from_b = B::encoding(value.1.deep_view()) + from_c;
        B::lemma_terminated(value.1, from_c);
        let from_a = A::encoding(value.0.deep_view()) + from_b;
        A::lemma_terminated(value.0, from_b);
        assert(Self::encoding(value.deep_view()) + rest =~= from_a);
    }
}

/// A tuple of three fields survives encoding and decoding where its last
/// field does.
pub proof fn lemma_tuple3_round_trips<A: Terminated, B: Terminated, C: Encode + Decode>(a: A, b: B, last: C::V)
    requires
        round_trips::<C>(last),
    ensures
        round_trips::<(A, B, C)>((a.deep_view(), b.deep_view(), last)),
{
    let from_b = B::encoding(b.deep_view()) + C::encoding(last);
    B::lemma_terminated(b, C::encoding(last));
    let from_a = A::encoding(a.deep_view()) + from_b;
    A::lemma_terminated(a, from_b);
    assert(<(A, B, C) as Encode>::encoding((a.deep_view(), b.deep_view(), last)) =~= from_a);
}

impl<A: Encode + Terminated, B: Encode + Terminated, C: Encode + Terminated, D: Encode> Encode for (A, B, C, D) {
    open spec fn encoding(value: (A::V, B::V, C::V, D::V)) -> Seq<u8> {
        A::encoding(value.0) + B::encoding(value.1) + C::encoding(value.2) + D::encoding(value.3)
    }

    /// Writes the fields of the tuple one after another, in order.
    fn encode_into(&self, dest: &mut Vec<u8>) -> (res: Result<(), Error>) {
        self.0.encode_into(dest)?;
        self.1.encode_into(dest)?;
        self.2.encode_into(dest)?;
        self.3.encode_into(dest)
    }

    /// The sum of the encoding lengths of the fields.
    fn encoding_length(&self) -> (res: Result<usize, Error>) {
        let a: usize = self.0.encoding_length()?;
        let b: usize = self.1.encoding_length()?;
        let c: usize = self.2.encoding_length()?;
        let d: usize = self.3.encoding_length()?;
        Ok(a + b + c + d)
    }
}

impl<A: Decode + Terminated, B: Decode + Terminated, C: Decode + Terminated, D: Decode> Decode for (A, B, C, D) {
    open spec fn parse(bytes: Seq<u8>) -> Result<((A::V, B::V, C::V, D::V), Seq<u8>), Error> {
        match A::parse(bytes) {
            Ok((a, rest)) => match B::parse(rest) {
                Ok((b, rest)) => match C::parse(rest) {
                    Ok((c, rest)) => match D::parse(rest) {
                        Ok((d, rest)) => Ok(((a, b, c, d), rest)),
                        Err(e) => Err(e),
                    },
                    Err(e) => Err(e),
                },
                Err(e) => Err(e),
            },
            Err(e) => Err(e),
        }
    }

    /// Reads the fields of the tuple one after another, in order.
    fn decode(input: &mut &[u8]) -> (res: Result<Self, Error>) {
        let a: A = A::decode(input)?;
        let b: B = B::decode(input)?;
        let c: C = C::decode(input)?;
        let d: D = D::decode(input)?;
        Ok((a, b, c, d))
    }

    /// Reads each field into the value that is already in its place, in order.
    fn decode_into(&mut self, input: &mut &[u8]) -> (res: Result<(), Error>) {
        self.0.decode_into(input)?;
        self.1.decode_into(input)?;
        self.2.decode_into(input)?;
        self.3.decode_into(input)
    }
}

impl<A: Terminated, B: Terminated, C: Terminated, D: Terminated> Terminated for (A, B, C, D) {
    proof fn lemma_terminated(value: (A, B, C, D), rest: Seq<u8>) {
        let from_d = D::encoding(value.3.deep_view()) + rest;
        D::lemma_terminated(value.3, rest);
        let from_c = C::encoding(value.2.deep_view()) + from_d;
        C::lemma_terminated(value.2, from_d);
        let from_b = B::encoding(value.1.deep_view()) + from_c;
        B::lemma_terminated(value.1, from_c);
        let from_a = A::encoding(value.0.deep_view()) + from_b;
        A::lemma_terminated(value.0, from_b);
        assert(Self::encoding(value.deep_view()) + rest =~= from_a);
    }
}

/// A tuple of four fields survives encoding and decoding where its last
/// field does.
pub proof fn lemma_tuple4_round_trips<A: Terminated, B: Terminated, C: Terminated, D: Encode + Decode>(a: A, b: B, c: C, last: D::V)
    requires
        round_trips::<D>(last),
    ensures
        round_trips::<(A, B, C, D)>((a.deep_view(), b.deep_view(), c.deep_view(), last)),
{
    let from_c = C::encoding(c.deep_view()) + D::encoding(last);
    C::lemma_terminated(c, D::encoding(last));
    let from_b = B::encoding(b.deep_view()) + from_c;
    B::lemma_terminated(b, from_c);
    let from_a = A::encoding(a.deep_view()) + from_b;
    A::lemma_terminated(a, from_b);
    assert(<(A, B, C, D) as Encode>::encoding((a.deep_view(), b.deep_view(), c.deep_view(), last)) =~= from_a);
}

impl<A: Encode + Terminated, B: Encode + Terminated, C: Encode + Terminated, D: Encode + Terminated, E: Encode> Encode for (A, B, C, D, E) {
    open spec fn encoding(value: (A::V, B::V, C::V, D::V, E::V)) -> Seq<u8> {
        A::encoding(value.0) + B::encoding(value.1) + C::encoding(value.2) + D::encoding(value.3) + E::encoding(value.4)
    }

    /// Writes the fields of the tuple one after another, in order.
    fn encode_into(&self, dest: &mut Vec<u8>) -> (res: Result<(), Error>) {
        self.0.encode_into(dest)?;
        self.1.encode_into(dest)?;
        self.2.encode_into(dest)?;
        self.3.encode_into(dest)?;
        self.4.encode_into(dest)
    }

    /// The sum of the encoding lengths of the fields.
    fn encoding_length(&self) -> (res: Result<usize, Error>) {
        let a: usize = self.0.encoding_length()?;
        let b: usize = self.1.encoding_length()?;
        let c: usize = self.2.encoding_length()?;
        let d: usize = self.3.encoding_length()?;
        let e: usize = self.4.encoding_length()?;
        Ok(a + b + c + d + e)
    }
}

impl<A: Decode + Terminated, B: Decode + Terminated, C: Decode + Terminated, D: Decode + Terminated, E: Decode> Decode for (A, B, C, D, E) {
    open spec fn parse(bytes: Seq<u8>) -> Result<((A::V, B::V, C::V, D::V, E::V), Seq<u8>), Error> {
        match A::parse(bytes) {
            Ok((a, rest)) => match B::parse(rest) {
                Ok((b, rest)) => match C::parse(rest) {
                    Ok((c, rest)) => match D::parse(rest) {
                        Ok((d, rest)) => match E::parse(rest) {
                            Ok((e, rest)) => Ok(((a, b, c, d, e), rest)),
                            Err(e) => Err(e),
                        },
                        Err(e) => Err(e),
                    },
                    Err(e) => Err(e),
                },
                Err(e) => Err(e),
            },
            Err(e) => Err(e),
        }
    }

    /// Reads the fields of the tuple one after another, in order.
    fn decode(input: &mut &[u8]) -> (res: Result<Self, Error>) {
        let a: A = A::decode(input)?;
        let b: B = B::decode(input)?;
        let c: C = C::decode(input)?;
        let d: D = D::decode(input)?;
        let e: E = E::decode(input)?;
        Ok((a, b, c, d, e))
    }

    /// Reads each field into the value that is already in its place, in order.
    fn decode_into(&mut self, input: &mut &[u8]) -> (res: Result<(), Error>) {
        self.0.decode_into(input)?;
        self.1.decode_into(input)?;
        self.2.decode_into(input)?;
        self.3.decode_into(input)?;
        self.4.decode_into(input)
    }
}

impl<A: Terminated, B: Terminated, C: Terminated, D: Terminated, E: Terminated> Terminated for (A, B, C, D, E) {
    proof fn lemma_terminated(value: (A, B, C, D, E), rest: Seq<u8>) {
        let from_e = E::encoding(value.4.deep_view()) + rest;
        E::lemma_terminated(value.4, rest);
        let from_d = D::encoding(value.3.deep_view()) + from_e;
        D::lemma_terminated(value.3, from_e);
        let from_c = C::encoding(value.2.deep_view()) + from_d;
        C::lemma_terminated(value.2, from_d);
        let from_b = B::encoding(value.1.deep_view()) + from_c;
        B::lemma_terminated(value.1, from_c);
        let from_a = A::encoding(value.0.deep_view()) + from_b;
        A::lemma_terminated(value.0, from_b);
        assert(Self::encoding(value.deep_view()) + rest =~= from_a);
    }
}

/// A tuple of five fields survives encoding and decoding where its last
/// field does.
pub proof fn lemma_tuple5_round_trips<A: Terminated, B: Terminated, C: Terminated, D: Terminated, E: Encode + Decode>(a: A, b: B, c: C, d: D, last: E::V)
    requires
        round_trips::<E>(last),
    ensures
        round_trips::<(A, B, C, D, E)>((a.deep_view(), b.deep_view(), c.deep_view(), d.deep_view(), last)),
{
    let from_d = D::encoding(d.deep_view()) + E::encoding(last);
    D::lemma_terminated(d, E::encoding(last));
    let from_c = C::encoding(c.deep_view()) + from_d;
    C::lemma_terminated(c, from_d);
    let from_b = B::encoding(b.deep_view()) + from_c;
    B::lemma_terminated(b, from_c);
    let from_a = A::encoding(a.deep_view()) + from_b;
    A::lemma_terminated(a, from_b);
    assert(<(A, B, C, D, E) as Encode>::encoding((a.deep_view(), b.deep_view(), c.deep_view(), d.deep_view(), last)) =~= from_a);
}

impl<A: Encode + Terminated, B: Encode + Terminated, C: Encode + Terminated, D: Encode + Terminated, E: Encode + Terminated, F: Encode> Encode for (A, B, C, D, E, F) {
    open spec fn encoding(value: (A::V, B::V, C::V, D::V, E::V, F::V)) -> Seq<u8> {
        A::encoding(value.0) + B::encoding(value.1) + C::encoding(value.2) + D::encoding(value.3) + E::encoding(value.4) + F::encoding(value.5)
    }

    /// Writes the fields of the tuple one after another, in order.
    fn encode_into(&self, dest: &mut Vec<u8>) -> (res: Result<(), Error>) {
        self.0.encode_into(dest)?;
        self.1.encode_into(dest)?;
        self.2.encode_into(dest)?;
        self.3.encode_into(dest)?;
        self.4.encode_into(dest)?;
        self.5.encode_into(dest)
    }

    /// The sum of the encoding lengths of the fields.
    fn encoding_length(&self) -> (res: Result<usize, Error>) {
        let a: usize = self.0.encoding_length()?;
        let b: usize = self.1.encoding_length()?;
        let c: usize = self.2.encoding_length()?;
        let d: usize = self.3.encoding_length()?;
        let e: usize = self.4.encoding_length()?;
        let f: usize = self.5.encoding_length()?;
        Ok(a + b + c + d + e + f)
    }
}

impl<A: Decode + Terminated, B: Decode + Terminated, C: Decode + Terminated, D: Decode + Terminated, E: Decode + Terminated, F: Decode> Decode for (A, B, C, D, E, F) {
    open spec fn parse(bytes: Seq<u8>) -> Result<((A::V, B::V, C::V, D::V, E::V, F::V), Seq<u8>), Error> {
        match A::parse(bytes) {
            Ok((a, rest)) => match B::parse(rest) {
                Ok((b, rest)) => match C::parse(rest) {
                    Ok((c, rest)) => match D::parse(rest) {
                        Ok((d, rest)) => match E::parse(rest) {
                            Ok((e, rest)) => match F::parse(rest) {
                                Ok((f, rest)) => Ok(((a, b, c, d, e, f), rest)),
                                Err(e) => Err(e),
                            },
                            Err(e) => Err(e),
                        },
                        Err(e) => Err(e),
                    },
                    Err(e) => Err(e),
                },
                Err(e) => Err(e),
            },
            Err(e) => Err(e),
        }
    }

    /// Reads the fields of the tuple one after another, in order.
    fn decode(input: &mut &[u8]) -> (res: Result<Self, Error>) {
        let a: A = A::decode(input)?;
        let b: B = B::decode(input)?;
        let c: C = C::decode(input)?;
        let d: D = D::decode(input)?;
        let e: E = E::decode(input)?;
        let f: F = F::decode(input)?;
        Ok((a, b, c, d, e, f))
    }

    /// Reads each field into the value that is already in its place, in order.
    fn decode_into(&mut self, input: &mut &[u8]) -> (res: Result<(), Error>) {
        self.0.decode_into(input)?;
        self.1.decode_into(input)?;
        self.2.decode_into(input)?;
        self.3.decode_into(input)?;
        self.4.decode_into(input)?;
        self.5.decode_into(input)
    }
}

impl<A: Terminated, B: Terminated, C: Terminated, D: Terminated, E: Terminated, F: Terminated> Terminated for (A, B, C, D, E, F) {
    proof fn lemma_terminated(value: (A, B, C, D, E, F), rest: Seq<u8>) {
        let from_f = F::encoding(value.5.deep_view()) + rest;
        F::lemma_terminated(value.5, rest);
        let from_e = E::encoding(value.4.deep_view()) + from_f;
        E::lemma_terminated(value.4, from_f);
        let from_d = D::encoding(value.3.deep_view()) + from_e;
        D::lemma_terminated(value.3, from_e);
        let from_c = C::encoding(value.2.deep_view()) + from_d;
        C::lemma_terminated(value.2, from_d);
        let from_b = B::encoding(value.1.deep_view()) + from_c;
        B::lemma_terminated(value.1, from_c);
        let from_a = A::encoding(value.0.deep_view()) + from_b;
        A::lemma_terminated(value.0, from_b);
        assert(Self::encoding(value.deep_view()) + rest =~= from_a);
    }
}

/// A tuple of six fields survives encoding and decoding where its last
/// field does.
pub proof fn lemma_tuple6_round_trips<A: Terminated, B: Terminated, C: Terminated, D: Terminated, E: Terminated, F: Encode + Decode>(a: A, b: B, c: C, d: D, e: E, last: F::V)
    requires
        round_trips::<F>(last),
    ensures
        round_trips::<(A, B, C, D, E, F)>((a.deep_view(), b.deep_view(), c.deep_view(), d.deep_view(), e.deep_view(), last)),
{
    let from_e = E::encoding(e.deep_view()) + F::encoding(last);
    E::lemma_terminated(e, F::encoding(last));
    let from_d = D::encoding(d.deep_view()) + from_e;
    D::lemma_terminated(d, from_e);
    let from_c = C::encoding(c.deep_view()) + from_d;
    C::lemma_terminated(c, from_d);
    let from_b = B::encoding(b.deep_view()) + from_c;
    B::lemma_terminated(b, from_c);
    let from_a = A::encoding(a.deep_view()) + from_b;
    A::lemma_terminated(a, from_b);
    assert(<(A, B, C, D, E, F) as Encode>::encoding((a.deep_view(), b.deep_view(), c.deep_view(), d.deep_view(), e.deep_view(), last)) =~= from_a);
}

impl<A: Encode + Terminated, B: Encode + Terminated, C: Encode + Terminated, D: Encode + Terminated, E: Encode + Terminated, F: Encode + Terminated, G: Encode> Encode for (A, B, C, D, E, F, G) {
    open spec fn encoding(value: (A::V, B::V, C::V, D::V, E::V, F::V, G::V)) -> Seq<u8> {
        A::encoding(value.0) + B::encoding(value.1) + C::encoding(value.2) + D::encoding(value.3) + E::encoding(value.4) + F::encoding(value.5) + G::encoding(value.6)
    }

    /// Writes the fields of the tuple one after another, in order.
    fn encode_into(&self, dest: &mut Vec<u8>) -> (res: Result<(), Error>) {
        self.0.encode_into(dest)?;
        self.1.encode_into(dest)?;
        self.2.encode_into(dest)?;
        self.3.encode_into(dest)?;
        self.4.encode_into(dest)?;
        self.5.encode_into(dest)?;
        self.6.encode_into(dest)
    }

    /// The sum of the encoding lengths of the fields.
    fn encoding_length(&self) -> (res: Result<usize, Error>) {
        let a: usize = self.0.encoding_length()?;
        let b: usize = self.1.encoding_length()?;
        let c: usize = self.2.encoding_length()?;
        let d: usize = self.3.encoding_length()?;
        let e: usize = self.4.encoding_length()?;
        let f: usize = self.5.encoding_length()?;
        let g: usize = self.6.encoding_length()?;
        Ok(a + b + c + d + e + f + g)
    }
}

impl<A: Decode + Terminated, B: Decode + Terminated, C: Decode + Terminated, D: Decode + Terminated, E: Decode + Terminated, F: Decode + Terminated, G: Decode> Decode for (A, B, C, D, E, F, G) {
    open spec fn parse(bytes: Seq<u8>) -> Result<((A::V, B::V, C::V, D::V, E::V, F::V, G::V), Seq<u8>), Error> {
        match A::parse(bytes) {
            Ok((a, rest)) => match B::parse(rest) {
                Ok((b, rest)) => match C::parse(rest) {
                    Ok((c, rest)) => match D::parse(rest) {
                        Ok((d, rest)) => match E::parse(rest) {
                            Ok((e, rest)) => match F::parse(rest) {
                                Ok((f, rest)) => match G::parse(rest) {
                                    Ok((g, rest)) => Ok(((a, b, c, d, e, f, g), rest)),
                                    Err(e) => Err(e),
                                },
                                Err(e) => Err(e),
                            },
                            Err(e) => Err(e),
                        },
                        Err(e) => Err(e),
                    },
                    Err(e) => Err(e),
                },
                Err(e) => Err(e),
            },
            Err(e) => Err(e),
        }
    }

    /// Reads the fields of the tuple one after another, in order.
    fn decode(input: &mut &[u8]) -> (res: Result<Self, Error>) {
        let a: A = A::decode(input)?;
        let b: B = B::decode(input)?;
        let c: C = C::decode(input)?;
        let d: D = D::decode(input)?;
        let e: E = E::decode(input)?;
        let f: F = F::decode(input)?;
        let g: G = G::decode(input)?;
        Ok((a, b, c, d, e, f, g))
    }

    /// Reads each field into the value that is already in its place, in order.
    fn decode_into(&mut self, input: &mut &[u8]) -> (res: Result<(), Error>) {
        self.0.decode_into(input)?;
        self.1.decode_into(input)?;
        self.2.decode_into(input)?;
        self.3.decode_into(input)?;
        self.4.decode_into(input)?;
        self.5.decode_into(input)?;
        self.6.decode_into(input)
    }
}

impl<A: Terminated, B: Terminated, C: Terminated, D: Terminated, E: Terminated, F: Terminated, G: Terminated> Terminated for (A, B, C, D, E, F, G) {
    proof fn lemma_terminated(value: (A, B, C, D, E, F, G), rest: Seq<u8>) {
        let from_g = G::encoding(value.6.deep_view()) + rest;
        G::lemma_terminated(value.6, rest);
        let from_f = F::encoding(value.5.deep_view()) + from_g;
        F::lemma_terminated(value.5, from_g);
        let from_e = E::encoding(value.4.deep_view()) + from_f;
        E::lemma_terminated(value.4, from_f);
        let from_d = D::encoding(value.3.deep_view()) + from_e;
        D::lemma_terminated(value.3, from_e);
        let from_c = C::encoding(value.2.deep_view()) + from_d;
        C::lemma_terminated(value.2, from_d);
        let from_b = B::encoding(value.1.deep_view()) + from_c;
        B::lemma_terminated(value.1, from_c);
        let from_a = A::encoding(value.0.deep_view()) + from_b;
        A::lemma_terminated(value.0, from_b);
        assert(Self::encoding(value.deep_view()) + rest =~= from_a);
    }
}

/// A tuple of seven fields survives encoding and decoding where its last
/// field does.
pub proof fn lemma_tuple7_round_trips<A: Terminated, B: Terminated, C: Terminated, D: Terminated, E: Terminated, F: Terminated, G: Encode + Decode>(a: A, b: B, c: C, d: D, e: E, f: F, last: G::V)
    requires
        round_trips::<G>(last),
    ensures
        round_trips::<(A, B, C, D, E, F, G)>((a.deep_view(), b.deep_view(), c.deep_view(), d.deep_view(), e.deep_view(), f.deep_view(), last)),
{
    let from_f = F::encoding(f.deep_view()) + G::encoding(last);
    F::lemma_terminated(f, G::encoding(last));
    let from_e = E::encoding(e.deep_view()) + from_f;
    E::lemma_terminated(e, from_f);
    let from_d = D::encoding(d.deep_view()) + from_e;
    D::lemma_terminated(d, from_e);
    let from_c = C::encoding(c.deep_view()) + from_d;
    C::lemma_terminated(c, from_d);
    let from_b = B::encoding(b.deep_view()) + from_c;
    B::lemma_terminated(b, from_c);
    let from_a = A::encoding(a.deep_view()) + from_b;
    A::lemma_terminated(a, from_b);
    assert(<(A, B, C, D, E, F, G) as Encode>::encoding((a.deep_view(), b.deep_view(), c.deep_view(), d.deep_view(), e.deep_view(), f.deep_view(), last)) =~= from_a);
}

} // verus!
