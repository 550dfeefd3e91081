//! The rules by which the traits are implemented for a struct or an enum,
//! for whoever writes such an implementation or generates one.
//!
//! The fields of a struct are written in the order of their declaration, and
//! so are the fields of a variant, behind the discriminant of the variant:
//! its index in the enum, in one byte. A field that is skipped is neither
//! written nor read. Every field that is followed by another one that is
//! written must be of a terminated type.

use vstd::prelude::*;

verus! {

/// One field of a struct or of a variant, as the rules see it.
#[derive(Debug, Clone, Copy, PartialEq, Eq)]
pub struct Field {
    /// Whether the field is left out of the encoding.
    pub skip: bool,
}

/// What the rules ask of the type of a field.
#[derive(Debug, Clone, Copy, PartialEq, Eq)]
pub enum Bound {
    /// Nothing: the field is skipped.
    Skipped,
    /// The type can be encoded or decoded.
    Codec,
    /// The type can be encoded or decoded, and is terminated.
    Terminated,
}

/// The fields of a type: those of a struct, or those of each variant of an
/// enum, in the order of declaration.
#[derive(Debug, PartialEq, Eq)]
pub enum Data {
    Struct(Vec<Field>),
    Enum(Vec<Vec<Field>>),
}

/// The fields that are encoded together: those of a struct, or those of one
/// variant behind its discriminant.
#[derive(Debug, PartialEq, Eq)]
pub struct Group {
    /// The byte written before the fields: none for a struct.
    pub discriminant: Option<u8>,
    /// What is asked of each field, in the order of declaration.
    pub bounds: Vec<Bound>,
}

/// Why a type cannot have an encoding.
#[derive(Debug, Clone, Copy, PartialEq, Eq)]
pub enum DeriveError {
    /// The enum has more variants than one byte can tell apart; the number
    /// of its variants is given.
    TooManyVariants(usize),
}

/// The largest number of variants that an enum may have.
pub const MAX_VARIANTS: usize = 256;

/// Whether a field behind the one at `i` is encoded.
pub open spec fn followed(fields: Seq<Field>, i: int) -> bool {
    exists|j: int| i < j < fields.len() && !(#[trigger] fields[j]).skip
}

/// What is asked of the type of the field at `i`.
pub open spec fn bound_of(fields: Seq<Field>, i: int) -> Bound {
    if fields[i].skip {
        Bound::Skipped
    } else if followed(fields, i) {
        Bound::Terminated
    } else {
        Bound::Codec
    }
}

/// What is asked of the type of each of `fields`.
pub open spec fn bounds_of(fields: Seq<Field>) -> Seq<Bound> {
    Seq::new(fields.len(), |i: int| bound_of(fields, i))
}

/// What is asked of the types of `fields` for the type that holds them to be
/// terminated itself: every field that is encoded must be.
pub open spec fn terminated_bounds_of(fields: Seq<Field>) -> Seq<Bound> {
    Seq::new(
        fields.len(),
        |i: int|
            if fields[i].skip {
                Bound::Skipped
            } else {
                Bound::Terminated
            },
    )
}

/// Whether the field at `i` is asked to be terminated and is not. A field
/// of which `terminated` says nothing counts as not terminated.
pub open spec fn violates(bounds: Seq<Bound>, terminated: Seq<bool>, i: int) -> bool {
    bounds[i] == Bound::Terminated && !(i < terminated.len() && terminated[i])
}

impl DeepView for Group {
    type V = (Option<u8>, Seq<Bound>);

    open spec fn deep_view(&self) -> (Option<u8>, Seq<Bound>) {
        (self.discriminant, self.bounds@)
    }
}

/// Whether `data` is an enum with more variants than one byte can tell apart.
pub open spec fn too_many_variants(data: Data) -> bool {
    data matches Data::Enum(variants) && variants@.len() > MAX_VARIANTS
}

/// The groups of `data`, each with its discriminant and its bounds.
pub open spec fn groups_of(data: Data) -> Seq<(Option<u8>, Seq<Bound>)> {
    match data {
        Data::Struct(fields) => seq![(None, bounds_of(fields@))],
        Data::Enum(variants) => Seq::new(
            variants@.len(),
            |i: int| (Some(i as u8), bounds_of(variants@[i]@)),
        ),
    }
}

/// What is asked of the type of each field: nothing of a skipped field, and
/// of the others that they can be encoded or decoded; those that are
/// followed by another encoded field must be terminated as well.
pub fn iter_terminated_bounds(fields: &[Field]) -> (bounds: Vec<Bound>)
    ensures
        bounds@ == bounds_of(fields@),
{
    let mut end: usize = 0;
    let mut i: usize = 0;
    while i < fields.len()
        invariant
            end <= i <= fields.len(),
            end > 0 ==> !fields@[end - 1].skip,
            forall|j: int| end <= j < i ==> (#[trigger] fields@[j]).skip,
        decreases fields.len() - i,
    {
        if !fields[i].skip {
            end = i + 1;
        }
        i += 1;
    }
    let mut bounds: Vec<Bound> = Vec::with_capacity(fields.len());
    i = 0;
    while i < fields.len()
        invariant
            end <= fields.len(),
            end > 0 ==> !fields@[end - 1].skip,
            forall|j: int| end <= j < fields.len() ==> (#[trigger] fields@[j]).skip,
            i <= fields.len(),
            bounds@.len() == i,
            forall|j: int| 0 <= j < i ==> bounds@[j] == bound_of(fields@, j),
        decreases fields.len() - i,
    {
        let bound = if fields[i].skip {
            Bound::Skipped
        } else if i + 1 < end {
            Bound::Terminated
        } else {
            Bound::Codec
        };
        bounds.push(bound);
        i += 1;
    }
    bounds
}

/// What is asked of the type of each field for the type that holds them to
/// be terminated: that every encoded field is.
pub fn terminated_impl(fields: &[Field]) -> (bounds: Vec<Bound>)
    ensures
        bounds@ == terminated_bounds_of(fields@),
{
    let mut bounds: Vec<Bound> = Vec::with_capacity(fields.len());
    let mut i: usize = 0;
    while i < fields.len()
        invariant
            i <= fields.len(),
            bounds@.len() == i,
            forall|j: int| 0 <= j < i ==> bounds@[j] == terminated_bounds_of(fields@)[j],
        decreases fields.len() - i,
    {
        let bound = if fields[i].skip {
            Bound::Skipped
        } else {
            Bound::Terminated
        };
        bounds.push(bound);
        i += 1;
    }
    bounds
}

/// Holds `bounds` against what is known of the types of the fields:
/// `terminated[i]` says whether the type of the field at `i` is terminated.
/// The first field that is asked to be terminated and is not is refused,
/// by its index.
pub fn check_bounds(bounds: &[Bound], terminated: &[bool]) -> (res: Result<(), usize>)
    ensures
        match res {
            Ok(()) => accepted(bounds@, terminated@),
            Err(at) => {
                &&& at < bounds@.len()
                &&& violates(bounds@, terminated@, at as int)
                &&& forall|i: int| 0 <= i < at ==> !violates(bounds@, terminated@, i)
            },
        },
{
    let mut i: usize = 0;
    while i < bounds.len()
        invariant
            i <= bounds.len(),
            forall|j: int| 0 <= j < i ==> !violates(bounds@, terminated@, j),
        decreases bounds.len() - i,
    {
        let known: bool = i < terminated.len() && terminated[i];
        match bounds[i] {
            Bound::Terminated => {
                if !known {
                    return Err(i);
                }
            },
            _ => {},
        }
        i += 1;
    }
    Ok(())
}

/// The groups of fields of a type, in the order of declaration: one for a
/// struct, and one for each variant of an enum, with the index of the variant
/// as its discriminant. An enum with more variants than a byte can tell apart
/// is refused.
pub fn iter_field_groups(data: &Data) -> (res: Result<Vec<Group>, DeriveError>)
    ensures
        match res {
            Ok(groups) => !too_many_variants(*data) && groups.deep_view() == groups_of(*data),
            Err(DeriveError::TooManyVariants(count)) => {
                &&& too_many_variants(*data)
                &&& data matches Data::Enum(variants) && count == variants@.len()
            },
        },
{
    let mut groups: Vec<Group> = Vec::new();
    match data {
        Data::Struct(fields) => {
            let bounds = iter_terminated_bounds(fields.as_slice());
            groups.push(Group { discriminant: None, bounds });
        },
        Data::Enum(variants) => {
            if variants.len() > MAX_VARIANTS {
                return Err(DeriveError::TooManyVariants(variants.len()));
            }
            let mut i: usize = 0;
            while i < variants.len()
                invariant
                    i <= variants.len() <= MAX_VARIANTS,
                    groups@.len() == i,
                    forall|j: int|
                        0 <= j < i ==> (#[trigger] groups@[j]).deep_view() == (
                            Some(j as u8),
                            bounds_of(variants@[j]@),
                        ),
                decreases variants.len() - i,
            {
                let bounds = iter_terminated_bounds(variants[i].as_slice());
                groups.push(Group { discriminant: Some(i as u8), bounds });
                i += 1;
            }
        },
    }
    Ok(groups)
}

/// Whether `bounds` are met by what `terminated` says of the types.
pub open spec fn accepted(bounds: Seq<Bound>, terminated: Seq<bool>) -> bool {
    forall|i: int| 0 <= i < bounds.len() ==> !violates(bounds, terminated, i)
}

/// Fields are accepted exactly where every encoded field that stands before
/// another encoded field is of a terminated type: a type that is not
/// terminated is refused anywhere but in the last place.
pub proof fn lemma_only_the_last_may_run_on(fields: Seq<Field>, terminated: Seq<bool>)
    requires
        terminated.len() == fields.len(),
    ensures
        accepted(bounds_of(fields), terminated) <==> (forall|i: int, j: int|
            0 <= i < j < fields.len() && !(#[trigger] fields[i]).skip && !(#[trigger] fields[j]).skip
                ==> terminated[i]),
{
    let bounds = bounds_of(fields);
    if accepted(bounds, terminated) {
        assert forall|i: int, j: int|
            0 <= i < j < fields.len() && !(#[trigger] fields[i]).skip && !(
            #[trigger] fields[j]).skip implies terminated[i] by {
            assert(followed(fields, i));
            assert(!violates(bounds, terminated, i));
        }
    }
    if forall|i: int, j: int|
        0 <= i < j < fields.len() && !(#[trigger] fields[i]).skip && !(#[trigger] fields[j]).skip
            ==> terminated[i] {
        assert forall|i: int| 0 <= i < bounds.len() implies !violates(bounds, terminated, i) by {
            if bounds[i] == Bound::Terminated {
                let j = choose|j: int| i < j < fields.len() && !(#[trigger] fields[j]).skip;
                assert(!fields[i].skip && !fields[j].skip);
            }
        }
    }
}

} // verus!
