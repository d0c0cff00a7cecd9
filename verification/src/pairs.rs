//! Parameters as they come: a type with a number, or a type with bytes.
use crate::message::MessageParameter;
use crate::outside;
use vstd::prelude::*;

verus! {

/// A parameter that has not been read yet.
#[derive(Debug)]
pub enum KeyValuePair {
    VarInt { type_value: u64, number: u64 },
    /// `kept_as` is the number that the bytes are kept under elsewhere, should they be a token.
    Bytes { type_value: u64, bytes: Vec<u8>, kept_as: u64 },
}

/// What a pair says.
#[verifier::ext_equal]
pub enum PairView {
    VarInt { type_value: u64, number: u64 },
    Bytes { type_value: u64, bytes: Seq<u8>, kept_as: u64 },
}

impl View for KeyValuePair {
    type V = PairView;

    open spec fn view(&self) -> PairView {
        match self {
            KeyValuePair::VarInt { type_value, number } => PairView::VarInt {
                type_value: *type_value,
                number: *number,
            },
            KeyValuePair::Bytes { type_value, bytes, kept_as } => PairView::Bytes {
                type_value: *type_value,
                bytes: bytes@,
                kept_as: *kept_as,
            },
        }
    }
}

/// What some pairs say.
pub open spec fn pairs_view(ps: Seq<KeyValuePair>) -> Seq<PairView> {
    ps.map_values(|p: KeyValuePair| p@)
}

/// The parameter of a message that a pair holds; `None` if it cannot be read.
pub open spec fn parameter_of(p: PairView) -> Option<MessageParameter> {
    match p {
        PairView::VarInt { type_value, number } => outside::number_parameter(type_value, number),
        PairView::Bytes { type_value, bytes, kept_as } => outside::bytes_parameter(
            type_value,
            bytes,
            kept_as,
        ),
    }
}

/// The parameters that can be read, in order; the others are left out.
pub open spec fn readable(ps: Seq<PairView>) -> Seq<MessageParameter>
    decreases ps.len(),
{
    if ps.len() == 0 {
        Seq::empty()
    } else {
        let before = readable(ps.drop_last());
        match parameter_of(ps.last()) {
            Some(p) => before.push(p),
            None => before,
        }
    }
}

/// Reads the parameter that a pair holds.
pub fn read_parameter(p: &KeyValuePair) -> (r: Option<MessageParameter>)
    ensures
        r == parameter_of(p@),
{
    match p {
        KeyValuePair::VarInt { type_value, number } => outside::read_number_parameter(
            *type_value,
            *number,
        ),
        KeyValuePair::Bytes { type_value, bytes, kept_as } => outside::read_bytes_parameter(
            *type_value,
            bytes.as_slice(),
            *kept_as,
        ),
    }
}

/// Reads parameters, and leaves out those that cannot be read.
pub fn read_parameters(ps: &Vec<KeyValuePair>) -> (r: Vec<MessageParameter>)
    ensures
        r@ == readable(pairs_view(ps@)),
{
    let mut r: Vec<MessageParameter> = Vec::new();
    let mut i: usize = 0;
    let ghost all = pairs_view(ps@);
    assert(all.take(0) =~= Seq::<PairView>::empty());
    while i < ps.len()
        invariant
            i <= ps@.len(),
            all == pairs_view(ps@),
            r@ == readable(all.take(i as int)),
        decreases ps@.len() - i,
    {
        assert(all.take(i + 1).drop_last() =~= all.take(i as int));
        assert(all.take(i + 1).last() == ps@[i as int]@);
        if let Some(p) = read_parameter(&ps[i]) {
            r.push(p);
        }
        i = i + 1;
    }
    assert(all.take(i as int) =~= all);
    r
}

/// A parameter that cannot be read changes nothing, wherever it stands; one that can be read stands
/// between those before it and those behind it.
pub proof fn law_only_unreadable_parameters_are_left_out(
    before: Seq<PairView>,
    p: PairView,
    behind: Seq<PairView>,
)
    ensures
        readable(before.push(p) + behind) == match parameter_of(p) {
            Some(m) => readable(before).push(m) + readable(behind),
            None => readable(before + behind),
        },
        readable(before + behind) == readable(before) + readable(behind),
    decreases behind.len(),
{
    if behind.len() == 0 {
        assert(before.push(p) + behind =~= before.push(p));
        assert(before.push(p).drop_last() =~= before);
        assert(before + behind =~= before);
        assert(readable(before) + readable(behind) =~= readable(before));
        match parameter_of(p) {
            Some(m) => {
                assert(readable(before).push(m) + readable(behind) =~= readable(before).push(m));
            },
            None => {},
        }
    } else {
        let shorter = behind.drop_last();
        law_only_unreadable_parameters_are_left_out(before, p, shorter);
        assert((before.push(p) + behind).drop_last() =~= before.push(p) + shorter);
        assert((before.push(p) + behind).last() == behind.last());
        assert((before + behind).drop_last() =~= before + shorter);
        assert((before + behind).last() == behind.last());
        match parameter_of(behind.last()) {
            Some(l) => {
                assert((readable(before) + readable(shorter)).push(l) =~= readable(before)
                    + readable(shorter).push(l));
                match parameter_of(p) {
                    Some(m) => {
                        assert((readable(before).push(m) + readable(shorter)).push(l) =~= readable(
                            before,
                        ).push(m) + readable(shorter).push(l));
                    },
                    None => {},
                }
            },
            None => {},
        }
    }
}

} // verus!
