//! Single bits and bit fields of a register byte.
//!
//! A field is named by the position of its lowest bit (`shift`) and by its
//! mask once shifted down to position zero (`mask`): the four-bit field in
//! the high half of a byte has `shift == 4` and `mask == 0x0f`.

use vstd::prelude::*;

verus! {

/// Bit `index` of `value`.
pub open spec fn bit(value: u8, index: u8) -> bool {
    value & (1u8 << index) != 0
}

/// `value` with bit `index` set to `on` and every other bit as it was.
pub open spec fn with_bit(value: u8, index: u8, on: bool) -> u8 {
    if on {
        value | (1u8 << index)
    } else {
        value & !(1u8 << index)
    }
}

/// The field of `value` that starts at bit `shift` and is `mask` wide.
pub open spec fn field(value: u8, shift: u8, mask: u8) -> u8 {
    (value >> shift) & mask
}

/// `value` with that field replaced by the low bits of `x`; bits of `x`
/// that do not fit the mask are dropped.
pub open spec fn with_field(value: u8, shift: u8, mask: u8, x: u8) -> u8 {
    (value & !(mask << shift)) | ((x & mask) << shift)
}

/// A field lies inside the byte when shifting its mask up loses nothing.
pub open spec fn field_fits(shift: u8, mask: u8) -> bool {
    shift < 8 && (mask << shift) >> shift == mask
}

/// Reads bit `index` of `value`.
pub fn get_bit(value: u8, index: u8) -> (on: bool)
    requires
        index < 8,
    ensures
        on == bit(value, index),
{
    value & (1u8 << index) != 0
}

/// Sets bit `index` of `value` to `on`.
pub fn set_bit(value: u8, index: u8, on: bool) -> (out: u8)
    requires
        index < 8,
    ensures
        out == with_bit(value, index, on),
        bit(out, index) == on,
        forall|other: u8| other < 8 && other != index ==> bit(out, other) == bit(value, other),
{
    proof {
        assert forall|other: u8| other < 8 implies bit(with_bit(value, index, on), other) == (
        if other == index {
            on
        } else {
            bit(value, other)
        }) by {
            lemma_with_bit_reads_back(value, index, on, other);
        }
    }
    if on {
        value | (1u8 << index)
    } else {
        value & !(1u8 << index)
    }
}

/// Reads the field of `value` that starts at bit `shift` and is `mask` wide.
pub fn get_field(value: u8, shift: u8, mask: u8) -> (x: u8)
    requires
        field_fits(shift, mask),
    ensures
        x == field(value, shift, mask),
        x <= mask,
{
    proof {
        lemma_field_bounded(value, shift, mask);
    }
    (value >> shift) & mask
}

/// Writes the low bits of `x` to the field of `value` that starts at bit
/// `shift` and is `mask` wide.
pub fn set_field(value: u8, shift: u8, mask: u8, x: u8) -> (out: u8)
    requires
        field_fits(shift, mask),
    ensures
        out == with_field(value, shift, mask, x),
        field(out, shift, mask) == x & mask,
        forall|other: u8|
            other < 8 && !bit(mask << shift, other) ==> bit(out, other) == bit(value, other),
{
    proof {
        lemma_with_field_reads_back(value, shift, mask, x);
        assert forall|other: u8| other < 8 && !bit(mask << shift, other) implies bit(
            with_field(value, shift, mask, x),
            other,
        ) == bit(value, other) by {
            lemma_with_field_keeps_bit(value, shift, mask, x, other);
        }
    }
    (value & !(mask << shift)) | ((x & mask) << shift)
}

/// Setting one bit is seen by that bit and by no other.
pub proof fn lemma_with_bit_reads_back(value: u8, index: u8, on: bool, other: u8)
    requires
        index < 8,
        other < 8,
    ensures
        bit(with_bit(value, index, on), other) == (if other == index {
            on
        } else {
            bit(value, other)
        }),
{
    let set = value | (1u8 << index);
    let cleared = value & !(1u8 << index);
    assert((set & (1u8 << other) != 0) == (other == index || value & (1u8 << other) != 0))
        by (bit_vector)
        requires
            index < 8,
            other < 8,
            set == value | (1u8 << index),
    ;
    assert((cleared & (1u8 << other) != 0) == (other != index && value & (1u8 << other) != 0))
        by (bit_vector)
        requires
            index < 8,
            other < 8,
            cleared == value & !(1u8 << index),
    ;
}

/// A field never exceeds its mask.
pub proof fn lemma_field_bounded(value: u8, shift: u8, mask: u8)
    ensures
        field(value, shift, mask) <= mask,
{
    assert((value >> shift) & mask <= mask) by (bit_vector);
}

/// Writing a field and reading it again gives what was written, cut to the
/// field's width.
pub proof fn lemma_with_field_reads_back(value: u8, shift: u8, mask: u8, x: u8)
    requires
        field_fits(shift, mask),
    ensures
        field(with_field(value, shift, mask, x), shift, mask) == x & mask,
{
    assert((((value & !(mask << shift)) | ((x & mask) << shift)) >> shift) & mask == x & mask)
        by (bit_vector)
        requires
            shift < 8,
            (mask << shift) >> shift == mask,
    ;
}

/// Writing a field leaves every bit outside it as it was.
pub proof fn lemma_with_field_keeps_bit(value: u8, shift: u8, mask: u8, x: u8, index: u8)
    requires
        field_fits(shift, mask),
        index < 8,
        !bit(mask << shift, index),
    ensures
        bit(with_field(value, shift, mask, x), index) == bit(value, index),
{
    assert((((value & !(mask << shift)) | ((x & mask) << shift)) & (1u8 << index) != 0) == (value
        & (1u8 << index) != 0)) by (bit_vector)
        requires
            shift < 8,
            index < 8,
            (mask << shift) >> shift == mask,
            !((mask << shift) & (1u8 << index) != 0),
    ;
}

/// Writing one field leaves a field that does not overlap it as it was.
pub proof fn lemma_with_field_keeps_field(
    value: u8,
    shift: u8,
    mask: u8,
    x: u8,
    other_shift: u8,
    other_mask: u8,
)
    requires
        field_fits(shift, mask),
        field_fits(other_shift, other_mask),
        (mask << shift) & (other_mask << other_shift) == 0,
    ensures
        field(with_field(value, shift, mask, x), other_shift, other_mask) == field(
            value,
            other_shift,
            other_mask,
        ),
{
    assert(((((value & !(mask << shift)) | ((x & mask) << shift)) >> other_shift) & other_mask)
        == ((value >> other_shift) & other_mask)) by (bit_vector)
        requires
            shift < 8,
            other_shift < 8,
            (mask << shift) >> shift == mask,
            (other_mask << other_shift) >> other_shift == other_mask,
            (mask << shift) & (other_mask << other_shift) == 0,
    ;
}

/// Setting a bit outside a field leaves the field as it was.
pub proof fn lemma_with_bit_keeps_field(value: u8, index: u8, on: bool, shift: u8, mask: u8)
    requires
        index < 8,
        field_fits(shift, mask),
        !bit(mask << shift, index),
    ensures
        field(with_bit(value, index, on), shift, mask) == field(value, shift, mask),
{
    assert((((value | (1u8 << index)) >> shift) & mask) == ((value >> shift) & mask))
        by (bit_vector)
        requires
            index < 8,
            shift < 8,
            (mask << shift) >> shift == mask,
            !((mask << shift) & (1u8 << index) != 0),
    ;
    assert((((value & !(1u8 << index)) >> shift) & mask) == ((value >> shift) & mask))
        by (bit_vector)
        requires
            index < 8,
            shift < 8,
            (mask << shift) >> shift == mask,
            !((mask << shift) & (1u8 << index) != 0),
    ;
}

} // verus!
