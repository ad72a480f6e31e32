use crate::field::le_value;
use crate::field::lemma_le_value_bound;
use crate::field::lemma_pow256_thirty_one;
use crate::field::low64;
use crate::field::modulus;
use crate::field::FieldElement;
use vstd::arithmetic::div_mod::lemma_small_mod;
use vstd::prelude::*;
use vstd::string::StringSliceAdditionalSpecFns;

verus! {

/// The least significant 64 bits of each element, in order.
pub open spec fn lowered(elements: Seq<FieldElement>) -> Seq<u64> {
    elements.map_values(|e: FieldElement| low64(e@))
}

/// The least significant 64 bits of a field element. Every element has them.
pub fn prime_field_to_u64(field_element: FieldElement) -> (low: Option<u64>)
    ensures
        low == Some(low64(field_element@)),
{
    Some(field_element.low_u64())
}

/// The least significant 64 bits of each element, in order.
pub fn prime_fields_to_u64s(field_elements: &Vec<FieldElement>) -> (lows: Vec<u64>)
    ensures
        lows@ == lowered(field_elements@),
{
    let mut lows: Vec<u64> = Vec::new();
    let mut i: usize = 0;
    while i < field_elements.len()
        invariant
            i <= field_elements.len(),
            lows@ == lowered(field_elements@.take(i as int)),
        decreases field_elements.len() - i,
    {
        lows.push(field_elements[i].low_u64());
        proof {
            assert(lowered(field_elements@.take(i + 1)) =~= lowered(
                field_elements@.take(i as int),
            ).push(low64(field_elements@[i as int]@)));
        }
        i += 1;
    }
    proof {
        assert(field_elements@.take(field_elements.len() as int) =~= field_elements@);
    }
    lows
}

/// The bytes of a text cut or padded with zeros to the 31 bytes that always
/// lie below the field order.
pub open spec fn fitted(bytes: Seq<u8>) -> Seq<u8> {
    Seq::new(
        31,
        |i: int|
            if i < bytes.len() {
                bytes[i]
            } else {
                0u8
            },
    )
}

/// The field element that a text spells: its UTF-8 bytes, cut or padded with
/// zeros to 31 bytes, read as a little-endian integer.
pub fn string_to_fpvar(s: &str) -> (element: FieldElement)
    ensures
        element@ == le_value(fitted(s.spec_bytes())),
{
    let text = s.as_bytes();
    let mut bytes: Vec<u8> = Vec::new();
    let mut i: usize = 0;
    while i < 31
        invariant
            i <= 31,
            text@ == s.spec_bytes(),
            bytes@ == fitted(text@).take(i as int),
        decreases 31 - i,
    {
        let byte: u8 = if i < text.len() {
            text[i]
        } else {
            0
        };
        bytes.push(byte);
        proof {
            assert(fitted(text@).take(i + 1) =~= fitted(text@).take(i as int).push(byte));
        }
        i += 1;
    }
    proof {
        assert(fitted(text@).take(31) =~= fitted(text@));
        lemma_le_value_bound(bytes@);
        lemma_pow256_thirty_one();
        lemma_small_mod(le_value(bytes@), modulus());
    }
    FieldElement::from_le_bytes_mod_order(bytes.as_slice())
}

} // verus!
