//! Object identifiers and their hexadecimal text form.
//!
//! An [`ObjectId`] is the 20-byte digest that names a commit or a tree. Its text form is 40
//! hexadecimal digits. Reading and writing that text is left to `gix`; what the two directions
//! promise is stated here over [`hex_decode`] and [`hex_encode`], and the fact that reading
//! undoes writing is proved from those two definitions.

use vstd::prelude::*;

verus! {

/// The digest that identifies a commit or a tree.
#[derive(Clone, Copy, Debug, PartialEq, Eq, Hash)]
pub struct ObjectId {
    pub bytes: [u8; 20],
}

/// The lower-case hexadecimal digit for a value below 16.
pub open spec fn hex_digit(nibble: int) -> char {
    if nibble < 10 {
        ((nibble + 48) as u8) as char
    } else {
        ((nibble + 87) as u8) as char
    }
}

/// The value of a hexadecimal digit of either case, `None` for any other character.
pub open spec fn hex_value(c: char) -> Option<int> {
    let v = c as u32 as int;
    if 48 <= v <= 57 {
        Some(v - 48)
    } else if 97 <= v <= 102 {
        Some(v - 87)
    } else if 65 <= v <= 70 {
        Some(v - 55)
    } else {
        None
    }
}

/// The 40 lower-case digits that spell `id`, two per byte, high nibble first.
pub open spec fn hex_encode(id: ObjectId) -> Seq<char> {
    Seq::new(
        40,
        |i: int|
            if i % 2 == 0 {
                hex_digit(id.bytes@[i / 2] as int / 16)
            } else {
                hex_digit(id.bytes@[i / 2] as int % 16)
            },
    )
}

/// Whether `text` is exactly 40 hexadecimal digits.
pub open spec fn is_hex_id(text: Seq<char>) -> bool {
    &&& text.len() == 40
    &&& forall|i: int| 0 <= i < 40 ==> (#[trigger] hex_value(text[i])).is_some()
}

/// The byte that two digits spell.
pub open spec fn hex_byte(high: char, low: char) -> u8 {
    (hex_value(high).unwrap() * 16 + hex_value(low).unwrap()) as u8
}

/// The identifier that `text` spells, if it is 40 hexadecimal digits.
pub open spec fn hex_decode(text: Seq<char>) -> Option<ObjectId> {
    if is_hex_id(text) {
        Some(choose|id: ObjectId| spells(text, id))
    } else {
        None
    }
}

/// `id` is the identifier whose bytes the digits of `text` give, pair by pair.
pub open spec fn spells(text: Seq<char>, id: ObjectId) -> bool {
    forall|k: int| 0 <= k < 20 ==> #[trigger] id.bytes@[k] == hex_byte(text[2 * k], text[2 * k + 1])
}

/// Two identifiers that the same text spells are one identifier.
pub proof fn lemma_spells_unique(text: Seq<char>, a: ObjectId, b: ObjectId)
    requires
        spells(text, a),
        spells(text, b),
    ensures
        a == b,
{
    broadcast use vstd::array::group_array_axioms;

    assert(a.bytes =~= b.bytes);
}

/// Reading the text that was written for an identifier gives that identifier back.
pub proof fn lemma_hex_round_trip(id: ObjectId)
    ensures
        is_hex_id(hex_encode(id)),
        hex_decode(hex_encode(id)) == Some(id),
{
    broadcast use vstd::array::group_array_axioms;

    let text = hex_encode(id);
    assert(spells(text, id));
    let chosen = choose|other: ObjectId| spells(text, other);
    lemma_spells_unique(text, chosen, id);
}

/// Calls `gix::ObjectId::from_hex` on the bytes of `text`. That function accepts a buffer of
/// exactly 40 bytes, each a hexadecimal digit of either case, and decodes them pair by pair,
/// high nibble first; any other buffer is an error. A string of 40 such bytes is a string of
/// 40 such characters and the other way round, so the claim is made over characters.
#[verifier::external_body]
fn gix_from_hex(text: &str) -> (r: Option<ObjectId>)
    ensures
        r.is_some() == is_hex_id(text@),
        r matches Some(id) ==> spells(text@, id),
{
    match gix::ObjectId::from_hex(text.as_bytes()) {
        Ok(id) => match <[u8; 20]>::try_from(id.as_slice()) {
            Ok(bytes) => Some(ObjectId { bytes }),
            Err(_) => None,
        },
        Err(_) => None,
    }
}

/// Calls `to_string` on a `gix::ObjectId` made of the same bytes, which writes each byte as
/// two lower-case hexadecimal digits, high nibble first.
#[verifier::external_body]
fn gix_to_hex(id: &ObjectId) -> (r: String)
    ensures
        r@ == hex_encode(*id),
{
    gix::ObjectId::from(id.bytes).to_string()
}

impl ObjectId {
    /// Reads an identifier from its 40 hexadecimal digits; `None` for any other text.
    pub fn from_hex(text: &str) -> (r: Option<ObjectId>)
        ensures
            r == hex_decode(text@),
            r.is_some() == is_hex_id(text@),
            r matches Some(id) ==> spells(text@, id),
    {
        let r = gix_from_hex(text);
        proof {
            if let Some(id) = r {
                let chosen = choose|other: ObjectId| spells(text@, other);
                lemma_spells_unique(text@, chosen, id);
            }
        }
        r
    }

    /// Writes the identifier as 40 lower-case hexadecimal digits.
    pub fn to_hex(&self) -> (r: String)
        ensures
            r@ == hex_encode(*self),
            hex_decode(r@) == Some(*self),
    {
        proof {
            lemma_hex_round_trip(*self);
        }
        gix_to_hex(self)
    }

    /// Whether two identifiers are the same digest.
    pub fn same_as(&self, other: &ObjectId) -> (r: bool)
        ensures
            r == (*self == *other),
    {
        broadcast use vstd::array::group_array_axioms;

        let mut i: usize = 0;
        while i < 20
            invariant
                i <= 20,
                forall|j: int| 0 <= j < i ==> self.bytes@[j] == other.bytes@[j],
            decreases 20 - i,
        {
            if self.bytes[i] != other.bytes[i] {
                return false;
            }
            i += 1;
        }
        assert(self.bytes =~= other.bytes);
        true
    }
}

} // verus!
