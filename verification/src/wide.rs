//! Names as the volume driver reports them: UTF-16 code units.

use vstd::prelude::*;
use widestring::U16Str;

verus! {

/// A code unit that is a character on its own: no surrogate.
pub open spec fn is_plain_unit(unit: u16) -> bool {
    unit < 0xD800 || unit > 0xDFFF
}

/// Two code units that are one character together: a leading surrogate and a
/// trailing one.
pub open spec fn is_pair(lead: u16, trail: u16) -> bool {
    0xD800 <= lead <= 0xDBFF && 0xDC00 <= trail <= 0xDFFF
}

/// The character that a pair of surrogates stands for.
pub open spec fn pair_char(lead: u16, trail: u16) -> char {
    (0x1_0000 + (lead - 0xD800) * 0x400 + (trail - 0xDC00)) as char
}

/// The text of UTF-16 code units, with U+FFFD in place of every unpaired
/// surrogate.
pub open spec fn utf16_text(units: Seq<u16>) -> Seq<char>
    decreases units.len(),
{
    if units.len() == 0 {
        Seq::empty()
    } else if is_plain_unit(units[0]) {
        seq![units[0] as char] + utf16_text(units.skip(1))
    } else if units.len() >= 2 && is_pair(units[0], units[1]) {
        seq![pair_char(units[0], units[1])] + utf16_text(units.skip(2))
    } else {
        seq!['\u{FFFD}'] + utf16_text(units.skip(1))
    }
}

/// Calls `widestring::U16Str::to_string_lossy`, which decodes the units as
/// UTF-16 and replaces each unpaired surrogate with one U+FFFD.
#[verifier::external_body]
fn to_string_lossy(units: &[u16]) -> (text: String)
    ensures
        text@ == utf16_text(units@),
{
    U16Str::from_slice(units).to_string_lossy()
}

/// Units without surrogates are one character each, of the same number.
pub proof fn law_plain_units_are_characters(units: Seq<u16>)
    requires
        forall|i: int| 0 <= i < units.len() ==> is_plain_unit(#[trigger] units[i]),
    ensures
        utf16_text(units) == Seq::new(units.len(), |i: int| units[i] as char),
    decreases units.len(),
{
    let all = Seq::new(units.len(), |i: int| units[i] as char);
    if units.len() == 0 {
        assert(all =~= Seq::empty());
    } else {
        let rest = units.skip(1);
        assert forall|i: int| 0 <= i < rest.len() implies is_plain_unit(#[trigger] rest[i]) by {
            assert(rest[i] == units[i + 1]);
        }
        law_plain_units_are_characters(rest);
        assert(all =~= seq![units[0] as char] + Seq::new(rest.len(), |i: int| rest[i] as char));
    }
}

/// The text of a name given as UTF-16 code units.
pub fn decode_name(units: &[u16]) -> (text: String)
    ensures
        text@ == utf16_text(units@),
{
    to_string_lossy(units)
}

/// Decoding goes unit by unit: a unit that is no surrogate is the character of
/// its number, a leading and a trailing surrogate are one character beyond
/// U+FFFF, and any other surrogate is U+FFFD; what follows is decoded on its
/// own.
pub proof fn law_units_decode_in_order(unit: u16, trail: u16, rest: Seq<u16>)
    ensures
        utf16_text(Seq::empty()) == Seq::<char>::empty(),
        unit < 0xD800 || unit >= 0xE000 ==> utf16_text(seq![unit] + rest) == seq![unit as char]
            + utf16_text(rest),
        0xD800 <= unit < 0xDC00 && 0xDC00 <= trail < 0xE000 ==> {
            &&& utf16_text(seq![unit, trail] + rest).len() == 1 + utf16_text(rest).len()
            &&& utf16_text(seq![unit, trail] + rest)[0] as int == 0x1_0000 + 0x400 * (unit - 0xD800)
                + (trail - 0xDC00)
            &&& utf16_text(seq![unit, trail] + rest).skip(1) == utf16_text(rest)
        },
        0xD800 <= unit < 0xDC00 && (rest.len() == 0 || rest[0] < 0xDC00 || rest[0] >= 0xE000)
            || 0xDC00 <= unit < 0xE000 ==> utf16_text(seq![unit] + rest) == seq!['\u{FFFD}']
            + utf16_text(rest),
{
    let one = seq![unit] + rest;
    let two = seq![unit, trail] + rest;
    assert(one.skip(1) =~= rest);
    assert(two.skip(2) =~= rest);
    if is_pair(unit, trail) {
        assert(utf16_text(two) == seq![pair_char(unit, trail)] + utf16_text(rest));
        assert(utf16_text(two).skip(1) =~= utf16_text(rest));
    }
}

} // verus!
