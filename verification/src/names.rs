//! Names as the system hands them out: 16-bit units. The image name of a
//! process is compared with the name of the target executable, and the name
//! of a kernel object is searched for the signature of the instance lock.

use vstd::prelude::*;

verus! {

/// The image name of the processes that are looked for, in lower case.
pub const TARGET_IMAGE: &'static str = "starcraft.exe";

/// The text that the name of the instance lock holds.
pub const LOCK_SIGNATURE: &'static str = "Starcraft Check For Other Instances";

/// A code with an upper-case letter of ASCII turned into its lower-case
/// letter; every other code is left as it is.
pub open spec fn folded(code: u32) -> u32 {
    if 65 <= code <= 90 {
        (code + 32) as u32
    } else {
        code
    }
}

/// The units spell `name`, upper and lower case of ASCII letters taken as
/// the same.
pub open spec fn same_ignoring_case(units: Seq<u16>, name: Seq<char>) -> bool {
    &&& units.len() == name.len()
    &&& forall|i: int| 0 <= i < name.len() ==> folded(units[i] as u32) == folded(name[i] as u32)
}

/// `text` stands in the units from index `at` on.
pub open spec fn occurs_at(units: Seq<u16>, text: Seq<char>, at: int) -> bool {
    &&& 0 <= at
    &&& at + text.len() <= units.len()
    &&& forall|j: int| 0 <= j < text.len() ==> units[at + j] as u32 == text[j] as u32
}

/// `text` stands somewhere in the units.
pub open spec fn contains_text(units: Seq<u16>, text: Seq<char>) -> bool {
    exists|at: int| occurs_at(units, text, at)
}

/// The first unit of a pair that stands for one character.
pub open spec fn is_high_surrogate(unit: u16) -> bool {
    0xD800 <= unit <= 0xDBFF
}

/// The second unit of a pair that stands for one character.
pub open spec fn is_low_surrogate(unit: u16) -> bool {
    0xDC00 <= unit <= 0xDFFF
}

/// The units are text: each first unit of a pair is followed by a second
/// unit, and each second unit follows a first.
pub open spec fn well_formed(units: Seq<u16>) -> bool {
    forall|i: int|
        0 <= i < units.len() ==> {
            &&& is_high_surrogate(#[trigger] units[i]) ==> i + 1 < units.len() && is_low_surrogate(
                units[i + 1],
            )
            &&& is_low_surrogate(units[i]) ==> i > 0 && is_high_surrogate(units[i - 1])
        }
}

/// The units are the name of the instance lock: they are text, and the
/// signature of the lock stands in them.
pub open spec fn names_lock(units: Seq<u16>) -> bool {
    well_formed(units) && contains_text(units, LOCK_SIGNATURE@)
}

/// The code of each character of `text`.
fn codes_of(text: &str) -> (codes: Vec<u32>)
    ensures
        codes.len() == text@.len(),
        forall|i: int| 0 <= i < codes.len() ==> codes[i] == text@[i] as u32,
{
    let count = text.unicode_len();
    let mut codes: Vec<u32> = Vec::new();
    let mut i: usize = 0;
    while i < count
        invariant
            count == text@.len(),
            i <= count,
            codes.len() == i,
            forall|k: int| 0 <= k < i ==> codes[k] == text@[k] as u32,
        decreases count - i,
    {
        let c = text.get_char(i);
        codes.push(c as u32);
        i += 1;
    }
    codes
}

/// A code with an upper-case letter of ASCII turned into lower case.
fn fold(code: u32) -> (lower: u32)
    ensures
        lower == folded(code),
{
    if 65 <= code && code <= 90 {
        code + 32
    } else {
        code
    }
}

/// Whether the units spell `name`, the case of ASCII letters aside.
pub fn is_named(units: &[u16], name: &str) -> (same: bool)
    ensures
        same == same_ignoring_case(units@, name@),
{
    let codes = codes_of(name);
    if units.len() != codes.len() {
        return false;
    }
    let mut i: usize = 0;
    while i < codes.len()
        invariant
            i <= codes.len(),
            units.len() == codes.len(),
            codes.len() == name@.len(),
            forall|k: int| 0 <= k < codes.len() ==> codes[k] == name@[k] as u32,
            forall|k: int| 0 <= k < i ==> folded(units[k] as u32) == folded(name@[k] as u32),
        decreases codes.len() - i,
    {
        if fold(units[i] as u32) != fold(codes[i]) {
            return false;
        }
        i += 1;
    }
    true
}

/// Whether the codes stand in the units from `at` on.
fn stands_at(units: &[u16], codes: &Vec<u32>, text: Ghost<Seq<char>>, at: usize) -> (yes: bool)
    requires
        codes.len() == text@.len(),
        forall|k: int| 0 <= k < codes.len() ==> codes[k] == text@[k] as u32,
        at + codes.len() <= units.len(),
    ensures
        yes == occurs_at(units@, text@, at as int),
{
    let mut j: usize = 0;
    while j < codes.len()
        invariant
            j <= codes.len(),
            codes.len() == text@.len(),
            at + codes.len() <= units.len(),
            forall|k: int| 0 <= k < codes.len() ==> codes[k] == text@[k] as u32,
            forall|k: int| 0 <= k < j ==> units[at + k] as u32 == text@[k] as u32,
        decreases codes.len() - j,
    {
        if units[at + j] as u32 != codes[j] {
            return false;
        }
        j += 1;
    }
    true
}

/// Whether `text` stands somewhere in the units.
pub fn holds_text(units: &[u16], text: &str) -> (found: bool)
    ensures
        found == contains_text(units@, text@),
{
    let codes = codes_of(text);
    if codes.len() > units.len() {
        assert forall|at: int| !occurs_at(units@, text@, at) by {}
        return false;
    }
    let last = units.len() - codes.len();
    let mut at: usize = 0;
    while at <= last
        invariant
            at <= last + 1,
            last == units.len() - codes.len(),
            codes.len() == text@.len(),
            forall|k: int| 0 <= k < codes.len() ==> codes[k] == text@[k] as u32,
            forall|k: int| 0 <= k < at ==> !occurs_at(units@, text@, k),
        decreases last + 1 - at,
    {
        if stands_at(units, &codes, Ghost(text@), at) {
            return true;
        }
        at += 1;
    }
    assert forall|k: int| !occurs_at(units@, text@, k) by {}
    false
}

/// Whether the units are text.
pub fn is_well_formed(units: &[u16]) -> (yes: bool)
    ensures
        yes == well_formed(units@),
{
    let mut i: usize = 0;
    while i < units.len()
        invariant
            i <= units.len(),
            forall|k: int|
                0 <= k < i ==> {
                    &&& is_high_surrogate(#[trigger] units[k]) ==> k + 1 < units.len()
                        && is_low_surrogate(units[k + 1])
                    &&& is_low_surrogate(units[k]) ==> k > 0 && is_high_surrogate(units[k - 1])
                },
        decreases units.len() - i,
    {
        let unit = units[i];
        if 0xD800 <= unit && unit <= 0xDBFF {
            if i + 1 >= units.len() {
                return false;
            }
            let next = units[i + 1];
            if !(0xDC00 <= next && next <= 0xDFFF) {
                return false;
            }
        } else if 0xDC00 <= unit && unit <= 0xDFFF {
            if i == 0 {
                return false;
            }
            let before = units[i - 1];
            if !(0xD800 <= before && before <= 0xDBFF) {
                return false;
            }
        }
        i += 1;
    }
    true
}

/// Whether the units are the image name of the target executable, in upper
/// or lower case.
pub fn is_target_image(units: &[u16]) -> (yes: bool)
    ensures
        yes == same_ignoring_case(units@, TARGET_IMAGE@),
{
    is_named(units, TARGET_IMAGE)
}

/// Whether the units are the name of the instance lock.
pub fn is_lock_name(units: &[u16]) -> (yes: bool)
    ensures
        yes == names_lock(units@),
{
    is_well_formed(units) && holds_text(units, LOCK_SIGNATURE)
}

} // verus!
