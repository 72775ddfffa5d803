//! Memory-permission flags, parsed from the VM map's five-character strings.

use vstd::prelude::*;

verus! {

/// ASCII `r`, `w`, `x`, `R`, `W` and `-`.
pub const LETTER_R: u8 = 114;

pub const LETTER_W: u8 = 119;

pub const LETTER_X: u8 = 120;

pub const LETTER_CAP_R: u8 = 82;

pub const LETTER_CAP_W: u8 = 87;

pub const DASH: u8 = 45;

/// The five independent permission flags of one mapping.
#[derive(Clone, Copy, Debug, PartialEq, Eq, Structural)]
pub struct VmPerms {
    pub read: bool,
    pub write: bool,
    pub execute: bool,
    pub read_cap: bool,
    pub write_cap: bool,
}

/// Why a permission string was rejected.
#[derive(Clone, Copy, Debug, PartialEq, Eq, Structural)]
pub enum PermsError {
    /// A position held neither `-` nor its fixed letter.
    UnrecognisedChar,
    /// Fewer than five characters.
    TooShort,
    /// More than five characters.
    TooLong,
}

/// The fixed letter of position `i` of a permission string.
pub open spec fn perm_letter(i: int) -> u8 {
    if i == 0 { LETTER_R }
    else if i == 1 { LETTER_W }
    else if i == 2 { LETTER_X }
    else if i == 3 { LETTER_CAP_R }
    else { LETTER_CAP_W }
}

/// Position `i` of `s` holds `-` or its fixed letter.
pub open spec fn perm_char_ok(s: Seq<u8>, i: int) -> bool {
    s[i] == DASH || s[i] == perm_letter(i)
}

/// What parsing a permission string yields: positions are checked left to
/// right, a missing character is reported before any later fault, and a
/// sixth character is rejected.
pub open spec fn spec_parse_perms(s: Seq<u8>) -> Result<VmPerms, PermsError> {
    if s.len() >= 1 && !perm_char_ok(s, 0) { Err(PermsError::UnrecognisedChar) }
    else if s.len() < 1 { Err(PermsError::TooShort) }
    else if s.len() >= 2 && !perm_char_ok(s, 1) { Err(PermsError::UnrecognisedChar) }
    else if s.len() < 2 { Err(PermsError::TooShort) }
    else if s.len() >= 3 && !perm_char_ok(s, 2) { Err(PermsError::UnrecognisedChar) }
    else if s.len() < 3 { Err(PermsError::TooShort) }
    else if s.len() >= 4 && !perm_char_ok(s, 3) { Err(PermsError::UnrecognisedChar) }
    else if s.len() < 4 { Err(PermsError::TooShort) }
    else if s.len() >= 5 && !perm_char_ok(s, 4) { Err(PermsError::UnrecognisedChar) }
    else if s.len() < 5 { Err(PermsError::TooShort) }
    else if s.len() > 5 { Err(PermsError::TooLong) }
    else {
        Ok(VmPerms {
            read: s[0] == perm_letter(0),
            write: s[1] == perm_letter(1),
            execute: s[2] == perm_letter(2),
            read_cap: s[3] == perm_letter(3),
            write_cap: s[4] == perm_letter(4),
        })
    }
}

/// The five-character rendering of the flags.
pub open spec fn spec_perms_display(p: VmPerms) -> Seq<u8> {
    seq![
        if p.read { LETTER_R } else { DASH },
        if p.write { LETTER_W } else { DASH },
        if p.execute { LETTER_X } else { DASH },
        if p.read_cap { LETTER_CAP_R } else { DASH },
        if p.write_cap { LETTER_CAP_W } else { DASH },
    ]
}

impl VmPerms {
    /// Parses a permission string: each position is the fixed letter of
    /// `rwxRW` when the permission is present, or `-` when it is absent.
    pub fn from_str(s: &[u8]) -> (r: Result<VmPerms, PermsError>)
        ensures
            r == spec_parse_perms(s@),
    {
        let mut i: usize = 0;
        while i < 5
            invariant
                i <= 5,
                forall|j: int| 0 <= j < i ==> j < s@.len() && perm_char_ok(s@, j),
            decreases 5 - i,
        {
            if i >= s.len() {
                return Err(PermsError::TooShort);
            }
            let c = s[i];
            let letter = if i == 0 { LETTER_R }
                else if i == 1 { LETTER_W }
                else if i == 2 { LETTER_X }
                else if i == 3 { LETTER_CAP_R }
                else { LETTER_CAP_W };
            if c != DASH && c != letter {
                return Err(PermsError::UnrecognisedChar);
            }
            i = i + 1;
        }
        assert(perm_char_ok(s@, 0) && perm_char_ok(s@, 1) && perm_char_ok(s@, 2)
            && perm_char_ok(s@, 3) && perm_char_ok(s@, 4));
        if s.len() > 5 {
            return Err(PermsError::TooLong);
        }
        Ok(VmPerms {
            read: s[0] == LETTER_R,
            write: s[1] == LETTER_W,
            execute: s[2] == LETTER_X,
            read_cap: s[3] == LETTER_CAP_R,
            write_cap: s[4] == LETTER_CAP_W,
        })
    }

    /// The five-character rendering of the flags.
    pub fn display_bytes(&self) -> (r: Vec<u8>)
        ensures
            r@ == spec_perms_display(*self),
    {
        let mut v: Vec<u8> = Vec::new();
        v.push(if self.read { LETTER_R } else { DASH });
        v.push(if self.write { LETTER_W } else { DASH });
        v.push(if self.execute { LETTER_X } else { DASH });
        v.push(if self.read_cap { LETTER_CAP_R } else { DASH });
        v.push(if self.write_cap { LETTER_CAP_W } else { DASH });
        assert(v@ =~= spec_perms_display(*self));
        v
    }
}

} // verus!
