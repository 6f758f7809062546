use vstd::prelude::*;

verus! {

/// Lexical class of a byte in PDF syntax (ISO 32000-1, 7.2.2).
#[derive(Debug, PartialEq, Eq, Structural, Clone, Copy)]
pub enum CharClass {
    /// White-space characters: NUL, TAB, LF, FF, CR, SPACE.
    Space,
    /// Delimiters: `( ) < > [ ] { } / %`.
    Delim,
    /// Everything else.
    Reg,
}

/// White-space bytes.
pub open spec fn is_space(c: u8) -> bool {
    c == 0x00 || c == 0x09 || c == 0x0A || c == 0x0C || c == 0x0D || c == 0x20
}

/// Delimiter bytes.
pub open spec fn is_delim(c: u8) -> bool {
    c == 0x28 || c == 0x29 || c == 0x3C || c == 0x3E || c == 0x5B || c == 0x5D || c == 0x7B
        || c == 0x7D || c == 0x2F || c == 0x25
}

/// Regular bytes: neither white space nor delimiters.
pub open spec fn is_reg(c: u8) -> bool {
    !is_space(c) && !is_delim(c)
}

/// The class of a byte, as a mathematical function.
pub open spec fn class_of(c: u8) -> CharClass {
    if is_space(c) {
        CharClass::Space
    } else if is_delim(c) {
        CharClass::Delim
    } else {
        CharClass::Reg
    }
}

impl CharClass {
    /// Classifies a byte.
    pub fn of(ch: u8) -> (r: CharClass)
        ensures
            r == class_of(ch),
    {
        match ch {
            0x00 | 0x09 | 0x0A | 0x0C | 0x0D | 0x20 => CharClass::Space,
            0x28 | 0x29 | 0x3C | 0x3E | 0x5B | 0x5D | 0x7B | 0x7D | 0x2F | 0x25 => CharClass::Delim,
            _ => CharClass::Reg,
        }
    }
}

/// Executable test for regular bytes.
pub fn is_regular(ch: u8) -> (r: bool)
    ensures
        r == is_reg(ch),
{
    match CharClass::of(ch) {
        CharClass::Reg => true,
        _ => false,
    }
}

/// Executable test for white-space bytes.
pub fn is_white(ch: u8) -> (r: bool)
    ensures
        r == is_space(ch),
{
    match CharClass::of(ch) {
        CharClass::Space => true,
        _ => false,
    }
}

} // verus!
