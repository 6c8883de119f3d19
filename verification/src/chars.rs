//! Character classes of the assembly grammar, and the value of a numeric
//! operand.  The grammar is ASCII: any byte outside these classes is
//! invalid wherever a class is demanded.

use vstd::prelude::*;

verus! {

/// ASCII horizontal tab.
pub const TAB: u8 = 9;

/// ASCII line feed: the line separator.
pub const NEWLINE: u8 = 10;

/// ASCII vertical tab.
pub const VTAB: u8 = 11;

/// ASCII form feed.
pub const FORMFEED: u8 = 12;

/// ASCII carriage return.
pub const CARRIAGE: u8 = 13;

/// ASCII space.
pub const SPACE: u8 = 32;

/// `-`, permitted inside section and label names.
pub const HYPHEN: u8 = 45;

/// `.`, the section-marker start, also permitted inside operand bodies.
pub const DOT: u8 = 46;

/// `:`, the label terminator.
pub const COLON: u8 = 58;

/// `;`, the comment start.
pub const SEMICOLON: u8 = 59;

/// `_`, permitted inside names and operand bodies.
pub const UNDERSCORE: u8 = 95;

/// Whitespace inside a line.
pub open spec fn is_space(c: u8) -> bool {
    c == SPACE || c == TAB || c == VTAB || c == FORMFEED || c == CARRIAGE
}

/// A decimal digit: `0` to `9`.
pub open spec fn is_digit(c: u8) -> bool {
    48 <= c <= 57
}

/// A letter: `A` to `Z` or `a` to `z`.
pub open spec fn is_alpha(c: u8) -> bool {
    (65 <= c <= 90) || (97 <= c <= 122)
}

/// A letter or a digit.
pub open spec fn is_alnum(c: u8) -> bool {
    is_digit(c) || is_alpha(c)
}

/// A byte allowed inside a section or label name.
pub open spec fn is_name_char(c: u8) -> bool {
    is_alnum(c) || c == UNDERSCORE || c == HYPHEN
}

/// A byte allowed inside an operand body (`.` supports decorated literal
/// forms; `-` is not permitted here).
pub open spec fn is_operand_char(c: u8) -> bool {
    is_alnum(c) || c == UNDERSCORE || c == DOT
}

pub fn space_char(c: u8) -> (r: bool)
    ensures
        r == is_space(c),
{
    c == SPACE || c == TAB || c == VTAB || c == FORMFEED || c == CARRIAGE
}

pub fn digit_char(c: u8) -> (r: bool)
    ensures
        r == is_digit(c),
{
    48 <= c && c <= 57
}

pub fn alpha_char(c: u8) -> (r: bool)
    ensures
        r == is_alpha(c),
{
    (65 <= c && c <= 90) || (97 <= c && c <= 122)
}

pub fn alnum_char(c: u8) -> (r: bool)
    ensures
        r == is_alnum(c),
{
    digit_char(c) || alpha_char(c)
}

pub fn name_char(c: u8) -> (r: bool)
    ensures
        r == is_name_char(c),
{
    alnum_char(c) || c == UNDERSCORE || c == HYPHEN
}

pub fn operand_char(c: u8) -> (r: bool)
    ensures
        r == is_operand_char(c),
{
    alnum_char(c) || c == UNDERSCORE || c == DOT
}

/// Every byte of `s` is a decimal digit.
pub open spec fn all_digits(s: Seq<u8>) -> bool {
    forall|i: int| 0 <= i < s.len() ==> is_digit(s[i])
}

/// Every byte of `s` is a letter.
pub open spec fn all_alpha(s: Seq<u8>) -> bool {
    forall|i: int| 0 <= i < s.len() ==> is_alpha(s[i])
}

/// The value of a sequence of decimal digits, most significant first.
pub open spec fn digits_val(s: Seq<u8>) -> int
    decreases s.len(),
{
    if s.len() == 0 {
        0
    } else {
        digits_val(s.drop_last()) * 10 + (s.last() - 48)
    }
}

/// The value of a digit sequence is never negative.
pub proof fn lemma_digits_val_nonneg(s: Seq<u8>)
    requires
        all_digits(s),
    ensures
        digits_val(s) >= 0,
    decreases s.len(),
{
    if s.len() > 0 {
        assert(all_digits(s.drop_last()));
        lemma_digits_val_nonneg(s.drop_last());
    }
}

/// The value of a prefix of a digit sequence is at most the value of the
/// whole sequence.
pub proof fn lemma_digits_val_prefix_le(s: Seq<u8>, i: int)
    requires
        all_digits(s),
        0 <= i <= s.len(),
    ensures
        digits_val(s.take(i)) <= digits_val(s),
    decreases s.len() - i,
{
    if i == s.len() {
        assert(s.take(i) =~= s);
    } else {
        lemma_digits_val_prefix_le(s, i + 1);
        assert(s.take(i + 1).drop_last() =~= s.take(i));
        assert(all_digits(s.take(i)));
        lemma_digits_val_nonneg(s.take(i));
        assert(digits_val(s.take(i + 1)) == digits_val(s.take(i)) * 10 + (s[i] - 48));
    }
}

/// Whether every byte of `text` is a decimal digit.
pub fn text_all_digits(text: &Vec<u8>) -> (r: bool)
    ensures
        r == all_digits(text@),
{
    let mut i: usize = 0;
    while i < text.len()
        invariant
            i <= text@.len(),
            forall|j: int| 0 <= j < i ==> is_digit(text@[j]),
        decreases text@.len() - i,
    {
        if !digit_char(text[i]) {
            return false;
        }
        i = i + 1;
    }
    true
}

/// Whether every byte of `text` is a letter.
pub fn text_all_alpha(text: &Vec<u8>) -> (r: bool)
    ensures
        r == all_alpha(text@),
{
    let mut i: usize = 0;
    while i < text.len()
        invariant
            i <= text@.len(),
            forall|j: int| 0 <= j < i ==> is_alpha(text@[j]),
        decreases text@.len() - i,
    {
        if !alpha_char(text[i]) {
            return false;
        }
        i = i + 1;
    }
    true
}

/// The byte value of an all-digit operand, or `None` if it is out of the
/// 0-255 range.
pub fn numeric_value(text: &Vec<u8>) -> (r: Option<u8>)
    requires
        all_digits(text@),
    ensures
        match r {
            Some(b) => digits_val(text@) == b as int,
            None => digits_val(text@) > 255,
        },
{
    let mut acc: u32 = 0;
    let mut i: usize = 0;
    while i < text.len()
        invariant
            all_digits(text@),
            i <= text@.len(),
            acc as int == digits_val(text@.take(i as int)),
            acc <= 255,
        decreases text@.len() - i,
    {
        let d = text[i];
        proof {
            assert(text@.take(i as int + 1).drop_last() =~= text@.take(i as int));
            assert(text@.take(i as int + 1).last() == text@[i as int]);
        }
        acc = acc * 10 + (d - 48) as u32;
        i = i + 1;
        if acc > 255 {
            proof {
                lemma_digits_val_prefix_le(text@, i as int);
            }
            return None;
        }
    }
    proof {
        assert(text@.take(text@.len() as int) =~= text@);
    }
    Some(acc as u8)
}

/// Whether two byte vectors hold the same bytes.
pub fn bytes_eq(a: &Vec<u8>, b: &Vec<u8>) -> (r: bool)
    ensures
        r == (a@ == b@),
{
    if a.len() != b.len() {
        return false;
    }
    let mut i: usize = 0;
    while i < a.len()
        invariant
            a@.len() == b@.len(),
            i <= a@.len(),
            forall|j: int| 0 <= j < i ==> a@[j] == b@[j],
        decreases a@.len() - i,
    {
        if a[i] != b[i] {
            return false;
        }
        i = i + 1;
    }
    proof {
        assert(a@ =~= b@);
    }
    true
}

} // verus!
