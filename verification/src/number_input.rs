//! Number input: a text field that edits a number. The text is parsed in the
//! field's number format when the user types, presses Enter or leaves the
//! field; when the number is replaced from outside, the text of the field is
//! replaced, unless the field has the focus.

use vstd::prelude::*;
use crate::theme::ThemeToken;

verus! {

/// The format of the numbers being edited: it decides how the text is parsed
/// and how a number is written back as text.
#[derive(PartialEq, Eq, Structural, Clone, Copy, Debug)]
pub enum NumberFormat {
    /// A 32-bit float.
    F32,
    /// A 64-bit float.
    F64,
    /// A 32-bit integer.
    I32,
}

impl Default for NumberFormat {
    fn default() -> (r: NumberFormat)
        ensures
            r == NumberFormat::F32,
    {
        NumberFormat::F32
    }
}

/// Parameters of a number input.
pub struct NumberInputProps {
    /// The color of the strip along the left edge, which tells axes apart; by
    /// default transparent (no strip).
    pub sigil_color: ThemeToken,
    /// A caption placed on the left side, such as "X".
    pub label_text: Option<&'static str>,
    /// The format of the numbers edited.
    pub number_format: NumberFormat,
}

impl Default for NumberInputProps {
    fn default() -> (r: NumberInputProps)
        ensures
            r.sigil_color == ThemeToken::Transparent,
            r.label_text.is_none(),
            r.number_format == NumberFormat::F32,
    {
        NumberInputProps {
            sigil_color: ThemeToken::Transparent,
            label_text: None,
            number_format: NumberFormat::F32,
        }
    }
}

/// A child of a number input, and whether it is an editable text field.
#[derive(PartialEq, Eq, Structural, Clone, Copy, Debug)]
pub struct TextChild {
    pub entity: u64,
    pub editable: bool,
}

/// Whether `i` is the index of the first child that is an editable text field
/// and does not have the focus.
pub open spec fn is_first_unfocused_field(children: Seq<TextChild>, focus: Option<u64>, i: int) -> bool {
    &&& 0 <= i < children.len()
    &&& children[i].editable
    &&& focus != Some(children[i].entity)
    &&& forall|k: int|
        0 <= k < i ==> !(#[trigger] children[k]).editable || focus == Some(children[k].entity)
}

/// The first child that is an editable text field and does not have the focus.
pub open spec fn text_field_to_update(children: Seq<TextChild>, focus: Option<u64>) -> Option<u64> {
    if exists|i: int| #[trigger] is_first_unfocused_field(children, focus, i) {
        Some(children[choose|i: int| #[trigger] is_first_unfocused_field(children, focus, i)].entity)
    } else {
        None
    }
}

/// The text field whose text is replaced when the number is replaced from
/// outside: the first editable child that does not have the focus, so that the
/// text being typed is never overwritten.
pub fn number_input_on_value_change(children: &Vec<TextChild>, focus: Option<u64>) -> (r: Option<u64>)
    ensures
        r == text_field_to_update(children@, focus),
        r matches Some(e) ==> focus != Some(e),
{
    let mut i: usize = 0;
    while i < children.len()
        invariant
            i <= children.len(),
            forall|k: int|
                0 <= k < i ==> !(#[trigger] children@[k]).editable || focus == Some(children@[k].entity),
        decreases children.len() - i,
    {
        let c = children[i];
        if focus != Some(c.entity) && c.editable {
            assert(is_first_unfocused_field(children@, focus, i as int));
            let ghost w = choose|w: int| #[trigger] is_first_unfocused_field(children@, focus, w);
            assert(w == i) by {
                if w < i {
                    assert(!children@[w].editable || focus == Some(children@[w].entity));
                }
                if w > i {
                    assert(!children@[i as int].editable || focus == Some(children@[i as int].entity));
                }
            }
            return Some(c.entity);
        }
        i = i + 1;
    }
    None
}

/// Where an edit of a number input's text field is sent, and in which format it
/// is read: to the field's parent, when the parent is a number input (whose
/// format is `parent_format`) and the field holds editable text.
pub open spec fn commit_target_spec(
    parent: Option<u64>,
    parent_format: Option<NumberFormat>,
    has_text: bool,
) -> Option<(u64, NumberFormat)> {
    match (parent, parent_format) {
        (Some(p), Some(f)) => if has_text {
            Some((p, f))
        } else {
            None
        },
        _ => None,
    }
}

/// Where the text of a number input's field is sent when it changes, when Enter
/// is pressed in it, or when it loses the focus (see [`commit_target_spec`]).
pub fn commit_target(parent: Option<u64>, parent_format: Option<NumberFormat>, has_text: bool) -> (r:
    Option<(u64, NumberFormat)>)
    ensures
        r == commit_target_spec(parent, parent_format, has_text),
{
    match (parent, parent_format) {
        (Some(p), Some(f)) => if has_text {
            Some((p, f))
        } else {
            None
        },
        _ => None,
    }
}

/// Where the text of a number input's field is sent when a key is pressed in
/// it: only Enter commits the text (see [`commit_target_spec`]).
pub fn number_input_on_enter_key(
    is_enter: bool,
    parent: Option<u64>,
    parent_format: Option<NumberFormat>,
    has_text: bool,
) -> (r: Option<(u64, NumberFormat)>)
    ensures
        r == (if is_enter {
            commit_target_spec(parent, parent_format, has_text)
        } else {
            None
        }),
{
    if !is_enter {
        return None;
    }
    commit_target(parent, parent_format, has_text)
}

/// Whether a character may be typed into a number input: a digit, a decimal
/// point, a sign, or an exponent mark.
pub open spec fn number_char_allowed_spec(c: char) -> bool {
    is_digit(c) || c == '.' || c == '-' || c == '+' || c == 'e' || c == 'E'
}

/// The filter of the characters typed into a number input.
pub fn number_char_allowed(c: char) -> (r: bool)
    ensures
        r == number_char_allowed_spec(c),
{
    ('0' <= c && c <= '9') || c == '.' || c == '-' || c == '+' || c == 'e' || c == 'E'
}

/// Whether `c` is an ASCII decimal digit.
pub open spec fn is_digit(c: char) -> bool {
    '0' <= c <= '9'
}

/// The value of a decimal digit.
pub open spec fn digit_value(c: char) -> int {
    (c as int) - ('0' as int)
}

/// Whether every character is a decimal digit.
pub open spec fn all_digits(s: Seq<char>) -> bool {
    forall|i: int| 0 <= i < s.len() ==> is_digit(#[trigger] s[i])
}

/// The number written by a string of decimal digits.
pub open spec fn digits_value(s: Seq<char>) -> int
    decreases s.len(),
{
    if s.len() == 0 {
        0
    } else {
        digits_value(s.drop_last()) * 10 + digit_value(s.last())
    }
}

/// Whether the text starts with a sign.
pub open spec fn has_sign(s: Seq<char>) -> bool {
    s.len() > 0 && (s[0] == '-' || s[0] == '+')
}

/// The integer that the text writes, when it is one: an optional `+` or `-`
/// followed by one or more decimal digits and nothing else.
pub open spec fn integer_text_value(s: Seq<char>) -> Option<int> {
    let body = if has_sign(s) {
        s.skip(1)
    } else {
        s
    };
    if body.len() == 0 || !all_digits(body) {
        None
    } else if s[0] == '-' {
        Some(-digits_value(body))
    } else {
        Some(digits_value(body))
    }
}

/// The 32-bit integer that the text writes: `None` when it writes no integer,
/// or one outside the range of `i32`.
pub open spec fn i32_text_value(s: Seq<char>) -> Option<int> {
    match integer_text_value(s) {
        Some(v) => if i32::MIN <= v <= i32::MAX {
            Some(v)
        } else {
            None
        },
        None => None,
    }
}

/// A string of digits is worth at least any of its prefixes.
proof fn lemma_digits_value_prefix(s: Seq<char>, i: int)
    requires
        all_digits(s),
        0 <= i <= s.len(),
    ensures
        digits_value(s) >= digits_value(s.take(i)),
        digits_value(s.take(i)) >= 0,
    decreases s.len() - i,
{
    if i < s.len() {
        lemma_digits_value_prefix(s, i + 1);
        let t = s.take(i + 1);
        assert(t.drop_last() =~= s.take(i));
        assert(is_digit(s[i]));
        assert(t.last() == s[i]);
    } else {
        assert(s.take(i) =~= s);
        lemma_digits_value_nonneg(s);
    }
}

/// A string of digits is worth zero or more.
proof fn lemma_digits_value_nonneg(s: Seq<char>)
    requires
        all_digits(s),
    ensures
        digits_value(s) >= 0,
    decreases s.len(),
{
    if s.len() > 0 {
        assert(all_digits(s.drop_last()));
        lemma_digits_value_nonneg(s.drop_last());
        assert(is_digit(s[s.len() - 1]));
    }
}

/// The character of a decimal digit.
pub open spec fn digit_char(d: int) -> char {
    (d + 48) as char
}

/// The decimal digits of a number, most significant first, without leading zeros.
pub open spec fn decimal_text(n: nat) -> Seq<char>
    decreases n,
{
    if n < 10 {
        seq![digit_char(n as int)]
    } else {
        decimal_text(n / 10).push(digit_char((n % 10) as int))
    }
}

/// How an integer is written: a `-` before the digits of a negative number.
pub open spec fn integer_text(v: int) -> Seq<char> {
    if v < 0 {
        seq!['-'] + decimal_text((-v) as nat)
    } else {
        decimal_text(v as nat)
    }
}

/// The digits of a number are digits, and write that number.
proof fn lemma_decimal_text(n: nat)
    ensures
        decimal_text(n).len() > 0,
        all_digits(decimal_text(n)),
        digits_value(decimal_text(n)) == n,
    decreases n,
{
    if n < 10 {
        let s = decimal_text(n);
        assert(s.drop_last() =~= Seq::<char>::empty());
        assert(digits_value(s.drop_last()) == 0);
        assert(s.last() == digit_char(n as int));
        assert(digit_value(digit_char(n as int)) == n);
        assert(digits_value(s) == digits_value(s.drop_last()) * 10 + digit_value(s.last()));
    } else {
        lemma_decimal_text(n / 10);
        let s = decimal_text(n);
        assert(s.drop_last() =~= decimal_text(n / 10));
        assert(s.last() == digit_char((n % 10) as int));
        assert(digit_value(digit_char((n % 10) as int)) == n % 10);
        assert(n == (n / 10) * 10 + n % 10);
        assert(digits_value(s) == digits_value(s.drop_last()) * 10 + digit_value(s.last()));
        assert(all_digits(s)) by {
            assert forall|i: int| 0 <= i < s.len() implies is_digit(#[trigger] s[i]) by {
                if i < s.len() - 1 {
                    assert(s[i] == decimal_text(n / 10)[i]);
                }
            }
        }
    }
}

/// An `i32` written as text parses back to itself: what the number input
/// writes for an integer is read back unchanged.
pub proof fn law_integer_text_round_trip(v: int)
    requires
        i32::MIN <= v <= i32::MAX,
    ensures
        i32_text_value(integer_text(v)) == Some(v),
{
    let s = integer_text(v);
    if v < 0 {
        lemma_decimal_text((-v) as nat);
        assert(s.skip(1) =~= decimal_text((-v) as nat));
        assert(has_sign(s));
    } else {
        lemma_decimal_text(v as nat);
        assert(is_digit(s[0]));
        assert(!has_sign(s));
    }
}

/// Appends the decimal digits of `n`.
fn push_decimal(n: u32, out: &mut Vec<char>)
    ensures
        final(out)@ == old(out)@ + decimal_text(n as nat),
    decreases n,
{
    if n < 10 {
        let c = (48u8 + n as u8) as char;
        assert(c == digit_char(n as int));
        out.push(c);
        assert(out@ =~= old(out)@ + decimal_text(n as nat));
    } else {
        push_decimal(n / 10, out);
        let d = n % 10;
        let c = (48u8 + d as u8) as char;
        assert(c == digit_char(d as int));
        out.push(c);
        assert(decimal_text(n as nat) == decimal_text((n / 10) as nat).push(digit_char((n % 10) as int)));
        assert(out@ =~= old(out)@ + decimal_text(n as nat));
    }
}

/// How an `i32` is written in a number input of integer format: a `-` before
/// the digits of a negative number, no leading zeros (see [`integer_text`]).
pub fn format_i32(v: i32) -> (r: Vec<char>)
    ensures
        r@ == integer_text(v as int),
{
    let mut r: Vec<char> = Vec::new();
    if v < 0 {
        r.push('-');
        let m: u32 = (0i64 - v as i64) as u32;
        push_decimal(m, &mut r);
        assert(r@ =~= seq!['-'] + decimal_text((-v) as nat));
    } else {
        push_decimal(v as u32, &mut r);
        assert(r@ =~= decimal_text(v as nat));
    }
    r
}

/// Parses the text as a 32-bit integer (an optional sign and decimal digits):
/// `None` when it is not one, or out of range.
#[verifier::rlimit(40)]
#[verifier::spinoff_prover]
pub fn parse_i32(text: &Vec<char>) -> (r: Option<i32>)
    ensures
        r matches Some(v) ==> i32_text_value(text@) == Some(v as int),
        r is None ==> i32_text_value(text@) is None,
{
    let n = text.len();
    if n == 0 {
        return None;
    }
    let negative = text[0] == '-';
    let start: usize = if text[0] == '-' || text[0] == '+' {
        1
    } else {
        0
    };
    let ghost body = if has_sign(text@) {
        text@.skip(1)
    } else {
        text@
    };
    assert(body =~= text@.skip(start as int));
    if start == n {
        return None;
    }
    let mut acc: i64 = 0;
    let mut i: usize = start;
    while i < n
        invariant
            n == text.len(),
            start <= i <= n,
            start < n,
            body == text@.skip(start as int),
            body == (if has_sign(text@) {
                text@.skip(1)
            } else {
                text@
            }),
            negative == (text@[0] == '-'),
            all_digits(body.take(i - start)),
            acc == digits_value(body.take(i - start)),
            0 <= acc <= 2147483648,
        decreases n - i,
    {
        let c = text[i];
        if !('0' <= c && c <= '9') {
            assert(body[i - start] == c);
            assert(!is_digit(body[i - start]));
            assert(!all_digits(body));
            return None;
        }
        let d = (c as u32 - '0' as u32) as i64;
        let ghost t = body.take(i + 1 - start);
        proof {
            assert(t.drop_last() =~= body.take(i - start));
            assert(t.last() == c);
            assert(all_digits(t));
        }
        acc = acc * 10 + d;
        i = i + 1;
        if acc > 2147483648 {
            proof {
                if all_digits(body) {
                    lemma_digits_value_prefix(body, i - start);
                }
            }
            return None;
        }
    }
    assert(body.take(n - start) =~= body);
    if negative {
        Some((0 - acc) as i32)
    } else if acc > 2147483647 {
        None
    } else {
        Some(acc as i32)
    }
}

/// The text of a number input's field is sent to its parent in the parent's
/// own format, whatever the format: it is read as the parent reads numbers.
/// Without editable text, or without a number input as parent, nothing is sent.
pub proof fn law_commit_keeps_parent_format(p: u64, f: NumberFormat, parent: Option<u64>, format: Option<NumberFormat>)
    ensures
        commit_target_spec(Some(p), Some(f), true) == Some((p, f)),
        commit_target_spec(parent, format, false) is None,
        commit_target_spec(None, format, true) is None,
        commit_target_spec(parent, None, true) is None,
        commit_target_spec(parent, format, true) matches Some((q, g)) ==> parent == Some(q) && format == Some(g),
{
}

/// Only digits, the decimal point, the signs and the exponent marks may be
/// typed into a number input; every digit may.
pub proof fn law_number_chars(c: char)
    ensures
        number_char_allowed_spec(c) ==> ('0' <= c <= '9') || c == '.' || c == '-' || c == '+' || c == 'e' || c == 'E',
        '0' <= c <= '9' ==> number_char_allowed_spec(c),
        ('a' <= c <= 'z' || 'A' <= c <= 'Z') && c != 'e' && c != 'E' ==> !number_char_allowed_spec(c),
        c == ' ' || c == ',' ==> !number_char_allowed_spec(c),
{
}

} // verus!
