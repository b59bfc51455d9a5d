//! Character classes and scanners: whitespace, identifiers, digits,
//! fixed words and integer literal values.
use vstd::prelude::*;

verus! {

/// The sets of characters that the scanners run over.
#[derive(Debug, Clone, Copy, PartialEq, Eq, Structural)]
pub enum Class {
    /// Unicode `White_Space`.
    Space,
    /// ASCII letters, digits and `_`.
    Word,
    /// ASCII decimal digits.
    Digit,
    /// Anything but whitespace, `:`, `=`, `(` and `)`: a malformed name.
    NameRun,
    /// Anything but `,`, `)`, `(` and `:`: a malformed parameter.
    ParamRun,
    /// Anything but `)`.
    NotClose,
    /// Anything but `)` and `,`: a malformed atom.
    NotDelim,
}

pub open spec fn is_space(c: char) -> bool {
    let u = c as u32;
    (9 <= u && u <= 13) || u == 32 || u == 0x85 || u == 0xA0 || u == 0x1680
        || (0x2000 <= u && u <= 0x200A) || u == 0x2028 || u == 0x2029 || u == 0x202F
        || u == 0x205F || u == 0x3000
}

pub open spec fn is_letter(c: char) -> bool {
    let u = c as u32;
    (65 <= u && u <= 90) || (97 <= u && u <= 122) || u == 95
}

pub open spec fn is_digit(c: char) -> bool {
    48 <= (c as u32) && (c as u32) <= 57
}

pub open spec fn in_class(c: char, k: Class) -> bool {
    match k {
        Class::Space => is_space(c),
        Class::Word => is_letter(c) || is_digit(c),
        Class::Digit => is_digit(c),
        Class::NameRun => !is_space(c) && c != ':' && c != '=' && c != '(' && c != ')',
        Class::ParamRun => c != ',' && c != ')' && c != '(' && c != ':',
        Class::NotClose => c != ')',
        Class::NotDelim => c != ')' && c != ',',
    }
}

/// The first position at or after `p` whose character is not in `k`.
pub open spec fn class_end(s: Seq<char>, p: int, k: Class) -> int
    decreases s.len() - p,
{
    if 0 <= p < s.len() && in_class(s[p], k) {
        class_end(s, p + 1, k)
    } else {
        p
    }
}

pub open spec fn space_end(s: Seq<char>, p: int) -> int {
    class_end(s, p, Class::Space)
}

/// `w` stands in `s` at `p`.
pub open spec fn lit_at(s: Seq<char>, p: int, w: Seq<char>) -> bool {
    0 <= p && p + w.len() <= s.len() && s.subrange(p, p + w.len()) == w
}

/// `w` stands at `p` as a whole word: no letter, digit or `_` follows.
pub open spec fn kw_at(s: Seq<char>, p: int, w: Seq<char>) -> bool {
    lit_at(s, p, w) && !(p + w.len() < s.len() && in_class(s[p + w.len()], Class::Word))
}

/// An identifier starts at `p`.
pub open spec fn ident_at(s: Seq<char>, p: int) -> bool {
    0 <= p < s.len() && is_letter(s[p])
}

/// The value of a sequence of decimal digits.
pub open spec fn digits_value(d: Seq<char>) -> nat
    decreases d.len(),
{
    if d.len() == 0 {
        0
    } else {
        digits_value(d.drop_last()) * 10 + ((d.last() as u32) - 48) as nat
    }
}

/// An integer literal's value: that of its digits, or 0 where it does not
/// fit in 64 bits.
pub open spec fn int_value(d: Seq<char>) -> u64 {
    if digits_value(d) <= u64::MAX {
        digits_value(d) as u64
    } else {
        0
    }
}

pub proof fn lemma_class_end_bounds(s: Seq<char>, p: int, k: Class)
    requires
        0 <= p <= s.len(),
    ensures
        p <= class_end(s, p, k) <= s.len(),
        forall|i: int| p <= i < class_end(s, p, k) ==> in_class(#[trigger] s[i], k),
        class_end(s, p, k) < s.len() ==> !in_class(s[class_end(s, p, k)], k),
    decreases s.len() - p,
{
    if p < s.len() && in_class(s[p], k) {
        lemma_class_end_bounds(s, p + 1, k);
    }
}

pub fn char_in_class(c: char, k: Class) -> (r: bool)
    ensures
        r == in_class(c, k),
{
    let u = c as u32;
    let space = (9 <= u && u <= 13) || u == 32 || u == 0x85 || u == 0xA0 || u == 0x1680
        || (0x2000 <= u && u <= 0x200A) || u == 0x2028 || u == 0x2029 || u == 0x202F
        || u == 0x205F || u == 0x3000;
    let letter = (65 <= u && u <= 90) || (97 <= u && u <= 122) || u == 95;
    let digit = 48 <= u && u <= 57;
    match k {
        Class::Space => space,
        Class::Word => letter || digit,
        Class::Digit => digit,
        Class::NameRun => !space && c != ':' && c != '=' && c != '(' && c != ')',
        Class::ParamRun => c != ',' && c != ')' && c != '(' && c != ':',
        Class::NotClose => c != ')',
        Class::NotDelim => c != ')' && c != ',',
    }
}

/// Skips the characters of class `k` from `p`.
pub fn scan(s: &Vec<char>, p: usize, k: Class) -> (r: usize)
    requires
        p <= s@.len(),
    ensures
        r == class_end(s@, p as int, k),
        p <= r <= s@.len(),
        s@.len() <= usize::MAX,
{
    let n = s.len();
    let mut i = p;
    while i < s.len() && char_in_class(s[i], k)
        invariant
            p <= i <= s@.len(),
            class_end(s@, i as int, k) == class_end(s@, p as int, k),
        decreases s@.len() - i,
    {
        i = i + 1;
    }
    i
}

pub fn skip_space(s: &Vec<char>, p: usize) -> (r: usize)
    requires
        p <= s@.len(),
    ensures
        r == space_end(s@, p as int),
        p <= r <= s@.len(),
        s@.len() <= usize::MAX,
{
    scan(s, p, Class::Space)
}

/// Whether `w` stands in `s` at `p`.
pub fn has_lit(s: &Vec<char>, p: usize, w: &Vec<char>) -> (r: bool)
    ensures
        r == lit_at(s@, p as int, w@),
        s@.len() <= usize::MAX,
{
    let n = s.len();
    if p > n || w.len() > n - p {
        return false;
    }
    let mut i: usize = 0;
    while i < w.len()
        invariant
            p + w@.len() <= s@.len(),
            n == s@.len(),
            i <= w@.len(),
            forall|j: int| 0 <= j < i ==> s@[p + j] == w@[j],
        decreases w@.len() - i,
    {
        if s[p + i] != w[i] {
            proof {
                assert(s@.subrange(p as int, p + w@.len())[i as int] != w@[i as int]);
            }
            return false;
        }
        i = i + 1;
    }
    proof {
        assert(s@.subrange(p as int, p + w@.len()) =~= w@);
    }
    true
}

pub proof fn lemma_char_lit(s: Seq<char>, p: int, c: char)
    ensures
        lit_at(s, p, seq![c]) == (0 <= p < s.len() && s[p] == c),
{
    if 0 <= p < s.len() {
        assert(s.subrange(p, p + 1) =~= seq![s[p]]);
        assert(seq![c][0] == c);
        assert(s.subrange(p, p + 1)[0] == s[p]);
    }
}

/// Whether the character `c` stands at `p`.
pub fn char_at(s: &Vec<char>, p: usize, c: char) -> (r: bool)
    ensures
        r == lit_at(s@, p as int, seq![c]),
        r == (p < s@.len() && s@[p as int] == c),
        s@.len() <= usize::MAX,
{
    let n = s.len();
    if p < n {
        proof {
            assert(s@.subrange(p as int, p + 1) =~= seq![s@[p as int]]);
            assert(seq![c][0] == c);
            assert(s@.subrange(p as int, p + 1)[0] == s@[p as int]);
        }
        s[p] == c
    } else {
        false
    }
}

/// Whether `w` stands at `p` as a whole word.
pub fn has_kw(s: &Vec<char>, p: usize, w: &Vec<char>) -> (r: bool)
    ensures
        r == kw_at(s@, p as int, w@),
        s@.len() <= usize::MAX,
{
    let n = s.len();
    if !has_lit(s, p, w) {
        return false;
    }
    let e = p + w.len();
    !(e < n && char_in_class(s[e], Class::Word))
}

/// Whether an identifier starts at `p`.
pub fn has_ident(s: &Vec<char>, p: usize) -> (r: bool)
    ensures
        r == ident_at(s@, p as int),
        s@.len() <= usize::MAX,
{
    let n = s.len();
    if p >= n {
        return false;
    }
    let c = s[p];
    let u = c as u32;
    (65 <= u && u <= 90) || (97 <= u && u <= 122) || u == 95
}

/// Relies on `String::push`: appends one character to the string.
#[verifier::external_body]
fn push_char(t: &mut String, c: char)
    ensures
        final(t)@ == old(t)@.push(c),
{
    t.push(c);
}

/// The characters `a..b` of `s` as a string.
pub fn text_of(s: &Vec<char>, a: usize, b: usize) -> (r: String)
    requires
        a <= b <= s@.len(),
    ensures
        r@ == s@.subrange(a as int, b as int),
{
    let mut t = String::new();
    let mut i = a;
    while i < b
        invariant
            a <= i <= b <= s@.len(),
            t@ == s@.subrange(a as int, i as int),
        decreases b - i,
    {
        push_char(&mut t, s[i]);
        proof {
            assert(s@.subrange(a as int, i + 1) =~= s@.subrange(a as int, i as int).push(s@[i as int]));
        }
        i = i + 1;
    }
    t
}

proof fn lemma_digits_push(d: Seq<char>, c: char)
    ensures
        digits_value(d.push(c)) == digits_value(d) * 10 + ((c as u32) - 48) as nat,
{
    assert(d.push(c).drop_last() =~= d);
}

/// The value of the integer literal `s[a..b]`, where every character there
/// is a digit: as `str::parse::<u64>` gives it, and 0 where that fails
/// because the value does not fit.
pub fn int_literal(s: &Vec<char>, a: usize, b: usize) -> (r: u64)
    requires
        a <= b <= s@.len(),
        forall|i: int| a <= i < b ==> is_digit(#[trigger] s@[i]),
    ensures
        r == int_value(s@.subrange(a as int, b as int)),
{
    let mut acc: u64 = 0;
    let mut over = false;
    let mut i = a;
    while i < b
        invariant
            a <= i <= b <= s@.len(),
            forall|j: int| a <= j < b ==> is_digit(#[trigger] s@[j]),
            !over ==> acc as nat == digits_value(s@.subrange(a as int, i as int)),
            over ==> digits_value(s@.subrange(a as int, i as int)) > u64::MAX,
        decreases b - i,
    {
        let c = s[i];
        let dig = (c as u32 - 48) as u64;
        proof {
            assert(is_digit(s@[i as int]));
            assert(s@.subrange(a as int, i + 1) =~= s@.subrange(a as int, i as int).push(c));
            lemma_digits_push(s@.subrange(a as int, i as int), c);
        }
        if !over {
            if acc > (u64::MAX - dig) / 10 {
                over = true;
                proof {
                    let v = digits_value(s@.subrange(a as int, i as int));
                    assert(v * 10 + dig > u64::MAX) by (nonlinear_arith)
                        requires
                            v == acc as nat,
                            acc > (u64::MAX - dig) / 10,
                            dig <= 9,
                    ;
                }
            } else {
                proof {
                    assert(acc * 10 + dig <= u64::MAX) by (nonlinear_arith)
                        requires
                            acc <= (u64::MAX - dig) / 10,
                            dig <= 9,
                    ;
                }
                acc = acc * 10 + dig;
            }
        } else {
            proof {
                let v = digits_value(s@.subrange(a as int, i as int));
                assert(v * 10 + dig > u64::MAX) by (nonlinear_arith)
                    requires
                        v > u64::MAX,
                ;
            }
        }
        i = i + 1;
    }
    if over {
        0
    } else {
        acc
    }
}

} // verus!
