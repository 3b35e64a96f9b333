//! Small verified helpers on text: decimal numerals, string comparison, repetition,
//! and the few std text functions that the languages rely on.
use vstd::prelude::*;

verus! {

/// The character of the decimal digit `d` (`0 <= d < 10`).
pub open spec fn digit_char(d: int) -> char {
    seq!['0', '1', '2', '3', '4', '5', '6', '7', '8', '9'][d]
}

/// The decimal numeral of a natural number, without leading zeros.
pub open spec fn digits(n: nat) -> Seq<char>
    decreases n,
{
    if n < 10 {
        seq![digit_char(n as int)]
    } else {
        digits(n / 10).push(digit_char((n % 10) as int))
    }
}

/// The decimal numeral of an integer, with a leading `-` when it is negative
/// (the text that Rust's `to_string` gives an integer).
pub open spec fn decimal(i: int) -> Seq<char> {
    if i < 0 {
        seq!['-'] + digits((-i) as nat)
    } else {
        digits(i as nat)
    }
}

fn digit_str(d: u128) -> (r: &'static str)
    requires
        d < 10,
    ensures
        r@ == seq![digit_char(d as int)],
{
    proof {
        reveal_strlit("0");
        reveal_strlit("1");
        reveal_strlit("2");
        reveal_strlit("3");
        reveal_strlit("4");
        reveal_strlit("5");
        reveal_strlit("6");
        reveal_strlit("7");
        reveal_strlit("8");
        reveal_strlit("9");
    }
    if d == 0 {
        "0"
    } else if d == 1 {
        "1"
    } else if d == 2 {
        "2"
    } else if d == 3 {
        "3"
    } else if d == 4 {
        "4"
    } else if d == 5 {
        "5"
    } else if d == 6 {
        "6"
    } else if d == 7 {
        "7"
    } else if d == 8 {
        "8"
    } else {
        "9"
    }
}

fn push_digits(out: &mut String, n: u128)
    ensures
        final(out)@ == old(out)@ + digits(n as nat),
    decreases n,
{
    if n >= 10 {
        push_digits(out, n / 10);
    }
    out.append(digit_str(n % 10));
}

/// Appends the decimal numeral of `i` to `out`.
pub(crate) fn push_decimal(out: &mut String, i: i128)
    requires
        i > i128::MIN,
    ensures
        final(out)@ == old(out)@ + decimal(i as int),
{
    if i < 0 {
        out.append("-");
        proof {
            reveal_strlit("-");
        }
        let m: u128 = (-i) as u128;
        push_digits(out, m);
        assert(final(out)@ =~= old(out)@ + decimal(i as int));
    } else {
        push_digits(out, i as u128);
    }
}

/// The decimal numeral of `i`, as `i.to_string()` gives it.
pub(crate) fn decimal_string(i: i64) -> (r: String)
    ensures
        r@ == decimal(i as int),
{
    let mut out = String::new();
    push_decimal(&mut out, i as i128);
    assert(out@ =~= decimal(i as int));
    out
}

/// Whether the text of `s` is the text of `lit`.
pub(crate) fn text_is(s: &String, lit: &str) -> (r: bool)
    ensures
        r == (s@ == lit@),
{
    *s == lit.to_owned()
}

/// `n` copies of `s`, one after the other.
pub open spec fn repeat_text(s: Seq<char>, n: nat) -> Seq<char>
    decreases n,
{
    if n == 0 {
        Seq::empty()
    } else {
        repeat_text(s, (n - 1) as nat) + s
    }
}

/// Appends `n` copies of `s` to `out`.
pub(crate) fn push_repeated(out: &mut String, s: &str, n: usize)
    ensures
        final(out)@ == old(out)@ + repeat_text(s@, n as nat),
{
    let ghost start = out@;
    let mut k: usize = 0;
    while k < n
        invariant
            k <= n,
            out@ == start + repeat_text(s@, k as nat),
        decreases n - k,
    {
        out.append(s);
        k = k + 1;
        assert(out@ =~= start + repeat_text(s@, k as nat));
    }
}

/// What `str::to_lowercase` gives for a text.
pub uninterp spec fn lowercase_text(s: Seq<char>) -> Seq<char>;

/// Whether `char::is_alphanumeric` holds of a character.
pub uninterp spec fn is_alphanumeric_char(c: char) -> bool;

/// What the `Debug` formatting of a `str` gives for a text.
pub uninterp spec fn debug_quoted_text(s: Seq<char>) -> Seq<char>;

/// Whether `c` is an ASCII letter or an ASCII digit.
pub open spec fn is_ascii_alphanumeric_char(c: char) -> bool {
    ('a' <= c && c <= 'z') || ('A' <= c && c <= 'Z') || ('0' <= c && c <= '9')
}

/// Calls `str::to_lowercase`. Its documentation defines the result by the Unicode
/// property `Lowercase`; the contract names that result and states only what the
/// documentation plainly gives for ASCII text: every character is mapped on its own,
/// an ASCII capital to its small letter and every other ASCII character to itself.
#[verifier::external_body]
pub(crate) fn to_lowercase(s: &str) -> (r: String)
    ensures
        r@ == lowercase_text(s@),
        (forall|i: int| 0 <= i < s@.len() ==> (s@[i] as u32) < 128) ==> {
            &&& r@.len() == s@.len()
            &&& forall|i: int|
                0 <= i < s@.len() ==> #[trigger] r@[i] == (if 'A' <= s@[i] && s@[i] <= 'Z' {
                    ((s@[i] as u32) + 32) as char
                } else {
                    s@[i]
                })
        },
{
    s.to_lowercase()
}

/// Calls `char::is_alphanumeric`, which holds of the characters with the Unicode
/// property `Alphabetic` or a numeric general category. The contract names that
/// predicate and states what it is on ASCII characters: exactly the ASCII letters
/// and digits.
#[verifier::external_body]
pub(crate) fn is_alphanumeric(c: char) -> (r: bool)
    ensures
        r == is_alphanumeric_char(c),
        (c as u32) < 128 ==> (r <==> is_ascii_alphanumeric_char(c)),
{
    c.is_alphanumeric()
}

/// Formats a `str` with `Debug`, which quotes it and escapes quotes, backslashes,
/// control and other unprintable characters. The contract names the result and states
/// what it is for text made only of ASCII letters, digits and `_`: the text between
/// two double quotes.
#[verifier::external_body]
pub(crate) fn debug_quoted(s: &str) -> (r: String)
    ensures
        r@ == debug_quoted_text(s@),
        (forall|i: int|
            0 <= i < s@.len() ==> is_ascii_alphanumeric_char(#[trigger] s@[i]) || s@[i] == '_')
            ==> r@ == seq!['"'] + s@ + seq!['"'],
{
    format!("{:?}", s)
}

} // verus!
