//! Small verified helpers for working with strings at the character level.

use vstd::prelude::*;
use vstd::string::StrSliceExecFns;
use vstd::string::StringExecFns;

verus! {

/// Character-by-character equality of two string slices.
pub fn str_eq(a: &str, b: &str) -> (r: bool)
    ensures
        r == (a@ == b@),
{
    let alen = a.unicode_len();
    let blen = b.unicode_len();
    if alen != blen {
        proof {
            assert(a@ != b@) by {
                assert(a@.len() != b@.len());
            }
        }
        return false;
    }
    let mut i: usize = 0;
    while i < alen
        invariant
            0 <= i <= alen,
            alen == a@.len(),
            alen == b@.len(),
            forall|j: int| 0 <= j < i ==> a@[j] == b@[j],
        decreases alen - i,
    {
        if a.get_char(i) != b.get_char(i) {
            return false;
        }
        i += 1;
    }
    proof {
        assert(a@ =~= b@);
    }
    true
}

/// What `str::to_lowercase` returns for a given character sequence.
pub uninterp spec fn lower_of(s: Seq<char>) -> Seq<char>;

/// Relies on `str::to_lowercase`: the lowercase mapping depends on the
/// characters alone, and an empty string stays empty.
#[verifier::external_body]
pub(crate) fn lowercase(s: &str) -> (r: String)
    ensures
        r@ == lower_of(s@),
        s@.len() == 0 ==> r@.len() == 0,
{
    s.to_lowercase()
}

/// What `str::trim` returns for a given character sequence.
pub uninterp spec fn trim_of(s: Seq<char>) -> Seq<char>;

/// Relies on `str::trim`: the result is a subslice of the input with leading
/// and trailing whitespace removed, so it is never longer than the input.
#[verifier::external_body]
pub(crate) fn trim_ws(s: &str) -> (r: String)
    ensures
        r@ == trim_of(s@),
        r@.len() <= s@.len(),
{
    s.trim().to_owned()
}

/// What `char::to_uppercase` yields for a given character.
pub uninterp spec fn upper_of(c: char) -> Seq<char>;

/// Relies on `char::to_uppercase`: the Unicode uppercase mapping of one
/// character, one or more characters long (the character itself when it has
/// no mapping).
#[verifier::external_body]
pub(crate) fn char_upper(c: char) -> (r: String)
    ensures
        r@ == upper_of(c),
        r@.len() >= 1,
{
    c.to_uppercase().collect()
}

/// Relies on `char::to_string`: the one-character string holding exactly the
/// given character.
#[verifier::external_body]
pub(crate) fn char_to_string(c: char) -> (r: String)
    ensures
        r@ == seq![c],
{
    c.to_string()
}

/// Concatenation of two string slices into an owned string.
pub fn concat_strs(a: &str, b: &str) -> (r: String)
    ensures
        r@ == a@ + b@,
{
    let mut r = String::from_str(a);
    r.append(b);
    r
}

/// How one character appears inside a generated string literal: quotes and
/// backslashes are escaped, anything else stands as it is.
pub open spec fn escape_char(c: char) -> Seq<char> {
    if c == '"' || c == '\\' {
        seq!['\\', c]
    } else {
        seq![c]
    }
}

/// The body of a generated string literal, character by character.
pub open spec fn escape_text(s: Seq<char>) -> Seq<char>
    decreases s.len(),
{
    if s.len() == 0 {
        Seq::empty()
    } else {
        escape_char(s[0]) + escape_text(s.drop_first())
    }
}

/// A generated string literal: the escaped text between double quotes.
pub open spec fn quoted_str(s: Seq<char>) -> Seq<char> {
    seq!['"'] + escape_text(s) + seq!['"']
}

/// A generated character literal.
pub open spec fn quoted_char(c: char) -> Seq<char> {
    seq!['\''] + (if c == '\'' || c == '\\' {
        seq!['\\', c]
    } else {
        seq![c]
    }) + seq!['\'']
}

/// Splitting escaped text at any position splits the escape per character.
proof fn lemma_escape_text_drop(s: Seq<char>, i: int)
    requires
        0 <= i < s.len(),
    ensures
        escape_text(s.skip(i)) == escape_char(s[i]) + escape_text(s.skip(i + 1)),
{
    assert(s.skip(i).len() > 0);
    assert(s.skip(i)[0] == s[i]);
    assert(s.skip(i).drop_first() =~= s.skip(i + 1));
}

/// Renders the body of a generated string literal.
#[verifier::loop_isolation(false)]
pub fn escape_str(s: &str) -> (r: String)
    ensures
        r@ == escape_text(s@),
{
    let n = s.unicode_len();
    let mut r = String::new();
    let mut i: usize = 0;
    proof {
        assert(s@.skip(0) =~= s@);
    }
    while i < n
        invariant
            0 <= i <= n,
            r@ + escape_text(s@.skip(i as int)) == escape_text(s@),
        decreases n - i,
    {
        proof {
            lemma_escape_text_drop(s@, i as int);
        }
        let c = s.get_char(i);
        if c == '"' {
            r.append("\\\"");
            proof {
                reveal_strlit("\\\"");
                assert("\\\""@ =~= escape_char('"'));
            }
        } else if c == '\\' {
            r.append("\\\\");
            proof {
                reveal_strlit("\\\\");
                assert("\\\\"@ =~= escape_char('\\'));
            }
        } else {
            let piece = s.substring_char(i, i + 1);
            r.append(piece);
            proof {
                assert(s@.subrange(i as int, i + 1) =~= seq![s@[i as int]]);
                assert(piece@ == escape_char(c));
            }
        }
        i += 1;
    }
    proof {
        assert(escape_text(s@.skip(n as int)) =~= Seq::<char>::empty());
        assert(r@ =~= escape_text(s@));
    }
    r
}

/// Renders a generated string literal.
pub fn quote_str(s: &str) -> (r: String)
    ensures
        r@ == quoted_str(s@),
{
    let body = escape_str(s);
    let open = concat_strs("\"", body.as_str());
    let full = concat_strs(open.as_str(), "\"");
    proof {
        reveal_strlit("\"");
        assert("\""@ =~= seq!['"']);
    }
    full
}

/// Renders a generated character literal.
pub fn quote_char(c: char) -> (r: String)
    ensures
        r@ == quoted_char(c),
{
    let body = if c == '\'' {
        String::from_str("\\'")
    } else if c == '\\' {
        String::from_str("\\\\")
    } else {
        char_to_string(c)
    };
    proof {
        reveal_strlit("\\'");
        reveal_strlit("\\\\");
        if c == '\'' {
            assert("\\'"@ =~= seq!['\\', c]);
        } else if c == '\\' {
            assert("\\\\"@ =~= seq!['\\', c]);
        }
    }
    let open = concat_strs("'", body.as_str());
    let full = concat_strs(open.as_str(), "'");
    proof {
        reveal_strlit("'");
        assert("'"@ =~= seq!['\'']);
    }
    full
}

/// The decimal digit for a value below ten.
pub open spec fn digit_char(d: nat) -> char {
    if d == 0 {
        '0'
    } else if d == 1 {
        '1'
    } else if d == 2 {
        '2'
    } else if d == 3 {
        '3'
    } else if d == 4 {
        '4'
    } else if d == 5 {
        '5'
    } else if d == 6 {
        '6'
    } else if d == 7 {
        '7'
    } else if d == 8 {
        '8'
    } else {
        '9'
    }
}

/// The decimal digits of a natural number, most significant first.
pub open spec fn dec_digits(n: nat) -> Seq<char>
    decreases n,
{
    if n < 10 {
        seq![digit_char(n)]
    } else {
        dec_digits(n / 10).push(digit_char(n % 10))
    }
}

/// The decimal rendering of an integer.
pub open spec fn int_text(i: int) -> Seq<char> {
    if i < 0 {
        seq!['-'] + dec_digits((-i) as nat)
    } else {
        dec_digits(i as nat)
    }
}

/// The decimal digit of a value below ten, as a string.
fn digit_str(d: u64) -> (r: &'static str)
    requires
        d < 10,
    ensures
        r@ == seq![digit_char(d as nat)],
{
    let r = if d == 0 {
        "0"
    } else if d == 1 {
        "1"
    } else if d == 2 {
        "2"
    } else if d == 3 {
        "3"
    } else if d == 4 {
        "4"
    } else if d == 5 {
        "5"
    } else if d == 6 {
        "6"
    } else if d == 7 {
        "7"
    } else if d == 8 {
        "8"
    } else {
        "9"
    };
    proof {
        reveal_strlit("0");
        reveal_strlit("1");
        reveal_strlit("2");
        reveal_strlit("3");
        reveal_strlit("4");
        reveal_strlit("5");
        reveal_strlit("6");
        reveal_strlit("7");
        reveal_strlit("8");
        reveal_strlit("9");
        assert(r@ =~= seq![digit_char(d as nat)]);
    }
    r
}

/// Renders a natural number in decimal.
#[verifier::loop_isolation(false)]
pub fn u64_to_string(x: u64) -> (r: String)
    ensures
        r@ == dec_digits(x as nat),
{
    let mut n = x;
    let mut r = String::new();
    while n >= 10
        invariant
            dec_digits(n as nat) + r@ == dec_digits(x as nat),
        decreases n,
    {
        let d = digit_str(n % 10);
        let rest = concat_strs(d, r.as_str());
        proof {
            assert(dec_digits(n as nat) == dec_digits((n / 10) as nat).push(
                digit_char((n % 10) as nat),
            ));
            assert(dec_digits((n / 10) as nat).push(digit_char((n % 10) as nat)) =~= dec_digits(
                (n / 10) as nat,
            ) + seq![digit_char((n % 10) as nat)]);
            assert(dec_digits((n / 10) as nat) + (d@ + r@) =~= (dec_digits((n / 10) as nat) + d@)
                + r@);
        }
        r = rest;
        n = n / 10;
    }
    let d = digit_str(n);
    let out = concat_strs(d, r.as_str());
    proof {
        assert(dec_digits(n as nat) == seq![digit_char(n as nat)]);
        assert(d@ + r@ =~= dec_digits(n as nat) + r@);
    }
    out
}

/// Renders an integer in decimal.
pub fn i64_to_string(x: i64) -> (r: String)
    ensures
        r@ == int_text(x as int),
{
    if x >= 0 {
        u64_to_string(x as u64)
    } else {
        let wide: i128 = x as i128;
        let mag: u64 = (-wide) as u64;
        let digits = u64_to_string(mag);
        proof {
            reveal_strlit("-");
            assert("-"@ =~= seq!['-']);
            assert(mag as nat == (-(x as int)) as nat);
        }
        concat_strs("-", digits.as_str())
    }
}

} // verus!
