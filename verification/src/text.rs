//! Building strings: decimal numbers and messages.
use crate::radix::{power, radix_digits, split_digits};
use vstd::prelude::*;
use vstd::string::{StrSliceExecFns, StringExecFns};

verus! {

/// `String::push` appends the character to the end of the string, as its
/// documentation states.
pub assume_specification[ String::push ](s: &mut String, ch: char)
    ensures
        final(s)@ == old(s)@.push(ch),
;

/// The number of decimal digits of `n` (at least one).
pub open spec fn decimal_width(n: nat) -> nat
    decreases n,
{
    if n < 10 {
        1
    } else {
        1 + decimal_width(n / 10)
    }
}

/// The decimal text of `n`, without leading zeros.
pub open spec fn decimal_text(n: nat) -> Seq<char> {
    radix_digits(n, 10, decimal_width(n)).map_values(|d: u8| (d + 48) as char)
}

/// A number below `10^k` has at most `k` decimal digits.
proof fn lemma_decimal_width_bound(n: nat, k: nat)
    requires
        k >= 1,
        n < power(10, k),
    ensures
        decimal_width(n) <= k,
    decreases k,
{
    if n >= 10 {
        if k == 1 {
            assert(power(10, 1) == 10 * power(10, 0));
        } else {
            assert(power(10, k) == 10 * power(10, (k - 1) as nat));
            lemma_decimal_width_bound(n / 10, (k - 1) as nat);
        }
    }
}

/// `10^20` exceeds every `u64`.
proof fn lemma_power_10_20()
    ensures
        power(10, 20) > u64::MAX,
{
    assert(power(10, 0) == 1);
    assert(power(10, 1) == 10 * power(10, 0));
    assert(power(10, 2) == 10 * power(10, 1));
    assert(power(10, 3) == 10 * power(10, 2));
    assert(power(10, 4) == 10 * power(10, 3));
    assert(power(10, 5) == 10 * power(10, 4));
    assert(power(10, 6) == 10 * power(10, 5));
    assert(power(10, 7) == 10 * power(10, 6));
    assert(power(10, 8) == 10 * power(10, 7));
    assert(power(10, 9) == 10 * power(10, 8));
    assert(power(10, 10) == 10 * power(10, 9));
    assert(power(10, 11) == 10 * power(10, 10));
    assert(power(10, 12) == 10 * power(10, 11));
    assert(power(10, 13) == 10 * power(10, 12));
    assert(power(10, 14) == 10 * power(10, 13));
    assert(power(10, 15) == 10 * power(10, 14));
    assert(power(10, 16) == 10 * power(10, 15));
    assert(power(10, 17) == 10 * power(10, 16));
    assert(power(10, 18) == 10 * power(10, 17));
    assert(power(10, 19) == 10 * power(10, 18));
    assert(power(10, 20) == 10 * power(10, 19));
}

/// Writes `n` in decimal.
pub fn decimal_string(n: u64) -> (s: String)
    ensures
        s@ == decimal_text(n as nat),
{
    let mut width: usize = 1;
    let mut rest = n / 10;
    proof {
        lemma_power_10_20();
        lemma_decimal_width_bound(n as nat, 20);
    }
    while rest > 0
        invariant
            decimal_width(n as nat) <= 20,
            decimal_width(n as nat) == width + (if rest > 0 {
                decimal_width(rest as nat)
            } else {
                0
            }),
        decreases rest,
    {
        width = width + 1;
        rest = rest / 10;
    }
    let digits = split_digits(n as u128, 10, width);
    let mut s = String::new();
    let mut i: usize = 0;
    while i < width
        invariant
            i <= width,
            digits@ == radix_digits(n as nat, 10, width as nat),
            width == decimal_width(n as nat),
            s@ == decimal_text(n as nat).take(i as int),
        decreases width - i,
    {
        let d = digits[i];
        s.push((d + 48) as char);
        proof {
            let text = decimal_text(n as nat);
            assert(text.take(i + 1) =~= text.take(i as int).push(((d + 48) as char)));
        }
        i = i + 1;
    }
    proof {
        assert(decimal_text(n as nat).take(width as int) =~= decimal_text(n as nat));
    }
    s
}

/// What `{:?}` writes for a character: quoted and escaped.
pub uninterp spec fn char_debug_text(c: char) -> Seq<char>;

/// Formats `c` with `Debug` (`format!("{c:?}")`): the character between
/// single quotes, with escapes for quotes, backslashes and characters that do
/// not print. The contract only names that text.
#[verifier::external_body]
pub(crate) fn char_debug(c: char) -> (s: String)
    ensures
        s@ == char_debug_text(c),
{
    format!("{c:?}")
}

/// `c` has Unicode's `White_Space` property (what `char::is_whitespace`
/// tests).
pub open spec fn is_white_space(c: char) -> bool {
    ||| '\u{9}' <= c && c <= '\u{d}'
    ||| c == ' '
    ||| c == '\u{85}'
    ||| c == '\u{a0}'
    ||| c == '\u{1680}'
    ||| '\u{2000}' <= c && c <= '\u{200a}'
    ||| c == '\u{2028}'
    ||| c == '\u{2029}'
    ||| c == '\u{202f}'
    ||| c == '\u{205f}'
    ||| c == '\u{3000}'
}

/// `cs` without its leading white space.
pub open spec fn trim_start(cs: Seq<char>) -> Seq<char>
    decreases cs.len(),
{
    if cs.len() > 0 && is_white_space(cs[0]) {
        trim_start(cs.skip(1))
    } else {
        cs
    }
}

/// `cs` without its trailing white space.
pub open spec fn trim_end(cs: Seq<char>) -> Seq<char>
    decreases cs.len(),
{
    if cs.len() > 0 && is_white_space(cs.last()) {
        trim_end(cs.drop_last())
    } else {
        cs
    }
}

/// `cs` without leading and trailing white space (what `str::trim` gives).
pub open spec fn trimmed(cs: Seq<char>) -> Seq<char> {
    trim_end(trim_start(cs))
}

/// Whether `c` has Unicode's `White_Space` property.
pub fn is_white_space_char(c: char) -> (res: bool)
    ensures
        res == is_white_space(c),
{
    ('\u{9}' <= c && c <= '\u{d}') || c == ' ' || c == '\u{85}' || c == '\u{a0}' || c == '\u{1680}'
        || ('\u{2000}' <= c && c <= '\u{200a}') || c == '\u{2028}' || c == '\u{2029}' || c
        == '\u{202f}' || c == '\u{205f}' || c == '\u{3000}'
}

/// `s` without leading and trailing white space.
pub fn trim_white_space(s: &str) -> (res: String)
    ensures
        res@ == trimmed(s@),
{
    let ghost cs = s@;
    let n = s.unicode_len();
    let mut i: usize = 0;
    proof {
        assert(cs.subrange(0, n as int) =~= cs);
    }
    while i < n && is_white_space_char(s.get_char(i))
        invariant
            cs == s@,
            n == cs.len(),
            i <= n,
            trim_start(cs) == trim_start(cs.subrange(i as int, n as int)),
        decreases n - i,
    {
        proof {
            assert(cs.subrange(i as int, n as int).skip(1) =~= cs.subrange(i + 1, n as int));
        }
        i = i + 1;
    }
    let ghost rest = cs.subrange(i as int, n as int);
    proof {
        assert(trim_start(rest) == rest);
        assert(rest.subrange(0, rest.len() as int) =~= rest);
    }
    let mut j: usize = n;
    while j > i && is_white_space_char(s.get_char(j - 1))
        invariant
            cs == s@,
            n == cs.len(),
            i <= j <= n,
            rest == cs.subrange(i as int, n as int),
            trim_end(rest) == trim_end(cs.subrange(i as int, j as int)),
        decreases j - i,
    {
        proof {
            assert(cs.subrange(i as int, j as int).drop_last() =~= cs.subrange(
                i as int,
                j - 1,
            ));
        }
        j = j - 1;
    }
    proof {
        assert(trim_end(cs.subrange(i as int, j as int)) == cs.subrange(i as int, j as int));
    }
    String::from_str(s.substring_char(i, j))
}

/// What `String::from_utf8_lossy` reads in some bytes.
pub uninterp spec fn utf8_lossy_text(bytes: Seq<u8>) -> Seq<char>;

/// Calls `String::from_utf8_lossy`: the bytes read as UTF-8, with each
/// invalid sequence replaced by U+FFFD. Bytes that are valid UTF-8 read as
/// exactly the characters they encode; the replacement rules for invalid
/// input are only named.
#[verifier::external_body]
pub(crate) fn utf8_lossy(bytes: &[u8]) -> (s: String)
    ensures
        s@ == utf8_lossy_text(bytes@),
        vstd::utf8::valid_utf8(bytes@) ==> s@ == vstd::utf8::decode_utf8(bytes@),
{
    String::from_utf8_lossy(bytes).into_owned()
}

} // verus!
