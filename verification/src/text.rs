//! Decimal formatting and parsing over character sequences: what monitor
//! stringification, the diagonal-list parser and artifact naming build on.

use vstd::prelude::*;

verus! {

/// The character for one decimal digit.
pub open spec fn dec_digit(d: int) -> char {
    if d == 0 {
        '0'
    } else if d == 1 {
        '1'
    } else if d == 2 {
        '2'
    } else if d == 3 {
        '3'
    } else if d == 4 {
        '4'
    } else if d == 5 {
        '5'
    } else if d == 6 {
        '6'
    } else if d == 7 {
        '7'
    } else if d == 8 {
        '8'
    } else {
        '9'
    }
}

/// The decimal notation of a non-negative integer, most significant digit
/// first, without leading zeros (but "0" itself).
pub open spec fn dec_str(n: int) -> Seq<char>
    decreases n,
{
    if n < 10 {
        seq![dec_digit(n)]
    } else {
        dec_str(n / 10) + seq![dec_digit(n % 10)]
    }
}

/// The decimal notation of a signed integer.
pub open spec fn dec_str_signed(x: int) -> Seq<char> {
    if x < 0 {
        seq!['-'] + dec_str(-x)
    } else {
        dec_str(x)
    }
}

/// One digit as a string slice.
fn digit_str(d: u32) -> (r: &'static str)
    requires
        d < 10,
    ensures
        r@ =~= seq![dec_digit(d as int)],
{
    proof {
        reveal_strlit("0");
        reveal_strlit("1");
        reveal_strlit("2");
        reveal_strlit("3");
        reveal_strlit("4");
        reveal_strlit("5");
        reveal_strlit("6");
        reveal_strlit("7");
        reveal_strlit("8");
        reveal_strlit("9");
    }
    match d {
        0 => "0",
        1 => "1",
        2 => "2",
        3 => "3",
        4 => "4",
        5 => "5",
        6 => "6",
        7 => "7",
        8 => "8",
        _ => "9",
    }
}

/// Formats a `u32` in decimal.
pub fn u32_to_string(n: u32) -> (r: String)
    ensures
        r@ == dec_str(n as int),
    decreases n,
{
    if n < 10 {
        digit_str(n).to_owned()
    } else {
        let mut s = u32_to_string(n / 10);
        s.append(digit_str(n % 10));
        proof {
            assert(s@ =~= dec_str(n as int));
        }
        s
    }
}

/// Formats an `i32` in decimal, with a leading minus sign when negative.
pub fn i32_to_string(x: i32) -> (r: String)
    ensures
        r@ == dec_str_signed(x as int),
{
    if x < 0 {
        let m: u32 = (-(x as i64)) as u32;
        proof {
            reveal_strlit("-");
        }
        let mut s = "-".to_owned();
        s.append(u32_to_string(m).as_str());
        proof {
            assert(s@ =~= dec_str_signed(x as int));
        }
        s
    } else {
        u32_to_string(x as u32)
    }
}

/// The character is a decimal digit.
pub open spec fn is_digit(c: char) -> bool {
    '0' <= c && c <= '9'
}

/// The numeric value of a digit character.
pub open spec fn digit_val(c: char) -> int {
    c as int - '0' as int
}

/// Every character of the sequence is a decimal digit.
pub open spec fn all_digits(s: Seq<char>) -> bool {
    forall|i: int| 0 <= i < s.len() ==> is_digit(#[trigger] s[i])
}

/// The value of a digit sequence read in base ten.
pub open spec fn dec_val(s: Seq<char>) -> int
    decreases s.len(),
{
    if s.len() == 0 {
        0
    } else {
        dec_val(s.drop_last()) * 10 + digit_val(s.last())
    }
}

/// A digit prefix never exceeds the value of the whole sequence.
proof fn lemma_dec_val_prefix_le(s: Seq<char>, j: int)
    requires
        all_digits(s),
        0 <= j <= s.len(),
    ensures
        dec_val(s.take(j)) <= dec_val(s),
    decreases s.len() - j,
{
    if j < s.len() {
        lemma_dec_val_prefix_le(s, j + 1);
        assert(s.take(j + 1).drop_last() =~= s.take(j));
        assert(s.take(j + 1).last() == s[j]);
        assert(is_digit(s[j]));
        assert(all_digits(s.take(j))) by {
            assert(forall|i: int| 0 <= i < j ==> s.take(j)[i] == s[i]);
        }
        lemma_dec_val_nonneg(s.take(j));
        assert(dec_val(s.take(j)) * 10 + digit_val(s[j]) >= dec_val(s.take(j))) by (nonlinear_arith)
            requires dec_val(s.take(j)) >= 0 && digit_val(s[j]) >= 0;
    } else {
        assert(s.take(j) =~= s);
    }
}

/// A digit sequence has a non-negative value.
proof fn lemma_dec_val_nonneg(s: Seq<char>)
    requires
        all_digits(s),
    ensures
        dec_val(s) >= 0,
    decreases s.len(),
{
    if s.len() > 0 {
        assert(all_digits(s.drop_last())) by {
            assert(forall|i: int| 0 <= i < s.len() - 1 ==> s.drop_last()[i] == s[i]);
        }
        lemma_dec_val_nonneg(s.drop_last());
        assert(is_digit(s.last()));
        assert(dec_val(s.drop_last()) * 10 >= 0) by (nonlinear_arith)
            requires dec_val(s.drop_last()) >= 0;
    }
}

/// Parses a decimal `u32`: accepts exactly the non-empty all-digit strings
/// whose value fits.
pub fn parse_u32(s: &str) -> (r: Option<u32>)
    ensures
        r is Some <==> (s@.len() > 0 && all_digits(s@) && dec_val(s@) <= 0xffff_ffff),
        r matches Option::Some(v) ==> v as int == dec_val(s@),
{
    let n = s.unicode_len();
    if n == 0 {
        return Option::None;
    }
    let mut acc: u64 = 0;
    let mut i: usize = 0;
    while i < n
        invariant
            n == s@.len(),
            0 < n,
            i <= n,
            all_digits(s@.take(i as int)),
            acc as int == dec_val(s@.take(i as int)),
            acc <= 0xffff_ffff,
        decreases n - i,
    {
        let c = s.get_char(i);
        let cv = c as u32;
        if cv < 48 || cv > 57 {
            proof {
                assert(!is_digit(s@[i as int]));
            }
            return Option::None;
        }
        proof {
            assert(s@.take(i as int + 1).drop_last() =~= s@.take(i as int));
            assert(s@.take(i as int + 1).last() == s@[i as int]);
            assert(is_digit(s@[i as int]));
        }
        let d = (cv - 48) as u64;
        let next = acc * 10 + d;
        if next > 0xffff_ffff {
            proof {
                if all_digits(s@) {
                    lemma_dec_val_prefix_le(s@, i as int + 1);
                }
                assert(s@.take(n as int) =~= s@);
            }
            return Option::None;
        }
        acc = next;
        i = i + 1;
    }
    proof {
        assert(s@.take(n as int) =~= s@);
    }
    Option::Some(acc as u32)
}

/// The character counts as whitespace for trimming.
pub open spec fn is_space(c: char) -> bool {
    c == ' ' || c == '\t' || c == '\n' || c == '\r'
}

/// The sequence without its leading whitespace.
pub open spec fn trim_front(s: Seq<char>) -> Seq<char>
    decreases s.len(),
{
    if s.len() > 0 && is_space(s[0]) {
        trim_front(s.drop_first())
    } else {
        s
    }
}

/// The sequence without its trailing whitespace.
pub open spec fn trim_back(s: Seq<char>) -> Seq<char>
    decreases s.len(),
{
    if s.len() > 0 && is_space(s.last()) {
        trim_back(s.drop_last())
    } else {
        s
    }
}

/// The sequence without leading and trailing whitespace.
pub open spec fn spec_trim(s: Seq<char>) -> Seq<char> {
    trim_back(trim_front(s))
}

/// Is the character whitespace for trimming?
fn is_space_char(c: char) -> (r: bool)
    ensures
        r == is_space(c),
{
    c == ' ' || c == '\t' || c == '\n' || c == '\r'
}

/// Removes leading and trailing whitespace.
pub fn trim_str(s: &str) -> (r: String)
    ensures
        r@ == spec_trim(s@),
{
    let n = s.unicode_len();
    let mut a: usize = 0;
    proof {
        assert(s@.skip(0) =~= s@);
    }
    while a < n && is_space_char(s.get_char(a))
        invariant
            n == s@.len(),
            a <= n,
            trim_front(s@) == trim_front(s@.skip(a as int)),
        decreases n - a,
    {
        proof {
            assert(s@.skip(a as int)[0] == s@[a as int]);
            assert(s@.skip(a as int).drop_first() =~= s@.skip(a as int + 1));
        }
        a = a + 1;
    }
    proof {
        if a < n {
            assert(s@.skip(a as int)[0] == s@[a as int]);
            assert(trim_front(s@) == s@.skip(a as int));
        } else {
            assert(s@.skip(a as int).len() == 0);
            assert(trim_front(s@) == s@.skip(a as int));
        }
    }
    let mut b: usize = n;
    while b > a && is_space_char(s.get_char(b - 1))
        invariant
            n == s@.len(),
            a <= b <= n,
            trim_front(s@) == s@.skip(a as int),
            trim_back(s@.subrange(a as int, n as int)) == trim_back(
                s@.subrange(a as int, b as int),
            ),
        decreases b,
    {
        proof {
            assert(s@.subrange(a as int, b as int).last() == s@[b as int - 1]);
            assert(s@.subrange(a as int, b as int).drop_last() =~= s@.subrange(
                a as int,
                b as int - 1,
            ));
        }
        b = b - 1;
    }
    proof {
        assert(s@.skip(a as int) =~= s@.subrange(a as int, n as int));
        if b > a {
            assert(s@.subrange(a as int, b as int).last() == s@[b as int - 1]);
            assert(trim_back(s@.subrange(a as int, b as int)) == s@.subrange(a as int, b as int));
        } else {
            assert(s@.subrange(a as int, b as int).len() == 0);
            assert(trim_back(s@.subrange(a as int, b as int)) == s@.subrange(a as int, b as int));
        }
        assert(spec_trim(s@) == s@.subrange(a as int, b as int));
    }
    s.substring_char(a, b).to_owned()
}

/// The index of the first colon, `-1` when there is none.
pub open spec fn first_colon(s: Seq<char>) -> int
    decreases s.len(),
{
    if s.len() == 0 {
        -1
    } else if s[0] == ':' {
        0
    } else {
        let r = first_colon(s.drop_first());
        if r < 0 {
            -1
        } else {
            r + 1
        }
    }
}

/// `first_colon` really is the first: a colon at `p` with none before it
/// pins the value; no colon at all gives `-1`.
proof fn lemma_first_colon_at(s: Seq<char>, p: int)
    requires
        0 <= p < s.len(),
        s[p] == ':',
        forall|j: int| 0 <= j < p ==> s[j] != ':',
    ensures
        first_colon(s) == p,
    decreases s.len(),
{
    if p > 0 {
        lemma_first_colon_at(s.drop_first(), p - 1);
    }
}

/// With no colon anywhere, `first_colon` is `-1`.
proof fn lemma_first_colon_none(s: Seq<char>)
    requires
        forall|j: int| 0 <= j < s.len() ==> s[j] != ':',
    ensures
        first_colon(s) == -1,
    decreases s.len(),
{
    if s.len() > 0 {
        lemma_first_colon_none(s.drop_first());
    }
}

/// Finds the first colon at or after nothing, scanning the whole string.
fn find_colon(s: &str) -> (r: Option<usize>)
    ensures
        r matches Option::Some(p) ==> p < s@.len() && first_colon(s@) == p as int,
        r is None ==> first_colon(s@) == -1,
{
    let n = s.unicode_len();
    let mut i: usize = 0;
    while i < n
        invariant
            n == s@.len(),
            i <= n,
            forall|j: int| 0 <= j < i ==> s@[j] != ':',
        decreases n - i,
    {
        if s.get_char(i) == ':' {
            proof {
                lemma_first_colon_at(s@, i as int);
            }
            return Option::Some(i);
        }
        i = i + 1;
    }
    proof {
        lemma_first_colon_none(s@);
    }
    Option::None
}

/// What one `"<NAME>:<INCHES>"` list entry means: defined exactly when the
/// entry has a single colon and the trimmed right part is a decimal number
/// that fits; the name is the trimmed left part.
pub open spec fn spec_entry(s: Seq<char>) -> Option<(Seq<char>, int)> {
    let p = first_colon(s);
    if p < 0 || first_colon(s.skip(p + 1)) >= 0 {
        Option::None
    } else {
        let name = spec_trim(s.take(p));
        let num = spec_trim(s.skip(p + 1));
        if num.len() > 0 && all_digits(num) && dec_val(num) <= 0xffff_ffff {
            Option::Some((name, dec_val(num)))
        } else {
            Option::None
        }
    }
}

/// Parses one `"<NAME>:<INCHES>"` entry of the monitor diagonal list.
pub fn parse_diagonal_entry(s: &str) -> (r: Option<(String, u32)>)
    ensures
        r is Some <==> spec_entry(s@) is Some,
        r matches Option::Some(v) ==> (spec_entry(s@) matches Option::Some(e) && v.0@ == e.0
            && v.1 as int == e.1),
{
    let n = s.unicode_len();
    if let Option::Some(p) = find_colon(s) {
        let rest = s.substring_char(p + 1, n);
        if let Option::Some(_) = find_colon(rest) {
            return Option::None;
        }
        proof {
            assert(rest@ =~= s@.skip(p as int + 1));
        }
        let name_part = s.substring_char(0, p);
        proof {
            assert(name_part@ =~= s@.take(p as int));
        }
        let name = trim_str(name_part);
        let num = trim_str(rest);
        match parse_u32(num.as_str()) {
            Option::Some(v) => Option::Some((name, v)),
            Option::None => Option::None,
        }
    } else {
        Option::None
    }
}

} // verus!
