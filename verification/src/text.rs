//! Verified text primitives: splitting, searching, case folding, and
//! decimal parsing and printing, all specified over character sequences.

use vstd::prelude::*;

verus! {

/// Relies on `String: FromIterator<char>`: collecting chars builds the
/// string of exactly those chars.
#[verifier::external_body]
pub fn string_from_chars(cs: &Vec<char>) -> (r: String)
    ensures
        r@ == cs@,
{
    cs.iter().collect()
}

/// What Unicode lowercasing returns for a string: a pure function of the
/// characters alone.
pub uninterp spec fn lowercased(s: Seq<char>) -> Seq<char>;

/// Relies on str::to_lowercase: the Unicode lowercase of `s`, a function
/// of the characters alone, independent of any locale.
#[verifier::external_body]
pub(crate) fn unicode_lowercase(s: &str) -> (r: String)
    ensures
        r@ == lowercased(s@),
{
    s.to_lowercase()
}

/// ASCII upper-casing of one character.
pub open spec fn upper_char(c: char) -> char {
    if 'a' <= c && c <= 'z' {
        (c as int - 32) as char
    } else {
        c
    }
}

/// ASCII upper-casing of a character sequence.
pub open spec fn ascii_upper(s: Seq<char>) -> Seq<char> {
    s.map_values(|c: char| upper_char(c))
}

/// Upper-cases one ASCII letter, leaving every other character unchanged.
pub fn upper_char_exec(c: char) -> (r: char)
    ensures
        r == upper_char(c),
{
    if c >= 'a' && c <= 'z' {
        let u: u32 = c as u32;
        let b: u8 = #[verifier::truncate] ((u - 32) as u8);
        proof {
            assert(97 <= u <= 122 ==> (u - 32) as u8 as u32 == u - 32) by (bit_vector);
        }
        b as char
    } else {
        c
    }
}

/// ASCII upper-casing of a string.
pub fn to_ascii_upper(s: &str) -> (r: String)
    ensures
        r@ == ascii_upper(s@),
{
    let n: usize = s.unicode_len();
    let mut cs: Vec<char> = Vec::new();
    let mut i: usize = 0;
    while i < n
        invariant
            n == s@.len(),
            i <= n,
            cs@ == ascii_upper(s@.take(i as int)),
        decreases n - i,
    {
        let c = s.get_char(i);
        cs.push(upper_char_exec(c));
        proof {
            assert(cs@ =~= ascii_upper(s@.take(i + 1)));
        }
        i = i + 1;
    }
    proof {
        assert(s@.take(n as int) =~= s@);
    }
    string_from_chars(&cs)
}

/// The fields of `s` split at every occurrence of `sep`; always at least
/// one field, and empty fields are kept.
pub open spec fn spec_split(s: Seq<char>, sep: char) -> Seq<Seq<char>>
    decreases s.len(),
{
    if s.len() == 0 {
        seq![Seq::<char>::empty()]
    } else if s.last() == sep {
        spec_split(s.drop_last(), sep).push(Seq::<char>::empty())
    } else {
        let r = spec_split(s.drop_last(), sep);
        r.update(r.len() - 1, r.last().push(s.last()))
    }
}

/// Splitting yields at least one field.
pub proof fn lemma_split_len(s: Seq<char>, sep: char)
    ensures
        spec_split(s, sep).len() >= 1,
    decreases s.len(),
{
    if s.len() > 0 {
        lemma_split_len(s.drop_last(), sep);
    }
}

/// Splits `s` at every occurrence of `sep`, keeping empty fields.
pub fn split_char(s: &str, sep: char) -> (r: Vec<String>)
    ensures
        r@.map_values(|t: String| t@) == spec_split(s@, sep),
{
    let n: usize = s.unicode_len();
    let mut fields: Vec<String> = Vec::new();
    let mut cur: Vec<char> = Vec::new();
    let mut i: usize = 0;
    proof {
        assert(fields@.map_values(|t: String| t@).push(cur@) =~~= spec_split(
            s@.take(0),
            sep,
        ));
    }
    while i < n
        invariant
            n == s@.len(),
            i <= n,
            fields@.map_values(|t: String| t@).push(cur@) == spec_split(s@.take(i as int), sep),
        decreases n - i,
    {
        let c = s.get_char(i);
        proof {
            assert(s@.take(i + 1).drop_last() =~= s@.take(i as int));
            lemma_split_len(s@.take(i as int), sep);
        }
        if c == sep {
            fields.push(string_from_chars(&cur));
            cur = Vec::new();
            proof {
                assert(fields@.map_values(|t: String| t@).push(cur@) =~~= spec_split(
                    s@.take(i + 1),
                    sep,
                ));
            }
        } else {
            cur.push(c);
            proof {
                let prev = spec_split(s@.take(i as int), sep);
                assert(fields@.map_values(|t: String| t@).push(cur@) =~~= prev.update(
                    prev.len() - 1,
                    prev.last().push(c),
                ));
            }
        }
        i = i + 1;
    }
    proof {
        assert(s@.take(n as int) =~= s@);
    }
    fields.push(string_from_chars(&cur));
    proof {
        assert(fields@.map_values(|t: String| t@) =~~= spec_split(s@, sep));
    }
    fields
}

/// The prefix of `s` before the first occurrence of `sep` (all of `s` when
/// `sep` does not occur).
pub open spec fn spec_before(s: Seq<char>, sep: char) -> Seq<char>
    decreases s.len(),
{
    if s.len() == 0 {
        s
    } else if s.first() == sep {
        Seq::<char>::empty()
    } else {
        seq![s.first()] + spec_before(s.drop_first(), sep)
    }
}

/// If no separator stands before position `i`, and `i` is the end or a
/// separator, the prefix before the separator is exactly `s.take(i)`.
proof fn lemma_before_at(s: Seq<char>, sep: char, i: int)
    requires
        0 <= i <= s.len(),
        forall|j: int| 0 <= j < i ==> s[j] != sep,
        i == s.len() || s[i] == sep,
    ensures
        spec_before(s, sep) == s.take(i),
    decreases s.len(),
{
    if s.len() == 0 {
        assert(s.take(i) =~= s);
    } else if i == 0 {
        assert(s.take(0) =~= Seq::<char>::empty());
    } else {
        lemma_before_at(s.drop_first(), sep, i - 1);
        assert(s.take(i) =~= seq![s.first()] + s.drop_first().take(i - 1));
    }
}

/// Returns the prefix of `s` before the first occurrence of `sep`.
pub fn before_char(s: &str, sep: char) -> (r: String)
    ensures
        r@ == spec_before(s@, sep),
{
    let n: usize = s.unicode_len();
    let mut cs: Vec<char> = Vec::new();
    let mut i: usize = 0;
    while i < n
        invariant
            n == s@.len(),
            i <= n,
            cs@ == s@.take(i as int),
            forall|j: int| 0 <= j < i ==> s@[j] != sep,
        decreases n - i,
    {
        let c = s.get_char(i);
        if c == sep {
            proof {
                lemma_before_at(s@, sep, i as int);
            }
            return string_from_chars(&cs);
        }
        cs.push(c);
        proof {
            assert(cs@ =~= s@.take(i + 1));
        }
        i = i + 1;
    }
    proof {
        lemma_before_at(s@, sep, n as int);
    }
    string_from_chars(&cs)
}

/// Whether `pat` occurs in `s` starting at position `i`.
pub open spec fn matches_at(s: Seq<char>, pat: Seq<char>, i: int) -> bool {
    0 <= i && i + pat.len() <= s.len() && s.subrange(i, i + pat.len()) == pat
}

/// Compares `pat` against `s` at position `i`.
fn check_match(s: &str, n: usize, pat: &str, m: usize, i: usize) -> (r: bool)
    requires
        n == s@.len(),
        m == pat@.len(),
        i + m <= n,
    ensures
        r == matches_at(s@, pat@, i as int),
{
    let mut j: usize = 0;
    while j < m
        invariant
            n == s@.len(),
            m == pat@.len(),
            i + m <= n,
            j <= m,
            forall|q: int| 0 <= q < j ==> s@[i + q] == pat@[q],
        decreases m - j,
    {
        if s.get_char(i + j) != pat.get_char(j) {
            proof {
                assert(s@.subrange(i as int, i + m) != pat@) by {
                    assert(s@.subrange(i as int, i + m)[j as int] != pat@[j as int]);
                }
            }
            return false;
        }
        j = j + 1;
    }
    proof {
        assert(s@.subrange(i as int, i + m) =~= pat@);
    }
    true
}

/// Returns the position of the first occurrence of `pat` in `s`, if any.
pub fn find_str(s: &str, pat: &str) -> (r: Option<usize>)
    ensures
        match r {
            Some(i) => matches_at(s@, pat@, i as int) && forall|j: int|
                0 <= j < i ==> !matches_at(s@, pat@, j),
            None => forall|j: int| !matches_at(s@, pat@, j),
        },
{
    let n: usize = s.unicode_len();
    let m: usize = pat.unicode_len();
    if m > n {
        return None;
    }
    if m == 0 {
        proof {
            assert(s@.subrange(0, 0) =~= pat@);
        }
        return Some(0);
    }
    let mut i: usize = 0;
    while i <= n - m
        invariant
            n == s@.len(),
            m == pat@.len(),
            1 <= m <= n,
            i <= n - m + 1,
            forall|j: int| 0 <= j < i ==> !matches_at(s@, pat@, j),
        decreases n - i,
    {
        if check_match(s, n, pat, m, i) {
            return Some(i);
        }
        i = i + 1;
    }
    None
}

/// `s` with every (leftmost, non-overlapping) occurrence of `pat` removed;
/// the identity when `pat` is empty.
pub open spec fn spec_remove_all(s: Seq<char>, pat: Seq<char>) -> Seq<char>
    decreases s.len(),
{
    if pat.len() == 0 || s.len() == 0 {
        s
    } else if pat.len() <= s.len() && s.take(pat.len() as int) == pat {
        spec_remove_all(s.skip(pat.len() as int), pat)
    } else {
        seq![s.first()] + spec_remove_all(s.drop_first(), pat)
    }
}

/// Removes every (leftmost, non-overlapping) occurrence of `pat` from `s`.
pub fn remove_all(s: &str, pat: &str) -> (r: String)
    ensures
        r@ == spec_remove_all(s@, pat@),
{
    let n: usize = s.unicode_len();
    let m: usize = pat.unicode_len();
    let mut cs: Vec<char> = Vec::new();
    if m == 0 {
        let mut i: usize = 0;
        while i < n
            invariant
                n == s@.len(),
                i <= n,
                cs@ == s@.take(i as int),
            decreases n - i,
        {
            cs.push(s.get_char(i));
            proof {
                assert(cs@ =~= s@.take(i + 1));
            }
            i = i + 1;
        }
        proof {
            assert(s@.take(n as int) =~= s@);
        }
        return string_from_chars(&cs);
    }
    let mut i: usize = 0;
    proof {
        assert(s@.skip(0) =~= s@);
        assert(cs@ + spec_remove_all(s@, pat@) =~= spec_remove_all(s@, pat@));
    }
    while i < n
        invariant
            n == s@.len(),
            m == pat@.len(),
            m >= 1,
            i <= n,
            cs@ + spec_remove_all(s@.skip(i as int), pat@) == spec_remove_all(s@, pat@),
        decreases n - i,
    {
        let ghost rest = s@.skip(i as int);
        if m <= n - i && check_match(s, n, pat, m, i) {
            proof {
                assert(rest.take(m as int) =~= s@.subrange(i as int, i + m));
                assert(rest.skip(m as int) =~= s@.skip(i + m));
            }
            i = i + m;
        } else {
            proof {
                if i + m <= n {
                    assert(rest.take(m as int) =~= s@.subrange(i as int, i + m));
                }
                assert(rest.len() > 0 && !(m <= rest.len() && rest.take(m as int) == pat@));
                assert(rest.drop_first() =~= s@.skip(i + 1));
                assert(rest.first() == s@[i as int]);
            }
            cs.push(s.get_char(i));
            proof {
                assert(cs@ =~= (cs@.drop_last() + seq![s@[i as int]]));
                assert(cs@ + spec_remove_all(s@.skip(i + 1), pat@) =~= cs@.drop_last() + (seq![
                    s@[i as int],
                ] + spec_remove_all(s@.skip(i + 1), pat@)));
            }
            i = i + 1;
        }
    }
    proof {
        assert(s@.skip(n as int) =~= Seq::<char>::empty());
        assert(cs@ + Seq::<char>::empty() =~= cs@);
    }
    string_from_chars(&cs)
}

/// Whether `c` is an ASCII decimal digit.
pub open spec fn is_digit(c: char) -> bool {
    '0' <= c && c <= '9'
}

/// Numeric value of a digit character.
pub open spec fn digit_val(c: char) -> nat {
    if is_digit(c) {
        (c as int - '0' as int) as nat
    } else {
        0
    }
}

/// The number denoted by a digit sequence, most significant first.
pub open spec fn digits_val(s: Seq<char>) -> nat
    decreases s.len(),
{
    if s.len() == 0 {
        0
    } else {
        digits_val(s.drop_last()) * 10 + digit_val(s.last())
    }
}

/// A digit prefix never denotes more than the whole sequence.
pub proof fn lemma_digits_prefix(s: Seq<char>, i: int)
    requires
        0 <= i <= s.len(),
    ensures
        digits_val(s.take(i)) <= digits_val(s),
    decreases s.len() - i,
{
    if i < s.len() {
        lemma_digits_prefix(s, i + 1);
        assert(s.take(i + 1).drop_last() =~= s.take(i));
        assert(digits_val(s.take(i)) <= digits_val(s.take(i + 1)));
    } else {
        assert(s.take(i) =~= s);
    }
}

/// Whether every character of `s` is a digit.
pub open spec fn all_digits(s: Seq<char>) -> bool {
    forall|i: int| 0 <= i < s.len() ==> is_digit(#[trigger] s[i])
}

/// The digits of an unsigned numeral: `s` itself, or what follows one
/// optional leading plus sign.
pub open spec fn unsigned_digits(s: Seq<char>) -> Seq<char> {
    if s.len() > 0 && s.first() == '+' {
        s.drop_first()
    } else {
        s
    }
}

/// What an unsigned numeral denotes as a `u64`: an optional leading plus
/// sign, then one or more digits, when the value fits.
pub open spec fn spec_parse_u64(s: Seq<char>) -> Option<u64> {
    let mag = unsigned_digits(s);
    if mag.len() > 0 && all_digits(mag) && digits_val(mag) <= u64::MAX {
        Some(digits_val(mag) as u64)
    } else {
        None
    }
}

/// Parses an unsigned decimal numeral.
pub fn parse_u64(s: &str) -> (r: Option<u64>)
    ensures
        r == spec_parse_u64(s@),
{
    let n: usize = s.unicode_len();
    if n == 0 {
        return None;
    }
    let plus: bool = s.get_char(0) == '+';
    let start: usize = if plus {
        1
    } else {
        0
    };
    if start == n {
        return None;
    }
    let ghost mag = unsigned_digits(s@);
    let mut acc: u64 = 0;
    let mut i: usize = start;
    while i < n
        invariant
            n == s@.len(),
            start <= i <= n,
            plus == (s@.first() == '+'),
            plus ==> start == 1 && mag =~= s@.drop_first(),
            !plus ==> start == 0 && mag =~= s@,
            n - start == mag.len(),
            all_digits(mag.take(i - start)),
            acc == digits_val(mag.take(i - start)),
        decreases n - i,
    {
        let c = s.get_char(i);
        if c < '0' || c > '9' {
            proof {
                assert(mag[i - start] == s@[i as int]);
                assert(!is_digit(mag[i - start]));
                assert(!all_digits(mag));
            }
            return None;
        }
        let d: u32 = (c as u32) - 48;
        proof {
            assert(mag.take(i - start + 1).drop_last() =~= mag.take(i - start));
            assert(mag[i - start] == s@[i as int]);
            assert(d == digit_val(s@[i as int]));
        }
        if acc > (u64::MAX - (d as u64)) / 10 {
            proof {
                assert(digits_val(mag.take(i - start + 1)) > u64::MAX);
                lemma_digits_prefix(mag, i - start + 1);
            }
            return None;
        }
        acc = acc * 10 + (d as u64);
        i = i + 1;
    }
    proof {
        assert(mag.take(n - start) =~= mag);
    }
    Some(acc)
}

/// What an unsigned numeral denotes as a `u32`.
pub open spec fn spec_parse_u32(s: Seq<char>) -> Option<u32> {
    let mag = unsigned_digits(s);
    if mag.len() > 0 && all_digits(mag) && digits_val(mag) <= u32::MAX {
        Some(digits_val(mag) as u32)
    } else {
        None
    }
}

/// Parses an unsigned decimal numeral into a `u32`.
pub fn parse_u32(s: &str) -> (r: Option<u32>)
    ensures
        r == spec_parse_u32(s@),
{
    match parse_u64(s) {
        Some(v) => {
            if v <= 0xFFFF_FFFF {
                Some(v as u32)
            } else {
                None
            }
        },
        None => {
            proof {
                let mag = unsigned_digits(s@);
                if mag.len() > 0 && all_digits(mag) && digits_val(mag) <= u32::MAX {
                    assert(digits_val(mag) <= u64::MAX);
                }
            }
            None
        },
    }
}

/// What a signed decimal numeral denotes as an `i64`: an optional leading
/// plus or minus sign, then one or more digits, when the value fits.
pub open spec fn spec_parse_i64(s: Seq<char>) -> Option<i64> {
    if s.len() > 0 && s.first() == '-' {
        let mag = s.drop_first();
        if mag.len() > 0 && all_digits(mag) && digits_val(mag) <= 0x8000_0000_0000_0000 {
            Some((-(digits_val(mag) as int)) as i64)
        } else {
            None
        }
    } else {
        let mag = unsigned_digits(s);
        if mag.len() > 0 && all_digits(mag) && digits_val(mag) <= i64::MAX {
            Some(digits_val(mag) as i64)
        } else {
            None
        }
    }
}

/// Parses a signed decimal numeral into an `i64`.
pub fn parse_i64(s: &str) -> (r: Option<i64>)
    ensures
        r == spec_parse_i64(s@),
{
    let n: usize = s.unicode_len();
    if n == 0 {
        return None;
    }
    let first = s.get_char(0);
    let neg: bool = first == '-';
    let signed: bool = neg || first == '+';
    let start: usize = if signed {
        1
    } else {
        0
    };
    if start == n {
        return None;
    }
    let ghost mag = if signed {
        s@.drop_first()
    } else {
        s@
    };
    let mut acc: u64 = 0;
    let mut i: usize = start;
    while i < n
        invariant
            n == s@.len(),
            start <= i <= n,
            neg == (s@.first() == '-'),
            signed == (s@.first() == '-' || s@.first() == '+'),
            signed ==> start == 1 && mag =~= s@.drop_first(),
            !signed ==> start == 0 && mag =~= s@,
            n - start == mag.len(),
            all_digits(mag.take(i - start)),
            acc == digits_val(mag.take(i - start)),
            acc <= 0x8000_0000_0000_0000,
        decreases n - i,
    {
        let c = s.get_char(i);
        if c < '0' || c > '9' {
            proof {
                assert(mag[i - start] == s@[i as int]);
                assert(!is_digit(mag[i - start]));
                assert(!all_digits(mag));
            }
            return None;
        }
        let d: u32 = (c as u32) - 48;
        proof {
            assert(mag.take(i - start + 1).drop_last() =~= mag.take(i - start));
            assert(mag[i - start] == s@[i as int]);
            assert(d == digit_val(s@[i as int]));
        }
        if acc > (0x8000_0000_0000_0000u64 - (d as u64)) / 10 {
            proof {
                assert(acc * 10 + d > 0x8000_0000_0000_0000);
                assert(digits_val(mag.take(i - start + 1)) > 0x8000_0000_0000_0000);
                lemma_digits_prefix(mag, i - start + 1);
                assert(digits_val(mag) > 0x8000_0000_0000_0000);
            }
            return None;
        }
        acc = acc * 10 + (d as u64);
        i = i + 1;
    }
    proof {
        assert(mag.take(n - start) =~= mag);
        if !neg {
            assert(mag =~= unsigned_digits(s@));
        }
    }
    if neg {
        if acc == 0x8000_0000_0000_0000 {
            Some(i64::MIN)
        } else {
            Some(-((acc) as i64))
        }
    } else {
        if acc <= 0x7FFF_FFFF_FFFF_FFFF {
            Some(acc as i64)
        } else {
            None
        }
    }
}

/// What a signed decimal numeral denotes as an `i32`.
pub open spec fn spec_parse_i32(s: Seq<char>) -> Option<i32> {
    if s.len() > 0 && s.first() == '-' {
        let mag = s.drop_first();
        if mag.len() > 0 && all_digits(mag) && digits_val(mag) <= 0x8000_0000 {
            Some((-(digits_val(mag) as int)) as i32)
        } else {
            None
        }
    } else {
        let mag = unsigned_digits(s);
        if mag.len() > 0 && all_digits(mag) && digits_val(mag) <= i32::MAX {
            Some(digits_val(mag) as i32)
        } else {
            None
        }
    }
}

/// Parses a signed decimal numeral into an `i32`.
pub fn parse_i32(s: &str) -> (r: Option<i32>)
    ensures
        r == spec_parse_i32(s@),
{
    match parse_i64(s) {
        Some(v) => {
            if v >= -0x8000_0000i64 && v <= 0x7FFF_FFFFi64 {
                Some(v as i32)
            } else {
                None
            }
        },
        None => None,
    }
}

/// The decimal digit character for `d`.
pub open spec fn digit_char(d: int) -> char {
    if d == 0 {
        '0'
    } else if d == 1 {
        '1'
    } else if d == 2 {
        '2'
    } else if d == 3 {
        '3'
    } else if d == 4 {
        '4'
    } else if d == 5 {
        '5'
    } else if d == 6 {
        '6'
    } else if d == 7 {
        '7'
    } else if d == 8 {
        '8'
    } else {
        '9'
    }
}

/// The decimal numeral of `n`, most significant digit first.
pub open spec fn spec_u64_digits(n: nat) -> Seq<char>
    decreases n,
{
    if n < 10 {
        seq![digit_char(n as int)]
    } else {
        spec_u64_digits(n / 10).push(digit_char((n % 10) as int))
    }
}

/// One decimal digit as a string slice.
fn digit_str(d: u64) -> (r: &'static str)
    requires
        d < 10,
    ensures
        r@ == seq![digit_char(d as int)],
{
    match d {
        0 => {
            proof {
                reveal_strlit("0");
            }
            "0"
        },
        1 => {
            proof {
                reveal_strlit("1");
            }
            "1"
        },
        2 => {
            proof {
                reveal_strlit("2");
            }
            "2"
        },
        3 => {
            proof {
                reveal_strlit("3");
            }
            "3"
        },
        4 => {
            proof {
                reveal_strlit("4");
            }
            "4"
        },
        5 => {
            proof {
                reveal_strlit("5");
            }
            "5"
        },
        6 => {
            proof {
                reveal_strlit("6");
            }
            "6"
        },
        7 => {
            proof {
                reveal_strlit("7");
            }
            "7"
        },
        8 => {
            proof {
                reveal_strlit("8");
            }
            "8"
        },
        _ => {
            proof {
                reveal_strlit("9");
            }
            "9"
        },
    }
}

/// Renders `n` as its decimal numeral.
pub fn u64_to_string(n: u64) -> (r: String)
    ensures
        r@ == spec_u64_digits(n as nat),
    decreases n,
{
    if n < 10 {
        let mut r = String::new();
        r.append(digit_str(n));
        proof {
            assert(r@ =~= spec_u64_digits(n as nat));
        }
        r
    } else {
        let mut r = u64_to_string(n / 10);
        r.append(digit_str(n % 10));
        proof {
            assert(r@ =~= spec_u64_digits(n as nat));
        }
        r
    }
}

/// The decimal numeral of a signed value: a minus sign when negative.
pub open spec fn spec_i64_digits(n: int) -> Seq<char> {
    if n < 0 {
        seq!['-'] + spec_u64_digits((-n) as nat)
    } else {
        spec_u64_digits(n as nat)
    }
}

/// Renders a signed value as its decimal numeral.
pub fn i64_to_string(n: i64) -> (r: String)
    ensures
        r@ == spec_i64_digits(n as int),
{
    if n >= 0 {
        u64_to_string(n as u64)
    } else {
        let mag: u64 = if n == i64::MIN {
            0x8000_0000_0000_0000u64
        } else {
            (-n) as u64
        };
        let mut r = String::new();
        proof {
            reveal_strlit("-");
        }
        r.append("-");
        let tail = u64_to_string(mag);
        r.append(tail.as_str());
        proof {
            assert(r@ =~= spec_i64_digits(n as int));
        }
        r
    }
}

/// Whether `c` is whitespace: the Unicode `White_Space` characters, as
/// `char::is_whitespace` recognises them.
pub open spec fn is_space(c: char) -> bool {
    c == ' ' || c == '\t' || c == '\n' || c == '\r' || c == '\u{000B}' || c == '\u{000C}' || c
        == '\u{0085}' || c == '\u{00A0}' || c == '\u{1680}' || ('\u{2000}' <= c && c
        <= '\u{200A}') || c == '\u{2028}' || c == '\u{2029}' || c == '\u{202F}' || c == '\u{205F}'
        || c == '\u{3000}'
}

/// Tests whether `c` is whitespace.
pub fn is_space_exec(c: char) -> (r: bool)
    ensures
        r == is_space(c),
{
    c == ' ' || c == '\t' || c == '\n' || c == '\r' || c == '\u{000B}' || c == '\u{000C}' || c
        == '\u{0085}' || c == '\u{00A0}' || c == '\u{1680}' || (c >= '\u{2000}' && c
        <= '\u{200A}') || c == '\u{2028}' || c == '\u{2029}' || c == '\u{202F}' || c == '\u{205F}'
        || c == '\u{3000}'
}

/// The whitespace-separated tokens of `s`.
pub open spec fn spec_tokens(s: Seq<char>) -> Seq<Seq<char>>
    decreases s.len(),
{
    if s.len() == 0 {
        Seq::<Seq<char>>::empty()
    } else if is_space(s.last()) {
        spec_tokens(s.drop_last())
    } else if s.len() == 1 || is_space(s[s.len() - 2]) {
        spec_tokens(s.drop_last()).push(seq![s.last()])
    } else {
        let r = spec_tokens(s.drop_last());
        r.update(r.len() - 1, r.last().push(s.last()))
    }
}

/// Splits `s` into its whitespace-separated tokens.
pub fn tokens(s: &str) -> (r: Vec<String>)
    ensures
        r@.map_values(|t: String| t@) == spec_tokens(s@),
{
    let n: usize = s.unicode_len();
    let mut fields: Vec<String> = Vec::new();
    let mut cur: Vec<char> = Vec::new();
    let mut i: usize = 0;
    proof {
        assert(fields@.map_values(|t: String| t@) =~~= spec_tokens(s@.take(0)));
    }
    while i < n
        invariant
            n == s@.len(),
            i <= n,
            cur@.len() > 0 ==> i > 0 && !is_space(s@[i - 1]) && fields@.map_values(
                |t: String| t@,
            ).push(cur@) == spec_tokens(s@.take(i as int)),
            cur@.len() == 0 ==> (i == 0 || is_space(s@[i - 1])) && fields@.map_values(
                |t: String| t@,
            ) == spec_tokens(s@.take(i as int)),
        decreases n - i,
    {
        let c = s.get_char(i);
        proof {
            assert(s@.take(i + 1).drop_last() =~= s@.take(i as int));
            assert(s@.take(i + 1).last() == s@[i as int]);
        }
        if is_space_exec(c) {
            if cur.len() > 0 {
                fields.push(string_from_chars(&cur));
                cur = Vec::new();
            }
        } else {
            if cur.len() == 0 {
                cur.push(c);
                proof {
                    assert(fields@.map_values(|t: String| t@).push(cur@) =~~= spec_tokens(
                        s@.take(i + 1),
                    ));
                }
            } else {
                proof {
                    assert(s@.take(i + 1)[i - 1] == s@[i - 1]);
                }
                cur.push(c);
                proof {
                    let prev = spec_tokens(s@.take(i as int));
                    assert(fields@.map_values(|t: String| t@).push(cur@) =~~= prev.update(
                        prev.len() - 1,
                        prev.last().push(c),
                    ));
                }
            }
        }
        i = i + 1;
    }
    proof {
        assert(s@.take(n as int) =~= s@);
    }
    if cur.len() > 0 {
        fields.push(string_from_chars(&cur));
    }
    proof {
        assert(fields@.map_values(|t: String| t@) =~~= spec_tokens(s@));
    }
    fields
}

/// `s` with every occurrence of `from` replaced by `to`.
pub open spec fn spec_replace_char(s: Seq<char>, from: char, to: char) -> Seq<char> {
    s.map_values(|c: char| if c == from { to } else { c })
}

/// Replaces every occurrence of one character by another.
pub fn replace_char(s: &str, from: char, to: char) -> (r: String)
    ensures
        r@ == spec_replace_char(s@, from, to),
{
    let n: usize = s.unicode_len();
    let mut cs: Vec<char> = Vec::new();
    let mut i: usize = 0;
    while i < n
        invariant
            n == s@.len(),
            i <= n,
            cs@ == spec_replace_char(s@.take(i as int), from, to),
        decreases n - i,
    {
        let c = s.get_char(i);
        if c == from {
            cs.push(to);
        } else {
            cs.push(c);
        }
        proof {
            assert(cs@ =~= spec_replace_char(s@.take(i + 1), from, to));
        }
        i = i + 1;
    }
    proof {
        assert(s@.take(n as int) =~= s@);
    }
    string_from_chars(&cs)
}

/// Tests whether every character of `s` is a decimal digit.
pub fn check_all_digits(s: &str) -> (r: bool)
    ensures
        r == all_digits(s@),
{
    let n: usize = s.unicode_len();
    let mut i: usize = 0;
    while i < n
        invariant
            n == s@.len(),
            i <= n,
            forall|j: int| 0 <= j < i ==> is_digit(#[trigger] s@[j]),
        decreases n - i,
    {
        let c = s.get_char(i);
        if c < '0' || c > '9' {
            proof {
                assert(!is_digit(s@[i as int]));
            }
            return false;
        }
        i = i + 1;
    }
    true
}

/// A digit string denotes less than ten to the power of its length.
pub proof fn lemma_digits_val_bound(s: Seq<char>)
    ensures
        digits_val(s) < pow10(s.len()),
    decreases s.len(),
{
    if s.len() > 0 {
        lemma_digits_val_bound(s.drop_last());
        assert(pow10(s.len()) == 10 * pow10((s.len() - 1) as nat));
    }
}

/// Ten to the power `e`.
pub open spec fn pow10(e: nat) -> nat
    decreases e,
{
    if e == 0 {
        1
    } else {
        10 * pow10((e - 1) as nat)
    }
}

/// Ten to a larger power is no smaller.
pub proof fn lemma_pow10_mono(a: nat, b: nat)
    requires
        a <= b,
    ensures
        pow10(a) <= pow10(b),
    decreases b,
{
    if a < b {
        lemma_pow10_mono(a, (b - 1) as nat);
        assert(pow10(b) == 10 * pow10((b - 1) as nat));
    }
}

/// Ten to a power of at most twelve stays within a trillion.
pub proof fn lemma_pow10_le(e: nat)
    requires
        e <= 12,
    ensures
        pow10(e) <= 1000000000000,
{
    lemma_pow10_mono(e, 12);
    assert(pow10(12) == 1000000000000) by {
        reveal_with_fuel(pow10, 13);
    }
}

/// Computes ten to the power `e` for small exponents.
pub fn pow10_u64(e: usize) -> (r: u64)
    requires
        e <= 12,
    ensures
        r == pow10(e as nat),
{
    let mut r: u64 = 1;
    let mut i: usize = 0;
    while i < e
        invariant
            i <= e,
            e <= 12,
            r == pow10(i as nat),
        decreases e - i,
    {
        proof {
            lemma_pow10_le((i + 1) as nat);
            assert(pow10((i + 1) as nat) == 10 * pow10(i as nat));
        }
        r = r * 10;
        i = i + 1;
    }
    r
}

} // verus!
