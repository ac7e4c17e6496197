//! Verified text helpers: decimal rendering of numbers, character classes,
//! string equality and substring search.

use vstd::prelude::*;

verus! {

/// The whitespace characters recognised by the record grammar.
pub open spec fn is_ws(c: char) -> bool {
    c == ' ' || c == '\t' || c == '\r' || c == '\n'
}

/// Whether `c` is a whitespace character of the record grammar.
pub fn ws(c: char) -> (r: bool)
    ensures
        r == is_ws(c),
{
    c == ' ' || c == '\t' || c == '\r' || c == '\n'
}

/// The decimal digit character for `d` in 0 to 9.
pub open spec fn digit_char(d: int) -> char {
    if d == 0 {
        '0'
    } else if d == 1 {
        '1'
    } else if d == 2 {
        '2'
    } else if d == 3 {
        '3'
    } else if d == 4 {
        '4'
    } else if d == 5 {
        '5'
    } else if d == 6 {
        '6'
    } else if d == 7 {
        '7'
    } else if d == 8 {
        '8'
    } else {
        '9'
    }
}

/// The decimal rendering of `n >= 0`, without leading zeroes.
pub open spec fn dec_str(n: int) -> Seq<char>
    decreases n,
{
    if n < 10 {
        seq![digit_char(n)]
    } else {
        dec_str(n / 10) + seq![digit_char(n % 10)]
    }
}

/// The two-digit, zero-padded decimal rendering of `n` in 0 to 99.
pub open spec fn dec2_str(n: int) -> Seq<char> {
    seq![digit_char(n / 10), digit_char(n % 10)]
}

/// The decimal value of character `c`, or -1 when it is no digit.
pub open spec fn char_digit(c: char) -> int {
    if c == '0' {
        0
    } else if c == '1' {
        1
    } else if c == '2' {
        2
    } else if c == '3' {
        3
    } else if c == '4' {
        4
    } else if c == '5' {
        5
    } else if c == '6' {
        6
    } else if c == '7' {
        7
    } else if c == '8' {
        8
    } else if c == '9' {
        9
    } else {
        -1
    }
}

/// The decimal value of digit character `c`, if it is one.
pub fn digit_value(c: char) -> (r: Option<u8>)
    ensures
        match r {
            Some(d) => d < 10 && digit_char(d as int) == c && char_digit(c) == d as int,
            None => char_digit(c) == -1 && (forall|d: int| 0 <= d < 10 ==> digit_char(d) != c),
        },
{
    match c {
        '0' => Some(0),
        '1' => Some(1),
        '2' => Some(2),
        '3' => Some(3),
        '4' => Some(4),
        '5' => Some(5),
        '6' => Some(6),
        '7' => Some(7),
        '8' => Some(8),
        '9' => Some(9),
        _ => None,
    }
}

/// The one-character string for digit `d`.
fn digit_text(d: u8) -> (r: &'static str)
    requires
        d < 10,
    ensures
        r@ == seq![digit_char(d as int)],
{
    proof {
        reveal_strlit("0");
        reveal_strlit("1");
        reveal_strlit("2");
        reveal_strlit("3");
        reveal_strlit("4");
        reveal_strlit("5");
        reveal_strlit("6");
        reveal_strlit("7");
        reveal_strlit("8");
        reveal_strlit("9");
    }
    let r = match d {
        0 => "0",
        1 => "1",
        2 => "2",
        3 => "3",
        4 => "4",
        5 => "5",
        6 => "6",
        7 => "7",
        8 => "8",
        _ => "9",
    };
    proof {
        assert(r@ =~= seq![digit_char(d as int)]);
    }
    r
}

/// Renders `n` in decimal without leading zeroes.
pub fn num_text(n: u64) -> (r: String)
    ensures
        r@ == dec_str(n as int),
    decreases n,
{
    if n < 10 {
        digit_text(n as u8).to_owned()
    } else {
        let mut s = num_text(n / 10);
        s.append(digit_text((n % 10) as u8));
        s
    }
}

/// Renders `n < 100` as exactly two decimal digits.
pub fn num_text2(n: u8) -> (r: String)
    requires
        n < 100,
    ensures
        r@ == dec2_str(n as int),
{
    let mut s = digit_text(n / 10).to_owned();
    s.append(digit_text(n % 10));
    proof {
        assert(s@ =~= dec2_str(n as int));
    }
    s
}

/// The four-digit, zero-padded decimal rendering of `n` in 0 to 9999.
pub open spec fn dec4_str(n: int) -> Seq<char> {
    seq![
        digit_char(n / 1000),
        digit_char((n / 100) % 10),
        digit_char((n / 10) % 10),
        digit_char(n % 10),
    ]
}

/// Renders `n < 10000` as exactly four decimal digits.
pub fn num_text4(n: u16) -> (r: String)
    requires
        n < 10000,
    ensures
        r@ == dec4_str(n as int),
{
    let mut s = digit_text((n / 1000) as u8).to_owned();
    s.append(digit_text(((n / 100) % 10) as u8));
    s.append(digit_text(((n / 10) % 10) as u8));
    s.append(digit_text((n % 10) as u8));
    proof {
        assert(s@ =~= dec4_str(n as int));
    }
    s
}

/// Whether two strings hold the same characters.
pub fn str_eq(a: &str, b: &str) -> (r: bool)
    ensures
        r == (a@ == b@),
{
    let alen = a.unicode_len();
    let blen = b.unicode_len();
    if alen != blen {
        proof {
            assert(a@ != b@);
        }
        return false;
    }
    let mut i: usize = 0;
    while i < alen
        invariant
            i <= alen,
            alen == a@.len(),
            alen == b@.len(),
            forall|j: int| 0 <= j < i ==> a@[j] == b@[j],
        decreases alen - i,
    {
        if a.get_char(i) != b.get_char(i) {
            return false;
        }
        i = i + 1;
    }
    proof {
        assert(a@ =~= b@);
    }
    true
}

/// Whether `needle` occurs in `hay` as a contiguous run of characters
/// starting at position `at`.
pub open spec fn occurs_at(hay: Seq<char>, needle: Seq<char>, at: int) -> bool {
    &&& 0 <= at
    &&& at + needle.len() <= hay.len()
    &&& hay.subrange(at, at + needle.len()) == needle
}

/// Whether `needle` occurs somewhere in `hay`.
pub open spec fn contains_str(hay: Seq<char>, needle: Seq<char>) -> bool {
    exists|at: int| occurs_at(hay, needle, at)
}

/// Whether the characters of `needle` occur contiguously in `hay`.
pub fn str_contains(hay: &str, needle: &str) -> (r: bool)
    ensures
        r == contains_str(hay@, needle@),
{
    let hlen = hay.unicode_len();
    let nlen = needle.unicode_len();
    if nlen > hlen {
        proof {
            assert(forall|at: int| !occurs_at(hay@, needle@, at));
        }
        return false;
    }
    let mut at: usize = 0;
    while at <= hlen - nlen
        invariant
            nlen <= hlen,
            hlen == hay@.len(),
            nlen == needle@.len(),
            at <= hlen - nlen + 1,
            forall|k: int| 0 <= k < at ==> !occurs_at(hay@, needle@, k),
        decreases hlen - nlen + 1 - at,
    {
        let mut j: usize = 0;
        let mut found = true;
        while j < nlen
            invariant
                at + nlen <= hlen,
                hlen == hay@.len(),
                nlen == needle@.len(),
                j <= nlen,
                found == (forall|q: int| 0 <= q < j ==> hay@[at + q] == needle@[q]),
            decreases nlen - j,
        {
            if hay.get_char(at + j) != needle.get_char(j) {
                found = false;
                proof {
                    assert(hay@[at + j] != needle@[j as int]);
                }
                j = nlen;
            } else {
                proof {
                    assert(hay@[at + j] == needle@[j as int]);
                }
                j = j + 1;
            }
        }
        if found {
            proof {
                assert(hay@.subrange(at as int, at + needle@.len()) =~= needle@);
                assert(occurs_at(hay@, needle@, at as int));
            }
            return true;
        }
        proof {
            assert(hay@.subrange(at as int, at + needle@.len()) != needle@) by {
                let q = choose|q: int|
                    0 <= q < nlen && hay@[at + q] != needle@[q];
                assert(hay@.subrange(at as int, at + needle@.len())[q] == hay@[at + q]);
            }
        }
        at = at + 1;
    }
    proof {
        assert(forall|k: int| !occurs_at(hay@, needle@, k));
    }
    false
}

} // verus!
