//! Small verified helpers over strings: equality of slices and decimal
//! rendering of integers, with exact character-level specifications.

use vstd::prelude::*;
use vstd::string::StringExecFns;

verus! {

/// True exactly when the two string slices hold the same characters.
pub fn str_eq(a: &str, b: &str) -> (r: bool)
    ensures
        r == (a@ == b@),
{
    let x: String = a.to_owned();
    let y: String = b.to_owned();
    x == y
}

/// The character for one decimal digit; digits outside 0..=9 fall back to '0'.
pub open spec fn digit_char(d: int) -> char {
    if d == 1 {
        '1'
    } else if d == 2 {
        '2'
    } else if d == 3 {
        '3'
    } else if d == 4 {
        '4'
    } else if d == 5 {
        '5'
    } else if d == 6 {
        '6'
    } else if d == 7 {
        '7'
    } else if d == 8 {
        '8'
    } else if d == 9 {
        '9'
    } else {
        '0'
    }
}

/// The decimal rendering of a non-negative integer, most significant digit
/// first, without leading zeros (except for zero itself).
pub open spec fn dec_str(n: int) -> Seq<char>
    decreases n,
{
    if n <= 9 {
        seq![digit_char(if n < 0 { 0 } else { n })]
    } else {
        dec_str(n / 10) + seq![digit_char(n % 10)]
    }
}

/// One decimal digit as a string slice.
fn digit_str(d: u64) -> (r: &'static str)
    requires
        d < 10,
    ensures
        r@ == seq![digit_char(d as int)],
{
    proof {
        reveal_strlit("0");
        reveal_strlit("1");
        reveal_strlit("2");
        reveal_strlit("3");
        reveal_strlit("4");
        reveal_strlit("5");
        reveal_strlit("6");
        reveal_strlit("7");
        reveal_strlit("8");
        reveal_strlit("9");
    }
    let r = match d {
        0 => "0",
        1 => "1",
        2 => "2",
        3 => "3",
        4 => "4",
        5 => "5",
        6 => "6",
        7 => "7",
        8 => "8",
        _ => "9",
    };
    proof {
        assert(r@ =~= seq![digit_char(d as int)]);
    }
    r
}

/// Render an integer in decimal.
pub fn u64_to_string(n: u64) -> (r: String)
    ensures
        r@ == dec_str(n as int),
    decreases n,
{
    if n <= 9 {
        digit_str(n).to_owned()
    } else {
        let mut s = u64_to_string(n / 10);
        s.append(digit_str(n % 10));
        proof {
            assert(s@ =~= dec_str(n as int));
        }
        s
    }
}

/// Render a `usize` in decimal.
pub fn usize_to_string(n: usize) -> (r: String)
    ensures
        r@ == dec_str(n as int),
{
    u64_to_string(n as u64)
}

/// Render a `u32` in decimal.
pub fn u32_to_string(n: u32) -> (r: String)
    ensures
        r@ == dec_str(n as int),
{
    u64_to_string(n as u64)
}

/// Lexicographic order on character sequences, compared from position `i`.
pub open spec fn lex_le_from(a: Seq<char>, b: Seq<char>, i: int) -> bool
    decreases a.len() - i,
{
    if i >= a.len() {
        true
    } else if i >= b.len() {
        false
    } else if (a[i] as int) < (b[i] as int) {
        true
    } else if (a[i] as int) > (b[i] as int) {
        false
    } else {
        lex_le_from(a, b, i + 1)
    }
}

/// Lexicographic order on character sequences, by code point.
pub open spec fn lex_le(a: Seq<char>, b: Seq<char>) -> bool {
    lex_le_from(a, b, 0)
}

/// Compare two strings lexicographically by code point.
pub fn str_le(a: &str, b: &str) -> (r: bool)
    ensures
        r == lex_le(a@, b@),
{
    let na = a.unicode_len();
    let nb = b.unicode_len();
    let mut i: usize = 0;
    loop
        invariant
            0 <= i <= na,
            na == a@.len(),
            nb == b@.len(),
            lex_le(a@, b@) == lex_le_from(a@, b@, i as int),
        decreases na - i,
    {
        if i >= na {
            return true;
        }
        if i >= nb {
            return false;
        }
        let ca = a.get_char(i) as u32;
        let cb = b.get_char(i) as u32;
        if ca < cb {
            return true;
        }
        if ca > cb {
            return false;
        }
        i += 1;
    }
}

/// One of two sequences always compares at or below the other.
pub proof fn lemma_lex_total(a: Seq<char>, b: Seq<char>)
    ensures
        lex_le(a, b) || lex_le(b, a),
{
    lemma_lex_total_from(a, b, 0);
}

proof fn lemma_lex_total_from(a: Seq<char>, b: Seq<char>, i: int)
    requires
        0 <= i,
    ensures
        lex_le_from(a, b, i) || lex_le_from(b, a, i),
    decreases a.len() - i,
{
    if i < a.len() && i < b.len() && (a[i] as int) == (b[i] as int) {
        lemma_lex_total_from(a, b, i + 1);
    }
}

/// The lexicographic order is transitive.
pub proof fn lemma_lex_trans(a: Seq<char>, b: Seq<char>, c: Seq<char>)
    requires
        lex_le(a, b),
        lex_le(b, c),
    ensures
        lex_le(a, c),
{
    lemma_lex_trans_from(a, b, c, 0);
}

proof fn lemma_lex_trans_from(a: Seq<char>, b: Seq<char>, c: Seq<char>, i: int)
    requires
        0 <= i,
        lex_le_from(a, b, i),
        lex_le_from(b, c, i),
    ensures
        lex_le_from(a, c, i),
    decreases a.len() - i,
{
    if i < a.len() && i < b.len() && i < c.len() && (a[i] as int) == (b[i] as int) && (b[i] as int)
        == (c[i] as int) {
        lemma_lex_trans_from(a, b, c, i + 1);
    }
}

/// Position of the first occurrence of `needle` in `hay` at or after
/// `from`; the position leaves room for the whole needle.
pub fn find_sub(hay: &str, needle: &str, from: usize) -> (r: Option<usize>)
    ensures
        r matches Some(p) ==> from <= p && p + needle@.len() <= hay@.len(),
{
    let n = hay.unicode_len();
    let m = needle.unicode_len();
    if m == 0 {
        if from <= n {
            return Some(from);
        }
        return None;
    }
    if n < m || from > n - m {
        return None;
    }
    let mut p = from;
    while p <= n - m
        invariant
            from <= p,
            1 <= m <= n,
            n == hay@.len(),
            m == needle@.len(),
        decreases n - p,
    {
        let mut k: usize = 0;
        let mut hit = true;
        while k < m
            invariant
                0 <= k <= m,
                p <= n - m,
                1 <= m <= n,
                n == hay@.len(),
                m == needle@.len(),
            decreases m - k,
        {
            if !(hay.get_char(p + k) == needle.get_char(k)) {
                hit = false;
                break;
            }
            k += 1;
        }
        if hit {
            return Some(p);
        }
        p += 1;
    }
    None
}

/// The code of `c` with an ASCII uppercase letter lowered.
fn lower_code(u: u32) -> (r: u32)
    ensures
        r == if 65 <= u <= 90 {
            u + 32
        } else {
            u as int
        },
{
    if 65 <= u && u <= 90 {
        u + 32
    } else {
        u
    }
}

/// As `find_sub`, but ASCII case-insensitive; the needle is given in
/// lowercase.
pub fn find_sub_ci(hay: &str, needle_lower: &str, from: usize) -> (r: Option<usize>)
    ensures
        r matches Some(p) ==> from <= p && p + needle_lower@.len() <= hay@.len(),
{
    let n = hay.unicode_len();
    let m = needle_lower.unicode_len();
    if m == 0 {
        if from <= n {
            return Some(from);
        }
        return None;
    }
    if n < m || from > n - m {
        return None;
    }
    let mut p = from;
    while p <= n - m
        invariant
            from <= p,
            1 <= m <= n,
            n == hay@.len(),
            m == needle_lower@.len(),
        decreases n - p,
    {
        let mut k: usize = 0;
        let mut hit = true;
        while k < m
            invariant
                0 <= k <= m,
                p <= n - m,
                1 <= m <= n,
                n == hay@.len(),
                m == needle_lower@.len(),
            decreases m - k,
        {
            if !(lower_code(hay.get_char(p + k) as u32) == needle_lower.get_char(k) as u32) {
                hit = false;
                break;
            }
            k += 1;
        }
        if hit {
            return Some(p);
        }
        p += 1;
    }
    None
}

/// Shorten a string to at most `max` characters, marking a cut with an
/// ellipsis of three dots.
pub fn truncate_chars(s: &str, max: usize) -> (r: String)
    requires
        max >= 3,
    ensures
        r@.len() <= max,
{
    let n = s.unicode_len();
    if n <= max {
        s.to_owned()
    } else {
        let mut out = s.substring_char(0, max - 3).to_owned();
        out.append("...");
        proof {
            reveal_strlit("...");
        }
        out
    }
}

/// The percentage `done` is of `total`, rounded to the nearest whole
/// number; zero of zero counts as zero.
pub fn percent_rounded(done: usize, total: usize) -> (r: u32)
    requires
        done <= total,
    ensures
        r == if total == 0 {
            0int
        } else {
            (done * 100 + total / 2) / (total as int)
        },
{
    if total == 0 {
        return 0;
    }
    let num: u128 = (done as u128) * 100 + (total as u128) / 2;
    let q: u128 = num / (total as u128);
    proof {
        assert(q <= 100) by (nonlinear_arith)
            requires
                q == ((done as int) * 100 + (total as int) / 2) / (total as int),
                0 <= done <= total,
                total >= 1,
        ;
    }
    q as u32
}

} // verus!
