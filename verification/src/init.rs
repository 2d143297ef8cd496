//! Scaffolding helpers: the project-name slug derived from a free-text
//! description, and the errors initialization can report.

use vstd::prelude::*;
use vstd::string::StringExecFns;

verus! {

/// Why initializing or installing a project failed.
#[derive(Debug)]
pub enum InitError {
    /// Reading or writing the project tree failed; the message says where.
    Io(String),
    /// The project configuration could not be loaded or stored.
    Config(String),
    /// The context store could not be prepared.
    Context(String),
    /// The feature list could not be written.
    Feature(String),
    /// The project already holds a configuration file.
    AlreadyInitialized,
}

/// A character a slug may hold: a lowercase ASCII letter, a digit, or a
/// hyphen.
pub open spec fn is_slug_char(c: char) -> bool {
    (97 <= c as int <= 122) || (48 <= c as int <= 57) || c as int == 45
}

/// The slug scan over the first `i` characters: the collected character
/// codes, whether a word is open, whether a joining hyphen is owed, and
/// how many words have closed. Words beyond the third freeze the state.
/// ASCII letters are lowered, digits and hyphens kept, whitespace closes
/// a word, and everything else is dropped.
pub open spec fn slug_scan(s: Seq<char>, i: int) -> (Seq<u8>, bool, bool, int)
    decreases i,
{
    if i <= 0 {
        (Seq::<u8>::empty(), false, false, 0int)
    } else {
        let st = slug_scan(s, i - 1);
        if st.3 >= 3 {
            st
        } else {
            let u = s[i - 1] as int;
            if u == 32 || u == 9 || u == 10 || u == 13 {
                if st.1 {
                    (st.0, false, true, st.3 + 1)
                } else {
                    st
                }
            } else {
                let base = if !st.1 && st.2 {
                    st.0.push(45u8)
                } else {
                    st.0
                };
                let out = if 97 <= u <= 122 {
                    base.push(u as u8)
                } else if 65 <= u <= 90 {
                    base.push((u + 32) as u8)
                } else if 48 <= u <= 57 {
                    base.push(u as u8)
                } else if u == 45 {
                    base.push(45u8)
                } else {
                    base
                };
                (out, true, false, st.3)
            }
        }
    }
}

/// Codes with the leading hyphens dropped.
pub open spec fn drop_leading(c: Seq<u8>) -> Seq<u8>
    decreases c.len(),
{
    if c.len() > 0 && c[0] == 45 {
        drop_leading(c.drop_first())
    } else {
        c
    }
}

/// Codes with the trailing hyphens dropped.
pub open spec fn drop_trailing(c: Seq<u8>) -> Seq<u8>
    decreases c.len(),
{
    if c.len() > 0 && c[c.len() - 1] == 45 {
        drop_trailing(c.drop_last())
    } else {
        c
    }
}

/// Codes with hyphens trimmed from both ends.
pub open spec fn trim_hyphens(c: Seq<u8>) -> Seq<u8> {
    drop_trailing(drop_leading(c))
}

/// Byte codes read as characters.
pub open spec fn codes_chars(c: Seq<u8>) -> Seq<char> {
    Seq::new(c.len(), |k: int| c[k] as char)
}

/// Dropping the leading hyphens keeps exactly the tail from the first
/// non-hyphen on.
proof fn lemma_drop_leading(c: Seq<u8>, k: int)
    requires
        0 <= k <= c.len(),
        forall|t: int| 0 <= t < k ==> c[t] == 45,
        k < c.len() ==> c[k] != 45,
    ensures
        drop_leading(c) == c.subrange(k, c.len() as int),
    decreases k,
{
    if k == 0 {
        if c.len() > 0 && c[0] == 45 {
        } else {
            assert(c.subrange(0, c.len() as int) =~= c);
        }
    } else {
        lemma_drop_leading(c.drop_first(), k - 1);
        assert(c.drop_first().subrange(k - 1, c.drop_first().len() as int) =~= c.subrange(
            k,
            c.len() as int,
        ));
    }
}

/// Dropping the trailing hyphens keeps exactly the head up to the last
/// non-hyphen.
proof fn lemma_drop_trailing(c: Seq<u8>, e: int)
    requires
        0 <= e <= c.len(),
        forall|t: int| e <= t < c.len() ==> c[t] == 45,
        e > 0 ==> c[e - 1] != 45,
    ensures
        drop_trailing(c) == c.subrange(0, e),
    decreases c.len() - e,
{
    if e == c.len() {
        if c.len() > 0 && c[c.len() - 1] == 45 {
        } else {
            assert(c.subrange(0, c.len() as int) =~= c);
        }
    } else {
        lemma_drop_trailing(c.drop_last(), e);
        assert(c.drop_last().subrange(0, e) =~= c.subrange(0, e));
    }
}

/// One slug character as a string slice.
fn slug_char_str(c: u8) -> (r: &'static str)
    requires
        is_slug_char(c as char),
    ensures
        r@ == seq![c as char],
{
    proof {
        reveal_strlit("a");
        reveal_strlit("b");
        reveal_strlit("c");
        reveal_strlit("d");
        reveal_strlit("e");
        reveal_strlit("f");
        reveal_strlit("g");
        reveal_strlit("h");
        reveal_strlit("i");
        reveal_strlit("j");
        reveal_strlit("k");
        reveal_strlit("l");
        reveal_strlit("m");
        reveal_strlit("n");
        reveal_strlit("o");
        reveal_strlit("p");
        reveal_strlit("q");
        reveal_strlit("r");
        reveal_strlit("s");
        reveal_strlit("t");
        reveal_strlit("u");
        reveal_strlit("v");
        reveal_strlit("w");
        reveal_strlit("x");
        reveal_strlit("y");
        reveal_strlit("z");
        reveal_strlit("0");
        reveal_strlit("1");
        reveal_strlit("2");
        reveal_strlit("3");
        reveal_strlit("4");
        reveal_strlit("5");
        reveal_strlit("6");
        reveal_strlit("7");
        reveal_strlit("8");
        reveal_strlit("9");
        reveal_strlit("-");
    }
    let r = match c {
        97 => "a",
        98 => "b",
        99 => "c",
        100 => "d",
        101 => "e",
        102 => "f",
        103 => "g",
        104 => "h",
        105 => "i",
        106 => "j",
        107 => "k",
        108 => "l",
        109 => "m",
        110 => "n",
        111 => "o",
        112 => "p",
        113 => "q",
        114 => "r",
        115 => "s",
        116 => "t",
        117 => "u",
        118 => "v",
        119 => "w",
        120 => "x",
        121 => "y",
        122 => "z",
        48 => "0",
        49 => "1",
        50 => "2",
        51 => "3",
        52 => "4",
        53 => "5",
        54 => "6",
        55 => "7",
        56 => "8",
        57 => "9",
        45 => "-",
        _ => "-",
    };
    proof {
        assert(r@ =~= seq![c as char]);
    }
    r
}

/// Derive a project slug from a description: the first three
/// whitespace-separated words, joined by hyphens, lowercased, with
/// everything outside ASCII letters, digits and hyphens dropped, and
/// hyphens trimmed from both ends — exactly the trimmed result of the
/// slug scan. The result holds only slug characters and neither starts
/// nor ends with a hyphen.
pub fn slugify_name(description: &str) -> (r: String)
    ensures
        r@ == codes_chars(trim_hyphens(slug_scan(description@, description@.len() as int).0)),
        forall|k: int| 0 <= k < r@.len() ==> is_slug_char(#[trigger] r@[k]),
        r@.len() > 0 ==> r@[0] != '-',
        r@.len() > 0 ==> r@[r@.len() - 1] != '-',
{
    let ghost sv = description@;
    let n = description.unicode_len();
    let mut codes: Vec<u8> = Vec::new();
    let mut in_word = false;
    let mut pending_hyphen = false;
    let mut words_done: u32 = 0;
    let mut i: usize = 0;
    while i < n
        invariant
            0 <= i <= n,
            n == sv.len(),
            sv == description@,
            codes@ == slug_scan(sv, i as int).0,
            in_word == slug_scan(sv, i as int).1,
            pending_hyphen == slug_scan(sv, i as int).2,
            words_done as int == slug_scan(sv, i as int).3,
            words_done <= 3,
            forall|k: int| 0 <= k < codes@.len() ==> is_slug_char((#[trigger] codes@[k]) as char),
        decreases n - i,
    {
        if words_done < 3 {
            let u = description.get_char(i) as u32;
            if u == 32 || u == 9 || u == 10 || u == 13 {
                if in_word {
                    in_word = false;
                    words_done += 1;
                    pending_hyphen = true;
                }
            } else {
                if !in_word {
                    in_word = true;
                    if pending_hyphen {
                        codes.push(45);
                        pending_hyphen = false;
                    }
                }
                if 97 <= u && u <= 122 {
                    codes.push(u as u8);
                } else if 65 <= u && u <= 90 {
                    codes.push((u + 32) as u8);
                } else if 48 <= u && u <= 57 {
                    codes.push(u as u8);
                } else if u == 45 {
                    codes.push(45);
                }
                pending_hyphen = false;
            }
        }
        i += 1;
    }
    let m = codes.len();
    let mut start: usize = 0;
    while start < m && codes[start] == 45
        invariant
            0 <= start <= m,
            m == codes@.len(),
            forall|t: int| 0 <= t < start ==> codes@[t] == 45,
        decreases m - start,
    {
        start += 1;
    }
    let mut end: usize = m;
    while end > start && codes[end - 1] == 45
        invariant
            start <= end <= m,
            m == codes@.len(),
            forall|t: int| end <= t < m ==> codes@[t] == 45,
        decreases end,
    {
        end -= 1;
    }
    proof {
        lemma_drop_leading(codes@, start as int);
        lemma_drop_trailing(
            codes@.subrange(start as int, m as int),
            end as int - start as int,
        );
        assert(codes@.subrange(start as int, m as int).subrange(0, end as int - start as int)
            =~= codes@.subrange(start as int, end as int));
        assert(trim_hyphens(codes@) == codes@.subrange(start as int, end as int));
    }
    let mut out = String::new();
    let mut j: usize = start;
    while j < end
        invariant
            start <= j <= end,
            end <= m,
            m == codes@.len(),
            start < end ==> codes@[start as int] != 45,
            start < end ==> codes@[end - 1] != 45,
            forall|k: int| 0 <= k < codes@.len() ==> is_slug_char((#[trigger] codes@[k]) as char),
            out@.len() == j - start,
            forall|k: int| 0 <= k < out@.len() ==> out@[k] == (#[trigger] codes@[start + k]) as char,
        decreases end - j,
    {
        out.append(slug_char_str(codes[j]));
        j += 1;
    }
    proof {
        let trimmed = codes@.subrange(start as int, end as int);
        assert(out@.len() == codes_chars(trimmed).len());
        assert forall|k: int| 0 <= k < out@.len() implies out@[k] == codes_chars(trimmed)[k] by {
            assert(out@[k] == codes@[start as int + k] as char);
            assert(codes_chars(trimmed)[k] == trimmed[k] as char);
        }
        assert(out@ =~= codes_chars(trimmed));
        assert forall|k: int| 0 <= k < out@.len() implies is_slug_char(#[trigger] out@[k]) by {
            assert(out@[k] == codes@[start as int + k] as char);
            assert(is_slug_char(codes@[start as int + k] as char));
        }
        if out@.len() > 0 {
            assert(out@[0] == codes@[start as int + 0] as char);
            assert(codes@[start as int] != 45);
            let last = out@.len() - 1;
            assert(out@[last] == codes@[start as int + last] as char);
            assert(start as int + last == end - 1);
            assert(codes@[end - 1] != 45);
        }
    }
    out
}

} // verus!
