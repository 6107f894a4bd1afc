//! Character-level helpers shared by the parsing and rendering code:
//! whitespace and key-character classes, substring search, and the escaping
//! used when a string is written back as a TOML basic string.

use vstd::prelude::*;

verus! {

/// Whitespace that may pad content inside a single manifest line.
pub open spec fn is_line_ws(c: char) -> bool {
    c == ' ' || c == '\t' || c == '\r'
}

pub fn line_ws(c: char) -> (r: bool)
    ensures
        r == is_line_ws(c),
{
    c == ' ' || c == '\t' || c == '\r'
}

/// Characters allowed in a bare (unquoted) TOML key.
pub open spec fn is_bare_key_char(c: char) -> bool {
    ('a' <= c && c <= 'z') || ('A' <= c && c <= 'Z') || ('0' <= c && c <= '9') || c == '_' || c
        == '-'
}

pub fn bare_key_char(c: char) -> (r: bool)
    ensures
        r == is_bare_key_char(c),
{
    ('a' <= c && c <= 'z') || ('A' <= c && c <= 'Z') || ('0' <= c && c <= '9') || c == '_' || c
        == '-'
}

/// String equality at the character level.
pub fn str_eq(a: &str, b: &str) -> (r: bool)
    ensures
        r == (a@ == b@),
{
    let x = a.to_owned();
    let y = b.to_owned();
    x == y
}

/// `pat` occurs in `s` at position `i`.
pub open spec fn match_at(s: Seq<char>, pat: Seq<char>, i: int) -> bool {
    0 <= i && i + pat.len() <= s.len() && s.subrange(i, i + pat.len() as int) == pat
}

/// Position of the first occurrence of `pat` in `s`, if any.
pub fn find_sub(s: &str, pat: &str) -> (r: Option<usize>)
    ensures
        match r {
            Some(i) => match_at(s@, pat@, i as int) && (forall|j: int|
                0 <= j < i ==> !match_at(s@, pat@, j)),
            None => forall|j: int| !match_at(s@, pat@, j),
        },
{
    let n = s.unicode_len();
    let m = pat.unicode_len();
    if m > n {
        return None;
    }
    if m == 0 {
        proof {
            assert(s@.subrange(0, 0) =~= pat@);
        }
        return Some(0);
    }
    let mut i: usize = 0;
    while i <= n - m
        invariant
            n == s@.len(),
            m == pat@.len(),
            1 <= m <= n,
            i <= n - m + 1,
            forall|j: int| 0 <= j < i ==> !match_at(s@, pat@, j),
        decreases n - m - i + 1,
    {
        let piece = s.substring_char(i, i + m);
        if str_eq(piece, pat) {
            return Some(i);
        }
        i = i + 1;
    }
    None
}

/// Position of the first occurrence of `pat` in `s`, functionally.
pub open spec fn first_occ(s: Seq<char>, pat: Seq<char>) -> Option<int>
    decreases s.len(),
{
    if s.len() < pat.len() {
        None
    } else if s.take(pat.len() as int) == pat {
        Some(0)
    } else if s.len() == 0 {
        None
    } else {
        match first_occ(s.skip(1), pat) {
            Some(i) => Some(i + 1),
            None => None,
        }
    }
}

/// The quantified characterisation of a first match pins down `first_occ`.
pub proof fn lemma_first_occ_from_match(s: Seq<char>, pat: Seq<char>, i: int)
    requires
        match_at(s, pat, i),
        forall|j: int| 0 <= j < i ==> !match_at(s, pat, j),
    ensures
        first_occ(s, pat) == Some(i),
    decreases s.len(),
{
    assert(s.subrange(i, i + pat.len() as int) == pat);
    if i == 0 {
        assert(s.take(pat.len() as int) == pat);
    } else {
        assert(!match_at(s, pat, 0));
        assert(s.take(pat.len() as int) != pat) by {
            if s.take(pat.len() as int) == pat {
                assert(s.subrange(0, pat.len() as int) =~= s.take(pat.len() as int));
            }
        }
        assert(match_at(s.skip(1), pat, i - 1)) by {
            assert(s.skip(1).subrange(i - 1, i - 1 + pat.len() as int) =~= s.subrange(
                i,
                i + pat.len() as int,
            ));
        }
        assert(forall|j: int| 0 <= j < i - 1 ==> !match_at(s.skip(1), pat, j)) by {
            assert forall|j: int| 0 <= j < i - 1 implies !match_at(s.skip(1), pat, j) by {
                if match_at(s.skip(1), pat, j) {
                    assert(s.subrange(j + 1, j + 1 + pat.len() as int) =~= s.skip(1).subrange(
                        j,
                        j + pat.len() as int,
                    ));
                    assert(match_at(s, pat, j + 1));
                }
            }
        }
        lemma_first_occ_from_match(s.skip(1), pat, i - 1);
    }
}

/// When no position matches, `first_occ` finds nothing.
pub proof fn lemma_first_occ_none(s: Seq<char>, pat: Seq<char>)
    requires
        forall|j: int| !match_at(s, pat, j),
    ensures
        first_occ(s, pat) is None,
    decreases s.len(),
{
    if s.len() >= pat.len() {
        assert(!match_at(s, pat, 0));
        assert(s.take(pat.len() as int) != pat) by {
            if s.take(pat.len() as int) == pat {
                assert(s.subrange(0, pat.len() as int) =~= s.take(pat.len() as int));
            }
        }
        if s.len() > 0 {
            assert(forall|j: int| !match_at(s.skip(1), pat, j)) by {
                assert forall|j: int| !match_at(s.skip(1), pat, j) by {
                    if match_at(s.skip(1), pat, j) {
                        assert(s.subrange(j + 1, j + 1 + pat.len() as int) =~= s.skip(1).subrange(
                            j,
                            j + pat.len() as int,
                        ));
                        assert(match_at(s, pat, j + 1));
                    }
                }
            }
            lemma_first_occ_none(s.skip(1), pat);
        }
    }
}

/// Where `first_occ` reports a position, the pattern indeed occurs there.
pub proof fn lemma_first_occ_is_match(s: Seq<char>, pat: Seq<char>)
    requires
        first_occ(s, pat) is Some,
    ensures
        ({
            let i = first_occ(s, pat).unwrap();
            0 <= i && i + pat.len() <= s.len() && s.subrange(i, i + pat.len() as int) == pat
        }),
    decreases s.len(),
{
    let i = first_occ(s, pat).unwrap();
    if s.len() >= pat.len() && s.take(pat.len() as int) == pat {
        assert(s.subrange(0, pat.len() as int) =~= s.take(pat.len() as int));
    } else {
        lemma_first_occ_is_match(s.skip(1), pat);
        let j = first_occ(s.skip(1), pat).unwrap();
        assert(s.subrange(j + 1, j + 1 + pat.len() as int) =~= s.skip(1).subrange(
            j,
            j + pat.len() as int,
        ));
    }
}

/// Position of the first occurrence of `pat` in `s`, as `first_occ` gives it.
pub fn find_first(s: &str, pat: &str) -> (r: Option<usize>)
    ensures
        match r {
            Some(i) => first_occ(s@, pat@) == Some(i as int) && i + pat@.len() <= s@.len(),
            None => first_occ(s@, pat@) is None,
        },
{
    match find_sub(s, pat) {
        Some(i) => {
            proof {
                lemma_first_occ_from_match(s@, pat@, i as int);
            }
            Some(i)
        },
        None => {
            proof {
                lemma_first_occ_none(s@, pat@);
            }
            None
        },
    }
}

/// Escaped form of one character inside a TOML basic string.
pub open spec fn esc_char(c: char) -> Seq<char> {
    if c == '"' {
        seq!['\\', '"']
    } else if c == '\\' {
        seq!['\\', '\\']
    } else if c == '\n' {
        seq!['\\', 'n']
    } else if c == '\t' {
        seq!['\\', 't']
    } else if c == '\r' {
        seq!['\\', 'r']
    } else {
        seq![c]
    }
}

/// Escaped form of a whole string inside a TOML basic string.
pub open spec fn esc_str(s: Seq<char>) -> Seq<char>
    decreases s.len(),
{
    if s.len() == 0 {
        Seq::empty()
    } else {
        esc_char(s[0]) + esc_str(s.skip(1))
    }
}

/// Append the TOML basic-string escaping of `s` to `out`.
///
/// Quotes, backslashes, newlines, tabs and carriage returns are escaped; other
/// characters pass through unchanged.
pub fn append_escaped(out: &mut String, s: &str)
    ensures
        final(out)@ == old(out)@ + esc_str(s@),
{
    let n = s.unicode_len();
    let mut i: usize = 0;
    while i < n
        invariant
            n == s@.len(),
            i <= n,
            out@ == old(out)@ + esc_str(s@.take(i as int)),
        decreases n - i,
    {
        let c = s.get_char(i);
        if c == '"' {
            out.append("\\\"");
        } else if c == '\\' {
            out.append("\\\\");
        } else if c == '\n' {
            out.append("\\n");
        } else if c == '\t' {
            out.append("\\t");
        } else if c == '\r' {
            out.append("\\r");
        } else {
            let piece = s.substring_char(i, i + 1);
            out.append(piece);
        }
        proof {
            lemma_esc_str_step(s@, i as int);
            reveal_strlit("\\\"");
            reveal_strlit("\\\\");
            reveal_strlit("\\n");
            reveal_strlit("\\t");
            reveal_strlit("\\r");
            assert(s@.subrange(i as int, i + 1 as int) =~= seq![s@[i as int]]);
        }
        i = i + 1;
    }
    proof {
        assert(s@.take(n as int) =~= s@);
    }
}

/// Escaping a string extended by one character appends that character's
/// escaped form.
proof fn lemma_esc_str_step(s: Seq<char>, i: int)
    requires
        0 <= i < s.len(),
    ensures
        esc_str(s.take(i + 1)) == esc_str(s.take(i)) + esc_char(s[i]),
    decreases i,
{
    if i == 0 {
        assert(s.take(1) =~= seq![s[0]]);
        assert(s.take(1)[0] == s[0]);
        assert(s.take(1).skip(1) =~= Seq::<char>::empty());
        assert(esc_str(Seq::<char>::empty()) == Seq::<char>::empty());
        assert(esc_char(s[0]) + Seq::<char>::empty() =~= esc_char(s[0]));
        assert(s.take(0) =~= Seq::<char>::empty());
        assert(esc_str(s.take(1)) =~= esc_char(s[0]));
        assert(esc_str(s.take(0)) + esc_char(s[0]) =~= esc_char(s[0]));
    } else {
        lemma_esc_str_step(s.skip(1), i - 1);
        assert(s.take(i + 1)[0] == s[0]);
        assert(s.take(i + 1).skip(1) =~= s.skip(1).take(i));
        assert(s.take(i).skip(1) =~= s.skip(1).take(i - 1));
        assert(esc_str(s.take(i + 1)) == esc_char(s[0]) + esc_str(s.skip(1).take(i)));
        assert(esc_str(s.take(i)) == esc_char(s[0]) + esc_str(s.skip(1).take(i - 1)));
        assert(s.skip(1)[i - 1] == s[i]);
        assert(esc_str(s.take(i + 1)) =~= esc_str(s.take(i)) + esc_char(s[i]));
    }
}

} // verus!
