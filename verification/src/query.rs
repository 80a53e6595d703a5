//! Matching process-table lines against query strings.
//!
//! A process line matches a query when it contains the query text as a
//! substring; the process identifier reported for a matching line is the
//! line's first whitespace-delimited token.

use vstd::prelude::*;

verus! {

/// Whether a character counts as whitespace for token splitting: the
/// Unicode white-space property, as the standard library defines it.
pub uninterp spec fn is_unicode_whitespace(c: char) -> bool;

/// Relies on char::is_whitespace: whether the character has the Unicode
/// white-space property, a function of the character alone.
#[verifier::external_body]
fn char_is_whitespace(c: char) -> (r: bool)
    ensures
        r == is_unicode_whitespace(c),
{
    c.is_whitespace()
}

/// The first position at or after `i` holding a non-whitespace
/// character, or the length of `s` if there is none.
pub open spec fn token_start(s: Seq<char>, i: int) -> int
    decreases s.len() - i,
{
    if i < 0 || i >= s.len() {
        s.len() as int
    } else if !is_unicode_whitespace(s[i]) {
        i
    } else {
        token_start(s, i + 1)
    }
}

/// The first position at or after `i` holding a whitespace character,
/// or the length of `s` if there is none.
pub open spec fn token_end(s: Seq<char>, i: int) -> int
    decreases s.len() - i,
{
    if i < 0 || i >= s.len() {
        s.len() as int
    } else if is_unicode_whitespace(s[i]) {
        i
    } else {
        token_end(s, i + 1)
    }
}

/// The first whitespace-delimited token of `s`: the maximal run of
/// non-whitespace characters that starts where the leading whitespace
/// ends, or nothing when `s` is empty or all whitespace.
pub open spec fn first_token(s: Seq<char>) -> Option<Seq<char>> {
    let a = token_start(s, 0);
    if a >= s.len() {
        None
    } else {
        Some(s.subrange(a, token_end(s, a)))
    }
}

/// Extracts the first whitespace-delimited token of a line, if any.
pub fn first_token_of(line: &str) -> (r: Option<String>)
    ensures
        match r {
            Some(t) => first_token(line@) == Some(t@),
            None => first_token(line@) is None,
        },
{
    let n = line.unicode_len();
    let mut i: usize = 0;
    loop
        invariant
            n == line@.len(),
            i <= n,
            token_start(line@, 0) == token_start(line@, i as int),
        ensures
            i as int == token_start(line@, 0),
            i <= n,
            n == line@.len(),
        decreases n - i,
    {
        if i >= n {
            break;
        }
        if !char_is_whitespace(line.get_char(i)) {
            break;
        }
        i = i + 1;
    }
    if i >= n {
        return None;
    }
    let a = i;
    proof {
        lemma_token_start_not_ws(line@, 0);
        assert(!is_unicode_whitespace(line@[a as int]));
        assert(token_end(line@, a as int) == token_end(line@, a as int + 1));
    }
    let mut j: usize = a + 1;
    loop
        invariant
            n == line@.len(),
            a < n,
            a < j <= n,
            token_end(line@, a as int) == token_end(line@, j as int),
        ensures
            j as int == token_end(line@, a as int),
            a < j <= n,
        decreases n - j,
    {
        if j >= n {
            break;
        }
        if char_is_whitespace(line.get_char(j)) {
            break;
        }
        j = j + 1;
    }
    let t = line.substring_char(a, j).to_owned();
    Some(t)
}

/// When a first token exists, it starts on a non-whitespace character.
proof fn lemma_token_start_not_ws(s: Seq<char>, i: int)
    requires
        0 <= i <= s.len(),
        token_start(s, i) < s.len(),
    ensures
        0 <= token_start(s, i) < s.len(),
        !is_unicode_whitespace(s[token_start(s, i)]),
    decreases s.len() - i,
{
    if i < s.len() && is_unicode_whitespace(s[i]) {
        lemma_token_start_not_ws(s, i + 1);
    }
}

/// The views of a vector of strings.
pub open spec fn str_views(ss: Seq<String>) -> Seq<Seq<char>> {
    ss.map_values(|s: String| s@)
}

/// Whether the first whitespace-delimited token of `line` is one of the
/// process identifiers in `pids`.
pub open spec fn spec_line_matches(line: Seq<char>, pids: Seq<Seq<char>>) -> bool {
    exists|k: int| 0 <= k < pids.len() && first_token(line) == Some(pids[k])
}

/// Whether the line's leading token — its process identifier — is one
/// of the given identifiers.
pub fn line_matches(line: &str, pids: &Vec<String>) -> (r: bool)
    ensures
        r == spec_line_matches(line@, str_views(pids@)),
{
    let tok = first_token_of(line);
    match tok {
        None => false,
        Some(t) => {
            let mut k: usize = 0;
            while k < pids.len()
                invariant
                    k <= pids@.len(),
                    first_token(line@) == Some(t@),
                    forall|m: int| 0 <= m < k as int ==> str_views(pids@)[m] != t@,
                decreases pids@.len() - k,
            {
                if pids[k] == t {
                    proof {
                        assert(str_views(pids@)[k as int] == t@);
                    }
                    return true;
                }
                proof {
                    assert(str_views(pids@)[k as int] == pids@[k as int]@);
                }
                k = k + 1;
            }
            false
        },
    }
}

/// Whether `needle` occurs contiguously inside `hay`.
pub open spec fn contains_seq(hay: Seq<char>, needle: Seq<char>) -> bool {
    exists|i: int|
        0 <= i && i + needle.len() <= hay.len() && #[trigger] hay.subrange(
            i,
            i + needle.len() as int,
        ) == needle
}

/// Whether `needle` occurs starting at character position `i` of `hay`.
fn match_at(hay: &str, needle: &str, i: usize) -> (r: bool)
    requires
        i + needle@.len() <= hay@.len(),
        hay@.len() <= usize::MAX,
    ensures
        r == (hay@.subrange(i as int, i as int + needle@.len() as int) == needle@),
{
    let n = needle.unicode_len();
    let mut j: usize = 0;
    while j < n
        invariant
            n == needle@.len(),
            i + n <= hay@.len(),
            hay@.len() <= usize::MAX,
            j <= n,
            forall|q: int| 0 <= q < j as int ==> hay@[i as int + q] == needle@[q],
        decreases n - j,
    {
        let hc = hay.get_char(i + j);
        let nc = needle.get_char(j);
        if hc != nc {
            proof {
                assert(hay@.subrange(i as int, i as int + needle@.len() as int)[j as int]
                    == hay@[i as int + j as int]);
            }
            return false;
        }
        j = j + 1;
    }
    proof {
        assert(hay@.subrange(i as int, i as int + needle@.len() as int) =~= needle@);
    }
    true
}

/// Whether the query text occurs as a substring of the line.
pub fn contains_substr(hay: &str, needle: &str) -> (r: bool)
    ensures
        r == contains_seq(hay@, needle@),
{
    let h = hay.unicode_len();
    let n = needle.unicode_len();
    if n > h {
        return false;
    }
    if n == 0 {
        proof {
            assert(hay@.subrange(0, 0 + needle@.len() as int) =~= needle@);
        }
        return true;
    }
    let mut i: usize = 0;
    while i <= h - n
        invariant
            h == hay@.len(),
            n == needle@.len(),
            0 < n <= h,
            i <= h - n + 1,
            forall|m: int|
                0 <= m < i as int ==> #[trigger] hay@.subrange(m, m + needle@.len() as int)
                    != needle@,
        decreases h + 1 - n - i,
    {
        if match_at(hay, needle, i) {
            return true;
        }
        i = i + 1;
    }
    false
}

/// The process identifiers of the lines that contain the query text, in
/// line order: the first token of each matching line. A matching line
/// that is empty or all whitespace has no token and contributes
/// nothing.
pub open spec fn spec_matching_pids(lines: Seq<Seq<char>>, needle: Seq<char>) -> Seq<Seq<char>>
    decreases lines.len(),
{
    if lines.len() == 0 {
        Seq::empty()
    } else {
        let rest = spec_matching_pids(lines.drop_last(), needle);
        let l = lines.last();
        if contains_seq(l, needle) {
            match first_token(l) {
                Some(t) => rest.push(t),
                None => rest,
            }
        } else {
            rest
        }
    }
}

/// Collects the process identifiers of the lines that contain the query
/// text: the first whitespace-delimited token of each such line.
pub fn find_matching_pids(lines: &Vec<String>, needle: &str) -> (r: Vec<String>)
    ensures
        str_views(r@) == spec_matching_pids(str_views(lines@), needle@),
{
    let ghost lv = str_views(lines@);
    let mut r: Vec<String> = Vec::new();
    let mut idx: usize = 0;
    proof {
        assert(lv.subrange(0, 0) =~= Seq::<Seq<char>>::empty());
        assert(str_views(r@) =~= spec_matching_pids(lv.subrange(0, 0), needle@));
    }
    while idx < lines.len()
        invariant
            idx <= lines@.len(),
            lv == str_views(lines@),
            str_views(r@) == spec_matching_pids(lv.subrange(0, idx as int), needle@),
        decreases lines@.len() - idx,
    {
        let ghost r_old = r@;
        let line = &lines[idx];
        proof {
            let pre = lv.subrange(0, idx as int + 1);
            assert(pre.drop_last() =~= lv.subrange(0, idx as int));
            assert(pre.last() == lv[idx as int]);
            assert(lv[idx as int] == lines@[idx as int]@);
        }
        if contains_substr(line.as_str(), needle) {
            match first_token_of(line.as_str()) {
                Some(t) => {
                    let ghost tv = t@;
                    r.push(t);
                    proof {
                        assert(str_views(r@) =~= str_views(r_old).push(tv));
                    }
                },
                None => {},
            }
        }
        idx = idx + 1;
    }
    proof {
        assert(lv.subrange(0, lines@.len() as int) =~= lv);
    }
    r
}

} // verus!
