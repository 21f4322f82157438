use vstd::prelude::*;

verus! {

// ---------------------------------------------------------------------------
// Character-level string utilities shared by the parser and the extractor.
// ---------------------------------------------------------------------------

/// Whether two strings hold the same characters.
pub fn str_eq_str(a: &str, b: &str) -> (r: bool)
    ensures
        r == (a@ == b@),
{
    let alen = a.unicode_len();
    let blen = b.unicode_len();
    if alen != blen {
        return false;
    }
    let mut i: usize = 0;
    while i < alen
        invariant
            i <= alen,
            alen == a@.len(),
            alen == b@.len(),
            forall|k: int| 0 <= k < i ==> a@[k] == b@[k],
        decreases alen - i,
    {
        if a.get_char(i) != b.get_char(i) {
            return false;
        }
        i = i + 1;
    }
    proof {
        assert(a@ =~= b@);
    }
    true
}

/// Whether `p` is a prefix of `s`.
pub fn str_has_prefix(s: &str, p: &str) -> (r: bool)
    ensures
        r == p@.is_prefix_of(s@),
{
    let slen = s.unicode_len();
    let plen = p.unicode_len();
    if plen > slen {
        return false;
    }
    let mut i: usize = 0;
    while i < plen
        invariant
            i <= plen,
            plen <= slen,
            slen == s@.len(),
            plen == p@.len(),
            forall|k: int| 0 <= k < i ==> s@[k] == p@[k],
        decreases plen - i,
    {
        if s.get_char(i) != p.get_char(i) {
            proof {
                assert(s@.subrange(0, p@.len() as int)[i as int] != p@[i as int]);
            }
            return false;
        }
        i = i + 1;
    }
    proof {
        assert(s@.subrange(0, p@.len() as int) =~= p@);
    }
    true
}

/// Two characters that are the same letter up to ASCII case.
pub open spec fn chars_eq_ascii_ci(c: char, d: char) -> bool {
    c == d || ('A' <= c && c <= 'Z' && d as u32 == c as u32 + 32) || ('A' <= d && d <= 'Z'
        && c as u32 == d as u32 + 32)
}

pub open spec fn spec_eq_ignore_ascii_case(a: Seq<char>, b: Seq<char>) -> bool {
    a.len() == b.len() && forall|i: int| 0 <= i < a.len() ==> chars_eq_ascii_ci(a[i], b[i])
}

/// Whether two strings agree letter for letter, ignoring ASCII case.
pub fn str_eq_ignore_ascii_case(a: &str, b: &str) -> (r: bool)
    ensures
        r == spec_eq_ignore_ascii_case(a@, b@),
{
    let alen = a.unicode_len();
    let blen = b.unicode_len();
    if alen != blen {
        return false;
    }
    let mut i: usize = 0;
    while i < alen
        invariant
            i <= alen,
            alen == a@.len(),
            alen == b@.len(),
            forall|k: int| 0 <= k < i ==> chars_eq_ascii_ci(a@[k], b@[k]),
        decreases alen - i,
    {
        let c = a.get_char(i);
        let d = b.get_char(i);
        let cu = c as u32;
        let du = d as u32;
        let same = c == d || ('A' <= c && c <= 'Z' && du == cu + 32) || ('A' <= d && d <= 'Z' && cu
            == du + 32);
        if !same {
            return false;
        }
        i = i + 1;
    }
    true
}

// ---------------------------------------------------------------------------
// Substring search
// ---------------------------------------------------------------------------

/// The first position at or after `i` where `pat` occurs in `s`.
pub open spec fn spec_find_from(s: Seq<char>, pat: Seq<char>, i: int) -> Option<int>
    decreases s.len() + 1 - i,
{
    if i < 0 || i + pat.len() > s.len() {
        None
    } else if s.subrange(i, i + pat.len() as int) == pat {
        Some(i)
    } else {
        spec_find_from(s, pat, i + 1)
    }
}

/// The position of the first occurrence of `pat` in `s`, if any.
pub fn find_substring(s: &str, pat: &str) -> (r: Option<usize>)
    ensures
        match (r, spec_find_from(s@, pat@, 0)) {
            (Some(a), Some(b)) => a == b && a + pat@.len() <= s@.len(),
            (None, None) => true,
            _ => false,
        },
{
    let slen = s.unicode_len();
    let plen = pat.unicode_len();
    if plen > slen {
        return None;
    }
    if plen == 0 {
        proof {
            assert(s@.subrange(0, 0) =~= pat@);
        }
        return Some(0);
    }
    let mut i: usize = 0;
    while i <= slen - plen
        invariant
            1 <= plen <= slen,
            i <= slen - plen + 1,
            slen == s@.len(),
            plen == pat@.len(),
            spec_find_from(s@, pat@, 0) == spec_find_from(s@, pat@, i as int),
        decreases slen - i,
    {
        let mut j: usize = 0;
        let mut matched = true;
        while j < plen
            invariant
                j <= plen,
                i + plen <= slen,
                slen == s@.len(),
                plen == pat@.len(),
                matched ==> forall|k: int| 0 <= k < j ==> s@[i + k] == pat@[k],
                !matched ==> s@.subrange(i as int, i + plen) != pat@,
            decreases plen - j,
        {
            if s.get_char(i + j) != pat.get_char(j) {
                proof {
                    assert(s@.subrange(i as int, i + plen)[j as int] == s@[i + j]);
                }
                matched = false;
                j = plen;
            } else {
                j = j + 1;
            }
        }
        if matched {
            proof {
                assert(s@.subrange(i as int, i + plen) =~= pat@);
            }
            return Some(i);
        }
        i = i + 1;
    }
    None
}

/// The first position at or after `i` where the character `c` occurs in `s`.
pub open spec fn spec_find_char(s: Seq<char>, c: char, i: int) -> Option<int>
    decreases s.len() - i,
{
    if i < 0 || i >= s.len() {
        None
    } else if s[i] == c {
        Some(i)
    } else {
        spec_find_char(s, c, i + 1)
    }
}

/// The position of the first occurrence of the character `c` in `s`, if any.
pub fn find_char(s: &str, c: char) -> (r: Option<usize>)
    ensures
        match (r, spec_find_char(s@, c, 0)) {
            (Some(a), Some(b)) => a == b && a < s@.len(),
            (None, None) => true,
            _ => false,
        },
{
    let len = s.unicode_len();
    let mut i: usize = 0;
    while i < len
        invariant
            i <= len,
            len == s@.len(),
            spec_find_char(s@, c, 0) == spec_find_char(s@, c, i as int),
        decreases len - i,
    {
        if s.get_char(i) == c {
            return Some(i);
        }
        i = i + 1;
    }
    None
}

/// Whether `pat` occurs anywhere in `s`.
pub fn contains_substring(s: &str, pat: &str) -> (r: bool)
    ensures
        r == (spec_find_from(s@, pat@, 0) is Some),
{
    match find_substring(s, pat) {
        Some(_) => true,
        None => false,
    }
}

// ---------------------------------------------------------------------------
// Line splitting
// ---------------------------------------------------------------------------

/// The position of the next newline at or after `i`, or the end of `s`.
pub open spec fn spec_find_nl(s: Seq<char>, i: int) -> int
    decreases s.len() - i,
{
    if i < 0 || i >= s.len() {
        s.len() as int
    } else if s[i] == '\n' {
        i
    } else {
        spec_find_nl(s, i + 1)
    }
}

/// Drops one trailing carriage return, as `str::lines` does.
pub open spec fn spec_strip_cr(l: Seq<char>) -> Seq<char> {
    if l.len() > 0 && l.last() == '\r' {
        l.drop_last()
    } else {
        l
    }
}

/// The lines of `s` from position `i` on: split at `\n`, trailing `\r`
/// stripped, no empty line after a final newline.
pub open spec fn spec_lines_from(s: Seq<char>, i: int) -> Seq<Seq<char>>
    decreases s.len() - i,
{
    if i < 0 || i >= s.len() {
        Seq::empty()
    } else {
        let j0 = spec_find_nl(s, i);
        let j = if j0 < i {
            i
        } else if j0 > s.len() {
            s.len() as int
        } else {
            j0
        };
        let line = spec_strip_cr(s.subrange(i, j));
        if j < s.len() {
            Seq::empty().push(line) + spec_lines_from(s, j + 1)
        } else {
            Seq::empty().push(line)
        }
    }
}

pub open spec fn spec_lines(s: Seq<char>) -> Seq<Seq<char>> {
    spec_lines_from(s, 0)
}

proof fn lemma_find_nl_bounds(s: Seq<char>, i: int)
    requires
        0 <= i <= s.len(),
    ensures
        i <= spec_find_nl(s, i) <= s.len(),
        forall|k: int| i <= k < spec_find_nl(s, i) ==> s[k] != '\n',
        spec_find_nl(s, i) < s.len() ==> s[spec_find_nl(s, i)] == '\n',
    decreases s.len() - i,
{
    if i < s.len() && s[i] != '\n' {
        lemma_find_nl_bounds(s, i + 1);
    }
}

/// Splits `s` into its lines, as `str::lines` does.
pub fn split_lines(s: &str) -> (r: Vec<String>)
    ensures
        r@.map_values(|l: String| l@) == spec_lines(s@),
{
    let len = s.unicode_len();
    let mut out: Vec<String> = Vec::new();
    let mut i: usize = 0;
    proof {
        assert(out@.map_values(|l: String| l@) + spec_lines_from(s@, 0) =~= spec_lines(s@));
    }
    while i < len
        invariant
            i <= len,
            len == s@.len(),
            out@.map_values(|l: String| l@) + spec_lines_from(s@, i as int) == spec_lines(s@),
        decreases len - i,
    {
        // find the next newline
        let mut j: usize = i;
        while j < len && s.get_char(j) != '\n'
            invariant
                i <= j <= len,
                len == s@.len(),
                spec_find_nl(s@, i as int) == spec_find_nl(s@, j as int),
            decreases len - j,
        {
            j = j + 1;
        }
        proof {
            assert(spec_find_nl(s@, j as int) == j as int);
        }
        // strip one trailing carriage return
        let mut k: usize = j;
        if j > i && s.get_char(j - 1) == '\r' {
            k = j - 1;
        }
        let line = s.substring_char(i, k);
        let ghost pre = out@.map_values(|l: String| l@);
        let ghost line0 = spec_strip_cr(s@.subrange(i as int, j as int));
        proof {
            assert(line@ =~= line0);
        }
        out.push(line.to_owned());
        proof {
            assert(out@.map_values(|l: String| l@) =~= pre.push(line0));
            assert(pre.push(line0) + spec_lines_from(s@, j + 1) =~= pre + spec_lines_from(
                s@,
                i as int,
            ));
        }
        if j < len {
            i = j + 1;
        } else {
            proof {
                assert(spec_lines_from(s@, j + 1) =~= spec_lines_from(s@, len as int));
            }
            i = len;
        }
    }
    out
}

} // verus!
