use vstd::prelude::*;
use crate::errors::{BracketError, ResolveError};

verus! {

// ---------------------------------------------------------------------------
// Hex decoding
// ---------------------------------------------------------------------------

pub open spec fn is_hex_digit(c: char) -> bool {
    ('0' <= c && c <= '9') || ('a' <= c && c <= 'f') || ('A' <= c && c <= 'F')
}

pub open spec fn hex_digit_val(c: char) -> u8 {
    if '0' <= c && c <= '9' {
        (c as u32 - '0' as u32) as u8
    } else if 'a' <= c && c <= 'f' {
        (c as u32 - 'a' as u32 + 10) as u8
    } else {
        (c as u32 - 'A' as u32 + 10) as u8
    }
}

/// Drops a leading `0x` or `0X`, if present.
pub open spec fn strip_hex_prefix(s: Seq<char>) -> Seq<char> {
    if s.len() >= 2 && s[0] == '0' && (s[1] == 'x' || s[1] == 'X') {
        s.skip(2)
    } else {
        s
    }
}

/// Decodes pairs of hex digits into bytes; any odd tail or non-hex
/// character makes the whole decode fail.
pub open spec fn spec_decode_hex_digits(s: Seq<char>) -> Result<Seq<u8>, ResolveError>
    decreases s.len(),
{
    if s.len() == 0 {
        Ok(Seq::empty())
    } else if s.len() == 1 {
        Err(ResolveError::InvalidHexEncoding)
    } else if !is_hex_digit(s[0]) || !is_hex_digit(s[1]) {
        Err(ResolveError::InvalidHexEncoding)
    } else {
        match spec_decode_hex_digits(s.skip(2)) {
            Ok(rest) => Ok(
                Seq::empty().push((16 * hex_digit_val(s[0]) + hex_digit_val(s[1])) as u8) + rest,
            ),
            Err(e) => Err(e),
        }
    }
}

pub open spec fn spec_decode_hex(s: Seq<char>) -> Result<Seq<u8>, ResolveError> {
    spec_decode_hex_digits(strip_hex_prefix(s))
}

/// The decode succeeds exactly on even-length all-hex input, and then maps
/// each digit pair to one byte.
pub proof fn lemma_decode_hex_digits(s: Seq<char>)
    ensures
        spec_decode_hex_digits(s) is Ok <==> (s.len() % 2 == 0 && forall|i: int|
            0 <= i < s.len() ==> is_hex_digit(#[trigger] s[i])),
        spec_decode_hex_digits(s) is Ok ==> {
            let r = spec_decode_hex_digits(s)->Ok_0;
            &&& r.len() == s.len() / 2
            &&& forall|j: int|
                0 <= j < r.len() ==> #[trigger] r[j] == (16 * hex_digit_val(s[2 * j])
                    + hex_digit_val(s[2 * j + 1])) as u8
        },
        spec_decode_hex_digits(s) is Err ==> spec_decode_hex_digits(s) == Err::<
            Seq<u8>,
            ResolveError,
        >(ResolveError::InvalidHexEncoding),
    decreases s.len(),
{
    if s.len() == 0 {
    } else if s.len() == 1 {
    } else if !is_hex_digit(s[0]) || !is_hex_digit(s[1]) {
    } else {
        lemma_decode_hex_digits(s.skip(2));
        let t = s.skip(2);
        assert(forall|i: int| 0 <= i < t.len() ==> t[i] == s[i + 2]);
        if spec_decode_hex_digits(t) is Ok {
            let rt = spec_decode_hex_digits(t)->Ok_0;
            let r = spec_decode_hex_digits(s)->Ok_0;
            assert(r =~= Seq::empty().push(
                (16 * hex_digit_val(s[0]) + hex_digit_val(s[1])) as u8,
            ) + rt);
            assert forall|j: int| 0 <= j < r.len() implies #[trigger] r[j] == (16 * hex_digit_val(
                s[2 * j],
            ) + hex_digit_val(s[2 * j + 1])) as u8 by {
                if j > 0 {
                    assert(r[j] == rt[j - 1]);
                    assert(rt[j - 1] == (16 * hex_digit_val(t[2 * (j - 1)]) + hex_digit_val(
                        t[2 * (j - 1) + 1],
                    )) as u8);
                    assert(t[2 * (j - 1)] == s[2 * j]);
                    assert(t[2 * (j - 1) + 1] == s[2 * j + 1]);
                }
            }
        }
        if s.len() % 2 == 0 && forall|i: int| 0 <= i < s.len() ==> is_hex_digit(#[trigger] s[i]) {
            assert(forall|i: int| 0 <= i < t.len() ==> is_hex_digit(#[trigger] t[i]));
        }
        if spec_decode_hex_digits(s) is Ok {
            assert forall|i: int| 0 <= i < s.len() implies is_hex_digit(#[trigger] s[i]) by {
                if i >= 2 {
                    assert(is_hex_digit(t[i - 2]));
                }
            }
        }
    }
}

/// Decodes a hex string, with an optional `0x`/`0X` prefix, into raw bytes.
/// Odd-length or non-hex input is rejected.
pub fn decode_hex(s: &str) -> (r: Result<Vec<u8>, ResolveError>)
    ensures
        match (r, spec_decode_hex(s@)) {
            (Ok(v), Ok(w)) => v@ == w,
            (Err(e), Err(f)) => e == f,
            _ => false,
        },
{
    let len = s.unicode_len();
    let mut start: usize = 0;
    if len >= 2 {
        let c0 = s.get_char(0);
        let c1 = s.get_char(1);
        if c0 == '0' && (c1 == 'x' || c1 == 'X') {
            start = 2;
        }
    }
    let ghost body = strip_hex_prefix(s@);
    proof {
        assert(body =~= s@.skip(start as int));
        lemma_decode_hex_digits(body);
    }
    if (len - start) % 2 != 0 {
        return Err(ResolveError::InvalidHexEncoding);
    }
    let mut out: Vec<u8> = Vec::new();
    let mut i: usize = start;
    while i < len
        invariant
            start <= i <= len,
            len == s@.len(),
            body == s@.skip(start as int),
            body == strip_hex_prefix(s@),
            (len - start) % 2 == 0,
            (i - start) % 2 == 0,
            out@.len() == (i - start) / 2,
            forall|k: int| 0 <= k < i - start ==> is_hex_digit(#[trigger] body[k]),
            forall|j: int|
                0 <= j < out@.len() ==> #[trigger] out@[j] == (16 * hex_digit_val(body[2 * j])
                    + hex_digit_val(body[2 * j + 1])) as u8,
        decreases len - i,
    {
        let c0 = s.get_char(i);
        let c1 = s.get_char(i + 1);
        let d0 = match hex_val(c0) {
            Some(d) => d,
            None => {
                proof {
                    lemma_decode_hex_digits(body);
                    assert(!is_hex_digit(body[i - start]));
                }
                return Err(ResolveError::InvalidHexEncoding);
            },
        };
        let d1 = match hex_val(c1) {
            Some(d) => d,
            None => {
                proof {
                    lemma_decode_hex_digits(body);
                    assert(!is_hex_digit(body[i + 1 - start]));
                }
                return Err(ResolveError::InvalidHexEncoding);
            },
        };
        out.push(16 * d0 + d1);
        i = i + 2;
    }
    proof {
        let r = spec_decode_hex_digits(body)->Ok_0;
        assert(out@ =~= r);
    }
    Ok(out)
}

// ---------------------------------------------------------------------------
// Bracket-matching substring search
// ---------------------------------------------------------------------------

pub open spec fn valid_opener(c: char) -> bool {
    c == '[' || c == '(' || c == '{'
}

pub open spec fn closer_for(c: char) -> char {
    if c == '[' {
        ']'
    } else if c == '(' {
        ')'
    } else {
        '}'
    }
}

/// One step of the scan: `counter` open brackets of the requested kind are
/// pending, `started` says whether the first opener was seen at `start`.
/// Only brackets of the requested kind are counted; all other characters,
/// brackets of other kinds included, pass through.
pub open spec fn spec_bracket_scan(
    s: Seq<char>,
    opener: char,
    i: int,
    counter: int,
    started: bool,
    start: int,
) -> Result<(int, int), BracketError>
    decreases s.len() - i,
{
    if i < 0 || i >= s.len() {
        if !started {
            Err(BracketError::NoBrackets)
        } else {
            Err(BracketError::MismatchedBrackets)
        }
    } else if s[i] == opener {
        spec_bracket_scan(
            s,
            opener,
            i + 1,
            counter + 1,
            true,
            if started {
                start
            } else {
                i
            },
        )
    } else if s[i] == closer_for(opener) {
        if !started {
            Err(BracketError::CloserBeforeOpener)
        } else if counter == 1 {
            Ok((start, i))
        } else {
            spec_bracket_scan(s, opener, i + 1, counter - 1, started, start)
        }
    } else {
        spec_bracket_scan(s, opener, i + 1, counter, started, start)
    }
}

/// The substring from the first opener through its matching closer,
/// brackets included.
pub open spec fn spec_matching_bracket(s: Seq<char>, opener: char) -> Result<
    Seq<char>,
    BracketError,
> {
    if !valid_opener(opener) {
        Err(BracketError::UnsupportedOpener)
    } else {
        match spec_bracket_scan(s, opener, 0, 0, false, 0) {
            Ok((a, b)) => Ok(s.subrange(a, b + 1)),
            Err(e) => Err(e),
        }
    }
}

/// Returns the substring of `input` from the first `opener` through the
/// closer that balances it, both included. Brackets of other kinds are not
/// balanced; the input is assumed to nest the requested kind properly.
pub fn matching_bracket_substring(input: &str, opener: char) -> (r: Result<String, BracketError>)
    ensures
        match (r, spec_matching_bracket(input@, opener)) {
            (Ok(v), Ok(w)) => v@ == w,
            (Err(e), Err(f)) => e == f,
            _ => false,
        },
{
    let closer: char;
    if opener == '[' {
        closer = ']';
    } else if opener == '(' {
        closer = ')';
    } else if opener == '{' {
        closer = '}';
    } else {
        return Err(BracketError::UnsupportedOpener);
    }
    let len = input.unicode_len();
    let mut counter: usize = 0;
    let mut started = false;
    let mut start: usize = 0;
    let mut i: usize = 0;
    while i < len
        invariant
            i <= len,
            len == input@.len(),
            valid_opener(opener),
            closer == closer_for(opener),
            started ==> counter >= 1 && start <= i && start < len,
            !started ==> counter == 0 && start == 0,
            counter <= i,
            spec_bracket_scan(input@, opener, 0, 0, false, 0) == spec_bracket_scan(
                input@,
                opener,
                i as int,
                counter as int,
                started,
                start as int,
            ),
        decreases len - i,
    {
        let c = input.get_char(i);
        if c == opener {
            if !started {
                started = true;
                start = i;
            }
            counter = counter + 1;
        } else if c == closer {
            if !started {
                return Err(BracketError::CloserBeforeOpener);
            }
            if counter == 1 {
                let sub = input.substring_char(start, i + 1);
                return Ok(sub.to_owned());
            }
            counter = counter - 1;
        }
        i = i + 1;
    }
    if !started {
        return Err(BracketError::NoBrackets);
    }
    Err(BracketError::MismatchedBrackets)
}

/// The value of one hex digit, or `None` for any other character.
fn hex_val(c: char) -> (r: Option<u8>)
    ensures
        r is Some <==> is_hex_digit(c),
        r is Some ==> r->0 == hex_digit_val(c),
{
    if '0' <= c && c <= '9' {
        Some((c as u32 - '0' as u32) as u8)
    } else if 'a' <= c && c <= 'f' {
        Some((c as u32 - 'a' as u32 + 10) as u8)
    } else if 'A' <= c && c <= 'F' {
        Some((c as u32 - 'A' as u32 + 10) as u8)
    } else {
        None
    }
}

} // verus!
