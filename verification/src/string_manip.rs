//! Low-level cursor primitives over a character buffer.
//!
//! The decoder reads its input through these three functions alone. The
//! cursor is an explicit position into an immutable `&str`, passed by
//! mutable reference so that an advance made inside a nested call stays
//! visible to the caller. On failure every primitive leaves the cursor
//! where it was and returns the error message the protocol layer turns
//! into an in-band error value.

use vstd::prelude::*;

verus! {

/// A CR immediately followed by an LF stands at index `i` of `t`.
pub open spec fn crlf_at(t: Seq<char>, i: int) -> bool {
    0 <= i && i + 1 < t.len() && t[i] == '\r' && t[i + 1] == '\n'
}

/// The index of the first CR LF pair of `t`, if there is one.
///
/// A lone CR not followed by LF is ordinary data and does not terminate
/// the scan.
pub open spec fn find_crlf(t: Seq<char>) -> Option<nat>
    decreases t.len(),
{
    if t.len() < 2 {
        None
    } else if t[0] == '\r' && t[1] == '\n' {
        Some(0)
    } else {
        match find_crlf(t.skip(1)) {
            Some(i) => Some((i + 1) as nat),
            None => None,
        }
    }
}

/// `find_crlf` returns the first CR LF pair: a pair stands where it points,
/// and no pair stands earlier; `None` means there is no pair at all.
pub proof fn lemma_find_crlf(t: Seq<char>)
    ensures
        match find_crlf(t) {
            Some(i) => crlf_at(t, i as int) && forall|j: int| 0 <= j < i ==> !crlf_at(t, j),
            None => forall|j: int| !crlf_at(t, j),
        },
    decreases t.len(),
{
    if t.len() < 2 {
    } else if t[0] == '\r' && t[1] == '\n' {
    } else {
        lemma_find_crlf(t.skip(1));
        let u = t.skip(1);
        assert forall|j: int| crlf_at(t, j) implies j >= 1 && crlf_at(u, j - 1) by {
            assert(t[j] == u[j - 1] && t[j + 1] == u[j]);
        }
        match find_crlf(u) {
            Some(i) => {
                assert(crlf_at(t, i as int + 1)) by {
                    assert(u[i as int] == t[i as int + 1] && u[i as int + 1] == t[i as int + 2]);
                }
            },
            None => {},
        }
    }
}

/// If a pair stands at `i` and none earlier, `find_crlf` returns `i`.
pub proof fn lemma_find_crlf_exact(t: Seq<char>, i: int)
    requires
        crlf_at(t, i),
        forall|j: int| 0 <= j < i ==> !crlf_at(t, j),
    ensures
        find_crlf(t) == Some(i as nat),
{
    lemma_find_crlf(t);
    match find_crlf(t) {
        Some(k) => {
            if k < i {
                assert(!crlf_at(t, k as int));
            } else if k > i {
                assert(!crlf_at(t, i));
            }
        },
        None => {
            assert(!crlf_at(t, i));
        },
    }
}

/// Reads characters until the two-character CR LF terminator, returning the
/// text before it. Fails, consuming nothing, when the input holds no
/// terminator after the cursor.
pub fn consume_until_crlf(s: &str, pos: &mut usize) -> (r: Result<String, String>)
    requires
        *old(pos) <= s@.len(),
    ensures
        ({
            let rest = s@.skip(*old(pos) as int);
            match find_crlf(rest) {
                Some(i) => r matches Ok(c) && c@ == rest.take(i as int) && *final(pos) == *old(pos)
                    + i + 2,
                None => r matches Err(m) && m@ == "Expected CRLF"@ && *final(pos) == *old(pos),
            }
        }),
{
    let ghost rest = s@.skip(*pos as int);
    let start: usize = *pos;
    let n = s.unicode_len();
    let mut i: usize = start;
    loop
        invariant
            start <= i <= n,
            start + 1 <= i + 1 <= n + 1,
            n == s@.len(),
            start == *pos,
            start == *old(pos),
            rest == s@.skip(start as int),
            forall|j: int| 0 <= j < i - start ==> !crlf_at(rest, j),
        decreases n - i,
    {
        proof {
            assert forall|j: int| 0 <= j < rest.len() implies rest[j] == s@[start + j] by {}
        }
        if n - i < 2 {
            proof {
                lemma_find_crlf(rest);
                assert forall|j: int| !crlf_at(rest, j) by {
                    if 0 <= j && j + 1 < rest.len() {
                        assert(rest.len() == n - start);
                        assert(j < i - start);
                    }
                }
                if find_crlf(rest) is Some {
                    let k = find_crlf(rest)->Some_0;
                    assert(crlf_at(rest, k as int));
                }
            }
            return Err(String::from_str("Expected CRLF"));
        }
        let c0 = s.get_char(i);
        let c1 = s.get_char(i + 1);
        if c0 == '\r' && c1 == '\n' {
            proof {
                assert(crlf_at(rest, i - start));
                lemma_find_crlf_exact(rest, i - start);
            }
            let content = String::from_str(s.substring_char(start, i));
            *pos = i + 2;
            proof {
                assert(content@ =~= rest.take(i - start));
            }
            return Ok(content);
        }
        proof {
            assert(!crlf_at(rest, i - start));
        }
        i += 1;
    }
}

/// Asserts that the next two characters are exactly CR then LF and steps
/// over them. Fails, consuming nothing, otherwise — including when the
/// input is exhausted.
pub fn consume_crlf(s: &str, pos: &mut usize) -> (r: Result<(), String>)
    requires
        *old(pos) <= s@.len(),
    ensures
        ({
            let rest = s@.skip(*old(pos) as int);
            if rest.len() >= 2 && rest[0] == '\r' && rest[1] == '\n' {
                r is Ok && *final(pos) == *old(pos) + 2
            } else {
                r matches Err(m) && m@ == "Expected CRLF"@ && *final(pos) == *old(pos)
            }
        }),
{
    let ghost rest = s@.skip(*pos as int);
    let n = s.unicode_len();
    if n - *pos >= 2 {
        let c0 = s.get_char(*pos);
        let c1 = s.get_char(*pos + 1);
        proof {
            assert(rest[0] == s@[*pos as int] && rest[1] == s@[*pos + 1]);
        }
        if c0 == '\r' && c1 == '\n' {
            *pos = *pos + 2;
            return Ok(());
        }
    }
    Err(String::from_str("Expected CRLF"))
}

/// Reads exactly `n` characters. Fails, consuming nothing, when fewer
/// remain. Does not consume a trailing terminator: callers do so
/// explicitly where the format requires one.
pub fn consume_n_chars(s: &str, pos: &mut usize, n: usize) -> (r: Result<String, String>)
    requires
        *old(pos) <= s@.len(),
    ensures
        if *old(pos) + n <= s@.len() {
            r matches Ok(c) && c@ == s@.subrange(*old(pos) as int, *old(pos) + n) && *final(pos)
                == *old(pos) + n
        } else {
            r matches Err(m) && m@ == "Unexpected end of input"@ && *final(pos) == *old(pos)
        },
{
    let len = s.unicode_len();
    if n <= len - *pos {
        let content = String::from_str(s.substring_char(*pos, *pos + n));
        *pos = *pos + n;
        Ok(content)
    } else {
        Err(String::from_str("Unexpected end of input"))
    }
}

} // verus!
