//! The recursive-descent decoder.
//!
//! [`spec_decode`] is the mathematical decoder: from wire text it yields
//! either the decoded value or the kind of protocol error, together with the
//! number of characters the decoder consumes. The executable decoder
//! [`RedisValue::from_iter`] is proved to return exactly what `spec_decode`
//! says and to advance the cursor by exactly the consumed count;
//! [`RedisValue::from_resp`] wraps a complete text and turns a failure into
//! an in-band `SimpleError` value, so a caller always receives a well-formed
//! value.

use vstd::prelude::*;

use crate::numerals::{
    parse_i128,
    parse_i64,
    parse_usize,
    spec_parse_i128,
    spec_parse_i64,
    spec_parse_usize,
};
use crate::redis_value::{
    element_texts,
    find_text_dup,
    has_dup_text,
    lemma_texts_of,
    lemma_views_of,
    lemma_views_of_push,
    texts_of,
    views_of,
    RedisValue,
    SpecValue,
};
use crate::string_manip::{
    consume_crlf,
    consume_n_chars,
    consume_until_crlf,
    find_crlf,
    lemma_find_crlf,
};

verus! {

/// The kinds of protocol error the decoder can report.
#[derive(Clone, Copy, Debug, PartialEq, Eq)]
pub enum ErrKind {
    /// A field ran to the end of the input without its CR LF terminator,
    /// or the two characters after a fixed-length body were not CR LF.
    MissingCrlf,
    /// A length-prefixed body ended before the declared number of
    /// characters was read.
    UnexpectedEof,
    /// A length, count or integer field did not parse as a decimal number.
    NotAnInteger,
    /// A boolean token other than `#t` or `#f`.
    InvalidBoolean,
    /// A verbatim-string body without exactly one colon separator.
    InvalidVerbatim,
    /// Two elements of a Set decoded to identical wire text.
    SetNotUnique,
    /// A Set count field that did not parse as a decimal number.
    InvalidSetLength,
    /// A Push count field that did not parse as a decimal number.
    InvalidPushLength,
    /// An unrecognized leading tag, or empty input.
    InvalidTag,
}

/// The human-readable message carried by the error value for each kind.
pub open spec fn err_msg(k: ErrKind) -> Seq<char> {
    match k {
        ErrKind::MissingCrlf => "Expected CRLF"@,
        ErrKind::UnexpectedEof => "Unexpected end of input"@,
        ErrKind::NotAnInteger => "Could not parse as Integer"@,
        ErrKind::InvalidBoolean => "No valid boolean found"@,
        ErrKind::InvalidVerbatim => "Invalid verbatim string"@,
        ErrKind::SetNotUnique => "Set is not unique"@,
        ErrKind::InvalidSetLength => "Invalid length for set"@,
        ErrKind::InvalidPushLength => "Invalid length for push"@,
        ErrKind::InvalidTag => "Invalid or empty character for value initializer"@,
    }
}

/// `c` clamped into `[0, hi]`.
pub open spec fn cap_at(c: int, hi: int) -> int {
    if c < 0 {
        0
    } else if c > hi {
        hi
    } else {
        c
    }
}

/// The index of the first colon of `t`, if there is one.
pub open spec fn find_colon(t: Seq<char>) -> Option<nat>
    decreases t.len(),
{
    if t.len() == 0 {
        None
    } else if t[0] == ':' {
        Some(0)
    } else {
        match find_colon(t.skip(1)) {
            Some(i) => Some((i + 1) as nat),
            None => None,
        }
    }
}

/// `find_colon` returns the first colon: a colon stands where it points and
/// none earlier; `None` means `t` holds no colon at all.
pub proof fn lemma_find_colon(t: Seq<char>)
    ensures
        match find_colon(t) {
            Some(i) => i < t.len() && t[i as int] == ':' && forall|j: int|
                0 <= j < i ==> t[j] != ':',
            None => forall|j: int| 0 <= j < t.len() ==> t[j] != ':',
        },
    decreases t.len(),
{
    if t.len() == 0 {
    } else if t[0] == ':' {
    } else {
        lemma_find_colon(t.skip(1));
        let u = t.skip(1);
        match find_colon(u) {
            Some(i) => {
                assert(t[i as int + 1] == u[i as int]);
                assert forall|j: int| 0 <= j < i + 1 implies t[j] != ':' by {
                    if j > 0 {
                        assert(t[j] == u[j - 1]);
                    }
                }
            },
            None => {
                assert forall|j: int| 0 <= j < t.len() implies t[j] != ':' by {
                    if j > 0 {
                        assert(t[j] == u[j - 1]);
                    }
                }
            },
        }
    }
}

/// If a colon stands at `i` and none earlier, `find_colon` returns `i`.
pub proof fn lemma_find_colon_exact(t: Seq<char>, i: int)
    requires
        0 <= i < t.len(),
        t[i] == ':',
        forall|j: int| 0 <= j < i ==> t[j] != ':',
    ensures
        find_colon(t) == Some(i as nat),
{
    lemma_find_colon(t);
    match find_colon(t) {
        Some(k) => {
            if k < i {
                assert(t[k as int] != ':');
            } else if k > i {
                assert(t[i] != ':');
            }
        },
        None => {
            assert(t[i] != ':');
        },
    }
}

// ---------------------------------------------------------------------------
// The mathematical decoder
// ---------------------------------------------------------------------------

/// Decodes one length-prefixed body after tag `$` or `!`: a decimal length,
/// the terminator, exactly that many characters, and the terminator again.
/// Length `-1` is the null sentinel. `bulk_err` tells the two tags apart.
pub open spec fn spec_decode_bulk(t: Seq<char>, bulk_err: bool) -> (Result<SpecValue, ErrKind>, int) {
    match find_crlf(t.skip(1)) {
        Some(i) => {
            let header = t.skip(1).take(i as int);
            let body_start: int = i as int + 3;
            if header == "-1"@ {
                (Ok(SpecValue::NullBulkString), body_start)
            } else {
                match spec_parse_usize(header) {
                    Some(n) => if body_start + n <= t.len() {
                        let body = t.subrange(body_start, body_start + n);
                        if body_start + n + 2 <= t.len() && t[body_start + n] == '\r' && t[
                            body_start + n + 1
                        ] == '\n' {
                            (
                                Ok(
                                    if bulk_err {
                                        SpecValue::BulkError(body)
                                    } else {
                                        SpecValue::BulkString(body)
                                    },
                                ),
                                body_start + n + 2,
                            )
                        } else {
                            (Err(ErrKind::MissingCrlf), body_start + n)
                        }
                    } else {
                        (Err(ErrKind::UnexpectedEof), body_start)
                    },
                    None => (Err(ErrKind::NotAnInteger), body_start),
                }
            }
        },
        None => (Err(ErrKind::MissingCrlf), 1),
    }
}

/// Decodes a verbatim-string body after tag `=`: a length-prefixed body
/// holding `encoding`, one colon, and the contents. A body without exactly
/// one colon is a protocol error; length `-1` is the null sentinel.
pub open spec fn spec_decode_verbatim(t: Seq<char>) -> (Result<SpecValue, ErrKind>, int) {
    match find_crlf(t.skip(1)) {
        Some(i) => {
            let header = t.skip(1).take(i as int);
            let body_start: int = i as int + 3;
            if header == "-1"@ {
                (Ok(SpecValue::NullBulkString), body_start)
            } else {
                match spec_parse_usize(header) {
                    Some(n) => if body_start + n <= t.len() {
                        let body = t.subrange(body_start, body_start + n);
                        if body_start + n + 2 <= t.len() && t[body_start + n] == '\r' && t[
                            body_start + n + 1
                        ] == '\n' {
                            match find_colon(body) {
                                Some(ci) => if find_colon(body.skip(ci as int + 1)) is None {
                                    (
                                        Ok(
                                            SpecValue::VerbatimString(
                                                body.take(ci as int),
                                                body.skip(ci as int + 1),
                                            ),
                                        ),
                                        body_start + n + 2,
                                    )
                                } else {
                                    (Err(ErrKind::InvalidVerbatim), body_start + n + 2)
                                },
                                None => (Err(ErrKind::InvalidVerbatim), body_start + n + 2),
                            }
                        } else {
                            (Err(ErrKind::MissingCrlf), body_start + n)
                        }
                    } else {
                        (Err(ErrKind::UnexpectedEof), body_start)
                    },
                    None => (Err(ErrKind::NotAnInteger), body_start),
                }
            }
        },
        None => (Err(ErrKind::MissingCrlf), 1),
    }
}

/// Decodes one value from the front of `t` and tells how many characters
/// were consumed. Dispatch is by the leading tag character; every failure
/// is a reported error kind, never a fault.
pub open spec fn spec_decode(t: Seq<char>) -> (Result<SpecValue, ErrKind>, int)
    decreases t.len(), 0int, 0int,
{
    if t.len() == 0 {
        (Err(ErrKind::InvalidTag), 0)
    } else if t[0] == '+' {
        match find_crlf(t.skip(1)) {
            Some(i) => (Ok(SpecValue::SimpleString(t.skip(1).take(i as int))), i as int + 3),
            None => (Err(ErrKind::MissingCrlf), 1),
        }
    } else if t[0] == '-' {
        match find_crlf(t.skip(1)) {
            Some(i) => (Ok(SpecValue::SimpleError(t.skip(1).take(i as int))), i as int + 3),
            None => (Err(ErrKind::MissingCrlf), 1),
        }
    } else if t[0] == ':' {
        match find_crlf(t.skip(1)) {
            Some(i) => match spec_parse_i64(t.skip(1).take(i as int)) {
                Some(n) => (Ok(SpecValue::Integer(n)), i as int + 3),
                None => (Err(ErrKind::NotAnInteger), i as int + 3),
            },
            None => (Err(ErrKind::MissingCrlf), 1),
        }
    } else if t[0] == '(' {
        match find_crlf(t.skip(1)) {
            Some(i) => match spec_parse_i128(t.skip(1).take(i as int)) {
                Some(n) => (Ok(SpecValue::BigInteger(n)), i as int + 3),
                None => (Err(ErrKind::NotAnInteger), i as int + 3),
            },
            None => (Err(ErrKind::MissingCrlf), 1),
        }
    } else if t[0] == '$' {
        spec_decode_bulk(t, false)
    } else if t[0] == '!' {
        spec_decode_bulk(t, true)
    } else if t[0] == '=' {
        spec_decode_verbatim(t)
    } else if t[0] == '_' {
        if t.len() >= 3 && t[1] == '\r' && t[2] == '\n' {
            (Ok(SpecValue::Null), 3)
        } else {
            (Err(ErrKind::MissingCrlf), 1)
        }
    } else if t[0] == '#' {
        match find_crlf(t) {
            Some(i) => {
                let token = t.take(i as int);
                if token == "#t"@ {
                    (Ok(SpecValue::Boolean(true)), i as int + 2)
                } else if token == "#f"@ {
                    (Ok(SpecValue::Boolean(false)), i as int + 2)
                } else {
                    (Err(ErrKind::InvalidBoolean), i as int + 2)
                }
            },
            None => (Err(ErrKind::MissingCrlf), 0),
        }
    } else if t[0] == '*' || t[0] == '~' || t[0] == '>' {
        match find_crlf(t.skip(1)) {
            Some(i) => {
                let header = t.skip(1).take(i as int);
                let rest_start: int = i as int + 3;
                if header == "-1"@ {
                    (Ok(SpecValue::NullArray), rest_start)
                } else {
                    match spec_parse_usize(header) {
                        Some(n) => {
                            let (r, used) = spec_decode_elems(
                                t.skip(cap_at(rest_start, t.len() as int)),
                                n as int,
                            );
                            match r {
                                Ok(elems) => if t[0] == '*' {
                                    (Ok(SpecValue::Array(elems)), rest_start + used)
                                } else if t[0] == '>' {
                                    (Ok(SpecValue::Push(elems)), rest_start + used)
                                } else if has_dup_text(texts_of(elems)) {
                                    (Err(ErrKind::SetNotUnique), rest_start + used)
                                } else {
                                    (Ok(SpecValue::SetValue(elems)), rest_start + used)
                                },
                                Err(k) => (Err(k), rest_start + used),
                            }
                        },
                        None => (
                            Err(
                                if t[0] == '*' {
                                    ErrKind::NotAnInteger
                                } else if t[0] == '~' {
                                    ErrKind::InvalidSetLength
                                } else {
                                    ErrKind::InvalidPushLength
                                },
                            ),
                            rest_start,
                        ),
                    }
                }
            },
            None => (Err(ErrKind::MissingCrlf), 1),
        }
    } else {
        (Err(ErrKind::InvalidTag), 0)
    }
}

/// Decodes `n` values one after another from the front of `t`. The first
/// failure aborts the sequence and is reported as the overall error.
pub open spec fn spec_decode_elems(t: Seq<char>, n: int) -> (Result<Seq<SpecValue>, ErrKind>, int)
    decreases t.len(), n, 1int,
{
    if n <= 0 {
        (Ok(Seq::empty()), 0)
    } else {
        let (r, c) = spec_decode(t);
        match r {
            Ok(v) => {
                let (r2, c2) = spec_decode_elems(t.skip(cap_at(c, t.len() as int)), n - 1);
                match r2 {
                    Ok(vs) => (Ok(seq![v] + vs), c + c2),
                    Err(k) => (Err(k), c + c2),
                }
            },
            Err(k) => (Err(k), c),
        }
    }
}

/// The decoder consumes a non-negative count of characters, never more
/// than the input holds.
pub proof fn lemma_decode_consumed(t: Seq<char>)
    ensures
        0 <= spec_decode(t).1 <= t.len(),
    decreases t.len(), 0int, 0int,
{
    if t.len() == 0 {
    } else {
        lemma_find_crlf(t.skip(1));
        lemma_find_crlf(t);
        if t[0] == '*' || t[0] == '~' || t[0] == '>' {
            match find_crlf(t.skip(1)) {
                Some(i) => {
                    let header = t.skip(1).take(i as int);
                    let rest_start: int = i as int + 3;
                    assert(rest_start <= t.len());
                    if header != "-1"@ {
                        match spec_parse_usize(header) {
                            Some(n) => {
                                lemma_decode_elems_consumed(
                                    t.skip(cap_at(rest_start, t.len() as int)),
                                    n as int,
                                );
                            },
                            None => {},
                        }
                    }
                },
                None => {},
            }
        }
    }
}

/// Decoding a sequence of values consumes a non-negative count of
/// characters, never more than the input holds.
pub proof fn lemma_decode_elems_consumed(t: Seq<char>, n: int)
    ensures
        0 <= spec_decode_elems(t, n).1 <= t.len(),
    decreases t.len(), n, 1int,
{
    if n <= 0 {
    } else {
        lemma_decode_consumed(t);
        let (r, c) = spec_decode(t);
        match r {
            Ok(v) => {
                lemma_decode_elems_consumed(t.skip(cap_at(c, t.len() as int)), n - 1);
            },
            Err(k) => {},
        }
    }
}

// ---------------------------------------------------------------------------
// The executable decoder
// ---------------------------------------------------------------------------

/// What one decoding step promises: the cursor moved from `entry` to `fin`,
/// which is `entry` plus exactly what `spec_decode` consumes there, and the
/// outcome is the decoded value, or the error value carrying the reported
/// kind's message.
pub open spec fn decode_post(
    s: Seq<char>,
    entry: int,
    fin: int,
    r: Result<RedisValue, RedisValue>,
) -> bool {
    let (res, used) = spec_decode(s.skip(entry));
    &&& fin == entry + used
    &&& match res {
        Ok(sv) => r matches Ok(v) && v@ == sv,
        Err(k) => r matches Err(e) && e@ == SpecValue::SimpleError(err_msg(k)),
    }
}

/// The value `from_resp` returns for this text: the decoded value, or the
/// in-band error value for the reported kind.
pub open spec fn spec_from_resp(t: Seq<char>) -> SpecValue {
    match spec_decode(t).0 {
        Ok(v) => v,
        Err(k) => SpecValue::SimpleError(err_msg(k)),
    }
}

/// Splits a verbatim-string body at its single colon; `None` when the body
/// does not hold exactly one colon.
fn split_verbatim(body: &str) -> (r: Option<(String, String)>)
    ensures
        match find_colon(body@) {
            Some(ci) => if find_colon(body@.skip(ci as int + 1)) is None {
                r matches Some(p) && p.0@ == body@.take(ci as int) && p.1@ == body@.skip(
                    ci as int + 1,
                )
            } else {
                r is None
            },
            None => r is None,
        },
{
    let n = body.unicode_len();
    let mut first: usize = 0;
    let mut found = false;
    let mut k: usize = 0;
    while k < n
        invariant
            k <= n,
            n == body@.len(),
            !found ==> forall|j: int| 0 <= j < k ==> body@[j] != ':',
            found ==> first < k <= n && body@[first as int] == ':' && forall|j: int|
                0 <= j < first ==> body@[j] != ':',
            found ==> forall|j: int| first < j < k ==> body@[j] != ':',
        decreases n - k,
    {
        if body.get_char(k) == ':' {
            if found {
                // a second colon: not a valid verbatim body
                proof {
                    lemma_find_colon_exact(body@, first as int);
                    lemma_find_colon(body@.skip(first as int + 1));
                    if find_colon(body@.skip(first as int + 1)) is None {
                        assert(body@.skip(first as int + 1)[k - first - 1] == body@[k as int]);
                    }
                }
                return None;
            }
            found = true;
            first = k;
        }
        k += 1;
    }
    if !found {
        proof {
            lemma_find_colon(body@);
            if find_colon(body@) is Some {
                let ci = find_colon(body@)->Some_0;
                assert(body@[ci as int] != ':');
            }
        }
        return None;
    }
    proof {
        lemma_find_colon_exact(body@, first as int);
        lemma_find_colon(body@.skip(first as int + 1));
        if find_colon(body@.skip(first as int + 1)) is Some {
            let ci = find_colon(body@.skip(first as int + 1))->Some_0;
            assert(body@.skip(first as int + 1)[ci as int] == body@[first + 1 + ci]);
        }
    }
    let enc = String::from_str(body.substring_char(0, first));
    let rest = String::from_str(body.substring_char(first + 1, n));
    proof {
        assert(enc@ =~= body@.take(first as int));
        assert(rest@ =~= body@.skip(first as int + 1));
    }
    Some((enc, rest))
}

/// Decodes a length-prefixed body after tag `$` or `!`.
#[verifier::loop_isolation(false)]
#[verifier::rlimit(60)]
fn decode_bulk(s: &str, pos: &mut usize, bulk_err: bool) -> (r: Result<RedisValue, RedisValue>)
    requires
        *old(pos) < s@.len() <= usize::MAX,
        s@[*old(pos) as int] == if bulk_err {
            '!'
        } else {
            '$'
        },
    ensures
        decode_post(s@, *old(pos) as int, *final(pos) as int, r),
{
    let ghost entry = *old(pos) as int;
    let ghost t = s@.skip(entry);
    proof {
        assert(t[0] == s@[entry]);
    }
    *pos = *pos + 1;
    proof {
        assert(s@.skip(entry + 1) =~= t.skip(1));
    }
    let header = match consume_until_crlf(s, pos) {
        Ok(h) => h,
        Err(m) => {
            return Err(RedisValue::SimpleError(m));
        },
    };
    let ghost i = find_crlf(t.skip(1))->Some_0;
    proof {
        lemma_find_crlf(t.skip(1));
        assert(header@ == t.skip(1).take(i as int));
        assert(*pos == entry + 3 + i);
        assert(entry + 3 + i <= s@.len());
    }
    if header == String::from_str("-1") {
        return Ok(RedisValue::NullBulkString);
    }
    let len = match parse_usize(header.as_str()) {
        Some(c) => c,
        None => {
            return Err(RedisValue::SimpleError(String::from_str("Could not parse as Integer")));
        },
    };
    let ghost body_start = entry + 3 + i;
    let body = match consume_n_chars(s, pos, len) {
        Ok(b) => b,
        Err(m) => {
            return Err(RedisValue::SimpleError(m));
        },
    };
    proof {
        assert(body@ =~= t.subrange(i as int + 3, i as int + 3 + len));
        assert(s@.skip(body_start + len) =~= t.skip(i as int + 3 + len));
    }
    match consume_crlf(s, pos) {
        Ok(()) => {
            if bulk_err {
                Ok(RedisValue::BulkError(body))
            } else {
                Ok(RedisValue::BulkString(body))
            }
        },
        Err(m) => Err(RedisValue::SimpleError(m)),
    }
}

/// Decodes a verbatim string after tag `=`.
#[verifier::loop_isolation(false)]
#[verifier::rlimit(60)]
fn decode_verbatim(s: &str, pos: &mut usize) -> (r: Result<RedisValue, RedisValue>)
    requires
        *old(pos) < s@.len() <= usize::MAX,
        s@[*old(pos) as int] == '=',
    ensures
        decode_post(s@, *old(pos) as int, *final(pos) as int, r),
{
    let ghost entry = *old(pos) as int;
    let ghost t = s@.skip(entry);
    proof {
        assert(t[0] == s@[entry]);
    }
    *pos = *pos + 1;
    proof {
        assert(s@.skip(entry + 1) =~= t.skip(1));
    }
    let header = match consume_until_crlf(s, pos) {
        Ok(h) => h,
        Err(m) => {
            return Err(RedisValue::SimpleError(m));
        },
    };
    let ghost i = find_crlf(t.skip(1))->Some_0;
    proof {
        lemma_find_crlf(t.skip(1));
        assert(header@ == t.skip(1).take(i as int));
        assert(*pos == entry + 3 + i);
        assert(entry + 3 + i <= s@.len());
    }
    if header == String::from_str("-1") {
        return Ok(RedisValue::NullBulkString);
    }
    let len = match parse_usize(header.as_str()) {
        Some(c) => c,
        None => {
            return Err(RedisValue::SimpleError(String::from_str("Could not parse as Integer")));
        },
    };
    let ghost body_start = entry + 3 + i;
    let body = match consume_n_chars(s, pos, len) {
        Ok(b) => b,
        Err(m) => {
            return Err(RedisValue::SimpleError(m));
        },
    };
    proof {
        assert(body@ =~= t.subrange(i as int + 3, i as int + 3 + len));
        assert(s@.skip(body_start + len) =~= t.skip(i as int + 3 + len));
    }
    match consume_crlf(s, pos) {
        Ok(()) => {
            match split_verbatim(body.as_str()) {
                Some(parts) => Ok(RedisValue::VerbatimString(parts.0, parts.1)),
                None => Err(RedisValue::SimpleError(String::from_str("Invalid verbatim string"))),
            }
        },
        Err(m) => Err(RedisValue::SimpleError(m)),
    }
}

/// Decodes a count-prefixed collection after tag `*`, `~` or `>`: the
/// declared number of recursively decoded children, with the Set
/// uniqueness scan after all elements are read.
#[verifier::loop_isolation(false)]
#[verifier::rlimit(90)]
fn decode_composite(s: &str, pos: &mut usize, tag: char) -> (r: Result<RedisValue, RedisValue>)
    requires
        *old(pos) < s@.len() <= usize::MAX,
        s@[*old(pos) as int] == tag,
        tag == '*' || tag == '~' || tag == '>',
    ensures
        decode_post(s@, *old(pos) as int, *final(pos) as int, r),
    decreases s@.len() - *old(pos), 0int,
{
    let ghost entry = *old(pos) as int;
    let ghost t = s@.skip(entry);
    proof {
        assert(t[0] == s@[entry]);
    }
    *pos = *pos + 1;
    proof {
        assert(s@.skip(entry + 1) =~= t.skip(1));
    }
    let header = match consume_until_crlf(s, pos) {
        Ok(h) => h,
        Err(m) => {
            return Err(RedisValue::SimpleError(m));
        },
    };
    let ghost i = find_crlf(t.skip(1))->Some_0;
    proof {
        lemma_find_crlf(t.skip(1));
        assert(header@ == t.skip(1).take(i as int));
        assert(*pos == entry + 3 + i);
        assert(entry + 3 + i <= s@.len());
    }
    if header == String::from_str("-1") {
        return Ok(RedisValue::NullArray);
    }
    let count = match parse_usize(header.as_str()) {
        Some(c) => c,
        None => {
            if tag == '*' {
                return Err(
                    RedisValue::SimpleError(String::from_str("Could not parse as Integer")),
                );
            } else if tag == '~' {
                return Err(RedisValue::SimpleError(String::from_str("Invalid length for set")));
            } else {
                return Err(RedisValue::SimpleError(String::from_str("Invalid length for push")));
            }
        },
    };
    let ghost start_pos = entry + 3 + i;
    let ghost rest0 = s@.skip(start_pos);
    proof {
        assert(cap_at(i as int + 3, t.len() as int) == i as int + 3);
        assert(t.skip(i as int + 3) =~= rest0);
    }
    let mut elems: Vec<RedisValue> = Vec::new();
    let mut k: usize = 0;
    proof {
        let full = spec_decode_elems(rest0, count as int);
        if full.0 is Ok {
            assert(views_of(elems@) =~= Seq::<SpecValue>::empty());
            assert(views_of(elems@) + full.0->Ok_0 =~= full.0->Ok_0);
        }
    }
    while k < count
        invariant
            k <= count,
            elems@.len() == k,
            start_pos <= *pos <= s@.len(),
            ({
                let (rk, ck) = spec_decode_elems(s@.skip(*pos as int), count - k);
                let full = spec_decode_elems(rest0, count as int);
                full.1 == (*pos - start_pos) + ck && full.0 == (match rk {
                    Ok(tail) => Ok::<Seq<SpecValue>, ErrKind>(views_of(elems@) + tail),
                    Err(kk) => Err(kk),
                })
            }),
        decreases count - k,
    {
        let ghost pos_k = *pos as int;
        let ghost tk = s@.skip(pos_k);
        proof {
            lemma_decode_consumed(tk);
        }
        match RedisValue::from_iter(s, pos) {
            Ok(v) => {
                proof {
                    let (res, c) = spec_decode(tk);
                    assert(cap_at(c, tk.len() as int) == c);
                    assert(tk.skip(c) =~= s@.skip(pos_k + c));
                    lemma_views_of_push(elems@, v);
                    let (r2, c2) = spec_decode_elems(s@.skip(pos_k + c), count - k - 1);
                    if r2 is Ok {
                        assert(views_of(elems@) + (seq![v@] + r2->Ok_0) =~= views_of(
                            elems@.push(v),
                        ) + r2->Ok_0);
                    }
                }
                elems.push(v);
                k += 1;
            },
            Err(e) => {
                return Err(e);
            },
        }
    }
    proof {
        let (rk, ck) = spec_decode_elems(s@.skip(*pos as int), 0);
        let full = spec_decode_elems(rest0, count as int);
        assert(views_of(elems@) + rk->Ok_0 =~= views_of(elems@));
        assert(full.0 == Ok::<Seq<SpecValue>, ErrKind>(views_of(elems@)));
        assert(full.1 == *pos - start_pos);
    }
    if tag == '*' {
        Ok(RedisValue::Array(elems))
    } else if tag == '>' {
        Ok(RedisValue::Push(elems))
    } else {
        let texts = element_texts(&elems);
        let dup = find_text_dup(&texts);
        proof {
            lemma_texts_of(views_of(elems@));
            lemma_views_of(elems@);
            assert(texts@.map_values(|x: String| x@) =~= texts_of(views_of(elems@)));
        }
        if dup {
            Err(RedisValue::SimpleError(String::from_str("Set is not unique")))
        } else {
            Ok(RedisValue::SetValue(elems))
        }
    }
}

impl RedisValue {
    /// Decodes one value from the cursor position, advancing the cursor
    /// past exactly the characters that value occupies on the wire. A
    /// failure is returned as the in-band error value, with the cursor at
    /// the point `spec_decode` assigns to that failure.
    #[verifier::loop_isolation(false)]
    #[verifier::rlimit(90)]
    pub fn from_iter(s: &str, pos: &mut usize) -> (r: Result<RedisValue, RedisValue>)
        requires
            *old(pos) <= s@.len(),
        ensures
            decode_post(s@, *old(pos) as int, *final(pos) as int, r),
            *old(pos) <= *final(pos) <= s@.len(),
        decreases s@.len() - *old(pos), 1int,
    {
        let ghost entry = *old(pos) as int;
        let ghost t = s@.skip(entry);
        proof {
            lemma_decode_consumed(t);
        }
        let n = s.unicode_len();
        if *pos == n {
            return Err(
                RedisValue::SimpleError(
                    String::from_str("Invalid or empty character for value initializer"),
                ),
            );
        }
        let tag = s.get_char(*pos);
        proof {
            assert(t[0] == s@[entry]);
        }
        if tag == '+' || tag == '-' {
            *pos = *pos + 1;
            proof {
                assert(s@.skip(entry + 1) =~= t.skip(1));
            }
            match consume_until_crlf(s, pos) {
                Ok(c) => {
                    if tag == '+' {
                        Ok(RedisValue::SimpleString(c))
                    } else {
                        Ok(RedisValue::SimpleError(c))
                    }
                },
                Err(m) => Err(RedisValue::SimpleError(m)),
            }
        } else if tag == ':' {
            *pos = *pos + 1;
            proof {
                assert(s@.skip(entry + 1) =~= t.skip(1));
            }
            match consume_until_crlf(s, pos) {
                Ok(c) => {
                    match parse_i64(c.as_str()) {
                        Some(num) => Ok(RedisValue::Integer(num)),
                        None => Err(
                            RedisValue::SimpleError(
                                String::from_str("Could not parse as Integer"),
                            ),
                        ),
                    }
                },
                Err(m) => Err(RedisValue::SimpleError(m)),
            }
        } else if tag == '(' {
            *pos = *pos + 1;
            proof {
                assert(s@.skip(entry + 1) =~= t.skip(1));
            }
            match consume_until_crlf(s, pos) {
                Ok(c) => {
                    match parse_i128(c.as_str()) {
                        Some(num) => Ok(RedisValue::BigInteger(num)),
                        None => Err(
                            RedisValue::SimpleError(
                                String::from_str("Could not parse as Integer"),
                            ),
                        ),
                    }
                },
                Err(m) => Err(RedisValue::SimpleError(m)),
            }
        } else if tag == '$' {
            decode_bulk(s, pos, false)
        } else if tag == '!' {
            decode_bulk(s, pos, true)
        } else if tag == '=' {
            decode_verbatim(s, pos)
        } else if tag == '_' {
            *pos = *pos + 1;
            proof {
                assert(s@.skip(entry + 1) =~= t.skip(1));
                assert forall|j: int| 0 <= j < t.len() - 1 implies t.skip(1)[j] == t[j + 1] by {}
            }
            match consume_crlf(s, pos) {
                Ok(()) => Ok(RedisValue::Null),
                Err(m) => Err(RedisValue::SimpleError(m)),
            }
        } else if tag == '#' {
            match consume_until_crlf(s, pos) {
                Ok(c) => {
                    if c == String::from_str("#t") {
                        Ok(RedisValue::Boolean(true))
                    } else if c == String::from_str("#f") {
                        Ok(RedisValue::Boolean(false))
                    } else {
                        Err(RedisValue::SimpleError(String::from_str("No valid boolean found")))
                    }
                },
                Err(m) => Err(RedisValue::SimpleError(m)),
            }
        } else if tag == '*' || tag == '~' || tag == '>' {
            decode_composite(s, pos, tag)
        } else {
            Err(
                RedisValue::SimpleError(
                    String::from_str("Invalid or empty character for value initializer"),
                ),
            )
        }
    }

    /// Decodes a complete in-memory text into one value. Malformed input
    /// degrades to an in-band `SimpleError` value: the caller always
    /// receives a well-formed value, never a fault.
    pub fn from_resp(resp: String) -> (v: RedisValue)
        ensures
            v@ == spec_from_resp(resp@),
    {
        let mut pos: usize = 0;
        proof {
            assert(resp@.skip(0) =~= resp@);
        }
        match Self::from_iter(resp.as_str(), &mut pos) {
            Ok(v) => v,
            Err(e) => e,
        }
    }
}

} // verus!
