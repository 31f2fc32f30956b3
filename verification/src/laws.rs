//! The laws the codec obeys.
//!
//! The central theorem is the round-trip law [`lemma_decode_encode`]: for
//! every decodable value, decoding its wire text yields the value back and
//! consumes exactly its wire text. [`decodable`] delimits the values the
//! grammar can express: text fields of line-shaped variants must not embed
//! the terminator, a verbatim string's two parts must not hold the colon
//! separator, a Set's elements must not collide on wire text, a Mapping has
//! no decode rule at all, and counts must fit the machine. The null
//! distinctness, Set uniqueness and length fidelity laws follow.

use vstd::prelude::*;

use crate::decode::{
    cap_at,
    find_colon,
    lemma_find_colon,
    lemma_find_colon_exact,
    spec_decode,
    spec_decode_elems,
    spec_from_resp,
    ErrKind,
};
use crate::numerals::{
    dec_int,
    dec_nat,
    is_digit,
    lemma_dec_nat_digits,
    lemma_digits_val_dec_nat,
    spec_parse_i128,
    spec_parse_i64,
    spec_parse_usize,
};
use crate::redis_value::{
    crlf_seq,
    encode_elems,
    encode_spec,
    has_dup_text,
    lemma_texts_of,
    set_dup_msg,
    texts_of,
    SpecValue,
};
use crate::string_manip::{crlf_at, find_crlf, lemma_find_crlf, lemma_find_crlf_exact};

verus! {

/// No CR LF pair stands anywhere in `t`.
pub open spec fn crlf_free(t: Seq<char>) -> bool {
    forall|i: int| !crlf_at(t, i)
}

/// No colon stands anywhere in `t`.
pub open spec fn colon_free(t: Seq<char>) -> bool {
    forall|i: int| 0 <= i < t.len() ==> t[i] != ':'
}

/// The values the wire grammar can express, variant by variant: exactly
/// those whose wire text decodes back to the value itself.
pub open spec fn decodable(v: SpecValue) -> bool
    decreases v,
{
    match v {
        SpecValue::SimpleString(t) => crlf_free(t),
        SpecValue::SimpleError(t) => crlf_free(t),
        SpecValue::Integer(_) => true,
        SpecValue::BulkString(t) => t.len() <= usize::MAX,
        SpecValue::NullBulkString => true,
        SpecValue::Array(vs) => vs.len() <= usize::MAX && all_decodable(vs),
        SpecValue::NullArray => true,
        SpecValue::Null => true,
        SpecValue::Boolean(_) => true,
        SpecValue::BigInteger(_) => true,
        SpecValue::BulkError(t) => t.len() <= usize::MAX,
        SpecValue::VerbatimString(e, x) => colon_free(e) && colon_free(x) && e.len() + 1 + x.len()
            <= usize::MAX,
        SpecValue::Mapping(_) => false,
        SpecValue::SetValue(vs) => vs.len() <= usize::MAX && all_decodable(vs) && !has_dup_text(
            texts_of(vs),
        ),
        SpecValue::Push(vs) => vs.len() <= usize::MAX && all_decodable(vs),
    }
}

/// Every element of the sequence is decodable.
pub open spec fn all_decodable(vs: Seq<SpecValue>) -> bool
    decreases vs,
{
    if vs.len() == 0 {
        true
    } else {
        decodable(vs[0]) && all_decodable(vs.drop_first())
    }
}

// ---------------------------------------------------------------------------
// Helper lemmas
// ---------------------------------------------------------------------------

/// The first CR LF pair of `c + CRLF + suffix` stands right after `c` when
/// `c` itself is free of the pair.
pub proof fn lemma_find_crlf_line(c: Seq<char>, suffix: Seq<char>)
    requires
        crlf_free(c),
    ensures
        find_crlf(c + crlf_seq() + suffix) == Some(c.len()),
        (c + crlf_seq() + suffix).take(c.len() as int) == c,
{
    let s = c + crlf_seq() + suffix;
    assert(s[c.len() as int] == '\r');
    assert(s[c.len() as int + 1] == '\n');
    assert(crlf_at(s, c.len() as int));
    assert forall|j: int| 0 <= j < c.len() implies !crlf_at(s, j) by {
        if j + 1 < c.len() {
            assert(s[j] == c[j] && s[j + 1] == c[j + 1]);
            assert(!crlf_at(c, j));
        } else {
            assert(s[j + 1] == '\r');
        }
    }
    lemma_find_crlf_exact(s, c.len() as int);
    assert(s.take(c.len() as int) =~= c);
}

/// Every character of the canonical numeral of an integer is a digit or
/// the leading minus sign; in particular the numeral holds no CR LF pair.
pub proof fn lemma_dec_int_crlf_free(i: int)
    ensures
        crlf_free(dec_int(i)),
        crlf_free(dec_nat(i as nat)),
{
    lemma_dec_nat_digits((-i) as nat);
    lemma_dec_nat_digits(i as nat);
    assert forall|j: int| !(#[trigger] crlf_at(dec_int(i), j)) by {
        if 0 <= j && j + 1 < dec_int(i).len() {
            if i < 0 {
                if j > 0 {
                    assert(dec_int(i)[j] == dec_nat((-i) as nat)[j - 1]);
                    assert(is_digit(dec_int(i)[j]));
                }
            } else {
                assert(is_digit(dec_int(i)[j]));
            }
        }
    }
    assert forall|j: int| !(#[trigger] crlf_at(dec_nat(i as nat), j)) by {
        if 0 <= j && j + 1 < dec_nat(i as nat).len() {
            assert(is_digit(dec_nat(i as nat)[j]));
        }
    }
}

/// The canonical numeral of a natural number starts with a digit.
pub proof fn lemma_dec_nat_first_digit(n: nat)
    ensures
        dec_nat(n).len() >= 1,
        is_digit(dec_nat(n)[0]),
    decreases n,
{
    if n < 10 {
    } else {
        lemma_dec_nat_first_digit(n / 10);
        assert(dec_nat(n)[0] == dec_nat(n / 10)[0]);
    }
}

/// Reading back the canonical numeral of a count yields the count.
pub proof fn lemma_parse_usize_dec_nat(n: nat)
    requires
        n <= usize::MAX,
    ensures
        spec_parse_usize(dec_nat(n)) == Some(n as usize),
        dec_nat(n) != "-1"@,
{
    lemma_dec_nat_digits(n);
    lemma_dec_nat_first_digit(n);
    lemma_digits_val_dec_nat(n);
    let s = dec_nat(n);
    assert(s[0] != '-' && s[0] != '+');
    assert(spec_parse_usize(s) == Some(n as usize));
    reveal_strlit("-1");
    assert("-1"@[0] == '-');
    if s == "-1"@ {
        assert(s[0] == '-');
    }
}

/// Reading back the canonical numeral of a 64-bit integer yields it.
pub proof fn lemma_parse_i64_dec_int(n: i64)
    ensures
        spec_parse_i64(dec_int(n as int)) == Some(n),
{
    if n >= 0 {
        lemma_dec_nat_digits(n as nat);
        lemma_dec_nat_first_digit(n as nat);
        lemma_digits_val_dec_nat(n as nat);
        assert(dec_int(n as int) == dec_nat(n as nat));
        assert(dec_nat(n as nat)[0] != '-' && dec_nat(n as nat)[0] != '+');
    } else {
        let m = (-(n as int)) as nat;
        lemma_dec_nat_digits(m);
        lemma_digits_val_dec_nat(m);
        let s = dec_int(n as int);
        assert(s == seq!['-'] + dec_nat(m));
        assert(s[0] == '-');
        assert(s.skip(1) =~= dec_nat(m));
    }
}

/// Reading back the canonical numeral of a 128-bit integer yields it.
pub proof fn lemma_parse_i128_dec_int(n: i128)
    ensures
        spec_parse_i128(dec_int(n as int)) == Some(n),
{
    if n >= 0 {
        lemma_dec_nat_digits(n as nat);
        lemma_dec_nat_first_digit(n as nat);
        lemma_digits_val_dec_nat(n as nat);
        assert(dec_int(n as int) == dec_nat(n as nat));
        assert(dec_nat(n as nat)[0] != '-' && dec_nat(n as nat)[0] != '+');
    } else {
        let m = (-(n as int)) as nat;
        lemma_dec_nat_digits(m);
        lemma_digits_val_dec_nat(m);
        let s = dec_int(n as int);
        assert(s == seq!['-'] + dec_nat(m));
        assert(s[0] == '-');
        assert(s.skip(1) =~= dec_nat(m));
    }
}

// ---------------------------------------------------------------------------
// The round-trip law
// ---------------------------------------------------------------------------

/// **Round-trip law.** Decoding the wire text of any decodable value — with
/// any text at all following it — yields exactly that value and consumes
/// exactly its wire text, leaving the rest for the caller.
pub proof fn lemma_decode_encode(v: SpecValue, rest: Seq<char>)
    requires
        decodable(v),
    ensures
        spec_decode(encode_spec(v) + rest) == (
            Ok::<SpecValue, ErrKind>(v),
            encode_spec(v).len() as int,
        ),
    decreases v, 1int,
{
    let enc = encode_spec(v);
    let t = enc + rest;
    match v {
        SpecValue::SimpleString(c) => {
            assert(t =~= seq!['+'] + (c + crlf_seq() + rest));
            assert(t.skip(1) =~= c + crlf_seq() + rest);
            lemma_find_crlf_line(c, rest);
            assert(t.skip(1).take(c.len() as int) == c);
        },
        SpecValue::SimpleError(c) => {
            assert(t =~= seq!['-'] + (c + crlf_seq() + rest));
            assert(t.skip(1) =~= c + crlf_seq() + rest);
            lemma_find_crlf_line(c, rest);
            assert(t.skip(1).take(c.len() as int) == c);
        },
        SpecValue::Integer(n) => {
            let c = dec_int(n as int);
            assert(t =~= seq![':'] + (c + crlf_seq() + rest));
            assert(t.skip(1) =~= c + crlf_seq() + rest);
            lemma_dec_int_crlf_free(n as int);
            lemma_find_crlf_line(c, rest);
            assert(t.skip(1).take(c.len() as int) == c);
            lemma_parse_i64_dec_int(n);
        },
        SpecValue::BigInteger(n) => {
            let c = dec_int(n as int);
            assert(t =~= seq!['('] + (c + crlf_seq() + rest));
            assert(t.skip(1) =~= c + crlf_seq() + rest);
            lemma_dec_int_crlf_free(n as int);
            lemma_find_crlf_line(c, rest);
            assert(t.skip(1).take(c.len() as int) == c);
            lemma_parse_i128_dec_int(n);
        },
        SpecValue::BulkString(c) => {
            lemma_bulk_body(v, c, '$', rest);
        },
        SpecValue::BulkError(c) => {
            lemma_bulk_body(v, c, '!', rest);
        },
        SpecValue::NullBulkString => {
            assert(t =~= seq!['$'] + (seq!['-', '1'] + crlf_seq() + rest));
            assert(t.skip(1) =~= seq!['-', '1'] + crlf_seq() + rest);
            assert(crlf_free(seq!['-', '1']));
            lemma_find_crlf_line(seq!['-', '1'], rest);
            reveal_strlit("-1");
            
            assert(t.skip(1).take(2) =~= "-1"@);
        },
        SpecValue::NullArray => {
            assert(t =~= seq!['*'] + (seq!['-', '1'] + crlf_seq() + rest));
            assert(t.skip(1) =~= seq!['-', '1'] + crlf_seq() + rest);
            assert(crlf_free(seq!['-', '1']));
            lemma_find_crlf_line(seq!['-', '1'], rest);
            reveal_strlit("-1");
            
            assert(t.skip(1).take(2) =~= "-1"@);
        },
        SpecValue::Null => {
            assert(t[0] == '_' && t[1] == '\r' && t[2] == '\n');
        },
        SpecValue::Boolean(b) => {
            let tok = if b {
                seq!['#', 't']
            } else {
                seq!['#', 'f']
            };
            assert(t =~= tok + crlf_seq() + rest);
            assert(crlf_free(tok));
            lemma_find_crlf_line(tok, rest);
            reveal_strlit("#t");
            reveal_strlit("#f");
            
            assert(t.take(2) =~= tok);
            if b {
                assert(t.take(2) == "#t"@);
            } else {
                assert("#t"@[1] == 't' && "#f"@[1] == 'f');
                assert(t.take(2) != "#t"@);
                assert(t.take(2) == "#f"@);
            }
        },
        SpecValue::VerbatimString(e, x) => {
            lemma_verbatim_body(e, x, rest);
        },
        SpecValue::Mapping(_) => {
            // not decodable: nothing to show
        },
        SpecValue::Array(vs) => {
            lemma_composite_body(v, vs, '*', rest);
        },
        SpecValue::SetValue(vs) => {
            lemma_composite_body(v, vs, '~', rest);
        },
        SpecValue::Push(vs) => {
            lemma_composite_body(v, vs, '>', rest);
        },
    }
}

/// The length-prefixed framing of `$` and `!` consumes the declared length
/// exactly, whatever the body holds.
proof fn lemma_bulk_body(v: SpecValue, c: Seq<char>, tag: char, rest: Seq<char>)
    requires
        tag == '$' && v == SpecValue::BulkString(c) || tag == '!' && v == SpecValue::BulkError(c),
        c.len() <= usize::MAX,
    ensures
        spec_decode(encode_spec(v) + rest) == (
            Ok::<SpecValue, ErrKind>(v),
            encode_spec(v).len() as int,
        ),
{
    let enc = encode_spec(v);
    let t = enc + rest;
    let h = dec_nat(c.len());
    let suffix = c + crlf_seq() + rest;
    assert(t =~= seq![tag] + (h + crlf_seq() + suffix));
    assert(t.skip(1) =~= h + crlf_seq() + suffix);
    lemma_dec_int_crlf_free(c.len() as int);
    lemma_find_crlf_line(h, suffix);
    assert(t.skip(1).take(h.len() as int) == h);
    lemma_parse_usize_dec_nat(c.len());
    let body_start: int = h.len() as int + 3;
    assert(t.subrange(body_start, body_start + c.len()) =~= c);
    assert(t[body_start + c.len()] == '\r');
    assert(t[body_start + c.len() + 1] == '\n');
    assert(enc.len() == body_start + c.len() + 2);
}

/// The verbatim-string body splits back at its single colon.
proof fn lemma_verbatim_body(e: Seq<char>, x: Seq<char>, rest: Seq<char>)
    requires
        colon_free(e),
        colon_free(x),
        e.len() + 1 + x.len() <= usize::MAX,
    ensures
        spec_decode(encode_spec(SpecValue::VerbatimString(e, x)) + rest) == (
            Ok::<SpecValue, ErrKind>(SpecValue::VerbatimString(e, x)),
            encode_spec(SpecValue::VerbatimString(e, x)).len() as int,
        ),
{
    let v = SpecValue::VerbatimString(e, x);
    let enc = encode_spec(v);
    let t = enc + rest;
    let body = e + seq![':'] + x;
    let h = dec_nat(body.len());
    let suffix = body + crlf_seq() + rest;
    assert(body.len() == e.len() + 1 + x.len());
    assert(t =~= seq!['='] + (h + crlf_seq() + suffix));
    assert(t.skip(1) =~= h + crlf_seq() + suffix);
    lemma_dec_int_crlf_free(body.len() as int);
    lemma_find_crlf_line(h, suffix);
    assert(t.skip(1).take(h.len() as int) == h);
    lemma_parse_usize_dec_nat(body.len());
    let body_start: int = h.len() as int + 3;
    assert(t.subrange(body_start, body_start + body.len()) =~= body);
    assert(t[body_start + body.len()] == '\r');
    assert(t[body_start + body.len() + 1] == '\n');
    // the single colon stands at e.len()
    assert(body[e.len() as int] == ':');
    assert forall|j: int| 0 <= j < e.len() implies body[j] != ':' by {
        assert(body[j] == e[j]);
    }
    lemma_find_colon_exact(body, e.len() as int);
    assert(body.skip(e.len() as int + 1) =~= x);
    lemma_find_colon(x);
    if find_colon(x) is Some {
        let ci = find_colon(x)->Some_0;
        assert(x[ci as int] != ':');
    }
    assert(body.take(e.len() as int) =~= e);
    assert(enc.len() == body_start + body.len() + 2);
}

/// The count-prefixed framing of `*`, `~` and `>` decodes the declared
/// number of children and reassembles exactly the encoded sequence.
proof fn lemma_composite_body(v: SpecValue, vs: Seq<SpecValue>, tag: char, rest: Seq<char>)
    requires
        tag == '*' && v == SpecValue::Array(vs) || tag == '~' && v == SpecValue::SetValue(vs)
            || tag == '>' && v == SpecValue::Push(vs),
        decodable(v),
    ensures
        spec_decode(encode_spec(v) + rest) == (
            Ok::<SpecValue, ErrKind>(v),
            encode_spec(v).len() as int,
        ),
    decreases v, 0int,
{
    let enc = encode_spec(v);
    let t = enc + rest;
    let h = dec_nat(vs.len());
    let suffix = encode_elems(vs) + rest;
    assert(t =~= seq![tag] + (h + crlf_seq() + suffix));
    assert(t.skip(1) =~= h + crlf_seq() + suffix);
    lemma_dec_int_crlf_free(vs.len() as int);
    lemma_find_crlf_line(h, suffix);
    assert(t.skip(1).take(h.len() as int) == h);
    lemma_parse_usize_dec_nat(vs.len());
    let rest_start = h.len() as int + 3;
    assert(rest_start <= t.len());
    assert(cap_at(rest_start, t.len() as int) == rest_start);
    assert(t.skip(rest_start) =~= encode_elems(vs) + rest);
    lemma_decode_encode_elems(vs, rest);
    assert(enc.len() == rest_start + encode_elems(vs).len());
}

/// Round trip for a sequence of values: decoding the concatenation of their
/// wire texts, element count in hand, yields them all back in order.
pub proof fn lemma_decode_encode_elems(vs: Seq<SpecValue>, rest: Seq<char>)
    requires
        all_decodable(vs),
    ensures
        spec_decode_elems(encode_elems(vs) + rest, vs.len() as int) == (
            Ok::<Seq<SpecValue>, ErrKind>(vs),
            encode_elems(vs).len() as int,
        ),
    decreases vs, 2int,
{
    if vs.len() == 0 {
        assert(encode_elems(vs) + rest =~= rest);
        assert(vs =~= Seq::<SpecValue>::empty());
    } else {
        let head = vs[0];
        let tail = vs.drop_first();
        let t = encode_elems(vs) + rest;
        assert(t =~= encode_spec(head) + (encode_elems(tail) + rest));
        lemma_decode_encode(head, encode_elems(tail) + rest);
        let c = encode_spec(head).len() as int;
        assert(spec_decode(t) == (Ok::<SpecValue, ErrKind>(head), c));
        assert(cap_at(c, t.len() as int) == c);
        assert(t.skip(c) =~= encode_elems(tail) + rest);
        lemma_decode_encode_elems(tail, rest);
        assert(seq![head] + tail =~= vs);
        assert(encode_elems(vs).len() == c + encode_elems(tail).len());
    }
}

// ---------------------------------------------------------------------------
// The laws, as the public functions state them
// ---------------------------------------------------------------------------

/// **Round trip.** Decoding a complete text that is the wire form of a
/// decodable value yields a value structurally equal to it.
pub proof fn lemma_round_trip(v: SpecValue)
    requires
        decodable(v),
    ensures
        spec_from_resp(encode_spec(v)) == v,
{
    lemma_decode_encode(v, Seq::empty());
    assert(encode_spec(v) + Seq::<char>::empty() =~= encode_spec(v));
}

/// **Null distinctness.** The null bulk string is not the empty bulk
/// string and the null array is not the empty array, and each pair encodes
/// to distinct wire text: the nulls use their sentinel forms.
pub proof fn lemma_null_distinctness()
    ensures
        SpecValue::NullBulkString != SpecValue::BulkString(Seq::<char>::empty()),
        SpecValue::NullArray != SpecValue::Array(Seq::<SpecValue>::empty()),
        encode_spec(SpecValue::NullBulkString) != encode_spec(
            SpecValue::BulkString(Seq::<char>::empty()),
        ),
        encode_spec(SpecValue::NullArray) != encode_spec(
            SpecValue::Array(Seq::<SpecValue>::empty()),
        ),
{
    assert(dec_nat(0).len() == 1);
    assert(encode_elems(Seq::<SpecValue>::empty()).len() == 0);
    assert(encode_spec(SpecValue::NullBulkString).len() == 5);
    assert(encode_spec(SpecValue::BulkString(Seq::<char>::empty())).len() == 6);
    assert(encode_spec(SpecValue::NullArray).len() == 5);
    assert(encode_spec(SpecValue::Array(Seq::<SpecValue>::empty())).len() == 4);
}

/// **Set uniqueness.** Encoding a Set two of whose elements serialize to
/// identical wire text produces the wire text of the designated "not
/// unique" error value — never a partial Set.
pub proof fn lemma_set_uniqueness(vs: Seq<SpecValue>, i: int, j: int)
    requires
        0 <= i < j < vs.len(),
        encode_spec(vs[i]) == encode_spec(vs[j]),
    ensures
        encode_spec(SpecValue::SetValue(vs)) == encode_spec(SpecValue::SimpleError(set_dup_msg())),
{
    lemma_texts_of(vs);
    assert(texts_of(vs)[i] == texts_of(vs)[j]);
    assert(has_dup_text(texts_of(vs)));
}

/// **Length fidelity.** Decoding a bulk string consumes exactly the
/// declared length — terminator-like sequences inside the body included —
/// and returns the body unaltered.
pub proof fn lemma_bulk_length_fidelity(t: Seq<char>, rest: Seq<char>)
    requires
        t.len() <= usize::MAX,
    ensures
        spec_decode(encode_spec(SpecValue::BulkString(t)) + rest) == (
            Ok::<SpecValue, ErrKind>(SpecValue::BulkString(t)),
            encode_spec(SpecValue::BulkString(t)).len() as int,
        ),
{
    lemma_decode_encode(SpecValue::BulkString(t), rest);
}

/// **Graceful truncation.** An input that ends before any terminator —
/// a well-formed tag whose field was cut short, or any other fragment
/// without a CR LF pair — decodes to a reported error, never a fault.
pub proof fn lemma_graceful_truncation(t: Seq<char>)
    requires
        forall|j: int| !crlf_at(t, j),
    ensures
        spec_decode(t).0 is Err,
{
    if t.len() > 0 {
        lemma_find_crlf(t);
        lemma_find_crlf(t.skip(1));
        if find_crlf(t.skip(1)) is Some {
            let i = find_crlf(t.skip(1))->Some_0;
            assert(crlf_at(t.skip(1), i as int));
            assert(t.skip(1)[i as int] == t[i as int + 1]);
            assert(t.skip(1)[i as int + 1] == t[i as int + 2]);
            assert(crlf_at(t, i as int + 1));
        }
        if find_crlf(t) is Some {
            let i = find_crlf(t)->Some_0;
            assert(crlf_at(t, i as int));
        }
        if t.len() >= 3 && t[1] == '\r' && t[2] == '\n' {
            assert(crlf_at(t, 1));
        }
    }
}

} // verus!

