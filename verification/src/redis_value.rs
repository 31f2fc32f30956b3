//! The protocol value model and its encoder.
//!
//! [`RedisValue`] is the executable value: a closed tagged union over every
//! protocol value kind. [`SpecValue`] is its mathematical model, with text as
//! `Seq<char>` and collections as `Seq`; [`view_of`] relates the two. The
//! wire form of a value is given by the spec function [`encode_spec`], and
//! the executable encoder [`RedisValue::to_resp`] is proved to produce
//! exactly that text.
//!
//! The protocol's map kind (`Mapping`) is held as a sequence of key/value
//! pairs in insertion order; the protocol expects the keys to be distinct,
//! but the codec itself neither relies on nor enforces that.

use vstd::prelude::*;

use crate::numerals::{append_dec_i128, append_dec_i64, append_dec_u128, dec_int, dec_nat};

verus! {

/// A protocol value: the closed tagged union of every value kind.
///
/// `NullBulkString` and `NullArray` are distinct from an empty
/// `BulkString` and an empty `Array`: each has its own sentinel wire form.
#[derive(Debug, PartialEq)]
pub enum RedisValue {
    SimpleString(String),
    SimpleError(String),
    Integer(i64),
    BulkString(String),
    NullBulkString,
    Array(Vec<RedisValue>),
    NullArray,
    Null,
    Boolean(bool),
    BigInteger(i128),
    BulkError(String),
    VerbatimString(String, String),
    Mapping(Vec<(RedisValue, RedisValue)>),
    SetValue(Vec<RedisValue>),
    Push(Vec<RedisValue>),
}

/// The mathematical model of a protocol value.
pub enum SpecValue {
    SimpleString(Seq<char>),
    SimpleError(Seq<char>),
    Integer(i64),
    BulkString(Seq<char>),
    NullBulkString,
    Array(Seq<SpecValue>),
    NullArray,
    Null,
    Boolean(bool),
    BigInteger(i128),
    BulkError(Seq<char>),
    VerbatimString(Seq<char>, Seq<char>),
    Mapping(Seq<(SpecValue, SpecValue)>),
    SetValue(Seq<SpecValue>),
    Push(Seq<SpecValue>),
}

// ---------------------------------------------------------------------------
// Views
// ---------------------------------------------------------------------------

/// The model of an executable value.
pub open spec fn view_of(v: RedisValue) -> SpecValue
    decreases v,
{
    match v {
        RedisValue::SimpleString(t) => SpecValue::SimpleString(t@),
        RedisValue::SimpleError(t) => SpecValue::SimpleError(t@),
        RedisValue::Integer(n) => SpecValue::Integer(n),
        RedisValue::BulkString(t) => SpecValue::BulkString(t@),
        RedisValue::NullBulkString => SpecValue::NullBulkString,
        RedisValue::Array(vs) => SpecValue::Array(views_of(vs@)),
        RedisValue::NullArray => SpecValue::NullArray,
        RedisValue::Null => SpecValue::Null,
        RedisValue::Boolean(b) => SpecValue::Boolean(b),
        RedisValue::BigInteger(n) => SpecValue::BigInteger(n),
        RedisValue::BulkError(t) => SpecValue::BulkError(t@),
        RedisValue::VerbatimString(e, t) => SpecValue::VerbatimString(e@, t@),
        RedisValue::Mapping(ps) => SpecValue::Mapping(pair_views_of(ps@)),
        RedisValue::SetValue(vs) => SpecValue::SetValue(views_of(vs@)),
        RedisValue::Push(vs) => SpecValue::Push(views_of(vs@)),
    }
}

/// The models of a sequence of executable values, elementwise.
pub open spec fn views_of(s: Seq<RedisValue>) -> Seq<SpecValue>
    decreases s,
{
    if s.len() == 0 {
        Seq::empty()
    } else {
        seq![view_of(s[0])] + views_of(s.drop_first())
    }
}

/// The models of a sequence of executable pairs, elementwise.
pub open spec fn pair_views_of(s: Seq<(RedisValue, RedisValue)>) -> Seq<(SpecValue, SpecValue)>
    decreases s,
{
    if s.len() == 0 {
        Seq::empty()
    } else {
        seq![(view_of(s[0].0), view_of(s[0].1))] + pair_views_of(s.drop_first())
    }
}

impl View for RedisValue {
    type V = SpecValue;

    open spec fn view(&self) -> SpecValue {
        view_of(*self)
    }
}

/// `views_of` is the elementwise view: it keeps the length and maps each
/// element through `view_of`.
pub proof fn lemma_views_of(s: Seq<RedisValue>)
    ensures
        views_of(s).len() == s.len(),
        forall|i: int| 0 <= i < s.len() ==> views_of(s)[i] == view_of(#[trigger] s[i]),
    decreases s.len(),
{
    if s.len() > 0 {
        lemma_views_of(s.drop_first());
        assert forall|i: int| 0 <= i < s.len() implies views_of(s)[i] == view_of(
            #[trigger] s[i],
        ) by {
            if i > 0 {
                assert(views_of(s)[i] == views_of(s.drop_first())[i - 1]);
                assert(s.drop_first()[i - 1] == s[i]);
            }
        }
    }
}

/// `pair_views_of` is the elementwise view over pairs.
pub proof fn lemma_pair_views_of(s: Seq<(RedisValue, RedisValue)>)
    ensures
        pair_views_of(s).len() == s.len(),
        forall|i: int|
            0 <= i < s.len() ==> pair_views_of(s)[i] == (
            view_of(#[trigger] s[i].0),
            view_of(s[i].1),
            ),
    decreases s.len(),
{
    if s.len() > 0 {
        lemma_pair_views_of(s.drop_first());
        assert forall|i: int|
            0 <= i < s.len() implies pair_views_of(s)[i] == (
            view_of(#[trigger] s[i].0),
            view_of(s[i].1),
            ) by {
            if i > 0 {
                assert(pair_views_of(s)[i] == pair_views_of(s.drop_first())[i - 1]);
                assert(s.drop_first()[i - 1] == s[i]);
            }
        }
    }
}

/// Appending one element appends its view.
pub proof fn lemma_views_of_push(s: Seq<RedisValue>, v: RedisValue)
    ensures
        views_of(s.push(v)) == views_of(s).push(view_of(v)),
{
    lemma_views_of(s);
    lemma_views_of(s.push(v));
    assert forall|i: int| 0 <= i < s.len() + 1 implies views_of(s.push(v))[i] == views_of(s).push(
        view_of(v),
    )[i] by {
        if i < s.len() {
            assert(s.push(v)[i] == s[i]);
        } else {
            assert(s.push(v)[i] == v);
        }
    }
    assert(views_of(s.push(v)) =~= views_of(s).push(view_of(v)));
}

// ---------------------------------------------------------------------------
// The wire form
// ---------------------------------------------------------------------------

/// The two-character line terminator.
pub open spec fn crlf_seq() -> Seq<char> {
    seq!['\r', '\n']
}

/// The wire texts of the elements of a sequence, in order.
pub open spec fn texts_of(vs: Seq<SpecValue>) -> Seq<Seq<char>>
    decreases vs,
{
    if vs.len() == 0 {
        Seq::empty()
    } else {
        seq![encode_spec(vs[0])] + texts_of(vs.drop_first())
    }
}

/// Two entries of the text sequence coincide: the uniqueness violation a
/// Set is checked for.
pub open spec fn has_dup_text(ts: Seq<Seq<char>>) -> bool {
    exists|i: int, j: int| 0 <= i < j < ts.len() && ts[i] == ts[j]
}

/// The message of the error value an encoder substitutes for a Set whose
/// elements do not serialize to pairwise distinct wire text.
pub open spec fn set_dup_msg() -> Seq<char> {
    "ERR Set is not unique"@
}

/// The wire text of a value.
///
/// Every variant has exactly one wire form; composites encode their
/// children in order after a decimal count. A Set whose elements collide
/// on wire text encodes as the designated error value instead.
pub open spec fn encode_spec(v: SpecValue) -> Seq<char>
    decreases v,
{
    match v {
        SpecValue::SimpleString(t) => seq!['+'] + t + crlf_seq(),
        SpecValue::SimpleError(t) => seq!['-'] + t + crlf_seq(),
        SpecValue::Integer(n) => seq![':'] + dec_int(n as int) + crlf_seq(),
        SpecValue::BulkString(t) => seq!['$'] + dec_nat(t.len()) + crlf_seq() + t + crlf_seq(),
        SpecValue::NullBulkString => seq!['$', '-', '1', '\r', '\n'],
        SpecValue::Array(vs) => seq!['*'] + dec_nat(vs.len()) + crlf_seq() + encode_elems(vs),
        SpecValue::NullArray => seq!['*', '-', '1', '\r', '\n'],
        SpecValue::Null => seq!['_', '\r', '\n'],
        SpecValue::Boolean(b) => if b {
            seq!['#', 't', '\r', '\n']
        } else {
            seq!['#', 'f', '\r', '\n']
        },
        SpecValue::BigInteger(n) => seq!['('] + dec_int(n as int) + crlf_seq(),
        SpecValue::BulkError(t) => seq!['!'] + dec_nat(t.len()) + crlf_seq() + t + crlf_seq(),
        SpecValue::VerbatimString(e, t) => seq!['='] + dec_nat((e.len() + 1 + t.len()) as nat)
            + crlf_seq() + e + seq![':'] + t + crlf_seq(),
        SpecValue::Mapping(ps) => seq!['&'] + dec_nat(ps.len()) + crlf_seq() + encode_pairs(ps),
        SpecValue::SetValue(vs) => if has_dup_text(texts_of(vs)) {
            seq!['-'] + set_dup_msg() + crlf_seq()
        } else {
            seq!['~'] + dec_nat(vs.len()) + crlf_seq() + encode_elems(vs)
        },
        SpecValue::Push(vs) => seq!['>'] + dec_nat(vs.len()) + crlf_seq() + encode_elems(vs),
    }
}

/// The concatenated wire texts of a sequence of values.
pub open spec fn encode_elems(vs: Seq<SpecValue>) -> Seq<char>
    decreases vs,
{
    if vs.len() == 0 {
        Seq::empty()
    } else {
        encode_spec(vs[0]) + encode_elems(vs.drop_first())
    }
}

/// The concatenated wire texts of a sequence of pairs, key before value.
pub open spec fn encode_pairs(ps: Seq<(SpecValue, SpecValue)>) -> Seq<char>
    decreases ps,
{
    if ps.len() == 0 {
        Seq::empty()
    } else {
        encode_spec(ps[0].0) + encode_spec(ps[0].1) + encode_pairs(ps.drop_first())
    }
}

// ---------------------------------------------------------------------------
// Concatenation lemmas for the element encodings
// ---------------------------------------------------------------------------

/// Appending one value extends the concatenated element text at the end.
pub proof fn lemma_encode_elems_push(vs: Seq<SpecValue>, x: SpecValue)
    ensures
        encode_elems(vs.push(x)) == encode_elems(vs) + encode_spec(x),
    decreases vs.len(),
{
    if vs.len() == 0 {
        assert(vs.push(x).drop_first() =~= Seq::<SpecValue>::empty());
        assert(vs.push(x)[0] == x);
        assert(encode_elems(vs.push(x)) == encode_spec(x) + encode_elems(
            Seq::<SpecValue>::empty(),
        ));
        assert(encode_elems(Seq::<SpecValue>::empty()) == Seq::<char>::empty());
        assert(encode_elems(vs) == Seq::<char>::empty());
        assert(encode_elems(vs.push(x)) =~= encode_elems(vs) + encode_spec(x));
    } else {
        assert(vs.push(x).drop_first() =~= vs.drop_first().push(x));
        lemma_encode_elems_push(vs.drop_first(), x);
        assert(vs.push(x)[0] == vs[0]);
        assert(encode_elems(vs.push(x)) == encode_spec(vs[0]) + encode_elems(
            vs.drop_first().push(x),
        ));
        assert(encode_elems(vs.drop_first().push(x)) == encode_elems(vs.drop_first())
            + encode_spec(x));
        assert(encode_elems(vs) == encode_spec(vs[0]) + encode_elems(vs.drop_first()));
        assert(encode_elems(vs.push(x)) =~= encode_elems(vs) + encode_spec(x));
    }
}

/// Appending one pair extends the concatenated pair text at the end.
pub proof fn lemma_encode_pairs_push(ps: Seq<(SpecValue, SpecValue)>, x: (SpecValue, SpecValue))
    ensures
        encode_pairs(ps.push(x)) == encode_pairs(ps) + encode_spec(x.0) + encode_spec(x.1),
    decreases ps.len(),
{
    if ps.len() == 0 {
        assert(ps.push(x).drop_first() =~= Seq::<(SpecValue, SpecValue)>::empty());
        assert(ps.push(x)[0] == x);
        assert(encode_pairs(ps.push(x)) == encode_spec(x.0) + encode_spec(x.1) + encode_pairs(
            Seq::<(SpecValue, SpecValue)>::empty(),
        ));
        assert(encode_pairs(Seq::<(SpecValue, SpecValue)>::empty()) == Seq::<char>::empty());
        assert(encode_pairs(ps) == Seq::<char>::empty());
        assert(encode_pairs(ps.push(x)) =~= encode_pairs(ps) + encode_spec(x.0) + encode_spec(
            x.1,
        ));
    } else {
        assert(ps.push(x).drop_first() =~= ps.drop_first().push(x));
        lemma_encode_pairs_push(ps.drop_first(), x);
        assert(ps.push(x)[0] == ps[0]);
        assert(encode_pairs(ps.push(x)) == encode_spec(ps[0].0) + encode_spec(ps[0].1)
            + encode_pairs(ps.drop_first().push(x)));
        assert(encode_pairs(ps.drop_first().push(x)) == encode_pairs(ps.drop_first())
            + encode_spec(x.0) + encode_spec(x.1));
        assert(encode_pairs(ps) == encode_spec(ps[0].0) + encode_spec(ps[0].1) + encode_pairs(
            ps.drop_first(),
        ));
        assert(encode_pairs(ps.push(x)) =~= encode_pairs(ps) + encode_spec(x.0) + encode_spec(
            x.1,
        ));
    }
}

/// The text sequence of the elements is elementwise `encode_spec`.
pub proof fn lemma_texts_of(vs: Seq<SpecValue>)
    ensures
        texts_of(vs).len() == vs.len(),
        forall|i: int| 0 <= i < vs.len() ==> texts_of(vs)[i] == encode_spec(#[trigger] vs[i]),
    decreases vs.len(),
{
    if vs.len() > 0 {
        lemma_texts_of(vs.drop_first());
        assert forall|i: int| 0 <= i < vs.len() implies texts_of(vs)[i] == encode_spec(
            #[trigger] vs[i],
        ) by {
            if i > 0 {
                assert(texts_of(vs)[i] == texts_of(vs.drop_first())[i - 1]);
                assert(vs.drop_first()[i - 1] == vs[i]);
            }
        }
    }
}

// ---------------------------------------------------------------------------
// The executable encoder
// ---------------------------------------------------------------------------

/// Appends the line terminator.
fn append_crlf(out: &mut String)
    ensures
        final(out)@ == old(out)@ + crlf_seq(),
{
    proof {
        reveal_strlit("\r\n");
    }
    out.append("\r\n");
    proof {
        assert(out@ =~= old(out)@ + crlf_seq());
    }
}

/// Appends the wire text of `v` to `out`.
#[verifier::loop_isolation(false)]
#[verifier::rlimit(60)]
fn append_value(v: &RedisValue, out: &mut String)
    ensures
        final(out)@ == old(out)@ + encode_spec(v@),
    decreases *v,
{
    match v {
        RedisValue::SimpleString(t) => {
            proof {
                reveal_strlit("+");
            }
            out.append("+");
            out.append(t.as_str());
            append_crlf(out);
            proof {
                assert(out@ =~= old(out)@ + encode_spec(v@));
            }
        },
        RedisValue::SimpleError(t) => {
            proof {
                reveal_strlit("-");
            }
            out.append("-");
            out.append(t.as_str());
            append_crlf(out);
            proof {
                assert(out@ =~= old(out)@ + encode_spec(v@));
            }
        },
        RedisValue::Integer(n) => {
            proof {
                reveal_strlit(":");
            }
            out.append(":");
            append_dec_i64(*n, out);
            append_crlf(out);
            proof {
                assert(out@ =~= old(out)@ + encode_spec(v@));
            }
        },
        RedisValue::BulkString(t) => {
            proof {
                reveal_strlit("$");
            }
            out.append("$");
            let l = t.as_str().unicode_len();
            append_dec_u128(l as u128, out);
            append_crlf(out);
            out.append(t.as_str());
            append_crlf(out);
            proof {
                assert(out@ =~= old(out)@ + encode_spec(v@));
            }
        },
        RedisValue::NullBulkString => {
            proof {
                reveal_strlit("$-1\r\n");
            }
            out.append("$-1\r\n");
            proof {
                assert(out@ =~= old(out)@ + encode_spec(v@));
            }
        },
        RedisValue::Array(vs) => {
            proof {
                reveal_strlit("*");
            }
            out.append("*");
            append_count_and_crlf(vs.len(), out);
            append_elements(vs, out);
            proof {
                lemma_views_of(vs@);
                assert(out@ =~= old(out)@ + encode_spec(v@));
            }
        },
        RedisValue::NullArray => {
            proof {
                reveal_strlit("*-1\r\n");
            }
            out.append("*-1\r\n");
            proof {
                assert(out@ =~= old(out)@ + encode_spec(v@));
            }
        },
        RedisValue::Null => {
            proof {
                reveal_strlit("_\r\n");
            }
            out.append("_\r\n");
            proof {
                assert(out@ =~= old(out)@ + encode_spec(v@));
            }
        },
        RedisValue::Boolean(b) => {
            proof {
                reveal_strlit("#t\r\n");
                reveal_strlit("#f\r\n");
            }
            if *b {
                out.append("#t\r\n");
            } else {
                out.append("#f\r\n");
            }
            proof {
                assert(out@ =~= old(out)@ + encode_spec(v@));
            }
        },
        RedisValue::BigInteger(n) => {
            proof {
                reveal_strlit("(");
            }
            out.append("(");
            append_dec_i128(*n, out);
            append_crlf(out);
            proof {
                assert(out@ =~= old(out)@ + encode_spec(v@));
            }
        },
        RedisValue::BulkError(t) => {
            proof {
                reveal_strlit("!");
            }
            out.append("!");
            let l = t.as_str().unicode_len();
            append_dec_u128(l as u128, out);
            append_crlf(out);
            out.append(t.as_str());
            append_crlf(out);
            proof {
                assert(out@ =~= old(out)@ + encode_spec(v@));
            }
        },
        RedisValue::VerbatimString(e, t) => {
            proof {
                reveal_strlit("=");
                reveal_strlit(":");
            }
            out.append("=");
            let le = e.as_str().unicode_len();
            let lt = t.as_str().unicode_len();
            append_dec_u128(le as u128 + 1 + lt as u128, out);
            append_crlf(out);
            out.append(e.as_str());
            out.append(":");
            out.append(t.as_str());
            append_crlf(out);
            proof {
                assert(out@ =~= old(out)@ + encode_spec(v@));
            }
        },
        RedisValue::Mapping(ps) => {
            proof {
                reveal_strlit("&");
            }
            out.append("&");
            append_count_and_crlf(ps.len(), out);
            let ghost pvs = pair_views_of(ps@);
            let ghost pre = out@;
            let mut k: usize = 0;
            proof {
                lemma_pair_views_of(ps@);
                assert(pvs.take(0) =~= Seq::<(SpecValue, SpecValue)>::empty());
            }
            while k < ps.len()
                invariant
                    k <= ps.len(),
                    pvs == pair_views_of(ps@),
                    pvs.len() == ps@.len(),
                    forall|i: int|
                        0 <= i < ps@.len() ==> pvs[i] == (
                        view_of(#[trigger] ps@[i].0),
                        view_of(ps@[i].1),
                        ),
                    out@ == pre + encode_pairs(pvs.take(k as int)),
                decreases ps.len() - k,
            {
                proof {
                    assert(decreases_to!(*v => *ps));
                    assert(decreases_to!(*ps => ps@[k as int]));
                    assert(decreases_to!(ps@[k as int] => ps@[k as int].0));
                    assert(decreases_to!(ps@[k as int] => ps@[k as int].1));
                }
                let pair = &ps[k];
                append_value(&pair.0, out);
                append_value(&pair.1, out);
                k += 1;
                proof {
                    lemma_encode_pairs_push(pvs.take(k - 1), pvs[k - 1]);
                    assert(pvs.take(k as int) =~= pvs.take(k - 1).push(pvs[k - 1]));
                }
            }
            proof {
                assert(pvs.take(ps@.len() as int) =~= pvs);
                assert(out@ =~= old(out)@ + encode_spec(v@));
            }
        },
        RedisValue::SetValue(vs) => {
            let texts = element_texts(vs);
            let dup = find_text_dup(&texts);
            proof {
                lemma_texts_of(views_of(vs@));
                lemma_views_of(vs@);
                assert(texts@.map_values(|t: String| t@) =~= texts_of(views_of(vs@)));
            }
            if dup {
                proof {
                    reveal_strlit("-ERR Set is not unique\r\n");
                    reveal_strlit("ERR Set is not unique");
                }
                out.append("-ERR Set is not unique\r\n");
                proof {
                    assert(out@ =~= old(out)@ + encode_spec(v@));
                }
            } else {
                proof {
                    reveal_strlit("~");
                }
                out.append("~");
                append_count_and_crlf(vs.len(), out);
                let ghost svs = views_of(vs@);
                let ghost pre = out@;
                let mut k: usize = 0;
                proof {
                    assert(svs.take(0) =~= Seq::<SpecValue>::empty());
                }
                while k < texts.len()
                    invariant
                        k <= texts.len(),
                        svs == views_of(vs@),
                        texts@.len() == svs.len(),
                        forall|i: int|
                            0 <= i < svs.len() ==> (#[trigger] texts@[i])@ == encode_spec(svs[i]),
                        out@ == pre + encode_elems(svs.take(k as int)),
                    decreases texts.len() - k,
                {
                    out.append(texts[k].as_str());
                    k += 1;
                    proof {
                        lemma_encode_elems_push(svs.take(k - 1), svs[k - 1]);
                        assert(svs.take(k as int) =~= svs.take(k - 1).push(svs[k - 1]));
                    }
                }
                proof {
                    assert(svs.take(svs.len() as int) =~= svs);
                    assert(out@ =~= old(out)@ + encode_spec(v@));
                }
            }
        },
        RedisValue::Push(vs) => {
            proof {
                reveal_strlit(">");
            }
            out.append(">");
            append_count_and_crlf(vs.len(), out);
            append_elements(vs, out);
            proof {
                lemma_views_of(vs@);
                assert(out@ =~= old(out)@ + encode_spec(v@));
            }
        },
    }
}

/// Appends the decimal count of a collection and the terminator.
fn append_count_and_crlf(n: usize, out: &mut String)
    ensures
        final(out)@ == old(out)@ + dec_nat(n as nat) + crlf_seq(),
{
    append_dec_u128(n as u128, out);
    append_crlf(out);
}

/// Appends the wire texts of all elements, in order.
#[verifier::loop_isolation(false)]
fn append_elements(vs: &Vec<RedisValue>, out: &mut String)
    ensures
        final(out)@ == old(out)@ + encode_elems(views_of(vs@)),
    decreases *vs,
{
    let ghost svs = views_of(vs@);
    let ghost pre = out@;
    let mut k: usize = 0;
    proof {
        lemma_views_of(vs@);
        assert(svs.take(0) =~= Seq::<SpecValue>::empty());
        assert(pre + encode_elems(svs.take(0)) =~= pre);
    }
    while k < vs.len()
        invariant
            k <= vs.len(),
            svs == views_of(vs@),
            svs.len() == vs@.len(),
            forall|i: int| 0 <= i < vs@.len() ==> svs[i] == view_of(#[trigger] vs@[i]),
            out@ == pre + encode_elems(svs.take(k as int)),
            pre == old(out)@,
        decreases vs.len() - k,
    {
        proof {
            assert(decreases_to!(*vs => vs@[k as int]));
        }
        append_value(&vs[k], out);
        k += 1;
        proof {
            lemma_encode_elems_push(svs.take(k - 1), svs[k - 1]);
            assert(svs.take(k as int) =~= svs.take(k - 1).push(svs[k - 1]));
        }
    }
    proof {
        assert(svs.take(vs@.len() as int) =~= svs);
    }
}

/// The wire texts of the elements, one string per element.
#[verifier::loop_isolation(false)]
pub(crate) fn element_texts(vs: &Vec<RedisValue>) -> (r: Vec<String>)
    ensures
        r@.len() == vs@.len(),
        forall|i: int|
            0 <= i < vs@.len() ==> (#[trigger] r@[i])@ == encode_spec(view_of(vs@[i])),
    decreases *vs,
{
    let mut r: Vec<String> = Vec::new();
    let mut k: usize = 0;
    while k < vs.len()
        invariant
            k <= vs.len(),
            r@.len() == k,
            forall|i: int| 0 <= i < k ==> (#[trigger] r@[i])@ == encode_spec(view_of(vs@[i])),
        decreases vs.len() - k,
    {
        proof {
            assert(decreases_to!(*vs => vs@[k as int]));
        }
        let mut one = String::new();
        append_value(&vs[k], &mut one);
        r.push(one);
        k += 1;
    }
    r
}

/// Whether two entries of `texts` hold the same string.
#[verifier::loop_isolation(false)]
pub(crate) fn find_text_dup(texts: &Vec<String>) -> (r: bool)
    ensures
        r == has_dup_text(texts@.map_values(|t: String| t@)),
{
    let ghost ts = texts@.map_values(|t: String| t@);
    let mut j: usize = 1;
    while j < texts.len()
        invariant
            1 <= j || texts@.len() == 0,
            j <= texts.len() || texts@.len() == 0,
            ts == texts@.map_values(|t: String| t@),
            forall|a: int, b: int| 0 <= a < b < j && b < ts.len() ==> ts[a] != ts[b],
        decreases texts.len() - j,
    {
        let mut i: usize = 0;
        while i < j
            invariant
                i <= j < texts.len(),
                ts == texts@.map_values(|t: String| t@),
                forall|a: int| 0 <= a < i ==> ts[a] != ts[j as int],
            decreases j - i,
        {
            if texts[i] == texts[j] {
                proof {
                    assert(ts[i as int] == texts@[i as int]@);
                    assert(ts[j as int] == texts@[j as int]@);
                    assert(0 <= i < j < ts.len() && ts[i as int] == ts[j as int]);
                }
                return true;
            }
            i += 1;
        }
        j += 1;
    }
    false
}

impl RedisValue {
    /// The wire text of this value: each variant's single wire form, with a
    /// Set of colliding elements replaced by the designated error value.
    pub fn to_resp(&self) -> (r: String)
        ensures
            r@ == encode_spec(self@),
    {
        let mut out = String::new();
        append_value(self, &mut out);
        out
    }
}

} // verus!
