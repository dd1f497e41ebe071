//! The RESP value model: the executable tagged union and its
//! specification-level counterpart.

use vstd::prelude::*;

verus! {

broadcast use vstd::std_specs::vec::axiom_vec_index_decreases;

/// One decoded RESP value.
///
/// Aggregate variants own their elements; a value is built once by the
/// decoder and never mutated.  The `Double` variant keeps the accepted
/// floating-point lexeme as text, because this crate holds no
/// floating-point values; a caller that wants the number itself parses
/// the text, which the decoder has already checked against the
/// floating-point grammar.
#[derive(Debug)]
pub enum RESP {
    SimpleString(String),
    SimpleError(String),
    Integer(i64),
    BulkString(String),
    NullBulkString,
    Array(Vec<RESP>),
    NullArray,
    Null,
    Boolean(bool),
    /// The accepted floating-point lexeme, kept as text.
    Double(String),
    BigNumber(String),
    BulkError(String),
    VerbatimString { encoding: String, data: String },
    MapValue(Vec<(RESP, RESP)>),
    SetValue(Vec<RESP>),
    Push(Vec<RESP>),
    Inline(Vec<String>),
}

/// The mathematical shape of a decoded value: text as `Seq<char>`,
/// aggregates as `Seq`, and nothing else.  Contracts speak of this type.
pub enum SpecValue {
    SimpleString(Seq<char>),
    SimpleError(Seq<char>),
    Integer(i64),
    BulkString(Seq<char>),
    NullBulkString,
    Array(Seq<SpecValue>),
    NullArray,
    Null,
    Boolean(bool),
    Double(Seq<char>),
    BigNumber(Seq<char>),
    BulkError(Seq<char>),
    VerbatimString { encoding: Seq<char>, data: Seq<char> },
    MapValue(Seq<(SpecValue, SpecValue)>),
    SetValue(Seq<SpecValue>),
    Push(Seq<SpecValue>),
    Inline(Seq<Seq<char>>),
}

impl DeepView for RESP {
    type V = SpecValue;

    open spec fn deep_view(&self) -> SpecValue
        decreases self,
    {
        // The range guards in the aggregate arms serve the termination
        // measure; an out-of-range element is never read.
        match self {
            RESP::SimpleString(s) => SpecValue::SimpleString(s@),
            RESP::SimpleError(s) => SpecValue::SimpleError(s@),
            RESP::Integer(n) => SpecValue::Integer(*n),
            RESP::BulkString(s) => SpecValue::BulkString(s@),
            RESP::NullBulkString => SpecValue::NullBulkString,
            RESP::Array(vs) => SpecValue::Array(
                Seq::new(vs@.len(), |i: int| if 0 <= i < vs@.len() { vs@[i].deep_view() } else { SpecValue::Null }),
            ),
            RESP::NullArray => SpecValue::NullArray,
            RESP::Null => SpecValue::Null,
            RESP::Boolean(b) => SpecValue::Boolean(*b),
            RESP::Double(s) => SpecValue::Double(s@),
            RESP::BigNumber(s) => SpecValue::BigNumber(s@),
            RESP::BulkError(s) => SpecValue::BulkError(s@),
            RESP::VerbatimString { encoding, data } => SpecValue::VerbatimString {
                encoding: encoding@,
                data: data@,
            },
            RESP::MapValue(ps) => SpecValue::MapValue(
                Seq::new(ps@.len(), |i: int| if 0 <= i < ps@.len() { (ps@[i].0.deep_view(), ps@[i].1.deep_view()) } else { (SpecValue::Null, SpecValue::Null) }),
            ),
            RESP::SetValue(vs) => SpecValue::SetValue(
                Seq::new(vs@.len(), |i: int| if 0 <= i < vs@.len() { vs@[i].deep_view() } else { SpecValue::Null }),
            ),
            RESP::Push(vs) => SpecValue::Push(
                Seq::new(vs@.len(), |i: int| if 0 <= i < vs@.len() { vs@[i].deep_view() } else { SpecValue::Null }),
            ),
            RESP::Inline(ts) => SpecValue::Inline(
                Seq::new(ts@.len(), |i: int| ts@[i]@),
            ),
        }
    }
}

/// The element-wise deep view of a sequence of values.
pub open spec fn seq_deep_view(vs: Seq<RESP>) -> Seq<SpecValue> {
    Seq::new(vs.len(), |i: int| vs[i].deep_view())
}

/// The element-wise deep view of a sequence of key/value pairs.
pub open spec fn pairs_deep_view(ps: Seq<(RESP, RESP)>) -> Seq<(SpecValue, SpecValue)> {
    Seq::new(ps.len(), |i: int| (ps[i].0.deep_view(), ps[i].1.deep_view()))
}

/// The element-wise view of a sequence of strings.
pub open spec fn strings_view(ts: Seq<String>) -> Seq<Seq<char>> {
    Seq::new(ts.len(), |i: int| ts[i]@)
}

/// The deep view of an aggregate value is the element-wise deep view of
/// its elements.
pub proof fn lemma_aggregate_deep_view(vs: Vec<RESP>)
    ensures
        RESP::Array(vs).deep_view() == SpecValue::Array(seq_deep_view(vs@)),
        RESP::SetValue(vs).deep_view() == SpecValue::SetValue(seq_deep_view(vs@)),
        RESP::Push(vs).deep_view() == SpecValue::Push(seq_deep_view(vs@)),
{
    reveal_with_fuel(<RESP as DeepView>::deep_view, 2);
    assert(RESP::Array(vs).deep_view()->Array_0 =~= seq_deep_view(vs@));
    assert(RESP::SetValue(vs).deep_view()->SetValue_0 =~= seq_deep_view(vs@));
    assert(RESP::Push(vs).deep_view()->Push_0 =~= seq_deep_view(vs@));
}

/// The deep view of a map value is the element-wise deep view of its pairs.
pub proof fn lemma_map_deep_view(ps: Vec<(RESP, RESP)>)
    ensures
        RESP::MapValue(ps).deep_view() == SpecValue::MapValue(pairs_deep_view(ps@)),
{
    reveal_with_fuel(<RESP as DeepView>::deep_view, 2);
    assert(RESP::MapValue(ps).deep_view()->MapValue_0 =~= pairs_deep_view(ps@));
}

/// The deep view of an inline value is the view of each of its tokens.
pub proof fn lemma_inline_deep_view(ts: Vec<String>)
    ensures
        RESP::Inline(ts).deep_view() == SpecValue::Inline(strings_view(ts@)),
{
    reveal_with_fuel(<RESP as DeepView>::deep_view, 2);
    assert(RESP::Inline(ts).deep_view()->Inline_0 =~= strings_view(ts@));
}

/// Appending one value appends its deep view.
pub proof fn lemma_seq_deep_view_push(vs: Seq<RESP>, x: RESP)
    ensures
        seq_deep_view(vs.push(x)) == seq_deep_view(vs).push(x.deep_view()),
{
    assert(seq_deep_view(vs.push(x)) =~= seq_deep_view(vs).push(x.deep_view()));
}

/// Appending one pair appends its deep view.
pub proof fn lemma_pairs_deep_view_push(ps: Seq<(RESP, RESP)>, k: RESP, v: RESP)
    ensures
        pairs_deep_view(ps.push((k, v))) == pairs_deep_view(ps).push(
            (k.deep_view(), v.deep_view()),
        ),
{
    assert(pairs_deep_view(ps.push((k, v))) =~= pairs_deep_view(ps).push(
        (k.deep_view(), v.deep_view()),
    ));
}

/// Appending one string appends its view.
pub proof fn lemma_strings_view_push(ts: Seq<String>, x: String)
    ensures
        strings_view(ts.push(x)) == strings_view(ts).push(x@),
{
    assert(strings_view(ts.push(x)) =~= strings_view(ts).push(x@));
}

} // verus!
