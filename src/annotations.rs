use vstd::prelude::*;

use crate::bytes::{
    be_u16, lemma_be_u16_injective, lemma_span_split, lemma_starts_concat, push_u16, push_u8, starts_at, ByteReader,
    MAX_NESTING,
};
use crate::errors::JavaError;
use crate::structs::{
    read_local_var_list, read_type_path_list, ser_local_var_list, ser_type_path_list, wf_type_path,
    write_local_var_list, write_type_path_list, LocalVar, TypePath,
};

verus! {

broadcast use vstd::std_specs::vec::axiom_vec_decreases_to_view, vstd::seq::axiom_seq_subrange_decreases;

/// The value of an annotation element.
#[derive(Debug)]
pub enum ElementValue {
    AnnotationValue(Annotation),
    ArrayValue(Vec<ElementValue>),
    ClassInfoIndex(u16),
    /// A constant; `tag` is one of `B C D F I J S Z s`.
    ConstValueIndex { tag: u8, const_value_index: u16 },
    EnumConstValue { type_name_index: u16, const_name_index: u16 },
}

/// One named element of an annotation.
#[derive(Debug)]
pub struct ElementValuePair {
    pub element_name_index: u16,
    pub value: ElementValue,
}

/// An annotation: its type and its named elements.
#[derive(Debug)]
pub struct Annotation {
    pub type_index: u16,
    pub element_value_pairs: Vec<ElementValuePair>,
}

/// The bytes of an element value: its tag, then its payload.
pub open spec fn ser_element_value(e: ElementValue) -> Seq<u8>
    decreases e,
{
    match e {
        ElementValue::ConstValueIndex { tag, const_value_index } => seq![tag] + be_u16(const_value_index),
        ElementValue::ClassInfoIndex(i) => seq![0x63u8] + be_u16(i),
        ElementValue::EnumConstValue { type_name_index, const_name_index } =>
            seq![0x65u8] + be_u16(type_name_index) + be_u16(const_name_index),
        ElementValue::AnnotationValue(a) => seq![0x40u8] + ser_annotation(a),
        ElementValue::ArrayValue(vs) =>
            seq![0x5Bu8] + be_u16(#[verifier::truncate] (vs@.len() as u16)) + ser_element_values(vs@),
    }
}

/// The bytes of each element value, in order.
pub open spec fn ser_element_values(s: Seq<ElementValue>) -> Seq<u8>
    decreases s,
{
    if s.len() == 0 {
        Seq::empty()
    } else {
        ser_element_values(s.subrange(0, s.len() - 1)) + ser_element_value(s[s.len() - 1])
    }
}

/// The bytes of an annotation: type index, pair count, pairs.
pub open spec fn ser_annotation(a: Annotation) -> Seq<u8>
    decreases a,
{
    be_u16(a.type_index) + be_u16(#[verifier::truncate] (a.element_value_pairs@.len() as u16))
        + ser_value_pairs(a.element_value_pairs@)
}

/// The bytes of each pair: the element name index, then the value.
pub open spec fn ser_value_pairs(s: Seq<ElementValuePair>) -> Seq<u8>
    decreases s,
{
    if s.len() == 0 {
        Seq::empty()
    } else {
        ser_value_pairs(s.subrange(0, s.len() - 1)) + be_u16(s[s.len() - 1].element_name_index)
            + ser_element_value(s[s.len() - 1].value)
    }
}

proof fn lemma_element_values_push(s: Seq<ElementValue>, e: ElementValue)
    ensures
        ser_element_values(s.push(e)) == ser_element_values(s) + ser_element_value(e),
{
    assert(s.push(e).subrange(0, s.len() as int) =~= s);
}

proof fn lemma_value_pairs_push(s: Seq<ElementValuePair>, p: ElementValuePair)
    ensures
        ser_value_pairs(s.push(p)) == ser_value_pairs(s) + be_u16(p.element_name_index) + ser_element_value(p.value),
{
    assert(s.push(p).subrange(0, s.len() as int) =~= s);
}

/// A tag of a constant element value.
pub open spec fn const_tag(tag: u8) -> bool {
    tag == 0x42 || tag == 0x43 || tag == 0x44 || tag == 0x46 || tag == 0x49 || tag == 0x4A || tag == 0x53
        || tag == 0x5A || tag == 0x73
}

/// An element value that decoding can give with `depth` levels of nesting
/// to spare: known tags, counts that fit, nesting within the bound.
pub open spec fn wf_element_value(e: ElementValue, depth: nat) -> bool
    decreases e,
{
    match e {
        ElementValue::ConstValueIndex { tag, .. } => const_tag(tag),
        ElementValue::AnnotationValue(a) => depth > 0 && wf_nested_annotation(a, (depth - 1) as nat),
        ElementValue::ArrayValue(vs) => depth > 0 && vs@.len() <= 0xFFFF && wf_element_values(vs@, (depth - 1) as nat),
        _ => true,
    }
}

/// Each element value is one that decoding can give.
pub open spec fn wf_element_values(s: Seq<ElementValue>, depth: nat) -> bool
    decreases s,
{
    s.len() == 0 || (wf_element_values(s.subrange(0, s.len() - 1), depth) && wf_element_value(s[s.len() - 1], depth))
}

/// An annotation that decoding can give with `depth` levels of nesting to spare.
pub open spec fn wf_nested_annotation(a: Annotation, depth: nat) -> bool
    decreases a,
{
    a.element_value_pairs@.len() <= 0xFFFF && wf_value_pairs(a.element_value_pairs@, depth)
}

/// Each pair holds a value that decoding can give.
pub open spec fn wf_value_pairs(s: Seq<ElementValuePair>, depth: nat) -> bool
    decreases s,
{
    s.len() == 0 || (wf_value_pairs(s.subrange(0, s.len() - 1), depth) && wf_element_value(s[s.len() - 1].value, depth))
}

/// An annotation that decoding can give.
pub open spec fn wf_annotation(a: Annotation) -> bool {
    wf_nested_annotation(a, MAX_NESTING as nat)
}

proof fn lemma_element_values_concat(a: Seq<ElementValue>, b: Seq<ElementValue>)
    ensures
        ser_element_values(a + b) == ser_element_values(a) + ser_element_values(b),
    decreases b.len(),
{
    if b.len() == 0 {
        assert(a + b =~= a);
        assert(ser_element_values(a) + ser_element_values(b) =~= ser_element_values(a));
    } else {
        lemma_element_values_concat(a, b.subrange(0, b.len() - 1));
        assert((a + b).subrange(0, (a + b).len() - 1) =~= a + b.subrange(0, b.len() - 1));
    }
}

proof fn lemma_value_pairs_concat(a: Seq<ElementValuePair>, b: Seq<ElementValuePair>)
    ensures
        ser_value_pairs(a + b) == ser_value_pairs(a) + ser_value_pairs(b),
    decreases b.len(),
{
    if b.len() == 0 {
        assert(a + b =~= a);
        assert(ser_value_pairs(a) + ser_value_pairs(b) =~= ser_value_pairs(a));
    } else {
        lemma_value_pairs_concat(a, b.subrange(0, b.len() - 1));
        assert((a + b).subrange(0, (a + b).len() - 1) =~= a + b.subrange(0, b.len() - 1));
    }
}

proof fn lemma_element_values_step(data: Seq<u8>, pos: int, s: Seq<ElementValue>, k: int, depth: nat)
    requires
        starts_at(data, pos, ser_element_values(s)),
        wf_element_values(s, depth),
        0 <= k < s.len(),
    ensures
        starts_at(data, pos + ser_element_values(s.take(k)).len(), ser_element_value(s[k])),
        ser_element_values(s.take(k + 1)) == ser_element_values(s.take(k)) + ser_element_value(s[k]),
        wf_element_value(s[k], depth),
    decreases s.len(),
{
    lemma_element_values_concat(s.take(k + 1), s.skip(k + 1));
    assert(s.take(k + 1) + s.skip(k + 1) =~= s);
    lemma_element_values_push(s.take(k), s[k]);
    assert(s.take(k + 1) =~= s.take(k).push(s[k]));
    lemma_starts_concat(data, pos, ser_element_values(s.take(k + 1)), ser_element_values(s.skip(k + 1)));
    lemma_starts_concat(data, pos, ser_element_values(s.take(k)), ser_element_value(s[k]));
    if k < s.len() - 1 {
        let init = s.subrange(0, s.len() - 1);
        assert(init[k] == s[k]);
        assert(ser_element_values(init) == ser_element_values(init));
        lemma_wf_element_values_at(init, k, depth);
    }
}

proof fn lemma_wf_element_values_at(s: Seq<ElementValue>, k: int, depth: nat)
    requires
        wf_element_values(s, depth),
        0 <= k < s.len(),
    ensures
        wf_element_value(s[k], depth),
    decreases s.len(),
{
    if k < s.len() - 1 {
        let init = s.subrange(0, s.len() - 1);
        assert(init[k] == s[k]);
        lemma_wf_element_values_at(init, k, depth);
    }
}

proof fn lemma_wf_value_pairs_at(s: Seq<ElementValuePair>, k: int, depth: nat)
    requires
        wf_value_pairs(s, depth),
        0 <= k < s.len(),
    ensures
        wf_element_value(s[k].value, depth),
    decreases s.len(),
{
    if k < s.len() - 1 {
        let init = s.subrange(0, s.len() - 1);
        assert(init[k] == s[k]);
        lemma_wf_value_pairs_at(init, k, depth);
    }
}

proof fn lemma_value_pairs_step(data: Seq<u8>, pos: int, s: Seq<ElementValuePair>, k: int)
    requires
        starts_at(data, pos, ser_value_pairs(s)),
        0 <= k < s.len(),
    ensures
        starts_at(data, pos + ser_value_pairs(s.take(k)).len(), be_u16(s[k].element_name_index)),
        starts_at(data, pos + ser_value_pairs(s.take(k)).len() + 2, ser_element_value(s[k].value)),
        ser_value_pairs(s.take(k + 1)) == ser_value_pairs(s.take(k)) + be_u16(s[k].element_name_index)
            + ser_element_value(s[k].value),
{
    lemma_value_pairs_concat(s.take(k + 1), s.skip(k + 1));
    assert(s.take(k + 1) + s.skip(k + 1) =~= s);
    lemma_value_pairs_push(s.take(k), s[k]);
    assert(s.take(k + 1) =~= s.take(k).push(s[k]));
    lemma_starts_concat(data, pos, ser_value_pairs(s.take(k + 1)), ser_value_pairs(s.skip(k + 1)));
    lemma_starts_concat(
        data,
        pos,
        ser_value_pairs(s.take(k)) + be_u16(s[k].element_name_index),
        ser_element_value(s[k].value),
    );
    lemma_starts_concat(data, pos, ser_value_pairs(s.take(k)), be_u16(s[k].element_name_index));
}

/// Reads one element value; an unknown tag is an error.
pub fn read_element_value(r: &mut ByteReader) -> (res: Result<ElementValue, JavaError>)
    requires
        old(r).wf(),
    ensures
        old(r).moved_to(*final(r)),
        final(r).canonical == old(r).canonical,
        res matches Ok(e) ==> old(r).span(*final(r)) == ser_element_value(e),
        (exists|t: ElementValue| old(r).offers(ser_element_value(t)) && wf_element_value(t, MAX_NESTING as nat)) ==> (
        res is Ok && final(r).canonical),
{
    let ghost t = choose|t: ElementValue| r.offers(ser_element_value(t)) && wf_element_value(t, MAX_NESTING as nat);
    read_nested_element_value(r, MAX_NESTING, Ghost(t))
}

/// Reads one element value; where the input offers the bytes of a
/// well-formed `t`, it reads them.
pub fn read_element_value_as(r: &mut ByteReader, t: Ghost<ElementValue>) -> (res: Result<ElementValue, JavaError>)
    requires
        old(r).wf(),
    ensures
        old(r).moved_to(*final(r)),
        final(r).canonical == old(r).canonical,
        res matches Ok(e) ==> old(r).span(*final(r)) == ser_element_value(e),
        old(r).offers(ser_element_value(t@)) && wf_element_value(t@, MAX_NESTING as nat) ==> (res is Ok && old(r).took(
            *final(r),
            ser_element_value(t@),
        )),
{
    read_nested_element_value(r, MAX_NESTING, t)
}

/// Reads one annotation.
pub fn read_annotation(r: &mut ByteReader) -> (res: Result<Annotation, JavaError>)
    requires
        old(r).wf(),
    ensures
        old(r).moved_to(*final(r)),
        final(r).canonical == old(r).canonical,
        res matches Ok(a) ==> old(r).span(*final(r)) == ser_annotation(a),
        (exists|t: Annotation| old(r).offers(ser_annotation(t)) && wf_annotation(t)) ==> (res is Ok
            && final(r).canonical),
{
    let ghost t = choose|t: Annotation| r.offers(ser_annotation(t)) && wf_annotation(t);
    read_annotation_as(r, Ghost(t))
}

/// Reads one annotation; where the input offers the bytes of a well-formed
/// `t`, it reads them.
pub fn read_annotation_as(r: &mut ByteReader, t: Ghost<Annotation>) -> (res: Result<Annotation, JavaError>)
    requires
        old(r).wf(),
    ensures
        old(r).moved_to(*final(r)),
        final(r).canonical == old(r).canonical,
        res matches Ok(a) ==> old(r).span(*final(r)) == ser_annotation(a),
        old(r).offers(ser_annotation(t@)) && wf_annotation(t@) ==> (res matches Ok(a) && old(r).took(*final(r), ser_annotation(t@))),
{
    read_nested_annotation(r, MAX_NESTING, t)
}

/// Reads one element value that may hold values nested `depth` levels deeper.
fn read_nested_element_value(r: &mut ByteReader, depth: u32, t: Ghost<ElementValue>) -> (res: Result<ElementValue, JavaError>)
    requires
        old(r).wf(),
    ensures
        old(r).moved_to(*final(r)),
        final(r).canonical == old(r).canonical,
        res matches Ok(e) ==> old(r).span(*final(r)) == ser_element_value(e),
        old(r).offers(ser_element_value(t@)) && wf_element_value(t@, depth as nat) ==> (res matches Ok(e) && old(r).took(
            *final(r),
            ser_element_value(t@),
        )),
    decreases old(r).remaining(), 0int,
{
    let ghost r0 = *r;
    let ghost tt = t@;
    let ghost whole = ser_element_value(tt);
    let ghost pre = r0.offers(whole) && wf_element_value(tt, depth as nat);
    let ghost rest = whole.subrange(1, whole.len() as int);
    proof {
        if pre {
            assert(whole.len() >= 1);
            assert(whole =~= seq![whole[0]] + rest);
            lemma_starts_concat(r0.data@, r0.pos as int, seq![whole[0]], rest);
        }
    }
    let tag = r.read_u8()?;
    let ghost r1 = *r;
    proof {
        if pre {
            assert(r0.span(*r) =~= r0.data@.subrange(r0.pos as int, r0.pos + 1));
            assert(tag == whole[0]);
        }
    }
    let e = if tag == 0x42 || tag == 0x43 || tag == 0x44 || tag == 0x46 || tag == 0x49 || tag == 0x4A
        || tag == 0x53 || tag == 0x5A || tag == 0x73 {
        ElementValue::ConstValueIndex { tag, const_value_index: r.read_u16()? }
    } else if tag == 0x63 {
        ElementValue::ClassInfoIndex(r.read_u16()?)
    } else if tag == 0x65 {
        let type_name_index = r.read_u16()?;
        let ghost r2 = *r;
        let const_name_index = r.read_u16()?;
        proof { lemma_span_split(r.data@, r1.pos as int, r2.pos as int, r.pos as int); }
        ElementValue::EnumConstValue { type_name_index, const_name_index }
    } else if tag == 0x40 {
        if depth == 0 {
            return Err(JavaError::Malformed);
        }
        proof {
            if pre {
                assert(rest =~= ser_annotation(tt->AnnotationValue_0));
            }
        }
        ElementValue::AnnotationValue(read_nested_annotation(r, depth - 1, Ghost(tt->AnnotationValue_0))?)
    } else if tag == 0x5B {
        if depth == 0 {
            return Err(JavaError::Malformed);
        }
        let ghost vs = tt->ArrayValue_0@;
        proof {
            if pre {
                assert(rest =~= be_u16(#[verifier::truncate] (vs.len() as u16)) + ser_element_values(vs));
                lemma_starts_concat(r1.data@, r1.pos as int, be_u16(#[verifier::truncate] (vs.len() as u16)), ser_element_values(vs));
            }
        }
        let n = r.read_u16()?;
        let ghost r2 = *r;
        proof {
            if pre {
                assert(r1.span(r2) =~= r1.data@.subrange(r1.pos as int, r1.pos + 2));
                lemma_be_u16_injective(n, #[verifier::truncate] (vs.len() as u16));
            }
        }
        let values = read_element_value_list(r, n as usize, depth - 1, Ghost(vs))?;
        proof { lemma_span_split(r.data@, r1.pos as int, r2.pos as int, r.pos as int); }
        ElementValue::ArrayValue(values)
    } else {
        return Err(JavaError::Malformed);
    };
    proof {
        lemma_span_split(r.data@, r0.pos as int, r1.pos as int, r.pos as int);
        assert(r0.span(*r) =~= ser_element_value(e));
        if pre {
            assert(r0.span(*r) =~= r0.data@.subrange(r0.pos as int, r0.pos + whole.len()));
        }
    }
    Ok(e)
}

/// Reads `n` element values.
fn read_element_value_list(r: &mut ByteReader, n: usize, depth: u32, ts: Ghost<Seq<ElementValue>>) -> (res: Result<Vec<ElementValue>, JavaError>)
    requires
        old(r).wf(),
    ensures
        old(r).moved_to(*final(r)),
        final(r).canonical == old(r).canonical,
        res matches Ok(v) ==> v@.len() == n && old(r).span(*final(r)) == ser_element_values(v@),
        old(r).offers(ser_element_values(ts@)) && n == ts@.len() && wf_element_values(ts@, depth as nat) ==> (res is Ok
            && old(r).took(*final(r), ser_element_values(ts@))),
    decreases old(r).remaining(), 1int,
{
    let ghost pre = r.offers(ser_element_values(ts@)) && n == ts@.len() && wf_element_values(ts@, depth as nat);
    let mut v: Vec<ElementValue> = Vec::new();
    let mut k: usize = 0;
    assert(old(r).span(*r) =~= Seq::<u8>::empty());
    assert(ts@.take(0) =~= Seq::<ElementValue>::empty());
    while k < n
        invariant
            r.wf(),
            old(r).moved_to(*r),
            r.canonical == old(r).canonical,
            k <= n,
            v@.len() == k,
            old(r).span(*r) == ser_element_values(v@),
            pre == (old(r).offers(ser_element_values(ts@)) && n == ts@.len() && wf_element_values(ts@, depth as nat)),
            pre ==> r.pos == old(r).pos + ser_element_values(ts@.take(k as int)).len(),
        decreases n - k,
    {
        let ghost before = *r;
        proof {
            if pre {
                lemma_element_values_step(old(r).data@, old(r).pos as int, ts@, k as int, depth as nat);
            }
        }
        let x = read_nested_element_value(r, depth, Ghost(ts@[k as int]))?;
        proof {
            lemma_span_split(r.data@, old(r).pos as int, before.pos as int, r.pos as int);
            lemma_element_values_push(v@, x);
        }
        v.push(x);
        k = k + 1;
    }
    proof {
        if pre {
            assert(ts@.take(n as int) =~= ts@);
        }
    }
    Ok(v)
}

/// Reads one annotation whose values may nest `depth` levels deeper.
fn read_nested_annotation(r: &mut ByteReader, depth: u32, t: Ghost<Annotation>) -> (res: Result<Annotation, JavaError>)
    requires
        old(r).wf(),
    ensures
        old(r).moved_to(*final(r)),
        final(r).canonical == old(r).canonical,
        res matches Ok(a) ==> old(r).span(*final(r)) == ser_annotation(a),
        old(r).offers(ser_annotation(t@)) && wf_nested_annotation(t@, depth as nat) ==> (res matches Ok(a) && old(r).took(
            *final(r),
            ser_annotation(t@),
        )),
    decreases old(r).remaining(), 0int,
{
    let ghost r0 = *r;
    let ghost tt = t@;
    let ghost pairs = tt.element_value_pairs@;
    let ghost pre = r0.offers(ser_annotation(tt)) && wf_nested_annotation(tt, depth as nat);
    let ghost cnt = be_u16(#[verifier::truncate] (pairs.len() as u16));
    proof {
        if pre {
            lemma_starts_concat(r0.data@, r0.pos as int, be_u16(tt.type_index) + cnt, ser_value_pairs(pairs));
            lemma_starts_concat(r0.data@, r0.pos as int, be_u16(tt.type_index), cnt);
        }
    }
    let type_index = r.read_u16()?;
    let ghost r1 = *r;
    let n = r.read_u16()?;
    let ghost r2 = *r;
    proof {
        if pre {
            assert(r1.span(r2) =~= r1.data@.subrange(r1.pos as int, r1.pos + 2));
            lemma_be_u16_injective(n, #[verifier::truncate] (pairs.len() as u16));
        }
    }
    let element_value_pairs = read_value_pairs(r, n as usize, depth, Ghost(pairs))?;
    let a = Annotation { type_index, element_value_pairs };
    proof {
        lemma_span_split(r.data@, r1.pos as int, r2.pos as int, r.pos as int);
        lemma_span_split(r.data@, r0.pos as int, r1.pos as int, r.pos as int);
        assert(r0.span(*r) =~= ser_annotation(a));
        if pre {
            assert(r0.span(*r) =~= r0.data@.subrange(r0.pos as int, r0.pos + ser_annotation(tt).len()));
        }
    }
    Ok(a)
}

/// Reads `n` element-value pairs.
fn read_value_pairs(r: &mut ByteReader, n: usize, depth: u32, ts: Ghost<Seq<ElementValuePair>>) -> (res: Result<Vec<ElementValuePair>, JavaError>)
    requires
        old(r).wf(),
    ensures
        old(r).moved_to(*final(r)),
        final(r).canonical == old(r).canonical,
        res matches Ok(v) ==> v@.len() == n && old(r).span(*final(r)) == ser_value_pairs(v@),
        old(r).offers(ser_value_pairs(ts@)) && n == ts@.len() && wf_value_pairs(ts@, depth as nat) ==> (res is Ok
            && old(r).took(*final(r), ser_value_pairs(ts@))),
    decreases old(r).remaining(), 1int,
{
    let ghost pre = r.offers(ser_value_pairs(ts@)) && n == ts@.len() && wf_value_pairs(ts@, depth as nat);
    let mut v: Vec<ElementValuePair> = Vec::new();
    let mut k: usize = 0;
    assert(old(r).span(*r) =~= Seq::<u8>::empty());
    assert(ts@.take(0) =~= Seq::<ElementValuePair>::empty());
    while k < n
        invariant
            r.wf(),
            old(r).moved_to(*r),
            r.canonical == old(r).canonical,
            k <= n,
            v@.len() == k,
            old(r).span(*r) == ser_value_pairs(v@),
            pre == (old(r).offers(ser_value_pairs(ts@)) && n == ts@.len() && wf_value_pairs(ts@, depth as nat)),
            pre ==> r.pos == old(r).pos + ser_value_pairs(ts@.take(k as int)).len(),
        decreases n - k,
    {
        let ghost before = *r;
        proof {
            if pre {
                lemma_value_pairs_step(old(r).data@, old(r).pos as int, ts@, k as int);
                lemma_wf_value_pairs_at(ts@, k as int, depth as nat);
            }
        }
        let element_name_index = r.read_u16()?;
        let ghost mid = *r;
        let value = read_nested_element_value(r, depth, Ghost(ts@[k as int].value))?;
        let p = ElementValuePair { element_name_index, value };
        proof {
            lemma_span_split(r.data@, before.pos as int, mid.pos as int, r.pos as int);
            lemma_span_split(r.data@, old(r).pos as int, before.pos as int, r.pos as int);
            lemma_value_pairs_push(v@, p);
        }
        v.push(p);
        k = k + 1;
    }
    proof {
        if pre {
            assert(ts@.take(n as int) =~= ts@);
        }
    }
    Ok(v)
}

/// Writes one element value.
pub fn write_element_value(out: &mut Vec<u8>, e: &ElementValue)
    ensures
        final(out)@ == old(out)@ + ser_element_value(*e),
    decreases e,
{
    let ghost start = out@;
    match e {
        ElementValue::ConstValueIndex { tag, const_value_index } => {
            push_u8(out, *tag);
            push_u16(out, *const_value_index);
        },
        ElementValue::ClassInfoIndex(i) => {
            push_u8(out, 0x63);
            push_u16(out, *i);
        },
        ElementValue::EnumConstValue { type_name_index, const_name_index } => {
            push_u8(out, 0x65);
            push_u16(out, *type_name_index);
            push_u16(out, *const_name_index);
        },
        ElementValue::AnnotationValue(a) => {
            push_u8(out, 0x40);
            write_annotation(out, a);
        },
        ElementValue::ArrayValue(vs) => {
            push_u8(out, 0x5B);
            push_u16(out, #[verifier::truncate] (vs.len() as u16));
            write_element_value_list(out, vs);
        },
    }
    assert(out@ =~= start + ser_element_value(*e));
}

/// Writes each element value, in order.
pub fn write_element_value_list(out: &mut Vec<u8>, v: &Vec<ElementValue>)
    ensures
        final(out)@ == old(out)@ + ser_element_values(v@),
    decreases v,
{
    let mut i: usize = 0;
    while i < v.len()
        invariant
            i <= v@.len(),
            out@ == old(out)@ + ser_element_values(v@.take(i as int)),
        decreases v@.len() - i,
    {
        write_element_value(out, &v[i]);
        proof {
            assert(v@.take(i + 1) =~= v@.take(i as int).push(v@[i as int]));
            lemma_element_values_push(v@.take(i as int), v@[i as int]);
        }
        i = i + 1;
    }
    assert(v@.take(v@.len() as int) =~= v@);
}

/// Writes one annotation.
pub fn write_annotation(out: &mut Vec<u8>, a: &Annotation)
    ensures
        final(out)@ == old(out)@ + ser_annotation(*a),
    decreases a,
{
    let ghost start = out@;
    push_u16(out, a.type_index);
    push_u16(out, #[verifier::truncate] (a.element_value_pairs.len() as u16));
    write_value_pairs(out, &a.element_value_pairs);
    assert(out@ =~= start + ser_annotation(*a));
}

/// Writes each element-value pair, in order.
pub fn write_value_pairs(out: &mut Vec<u8>, v: &Vec<ElementValuePair>)
    ensures
        final(out)@ == old(out)@ + ser_value_pairs(v@),
    decreases v,
{
    let mut i: usize = 0;
    while i < v.len()
        invariant
            i <= v@.len(),
            out@ == old(out)@ + ser_value_pairs(v@.take(i as int)),
        decreases v@.len() - i,
    {
        push_u16(out, v[i].element_name_index);
        write_element_value(out, &v[i].value);
        proof {
            assert(v@.take(i + 1) =~= v@.take(i as int).push(v@[i as int]));
            lemma_value_pairs_push(v@.take(i as int), v@[i as int]);
        }
        i = i + 1;
    }
    assert(v@.take(v@.len() as int) =~= v@);
}

/// The bytes of each `Annotation`, in order.
pub open spec fn ser_annotation_list(s: Seq<Annotation>) -> Seq<u8>
    decreases s.len(),
{
    if s.len() == 0 {
        Seq::empty()
    } else {
        ser_annotation_list(s.drop_last()) + ser_annotation(s.last())
    }
}

proof fn lemma_annotation_list_concat(a: Seq<Annotation>, b: Seq<Annotation>)
    ensures
        ser_annotation_list(a + b) == ser_annotation_list(a) + ser_annotation_list(b),
    decreases b.len(),
{
    if b.len() == 0 {
        assert(a + b =~= a);
        assert(ser_annotation_list(a) + ser_annotation_list(b) =~= ser_annotation_list(a));
    } else {
        lemma_annotation_list_concat(a, b.drop_last());
        assert((a + b).drop_last() =~= a + b.drop_last());
    }
}

proof fn lemma_annotation_list_step(data: Seq<u8>, pos: int, s: Seq<Annotation>, k: int)
    requires
        starts_at(data, pos, ser_annotation_list(s)),
        0 <= k < s.len(),
    ensures
        starts_at(data, pos + ser_annotation_list(s.take(k)).len(), ser_annotation(s[k])),
        ser_annotation_list(s.take(k + 1)) == ser_annotation_list(s.take(k)) + ser_annotation(s[k]),
{
    lemma_annotation_list_concat(s.take(k + 1), s.skip(k + 1));
    assert(s.take(k + 1) + s.skip(k + 1) =~= s);
    assert(s.take(k + 1).drop_last() =~= s.take(k));
    lemma_starts_concat(data, pos, ser_annotation_list(s.take(k + 1)), ser_annotation_list(s.skip(k + 1)));
    lemma_starts_concat(data, pos, ser_annotation_list(s.take(k)), ser_annotation(s[k]));
}

/// Writes each `Annotation`, in order.
pub fn write_annotation_list(out: &mut Vec<u8>, v: &Vec<Annotation>)
    ensures
        final(out)@ == old(out)@ + ser_annotation_list(v@),
{
    let mut i: usize = 0;
    while i < v.len()
        invariant
            i <= v@.len(),
            out@ == old(out)@ + ser_annotation_list(v@.take(i as int)),
        decreases v@.len() - i,
    {
        write_annotation(out, &v[i]);
        assert(v@.take(i + 1).drop_last() =~= v@.take(i as int));
        i = i + 1;
    }
    assert(v@.take(v@.len() as int) =~= v@);
}

/// Reads `n` values of `Annotation`; where the input offers the bytes of `ts`,
/// `n` well-formed values, it reads them.
pub fn read_annotation_list(r: &mut ByteReader, n: usize, ts: Ghost<Seq<Annotation>>) -> (res: Result<Vec<Annotation>, JavaError>)
    requires
        old(r).wf(),
    ensures
        old(r).moved_to(*final(r)),
        final(r).canonical ==> old(r).canonical,
        res matches Ok(v) ==> v@.len() == n && (final(r).canonical ==> old(r).span(*final(r)) == ser_annotation_list(v@)),
        old(r).offers(ser_annotation_list(ts@)) && n == ts@.len() && (forall|i: int| 0 <= i < ts@.len() ==> wf_annotation(#[trigger] ts@[i]))
            ==> (res matches Ok(v) && old(r).took(*final(r), ser_annotation_list(ts@))),
{
    let ghost pre = r.offers(ser_annotation_list(ts@)) && n == ts@.len() && (forall|i: int| 0 <= i < ts@.len() ==> wf_annotation(#[trigger] ts@[i]));
    let mut v: Vec<Annotation> = Vec::new();
    let mut k: usize = 0;
    assert(old(r).span(*r) =~= Seq::<u8>::empty());
    assert(ts@.take(0) =~= Seq::<Annotation>::empty());
    while k < n
        invariant
            r.wf(),
            old(r).moved_to(*r),
            r.canonical ==> old(r).canonical,
            k <= n,
            v@.len() == k,
            r.canonical ==> old(r).span(*r) == ser_annotation_list(v@),
            pre == (old(r).offers(ser_annotation_list(ts@)) && n == ts@.len() && (forall|i: int| 0 <= i < ts@.len() ==> wf_annotation(#[trigger] ts@[i]))),
            pre ==> r.canonical && r.pos == old(r).pos + ser_annotation_list(ts@.take(k as int)).len(),
        decreases n - k,
    {
        let ghost before = *r;
        proof {
            if pre {
                lemma_annotation_list_step(old(r).data@, old(r).pos as int, ts@, k as int);
                assert(wf_annotation(ts@[k as int]));
            }
        }
        let x = read_annotation_as(r, Ghost(ts@[k as int]))?;
        proof {
            lemma_span_split(r.data@, old(r).pos as int, before.pos as int, r.pos as int);
            assert(v@.push(x).drop_last() =~= v@);
        }
        v.push(x);
        k = k + 1;
    }
    proof {
        if pre {
            assert(ts@.take(n as int) =~= ts@);
        }
    }
    Ok(v)
}


/// The bytes of the annotations of one parameter: their count, then each.
pub open spec fn ser_parameter_annotations(v: Vec<Annotation>) -> Seq<u8> {
    be_u16(#[verifier::truncate] (v@.len() as u16)) + ser_annotation_list(v@)
}

/// The annotations of one parameter, as decoding can give them.
pub open spec fn wf_parameter_annotations(v: Vec<Annotation>) -> bool {
    v@.len() <= 0xFFFF && forall|i: int| 0 <= i < v@.len() ==> wf_annotation(#[trigger] v@[i])
}

/// Reads the annotations of one parameter; where the input offers the bytes
/// of a well-formed `t`, it reads them.
pub fn read_parameter_annotations(r: &mut ByteReader, t: Ghost<Vec<Annotation>>) -> (res: Result<Vec<Annotation>, JavaError>)
    requires
        old(r).wf(),
    ensures
        old(r).moved_to(*final(r)),
        final(r).canonical ==> old(r).canonical,
        res matches Ok(v) ==> (final(r).canonical ==> old(r).span(*final(r)) == ser_parameter_annotations(v)),
        old(r).offers(ser_parameter_annotations(t@)) && wf_parameter_annotations(t@) ==> (res is Ok && old(r).took(
            *final(r),
            ser_parameter_annotations(t@),
        )),
{
    let ghost r0 = *r;
    let ghost pre = r0.offers(ser_parameter_annotations(t@)) && wf_parameter_annotations(t@);
    let ghost cnt = be_u16(#[verifier::truncate] (t@@.len() as u16));
    proof {
        if pre {
            lemma_starts_concat(r0.data@, r0.pos as int, cnt, ser_annotation_list(t@@));
        }
    }
    let n = r.read_u16()?;
    let ghost r1 = *r;
    proof {
        if pre {
            assert(r0.span(r1) =~= r0.data@.subrange(r0.pos as int, r0.pos + 2));
            lemma_be_u16_injective(n, #[verifier::truncate] (t@@.len() as u16));
        }
    }
    let v = read_annotation_list(r, n as usize, Ghost(t@@))?;
    proof { lemma_span_split(r.data@, r0.pos as int, r1.pos as int, r.pos as int); }
    Ok(v)
}

/// Writes the annotations of one parameter.
pub fn write_parameter_annotations(out: &mut Vec<u8>, v: &Vec<Annotation>)
    ensures
        final(out)@ == old(out)@ + ser_parameter_annotations(*v),
{
    let ghost start = out@;
    push_u16(out, #[verifier::truncate] (v.len() as u16));
    write_annotation_list(out, v);
    assert(out@ =~= start + ser_parameter_annotations(*v));
}

/// Reads an annotation table: a count, then that many annotations. Where the
/// input offers the bytes of a well-formed table, it reads them.
pub fn read_annotations(r: &mut ByteReader) -> (res: Result<Vec<Annotation>, JavaError>)
    requires
        old(r).wf(),
    ensures
        old(r).moved_to(*final(r)),
        final(r).canonical ==> old(r).canonical,
        res matches Ok(v) ==> (final(r).canonical ==> old(r).span(*final(r)) == ser_parameter_annotations(v)),
        (exists|t: Vec<Annotation>| old(r).offers(ser_parameter_annotations(t)) && wf_parameter_annotations(t)) ==> (
        res is Ok && final(r).canonical),
{
    let ghost t = choose|t: Vec<Annotation>| r.offers(ser_parameter_annotations(t)) && wf_parameter_annotations(t);
    read_parameter_annotations(r, Ghost(t))
}

/// The bytes of each `Vec<Annotation>`, in order.
pub open spec fn ser_parameter_annotations_list(s: Seq<Vec<Annotation>>) -> Seq<u8>
    decreases s.len(),
{
    if s.len() == 0 {
        Seq::empty()
    } else {
        ser_parameter_annotations_list(s.drop_last()) + ser_parameter_annotations(s.last())
    }
}

proof fn lemma_parameter_annotations_list_concat(a: Seq<Vec<Annotation>>, b: Seq<Vec<Annotation>>)
    ensures
        ser_parameter_annotations_list(a + b) == ser_parameter_annotations_list(a) + ser_parameter_annotations_list(b),
    decreases b.len(),
{
    if b.len() == 0 {
        assert(a + b =~= a);
        assert(ser_parameter_annotations_list(a) + ser_parameter_annotations_list(b) =~= ser_parameter_annotations_list(a));
    } else {
        lemma_parameter_annotations_list_concat(a, b.drop_last());
        assert((a + b).drop_last() =~= a + b.drop_last());
    }
}

proof fn lemma_parameter_annotations_list_step(data: Seq<u8>, pos: int, s: Seq<Vec<Annotation>>, k: int)
    requires
        starts_at(data, pos, ser_parameter_annotations_list(s)),
        0 <= k < s.len(),
    ensures
        starts_at(data, pos + ser_parameter_annotations_list(s.take(k)).len(), ser_parameter_annotations(s[k])),
        ser_parameter_annotations_list(s.take(k + 1)) == ser_parameter_annotations_list(s.take(k)) + ser_parameter_annotations(s[k]),
{
    lemma_parameter_annotations_list_concat(s.take(k + 1), s.skip(k + 1));
    assert(s.take(k + 1) + s.skip(k + 1) =~= s);
    assert(s.take(k + 1).drop_last() =~= s.take(k));
    lemma_starts_concat(data, pos, ser_parameter_annotations_list(s.take(k + 1)), ser_parameter_annotations_list(s.skip(k + 1)));
    lemma_starts_concat(data, pos, ser_parameter_annotations_list(s.take(k)), ser_parameter_annotations(s[k]));
}

/// Writes each `Vec<Annotation>`, in order.
pub fn write_parameter_annotations_list(out: &mut Vec<u8>, v: &Vec<Vec<Annotation>>)
    ensures
        final(out)@ == old(out)@ + ser_parameter_annotations_list(v@),
{
    let mut i: usize = 0;
    while i < v.len()
        invariant
            i <= v@.len(),
            out@ == old(out)@ + ser_parameter_annotations_list(v@.take(i as int)),
        decreases v@.len() - i,
    {
        write_parameter_annotations(out, &v[i]);
        assert(v@.take(i + 1).drop_last() =~= v@.take(i as int));
        i = i + 1;
    }
    assert(v@.take(v@.len() as int) =~= v@);
}

/// Reads `n` values of `Vec<Annotation>`; where the input offers the bytes of `ts`,
/// `n` well-formed values, it reads them.
pub fn read_parameter_annotations_list(r: &mut ByteReader, n: usize, ts: Ghost<Seq<Vec<Annotation>>>) -> (res: Result<Vec<Vec<Annotation>>, JavaError>)
    requires
        old(r).wf(),
    ensures
        old(r).moved_to(*final(r)),
        final(r).canonical ==> old(r).canonical,
        res matches Ok(v) ==> v@.len() == n && (final(r).canonical ==> old(r).span(*final(r)) == ser_parameter_annotations_list(v@)),
        old(r).offers(ser_parameter_annotations_list(ts@)) && n == ts@.len() && (forall|i: int| 0 <= i < ts@.len() ==> wf_parameter_annotations(#[trigger] ts@[i]))
            ==> (res matches Ok(v) && old(r).took(*final(r), ser_parameter_annotations_list(ts@))),
{
    let ghost pre = r.offers(ser_parameter_annotations_list(ts@)) && n == ts@.len() && (forall|i: int| 0 <= i < ts@.len() ==> wf_parameter_annotations(#[trigger] ts@[i]));
    let mut v: Vec<Vec<Annotation>> = Vec::new();
    let mut k: usize = 0;
    assert(old(r).span(*r) =~= Seq::<u8>::empty());
    assert(ts@.take(0) =~= Seq::<Vec<Annotation>>::empty());
    while k < n
        invariant
            r.wf(),
            old(r).moved_to(*r),
            r.canonical ==> old(r).canonical,
            k <= n,
            v@.len() == k,
            r.canonical ==> old(r).span(*r) == ser_parameter_annotations_list(v@),
            pre == (old(r).offers(ser_parameter_annotations_list(ts@)) && n == ts@.len() && (forall|i: int| 0 <= i < ts@.len() ==> wf_parameter_annotations(#[trigger] ts@[i]))),
            pre ==> r.canonical && r.pos == old(r).pos + ser_parameter_annotations_list(ts@.take(k as int)).len(),
        decreases n - k,
    {
        let ghost before = *r;
        proof {
            if pre {
                lemma_parameter_annotations_list_step(old(r).data@, old(r).pos as int, ts@, k as int);
                assert(wf_parameter_annotations(ts@[k as int]));
            }
        }
        let x = read_parameter_annotations(r, Ghost(ts@[k as int]))?;
        proof {
            lemma_span_split(r.data@, old(r).pos as int, before.pos as int, r.pos as int);
            assert(v@.push(x).drop_last() =~= v@);
        }
        v.push(x);
        k = k + 1;
    }
    proof {
        if pre {
            assert(ts@.take(n as int) =~= ts@);
        }
    }
    Ok(v)
}


/// What a type annotation applies to; the variant follows the target type.
#[derive(Debug, Clone, PartialEq)]
pub enum TargetInfo {
    TypeParameter { target_type: u8, type_parameter_index: u8 },
    Supertype { supertype_index: u16 },
    TypeParameterBound { target_type: u8, type_parameter_index: u8, bound_index: u8 },
    Empty(u8),
    FormalParameter { formal_parameter_index: u8 },
    Throws { throws_type_index: u16 },
    Localvar { target_type: u8, table: Vec<LocalVar> },
    Catch { exception_table_index: u16 },
    Offset { target_type: u8, offset: u16 },
    TypeArgument { target_type: u8, offset: u16, type_argument_index: u8 },
}

/// The bytes of a target: the target type, then what it carries.
pub open spec fn ser_target_info(t: TargetInfo) -> Seq<u8> {
    match t {
        TargetInfo::TypeParameter { target_type, type_parameter_index } => seq![target_type, type_parameter_index],
        TargetInfo::Supertype { supertype_index } => seq![0x10u8] + be_u16(supertype_index),
        TargetInfo::TypeParameterBound { target_type, type_parameter_index, bound_index } =>
            seq![target_type, type_parameter_index, bound_index],
        TargetInfo::Empty(target_type) => seq![target_type],
        TargetInfo::FormalParameter { formal_parameter_index } => seq![0x16u8, formal_parameter_index],
        TargetInfo::Throws { throws_type_index } => seq![0x17u8] + be_u16(throws_type_index),
        TargetInfo::Localvar { target_type, table } =>
            seq![target_type] + be_u16(#[verifier::truncate] (table@.len() as u16)) + ser_local_var_list(table@),
        TargetInfo::Catch { exception_table_index } => seq![0x42u8] + be_u16(exception_table_index),
        TargetInfo::Offset { target_type, offset } => seq![target_type] + be_u16(offset),
        TargetInfo::TypeArgument { target_type, offset, type_argument_index } =>
            seq![target_type] + be_u16(offset) + seq![type_argument_index],
    }
}

/// A target that decoding can give: its target type belongs to its kind and
/// its table's count fits 16 bits.
pub open spec fn wf_target_info(t: TargetInfo) -> bool {
    match t {
        TargetInfo::TypeParameter { target_type, .. } => target_type == 0x00 || target_type == 0x01,
        TargetInfo::TypeParameterBound { target_type, .. } => target_type == 0x11 || target_type == 0x12,
        TargetInfo::Empty(target_type) => 0x13 <= target_type <= 0x15,
        TargetInfo::Localvar { target_type, table } => (target_type == 0x40 || target_type == 0x41) && table@.len() <= 0xFFFF,
        TargetInfo::Offset { target_type, .. } => 0x43 <= target_type <= 0x46,
        TargetInfo::TypeArgument { target_type, .. } => 0x47 <= target_type <= 0x4B,
        _ => true,
    }
}

/// Reads a target; an unknown target type is an error. Where the input
/// offers the bytes of a well-formed `t`, it reads them.
pub fn read_target_info(r: &mut ByteReader, t: Ghost<TargetInfo>) -> (res: Result<TargetInfo, JavaError>)
    requires
        old(r).wf(),
    ensures
        old(r).moved_to(*final(r)),
        final(r).canonical ==> old(r).canonical,
        res matches Ok(x) ==> (final(r).canonical ==> old(r).span(*final(r)) == ser_target_info(x)),
        old(r).offers(ser_target_info(t@)) && wf_target_info(t@) ==> (res matches Ok(x) && old(r).took(*final(r), ser_target_info(t@))),
{
    let ghost r0 = *r;
    let ghost whole = ser_target_info(t@);
    let ghost pre = r0.offers(whole) && wf_target_info(t@);
    let ghost rest = whole.subrange(1, whole.len() as int);
    proof {
        if pre {
            assert(whole.len() >= 1);
            assert(whole =~= seq![whole[0]] + rest);
            lemma_starts_concat(r0.data@, r0.pos as int, seq![whole[0]], rest);
        }
    }
    let tt = r.read_u8()?;
    let ghost r1 = *r;
    proof {
        if pre {
            assert(r0.span(*r) =~= r0.data@.subrange(r0.pos as int, r0.pos + 1));
            assert(tt == whole[0]);
        }
    }
    let x = if tt == 0x00 || tt == 0x01 {
        let type_parameter_index = r.read_u8()?;
        TargetInfo::TypeParameter { target_type: tt, type_parameter_index }
    } else if tt == 0x10 {
        TargetInfo::Supertype { supertype_index: r.read_u16()? }
    } else if tt == 0x11 || tt == 0x12 {
        let type_parameter_index = r.read_u8()?;
        let ghost r2 = *r;
        let bound_index = r.read_u8()?;
        proof { lemma_span_split(r.data@, r1.pos as int, r2.pos as int, r.pos as int); }
        TargetInfo::TypeParameterBound { target_type: tt, type_parameter_index, bound_index }
    } else if 0x13 <= tt && tt <= 0x15 {
        TargetInfo::Empty(tt)
    } else if tt == 0x16 {
        TargetInfo::FormalParameter { formal_parameter_index: r.read_u8()? }
    } else if tt == 0x17 {
        TargetInfo::Throws { throws_type_index: r.read_u16()? }
    } else if tt == 0x40 || tt == 0x41 {
        let ghost tab = t@->Localvar_table@;
        proof {
            if pre {
                assert(rest =~= be_u16(#[verifier::truncate] (tab.len() as u16)) + ser_local_var_list(tab));
                lemma_starts_concat(r1.data@, r1.pos as int, be_u16(#[verifier::truncate] (tab.len() as u16)), ser_local_var_list(tab));
            }
        }
        let n = r.read_u16()?;
        let ghost r2 = *r;
        proof {
            if pre {
                assert(r1.span(r2) =~= r1.data@.subrange(r1.pos as int, r1.pos + 2));
                lemma_be_u16_injective(n, #[verifier::truncate] (tab.len() as u16));
            }
        }
        let table = read_local_var_list(r, n as usize, Ghost(tab))?;
        proof { lemma_span_split(r.data@, r1.pos as int, r2.pos as int, r.pos as int); }
        TargetInfo::Localvar { target_type: tt, table }
    } else if tt == 0x42 {
        TargetInfo::Catch { exception_table_index: r.read_u16()? }
    } else if 0x43 <= tt && tt <= 0x46 {
        TargetInfo::Offset { target_type: tt, offset: r.read_u16()? }
    } else if 0x47 <= tt && tt <= 0x4B {
        let offset = r.read_u16()?;
        let ghost r2 = *r;
        let type_argument_index = r.read_u8()?;
        proof { lemma_span_split(r.data@, r1.pos as int, r2.pos as int, r.pos as int); }
        TargetInfo::TypeArgument { target_type: tt, offset, type_argument_index }
    } else {
        return Err(JavaError::Malformed);
    };
    proof {
        lemma_span_split(r.data@, r0.pos as int, r1.pos as int, r.pos as int);
        if r1.pos == r.pos {
            assert(r1.span(*r) =~= Seq::<u8>::empty());
        }
        if r.canonical {
            assert(r0.span(*r) =~= ser_target_info(x));
        }
        if pre {
            assert(r0.span(*r) =~= r0.data@.subrange(r0.pos as int, r0.pos + whole.len()));
        }
    }
    Ok(x)
}

/// Writes a target.
pub fn write_target_info(out: &mut Vec<u8>, t: &TargetInfo)
    ensures
        final(out)@ == old(out)@ + ser_target_info(*t),
{
    let ghost start = out@;
    match t {
        TargetInfo::TypeParameter { target_type, type_parameter_index } => {
            push_u8(out, *target_type);
            push_u8(out, *type_parameter_index);
        },
        TargetInfo::Supertype { supertype_index } => {
            push_u8(out, 0x10);
            push_u16(out, *supertype_index);
        },
        TargetInfo::TypeParameterBound { target_type, type_parameter_index, bound_index } => {
            push_u8(out, *target_type);
            push_u8(out, *type_parameter_index);
            push_u8(out, *bound_index);
        },
        TargetInfo::Empty(target_type) => push_u8(out, *target_type),
        TargetInfo::FormalParameter { formal_parameter_index } => {
            push_u8(out, 0x16);
            push_u8(out, *formal_parameter_index);
        },
        TargetInfo::Throws { throws_type_index } => {
            push_u8(out, 0x17);
            push_u16(out, *throws_type_index);
        },
        TargetInfo::Localvar { target_type, table } => {
            push_u8(out, *target_type);
            push_u16(out, #[verifier::truncate] (table.len() as u16));
            write_local_var_list(out, table);
        },
        TargetInfo::Catch { exception_table_index } => {
            push_u8(out, 0x42);
            push_u16(out, *exception_table_index);
        },
        TargetInfo::Offset { target_type, offset } => {
            push_u8(out, *target_type);
            push_u16(out, *offset);
        },
        TargetInfo::TypeArgument { target_type, offset, type_argument_index } => {
            push_u8(out, *target_type);
            push_u16(out, *offset);
            push_u8(out, *type_argument_index);
        },
    }
    assert(out@ =~= start + ser_target_info(*t));
}

/// A type annotation: where it applies, the path into the type, and the annotation.
#[derive(Debug)]
pub struct TypeAnnotation {
    pub target_info: TargetInfo,
    pub target_path: Vec<TypePath>,
    pub annotation: Annotation,
}

/// The bytes of one `TypeAnnotation`.
pub open spec fn ser_type_annotation(x: TypeAnnotation) -> Seq<u8> {
    ser_target_info(x.target_info)
        + seq![#[verifier::truncate] (x.target_path@.len() as u8)]
        + ser_type_path_list(x.target_path@)
        + ser_annotation(x.annotation)
}

/// What decoding guarantees of a `TypeAnnotation`: flag sets that a word unpacks to, counts
/// that fit their fields, parts that decoding guarantees.
pub open spec fn wf_type_annotation(x: TypeAnnotation) -> bool {
    (wf_target_info(x.target_info))
    && (x.target_path@.len() <= 0xFF)
    && (forall|i: int| 0 <= i < x.target_path@.len() ==> wf_type_path(#[trigger] x.target_path@[i]))
    && (wf_annotation(x.annotation))
}

proof fn lemma_type_annotation_pieces(data: Seq<u8>, pos: int, x: TypeAnnotation)
    requires
        starts_at(data, pos, ser_type_annotation(x)),
    ensures
        starts_at(data, pos + 0, ser_target_info(x.target_info)),
        starts_at(data, pos + (ser_target_info(x.target_info)).len(), seq![#[verifier::truncate] (x.target_path@.len() as u8)]),
        starts_at(data, pos + (ser_target_info(x.target_info)).len() + (seq![#[verifier::truncate] (x.target_path@.len() as u8)]).len(), ser_type_path_list(x.target_path@)),
        starts_at(data, pos + (ser_target_info(x.target_info)).len() + (seq![#[verifier::truncate] (x.target_path@.len() as u8)]).len() + (ser_type_path_list(x.target_path@)).len(), ser_annotation(x.annotation)),
{
    lemma_starts_concat(data, pos, ser_target_info(x.target_info) + seq![#[verifier::truncate] (x.target_path@.len() as u8)] + ser_type_path_list(x.target_path@), ser_annotation(x.annotation));
    lemma_starts_concat(data, pos, ser_target_info(x.target_info) + seq![#[verifier::truncate] (x.target_path@.len() as u8)], ser_type_path_list(x.target_path@));
    lemma_starts_concat(data, pos, ser_target_info(x.target_info), seq![#[verifier::truncate] (x.target_path@.len() as u8)]);
}

/// Reads one `TypeAnnotation`; where the input offers the bytes of a well-formed
/// `t`, it reads them.
pub fn read_type_annotation(r: &mut ByteReader, t: Ghost<TypeAnnotation>) -> (res: Result<TypeAnnotation, JavaError>)
    requires
        old(r).wf(),
    ensures
        old(r).moved_to(*final(r)),
        final(r).canonical ==> old(r).canonical,
        res matches Ok(x) ==> (final(r).canonical ==> old(r).span(*final(r)) == ser_type_annotation(x)),
        old(r).offers(ser_type_annotation(t@)) && wf_type_annotation(t@) ==> (res matches Ok(x) && old(r).took(*final(r), ser_type_annotation(t@))
            && ser_type_annotation(x) == ser_type_annotation(t@)),
{
    let ghost at0 = *r;
    let ghost pre = r.offers(ser_type_annotation(t@)) && wf_type_annotation(t@);
    proof { if pre { lemma_type_annotation_pieces(r.data@, r.pos as int, t@); } }
    let target_info = read_target_info(r, Ghost(t@.target_info))?;
    let ghost at1 = *r;
    let target_path_count = r.read_u8()?;
    proof { if pre { assert(at1.span(*r) =~= r.data@.subrange(at1.pos as int, at1.pos + 1)); assert(seq![target_path_count][0] == seq![#[verifier::truncate] (t@.target_path@.len() as u8)][0]); } }
    let ghost at2 = *r;
    let target_path = read_type_path_list(r, target_path_count as usize, Ghost(t@.target_path@))?;
    let ghost at3 = *r;
    let annotation = read_annotation_as(r, Ghost(t@.annotation))?;
    let ghost at4 = *r;
    let x = TypeAnnotation { target_info, target_path, annotation };
    proof {
        lemma_span_split(r.data@, at0.pos as int, at3.pos as int, r.pos as int);
        lemma_span_split(r.data@, at0.pos as int, at2.pos as int, r.pos as int);
        lemma_span_split(r.data@, at0.pos as int, at1.pos as int, r.pos as int);
        if r.canonical {
            assert(at0.span(*r) =~= at0.span(at1) + at1.span(at2) + at2.span(at3) + at3.span(at4));
            assert(at0.span(*r) =~= ser_type_annotation(x));
        }
        if pre {
            assert(at0.span(*r) =~= r.data@.subrange(at0.pos as int, at0.pos + ser_type_annotation(t@).len()));
        }
    }
    Ok(x)
}

/// Writes one `TypeAnnotation`.
pub fn write_type_annotation(out: &mut Vec<u8>, x: &TypeAnnotation)
    ensures
        final(out)@ == old(out)@ + ser_type_annotation(*x),
{
    let ghost start = out@;
    write_target_info(out, &x.target_info);
    push_u8(out, #[verifier::truncate] (x.target_path.len() as u8));
    write_type_path_list(out, &x.target_path);
    write_annotation(out, &x.annotation);
    assert(out@ =~= start + ser_type_annotation(*x));
}

/// The bytes of each `TypeAnnotation`, in order.
pub open spec fn ser_type_annotation_list(s: Seq<TypeAnnotation>) -> Seq<u8>
    decreases s.len(),
{
    if s.len() == 0 {
        Seq::empty()
    } else {
        ser_type_annotation_list(s.drop_last()) + ser_type_annotation(s.last())
    }
}

proof fn lemma_type_annotation_list_concat(a: Seq<TypeAnnotation>, b: Seq<TypeAnnotation>)
    ensures
        ser_type_annotation_list(a + b) == ser_type_annotation_list(a) + ser_type_annotation_list(b),
    decreases b.len(),
{
    if b.len() == 0 {
        assert(a + b =~= a);
        assert(ser_type_annotation_list(a) + ser_type_annotation_list(b) =~= ser_type_annotation_list(a));
    } else {
        lemma_type_annotation_list_concat(a, b.drop_last());
        assert((a + b).drop_last() =~= a + b.drop_last());
    }
}

proof fn lemma_type_annotation_list_step(data: Seq<u8>, pos: int, s: Seq<TypeAnnotation>, k: int)
    requires
        starts_at(data, pos, ser_type_annotation_list(s)),
        0 <= k < s.len(),
    ensures
        starts_at(data, pos + ser_type_annotation_list(s.take(k)).len(), ser_type_annotation(s[k])),
        ser_type_annotation_list(s.take(k + 1)) == ser_type_annotation_list(s.take(k)) + ser_type_annotation(s[k]),
{
    lemma_type_annotation_list_concat(s.take(k + 1), s.skip(k + 1));
    assert(s.take(k + 1) + s.skip(k + 1) =~= s);
    assert(s.take(k + 1).drop_last() =~= s.take(k));
    lemma_starts_concat(data, pos, ser_type_annotation_list(s.take(k + 1)), ser_type_annotation_list(s.skip(k + 1)));
    lemma_starts_concat(data, pos, ser_type_annotation_list(s.take(k)), ser_type_annotation(s[k]));
}

/// Writes each `TypeAnnotation`, in order.
pub fn write_type_annotation_list(out: &mut Vec<u8>, v: &Vec<TypeAnnotation>)
    ensures
        final(out)@ == old(out)@ + ser_type_annotation_list(v@),
{
    let mut i: usize = 0;
    while i < v.len()
        invariant
            i <= v@.len(),
            out@ == old(out)@ + ser_type_annotation_list(v@.take(i as int)),
        decreases v@.len() - i,
    {
        write_type_annotation(out, &v[i]);
        assert(v@.take(i + 1).drop_last() =~= v@.take(i as int));
        i = i + 1;
    }
    assert(v@.take(v@.len() as int) =~= v@);
}

/// Reads `n` values of `TypeAnnotation`; where the input offers the bytes of `ts`,
/// `n` well-formed values, it reads them.
pub fn read_type_annotation_list(r: &mut ByteReader, n: usize, ts: Ghost<Seq<TypeAnnotation>>) -> (res: Result<Vec<TypeAnnotation>, JavaError>)
    requires
        old(r).wf(),
    ensures
        old(r).moved_to(*final(r)),
        final(r).canonical ==> old(r).canonical,
        res matches Ok(v) ==> v@.len() == n && (final(r).canonical ==> old(r).span(*final(r)) == ser_type_annotation_list(v@)),
        old(r).offers(ser_type_annotation_list(ts@)) && n == ts@.len() && (forall|i: int| 0 <= i < ts@.len() ==> wf_type_annotation(#[trigger] ts@[i]))
            ==> (res matches Ok(v) && old(r).took(*final(r), ser_type_annotation_list(ts@))),
{
    let ghost pre = r.offers(ser_type_annotation_list(ts@)) && n == ts@.len() && (forall|i: int| 0 <= i < ts@.len() ==> wf_type_annotation(#[trigger] ts@[i]));
    let mut v: Vec<TypeAnnotation> = Vec::new();
    let mut k: usize = 0;
    assert(old(r).span(*r) =~= Seq::<u8>::empty());
    assert(ts@.take(0) =~= Seq::<TypeAnnotation>::empty());
    while k < n
        invariant
            r.wf(),
            old(r).moved_to(*r),
            r.canonical ==> old(r).canonical,
            k <= n,
            v@.len() == k,
            r.canonical ==> old(r).span(*r) == ser_type_annotation_list(v@),
            pre == (old(r).offers(ser_type_annotation_list(ts@)) && n == ts@.len() && (forall|i: int| 0 <= i < ts@.len() ==> wf_type_annotation(#[trigger] ts@[i]))),
            pre ==> r.canonical && r.pos == old(r).pos + ser_type_annotation_list(ts@.take(k as int)).len(),
        decreases n - k,
    {
        let ghost before = *r;
        proof {
            if pre {
                lemma_type_annotation_list_step(old(r).data@, old(r).pos as int, ts@, k as int);
                assert(wf_type_annotation(ts@[k as int]));
            }
        }
        let x = read_type_annotation(r, Ghost(ts@[k as int]))?;
        proof {
            lemma_span_split(r.data@, old(r).pos as int, before.pos as int, r.pos as int);
            assert(v@.push(x).drop_last() =~= v@);
        }
        v.push(x);
        k = k + 1;
    }
    proof {
        if pre {
            assert(ts@.take(n as int) =~= ts@);
        }
    }
    Ok(v)
}


} // verus!
