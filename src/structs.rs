use vstd::prelude::*;

use crate::bytes::{
    be_u16, be_u32, lemma_be_u16_injective, lemma_span_split, lemma_starts_concat, push_u16, push_u32, push_u8, starts_at,
    ByteReader,
};
use crate::errors::JavaError;
use crate::mapping::{compact_flags, extract_flags, lemma_be_flags, pack, unpack, AccessFlag, FlagContext};

verus! {

/// The big-endian bytes of each value, in order.
pub open spec fn ser_u16s(s: Seq<u16>) -> Seq<u8>
    decreases s.len(),
{
    if s.len() == 0 {
        Seq::empty()
    } else {
        ser_u16s(s.drop_last()) + be_u16(s.last())
    }
}

pub proof fn lemma_ser_u16s_len(s: Seq<u16>)
    ensures
        ser_u16s(s).len() == 2 * s.len(),
    decreases s.len(),
{
    if s.len() > 0 {
        lemma_ser_u16s_len(s.drop_last());
    }
}

/// Writes each value as a big-endian `u16`.
pub fn write_u16s(out: &mut Vec<u8>, v: &Vec<u16>)
    ensures
        final(out)@ == old(out)@ + ser_u16s(v@),
{
    let mut i: usize = 0;
    while i < v.len()
        invariant
            i <= v@.len(),
            out@ == old(out)@ + ser_u16s(v@.take(i as int)),
        decreases v@.len() - i,
    {
        push_u16(out, v[i]);
        assert(v@.take(i + 1).drop_last() =~= v@.take(i as int));
        i = i + 1;
    }
    assert(v@.take(v@.len() as int) =~= v@);
}

/// Reads `n` big-endian `u16` values.
pub fn read_u16s(r: &mut ByteReader, n: usize) -> (res: Result<Vec<u16>, JavaError>)
    requires
        old(r).wf(),
    ensures
        old(r).moved_to(*final(r)),
        final(r).canonical == old(r).canonical,
        res matches Ok(v) ==> v@.len() == n && old(r).span(*final(r)) == ser_u16s(v@),
        2 * n <= old(r).remaining() ==> res is Ok && final(r).pos == old(r).pos + 2 * n,
{
    let mut v: Vec<u16> = Vec::new();
    let mut k: usize = 0;
    assert(old(r).span(*r) =~= Seq::<u8>::empty());
    while k < n
        invariant
            r.wf(),
            old(r).moved_to(*r),
            r.canonical == old(r).canonical,
            k <= n,
            v@.len() == k,
            old(r).span(*r) == ser_u16s(v@),
            r.pos == old(r).pos + 2 * k,
        decreases n - k,
    {
        let ghost before = *r;
        let x = r.read_u16()?;
        proof {
            lemma_span_split(r.data@, old(r).pos as int, before.pos as int, r.pos as int);
            assert(v@.push(x).drop_last() =~= v@);
        }
        v.push(x);
        k = k + 1;
    }
    Ok(v)
}

/// Reads a flag word and unpacks it in `context`. `canonical` stays set
/// exactly where the word has no bit that the context leaves unmapped.
pub fn read_flags(r: &mut ByteReader, context: FlagContext, t: Ghost<Seq<AccessFlag>>) -> (res: Result<Vec<AccessFlag>, JavaError>)
    requires
        old(r).wf(),
    ensures
        old(r).moved_to(*final(r)),
        final(r).canonical ==> old(r).canonical,
        res matches Ok(f) ==> {
            &&& exists|w: u16| old(r).span(*final(r)) == be_u16(w) && f@ == unpack(context, w)
            &&& final(r).canonical == (old(r).canonical && old(r).span(*final(r)) == be_u16(pack(context, f@)))
        },
        old(r).offers(be_u16(pack(context, t@))) && unpack(context, pack(context, t@)) == t@ ==> (res matches Ok(f)
            && f@ == t@ && old(r).took(*final(r), be_u16(pack(context, t@)))),
{
    let ghost r0 = *r;
    let w = r.read_u16()?;
    proof {
        if r0.offers(be_u16(pack(context, t@))) {
            assert(r0.span(*r) =~= r.data@.subrange(r0.pos as int, r0.pos + 2));
            lemma_be_u16_injective(w, pack(context, t@));
        }
    }
    let f = extract_flags(w, context);
    let back = compact_flags(&f, context);
    proof { lemma_be_flags(back, w); }
    if back != w {
        r.canonical = false;
    }
    Ok(f)
}

/// One entry of a `LineNumberTable`.
#[derive(Debug, Clone, Copy, PartialEq, Eq, Structural)]
pub struct LineNumber {
    pub start_pc: u16,
    pub line_number: u16,
}

/// The bytes of one `LineNumber`.
pub open spec fn ser_line_number(x: LineNumber) -> Seq<u8> {
    be_u16(x.start_pc)
        + be_u16(x.line_number)
}

/// What decoding guarantees of a `LineNumber`: flag sets that a word unpacks to, counts
/// that fit their fields, parts that decoding guarantees.
pub open spec fn wf_line_number(x: LineNumber) -> bool {
    true
}

proof fn lemma_line_number_pieces(data: Seq<u8>, pos: int, x: LineNumber)
    requires
        starts_at(data, pos, ser_line_number(x)),
    ensures
        starts_at(data, pos + 0, be_u16(x.start_pc)),
        starts_at(data, pos + (be_u16(x.start_pc)).len(), be_u16(x.line_number)),
{
    lemma_starts_concat(data, pos, be_u16(x.start_pc), be_u16(x.line_number));
}

/// Reads one `LineNumber`; where the input offers the bytes of a well-formed
/// `t`, it reads them.
pub fn read_line_number(r: &mut ByteReader, t: Ghost<LineNumber>) -> (res: Result<LineNumber, JavaError>)
    requires
        old(r).wf(),
    ensures
        old(r).moved_to(*final(r)),
        final(r).canonical ==> old(r).canonical,
        res matches Ok(x) ==> (final(r).canonical ==> old(r).span(*final(r)) == ser_line_number(x)),
        old(r).offers(ser_line_number(t@)) && wf_line_number(t@) ==> (res matches Ok(x) && old(r).took(*final(r), ser_line_number(t@))
            && ser_line_number(x) == ser_line_number(t@)),
{
    let ghost at0 = *r;
    let ghost pre = r.offers(ser_line_number(t@)) && wf_line_number(t@);
    proof { if pre { lemma_line_number_pieces(r.data@, r.pos as int, t@); } }
    let start_pc = r.read_u16()?;
    let ghost at1 = *r;
    let line_number = r.read_u16()?;
    let ghost at2 = *r;
    let x = LineNumber { start_pc, line_number };
    proof {
        lemma_span_split(r.data@, at0.pos as int, at1.pos as int, r.pos as int);
        if r.canonical {
            assert(at0.span(*r) =~= at0.span(at1) + at1.span(at2));
            assert(at0.span(*r) =~= ser_line_number(x));
        }
        if pre {
            assert(at0.span(*r) =~= r.data@.subrange(at0.pos as int, at0.pos + ser_line_number(t@).len()));
        }
    }
    Ok(x)
}

/// Writes one `LineNumber`.
pub fn write_line_number(out: &mut Vec<u8>, x: &LineNumber)
    ensures
        final(out)@ == old(out)@ + ser_line_number(*x),
{
    let ghost start = out@;
    push_u16(out, x.start_pc);
    push_u16(out, x.line_number);
    assert(out@ =~= start + ser_line_number(*x));
}

/// The bytes of each `LineNumber`, in order.
pub open spec fn ser_line_number_list(s: Seq<LineNumber>) -> Seq<u8>
    decreases s.len(),
{
    if s.len() == 0 {
        Seq::empty()
    } else {
        ser_line_number_list(s.drop_last()) + ser_line_number(s.last())
    }
}

proof fn lemma_line_number_list_concat(a: Seq<LineNumber>, b: Seq<LineNumber>)
    ensures
        ser_line_number_list(a + b) == ser_line_number_list(a) + ser_line_number_list(b),
    decreases b.len(),
{
    if b.len() == 0 {
        assert(a + b =~= a);
        assert(ser_line_number_list(a) + ser_line_number_list(b) =~= ser_line_number_list(a));
    } else {
        lemma_line_number_list_concat(a, b.drop_last());
        assert((a + b).drop_last() =~= a + b.drop_last());
    }
}

proof fn lemma_line_number_list_step(data: Seq<u8>, pos: int, s: Seq<LineNumber>, k: int)
    requires
        starts_at(data, pos, ser_line_number_list(s)),
        0 <= k < s.len(),
    ensures
        starts_at(data, pos + ser_line_number_list(s.take(k)).len(), ser_line_number(s[k])),
        ser_line_number_list(s.take(k + 1)) == ser_line_number_list(s.take(k)) + ser_line_number(s[k]),
{
    lemma_line_number_list_concat(s.take(k + 1), s.skip(k + 1));
    assert(s.take(k + 1) + s.skip(k + 1) =~= s);
    assert(s.take(k + 1).drop_last() =~= s.take(k));
    lemma_starts_concat(data, pos, ser_line_number_list(s.take(k + 1)), ser_line_number_list(s.skip(k + 1)));
    lemma_starts_concat(data, pos, ser_line_number_list(s.take(k)), ser_line_number(s[k]));
}

/// Writes each `LineNumber`, in order.
pub fn write_line_number_list(out: &mut Vec<u8>, v: &Vec<LineNumber>)
    ensures
        final(out)@ == old(out)@ + ser_line_number_list(v@),
{
    let mut i: usize = 0;
    while i < v.len()
        invariant
            i <= v@.len(),
            out@ == old(out)@ + ser_line_number_list(v@.take(i as int)),
        decreases v@.len() - i,
    {
        write_line_number(out, &v[i]);
        assert(v@.take(i + 1).drop_last() =~= v@.take(i as int));
        i = i + 1;
    }
    assert(v@.take(v@.len() as int) =~= v@);
}

/// Reads `n` values of `LineNumber`; where the input offers the bytes of `ts`,
/// `n` well-formed values, it reads them.
pub fn read_line_number_list(r: &mut ByteReader, n: usize, ts: Ghost<Seq<LineNumber>>) -> (res: Result<Vec<LineNumber>, JavaError>)
    requires
        old(r).wf(),
    ensures
        old(r).moved_to(*final(r)),
        final(r).canonical ==> old(r).canonical,
        res matches Ok(v) ==> v@.len() == n && (final(r).canonical ==> old(r).span(*final(r)) == ser_line_number_list(v@)),
        old(r).offers(ser_line_number_list(ts@)) && n == ts@.len() && (forall|i: int| 0 <= i < ts@.len() ==> wf_line_number(#[trigger] ts@[i]))
            ==> (res matches Ok(v) && old(r).took(*final(r), ser_line_number_list(ts@))),
{
    let ghost pre = r.offers(ser_line_number_list(ts@)) && n == ts@.len() && (forall|i: int| 0 <= i < ts@.len() ==> wf_line_number(#[trigger] ts@[i]));
    let mut v: Vec<LineNumber> = Vec::new();
    let mut k: usize = 0;
    assert(old(r).span(*r) =~= Seq::<u8>::empty());
    assert(ts@.take(0) =~= Seq::<LineNumber>::empty());
    while k < n
        invariant
            r.wf(),
            old(r).moved_to(*r),
            r.canonical ==> old(r).canonical,
            k <= n,
            v@.len() == k,
            r.canonical ==> old(r).span(*r) == ser_line_number_list(v@),
            pre == (old(r).offers(ser_line_number_list(ts@)) && n == ts@.len() && (forall|i: int| 0 <= i < ts@.len() ==> wf_line_number(#[trigger] ts@[i]))),
            pre ==> r.canonical && r.pos == old(r).pos + ser_line_number_list(ts@.take(k as int)).len(),
        decreases n - k,
    {
        let ghost before = *r;
        proof {
            if pre {
                lemma_line_number_list_step(old(r).data@, old(r).pos as int, ts@, k as int);
                assert(wf_line_number(ts@[k as int]));
            }
        }
        let x = read_line_number(r, Ghost(ts@[k as int]))?;
        proof {
            lemma_span_split(r.data@, old(r).pos as int, before.pos as int, r.pos as int);
            assert(v@.push(x).drop_last() =~= v@);
        }
        v.push(x);
        k = k + 1;
    }
    proof {
        if pre {
            assert(ts@.take(n as int) =~= ts@);
        }
    }
    Ok(v)
}

/// One entry of a `LocalVariableTable`.
#[derive(Debug, Clone, Copy, PartialEq, Eq, Structural)]
pub struct LocalVariable {
    pub start_pc: u16,
    pub length: u16,
    pub name_index: u16,
    pub descriptor_index: u16,
    pub index: u16,
}

/// The bytes of one `LocalVariable`.
pub open spec fn ser_local_variable(x: LocalVariable) -> Seq<u8> {
    be_u16(x.start_pc)
        + be_u16(x.length)
        + be_u16(x.name_index)
        + be_u16(x.descriptor_index)
        + be_u16(x.index)
}

/// What decoding guarantees of a `LocalVariable`: flag sets that a word unpacks to, counts
/// that fit their fields, parts that decoding guarantees.
pub open spec fn wf_local_variable(x: LocalVariable) -> bool {
    true
}

proof fn lemma_local_variable_pieces(data: Seq<u8>, pos: int, x: LocalVariable)
    requires
        starts_at(data, pos, ser_local_variable(x)),
    ensures
        starts_at(data, pos + 0, be_u16(x.start_pc)),
        starts_at(data, pos + (be_u16(x.start_pc)).len(), be_u16(x.length)),
        starts_at(data, pos + (be_u16(x.start_pc)).len() + (be_u16(x.length)).len(), be_u16(x.name_index)),
        starts_at(data, pos + (be_u16(x.start_pc)).len() + (be_u16(x.length)).len() + (be_u16(x.name_index)).len(), be_u16(x.descriptor_index)),
        starts_at(data, pos + (be_u16(x.start_pc)).len() + (be_u16(x.length)).len() + (be_u16(x.name_index)).len() + (be_u16(x.descriptor_index)).len(), be_u16(x.index)),
{
    lemma_starts_concat(data, pos, be_u16(x.start_pc) + be_u16(x.length) + be_u16(x.name_index) + be_u16(x.descriptor_index), be_u16(x.index));
    lemma_starts_concat(data, pos, be_u16(x.start_pc) + be_u16(x.length) + be_u16(x.name_index), be_u16(x.descriptor_index));
    lemma_starts_concat(data, pos, be_u16(x.start_pc) + be_u16(x.length), be_u16(x.name_index));
    lemma_starts_concat(data, pos, be_u16(x.start_pc), be_u16(x.length));
}

/// Reads one `LocalVariable`; where the input offers the bytes of a well-formed
/// `t`, it reads them.
pub fn read_local_variable(r: &mut ByteReader, t: Ghost<LocalVariable>) -> (res: Result<LocalVariable, JavaError>)
    requires
        old(r).wf(),
    ensures
        old(r).moved_to(*final(r)),
        final(r).canonical ==> old(r).canonical,
        res matches Ok(x) ==> (final(r).canonical ==> old(r).span(*final(r)) == ser_local_variable(x)),
        old(r).offers(ser_local_variable(t@)) && wf_local_variable(t@) ==> (res matches Ok(x) && old(r).took(*final(r), ser_local_variable(t@))
            && ser_local_variable(x) == ser_local_variable(t@)),
{
    let ghost at0 = *r;
    let ghost pre = r.offers(ser_local_variable(t@)) && wf_local_variable(t@);
    proof { if pre { lemma_local_variable_pieces(r.data@, r.pos as int, t@); } }
    let start_pc = r.read_u16()?;
    let ghost at1 = *r;
    let length = r.read_u16()?;
    let ghost at2 = *r;
    let name_index = r.read_u16()?;
    let ghost at3 = *r;
    let descriptor_index = r.read_u16()?;
    let ghost at4 = *r;
    let index = r.read_u16()?;
    let ghost at5 = *r;
    let x = LocalVariable { start_pc, length, name_index, descriptor_index, index };
    proof {
        lemma_span_split(r.data@, at0.pos as int, at4.pos as int, r.pos as int);
        lemma_span_split(r.data@, at0.pos as int, at3.pos as int, r.pos as int);
        lemma_span_split(r.data@, at0.pos as int, at2.pos as int, r.pos as int);
        lemma_span_split(r.data@, at0.pos as int, at1.pos as int, r.pos as int);
        if r.canonical {
            assert(at0.span(*r) =~= at0.span(at1) + at1.span(at2) + at2.span(at3) + at3.span(at4) + at4.span(at5));
            assert(at0.span(*r) =~= ser_local_variable(x));
        }
        if pre {
            assert(at0.span(*r) =~= r.data@.subrange(at0.pos as int, at0.pos + ser_local_variable(t@).len()));
        }
    }
    Ok(x)
}

/// Writes one `LocalVariable`.
pub fn write_local_variable(out: &mut Vec<u8>, x: &LocalVariable)
    ensures
        final(out)@ == old(out)@ + ser_local_variable(*x),
{
    let ghost start = out@;
    push_u16(out, x.start_pc);
    push_u16(out, x.length);
    push_u16(out, x.name_index);
    push_u16(out, x.descriptor_index);
    push_u16(out, x.index);
    assert(out@ =~= start + ser_local_variable(*x));
}

/// The bytes of each `LocalVariable`, in order.
pub open spec fn ser_local_variable_list(s: Seq<LocalVariable>) -> Seq<u8>
    decreases s.len(),
{
    if s.len() == 0 {
        Seq::empty()
    } else {
        ser_local_variable_list(s.drop_last()) + ser_local_variable(s.last())
    }
}

proof fn lemma_local_variable_list_concat(a: Seq<LocalVariable>, b: Seq<LocalVariable>)
    ensures
        ser_local_variable_list(a + b) == ser_local_variable_list(a) + ser_local_variable_list(b),
    decreases b.len(),
{
    if b.len() == 0 {
        assert(a + b =~= a);
        assert(ser_local_variable_list(a) + ser_local_variable_list(b) =~= ser_local_variable_list(a));
    } else {
        lemma_local_variable_list_concat(a, b.drop_last());
        assert((a + b).drop_last() =~= a + b.drop_last());
    }
}

proof fn lemma_local_variable_list_step(data: Seq<u8>, pos: int, s: Seq<LocalVariable>, k: int)
    requires
        starts_at(data, pos, ser_local_variable_list(s)),
        0 <= k < s.len(),
    ensures
        starts_at(data, pos + ser_local_variable_list(s.take(k)).len(), ser_local_variable(s[k])),
        ser_local_variable_list(s.take(k + 1)) == ser_local_variable_list(s.take(k)) + ser_local_variable(s[k]),
{
    lemma_local_variable_list_concat(s.take(k + 1), s.skip(k + 1));
    assert(s.take(k + 1) + s.skip(k + 1) =~= s);
    assert(s.take(k + 1).drop_last() =~= s.take(k));
    lemma_starts_concat(data, pos, ser_local_variable_list(s.take(k + 1)), ser_local_variable_list(s.skip(k + 1)));
    lemma_starts_concat(data, pos, ser_local_variable_list(s.take(k)), ser_local_variable(s[k]));
}

/// Writes each `LocalVariable`, in order.
pub fn write_local_variable_list(out: &mut Vec<u8>, v: &Vec<LocalVariable>)
    ensures
        final(out)@ == old(out)@ + ser_local_variable_list(v@),
{
    let mut i: usize = 0;
    while i < v.len()
        invariant
            i <= v@.len(),
            out@ == old(out)@ + ser_local_variable_list(v@.take(i as int)),
        decreases v@.len() - i,
    {
        write_local_variable(out, &v[i]);
        assert(v@.take(i + 1).drop_last() =~= v@.take(i as int));
        i = i + 1;
    }
    assert(v@.take(v@.len() as int) =~= v@);
}

/// Reads `n` values of `LocalVariable`; where the input offers the bytes of `ts`,
/// `n` well-formed values, it reads them.
pub fn read_local_variable_list(r: &mut ByteReader, n: usize, ts: Ghost<Seq<LocalVariable>>) -> (res: Result<Vec<LocalVariable>, JavaError>)
    requires
        old(r).wf(),
    ensures
        old(r).moved_to(*final(r)),
        final(r).canonical ==> old(r).canonical,
        res matches Ok(v) ==> v@.len() == n && (final(r).canonical ==> old(r).span(*final(r)) == ser_local_variable_list(v@)),
        old(r).offers(ser_local_variable_list(ts@)) && n == ts@.len() && (forall|i: int| 0 <= i < ts@.len() ==> wf_local_variable(#[trigger] ts@[i]))
            ==> (res matches Ok(v) && old(r).took(*final(r), ser_local_variable_list(ts@))),
{
    let ghost pre = r.offers(ser_local_variable_list(ts@)) && n == ts@.len() && (forall|i: int| 0 <= i < ts@.len() ==> wf_local_variable(#[trigger] ts@[i]));
    let mut v: Vec<LocalVariable> = Vec::new();
    let mut k: usize = 0;
    assert(old(r).span(*r) =~= Seq::<u8>::empty());
    assert(ts@.take(0) =~= Seq::<LocalVariable>::empty());
    while k < n
        invariant
            r.wf(),
            old(r).moved_to(*r),
            r.canonical ==> old(r).canonical,
            k <= n,
            v@.len() == k,
            r.canonical ==> old(r).span(*r) == ser_local_variable_list(v@),
            pre == (old(r).offers(ser_local_variable_list(ts@)) && n == ts@.len() && (forall|i: int| 0 <= i < ts@.len() ==> wf_local_variable(#[trigger] ts@[i]))),
            pre ==> r.canonical && r.pos == old(r).pos + ser_local_variable_list(ts@.take(k as int)).len(),
        decreases n - k,
    {
        let ghost before = *r;
        proof {
            if pre {
                lemma_local_variable_list_step(old(r).data@, old(r).pos as int, ts@, k as int);
                assert(wf_local_variable(ts@[k as int]));
            }
        }
        let x = read_local_variable(r, Ghost(ts@[k as int]))?;
        proof {
            lemma_span_split(r.data@, old(r).pos as int, before.pos as int, r.pos as int);
            assert(v@.push(x).drop_last() =~= v@);
        }
        v.push(x);
        k = k + 1;
    }
    proof {
        if pre {
            assert(ts@.take(n as int) =~= ts@);
        }
    }
    Ok(v)
}

/// One entry of a `LocalVariableTypeTable`.
#[derive(Debug, Clone, Copy, PartialEq, Eq, Structural)]
pub struct LocalVariableType {
    pub start_pc: u16,
    pub length: u16,
    pub name_index: u16,
    pub signature_index: u16,
    pub index: u16,
}

/// The bytes of one `LocalVariableType`.
pub open spec fn ser_local_variable_type(x: LocalVariableType) -> Seq<u8> {
    be_u16(x.start_pc)
        + be_u16(x.length)
        + be_u16(x.name_index)
        + be_u16(x.signature_index)
        + be_u16(x.index)
}

/// What decoding guarantees of a `LocalVariableType`: flag sets that a word unpacks to, counts
/// that fit their fields, parts that decoding guarantees.
pub open spec fn wf_local_variable_type(x: LocalVariableType) -> bool {
    true
}

proof fn lemma_local_variable_type_pieces(data: Seq<u8>, pos: int, x: LocalVariableType)
    requires
        starts_at(data, pos, ser_local_variable_type(x)),
    ensures
        starts_at(data, pos + 0, be_u16(x.start_pc)),
        starts_at(data, pos + (be_u16(x.start_pc)).len(), be_u16(x.length)),
        starts_at(data, pos + (be_u16(x.start_pc)).len() + (be_u16(x.length)).len(), be_u16(x.name_index)),
        starts_at(data, pos + (be_u16(x.start_pc)).len() + (be_u16(x.length)).len() + (be_u16(x.name_index)).len(), be_u16(x.signature_index)),
        starts_at(data, pos + (be_u16(x.start_pc)).len() + (be_u16(x.length)).len() + (be_u16(x.name_index)).len() + (be_u16(x.signature_index)).len(), be_u16(x.index)),
{
    lemma_starts_concat(data, pos, be_u16(x.start_pc) + be_u16(x.length) + be_u16(x.name_index) + be_u16(x.signature_index), be_u16(x.index));
    lemma_starts_concat(data, pos, be_u16(x.start_pc) + be_u16(x.length) + be_u16(x.name_index), be_u16(x.signature_index));
    lemma_starts_concat(data, pos, be_u16(x.start_pc) + be_u16(x.length), be_u16(x.name_index));
    lemma_starts_concat(data, pos, be_u16(x.start_pc), be_u16(x.length));
}

/// Reads one `LocalVariableType`; where the input offers the bytes of a well-formed
/// `t`, it reads them.
pub fn read_local_variable_type(r: &mut ByteReader, t: Ghost<LocalVariableType>) -> (res: Result<LocalVariableType, JavaError>)
    requires
        old(r).wf(),
    ensures
        old(r).moved_to(*final(r)),
        final(r).canonical ==> old(r).canonical,
        res matches Ok(x) ==> (final(r).canonical ==> old(r).span(*final(r)) == ser_local_variable_type(x)),
        old(r).offers(ser_local_variable_type(t@)) && wf_local_variable_type(t@) ==> (res matches Ok(x) && old(r).took(*final(r), ser_local_variable_type(t@))
            && ser_local_variable_type(x) == ser_local_variable_type(t@)),
{
    let ghost at0 = *r;
    let ghost pre = r.offers(ser_local_variable_type(t@)) && wf_local_variable_type(t@);
    proof { if pre { lemma_local_variable_type_pieces(r.data@, r.pos as int, t@); } }
    let start_pc = r.read_u16()?;
    let ghost at1 = *r;
    let length = r.read_u16()?;
    let ghost at2 = *r;
    let name_index = r.read_u16()?;
    let ghost at3 = *r;
    let signature_index = r.read_u16()?;
    let ghost at4 = *r;
    let index = r.read_u16()?;
    let ghost at5 = *r;
    let x = LocalVariableType { start_pc, length, name_index, signature_index, index };
    proof {
        lemma_span_split(r.data@, at0.pos as int, at4.pos as int, r.pos as int);
        lemma_span_split(r.data@, at0.pos as int, at3.pos as int, r.pos as int);
        lemma_span_split(r.data@, at0.pos as int, at2.pos as int, r.pos as int);
        lemma_span_split(r.data@, at0.pos as int, at1.pos as int, r.pos as int);
        if r.canonical {
            assert(at0.span(*r) =~= at0.span(at1) + at1.span(at2) + at2.span(at3) + at3.span(at4) + at4.span(at5));
            assert(at0.span(*r) =~= ser_local_variable_type(x));
        }
        if pre {
            assert(at0.span(*r) =~= r.data@.subrange(at0.pos as int, at0.pos + ser_local_variable_type(t@).len()));
        }
    }
    Ok(x)
}

/// Writes one `LocalVariableType`.
pub fn write_local_variable_type(out: &mut Vec<u8>, x: &LocalVariableType)
    ensures
        final(out)@ == old(out)@ + ser_local_variable_type(*x),
{
    let ghost start = out@;
    push_u16(out, x.start_pc);
    push_u16(out, x.length);
    push_u16(out, x.name_index);
    push_u16(out, x.signature_index);
    push_u16(out, x.index);
    assert(out@ =~= start + ser_local_variable_type(*x));
}

/// The bytes of each `LocalVariableType`, in order.
pub open spec fn ser_local_variable_type_list(s: Seq<LocalVariableType>) -> Seq<u8>
    decreases s.len(),
{
    if s.len() == 0 {
        Seq::empty()
    } else {
        ser_local_variable_type_list(s.drop_last()) + ser_local_variable_type(s.last())
    }
}

proof fn lemma_local_variable_type_list_concat(a: Seq<LocalVariableType>, b: Seq<LocalVariableType>)
    ensures
        ser_local_variable_type_list(a + b) == ser_local_variable_type_list(a) + ser_local_variable_type_list(b),
    decreases b.len(),
{
    if b.len() == 0 {
        assert(a + b =~= a);
        assert(ser_local_variable_type_list(a) + ser_local_variable_type_list(b) =~= ser_local_variable_type_list(a));
    } else {
        lemma_local_variable_type_list_concat(a, b.drop_last());
        assert((a + b).drop_last() =~= a + b.drop_last());
    }
}

proof fn lemma_local_variable_type_list_step(data: Seq<u8>, pos: int, s: Seq<LocalVariableType>, k: int)
    requires
        starts_at(data, pos, ser_local_variable_type_list(s)),
        0 <= k < s.len(),
    ensures
        starts_at(data, pos + ser_local_variable_type_list(s.take(k)).len(), ser_local_variable_type(s[k])),
        ser_local_variable_type_list(s.take(k + 1)) == ser_local_variable_type_list(s.take(k)) + ser_local_variable_type(s[k]),
{
    lemma_local_variable_type_list_concat(s.take(k + 1), s.skip(k + 1));
    assert(s.take(k + 1) + s.skip(k + 1) =~= s);
    assert(s.take(k + 1).drop_last() =~= s.take(k));
    lemma_starts_concat(data, pos, ser_local_variable_type_list(s.take(k + 1)), ser_local_variable_type_list(s.skip(k + 1)));
    lemma_starts_concat(data, pos, ser_local_variable_type_list(s.take(k)), ser_local_variable_type(s[k]));
}

/// Writes each `LocalVariableType`, in order.
pub fn write_local_variable_type_list(out: &mut Vec<u8>, v: &Vec<LocalVariableType>)
    ensures
        final(out)@ == old(out)@ + ser_local_variable_type_list(v@),
{
    let mut i: usize = 0;
    while i < v.len()
        invariant
            i <= v@.len(),
            out@ == old(out)@ + ser_local_variable_type_list(v@.take(i as int)),
        decreases v@.len() - i,
    {
        write_local_variable_type(out, &v[i]);
        assert(v@.take(i + 1).drop_last() =~= v@.take(i as int));
        i = i + 1;
    }
    assert(v@.take(v@.len() as int) =~= v@);
}

/// Reads `n` values of `LocalVariableType`; where the input offers the bytes of `ts`,
/// `n` well-formed values, it reads them.
pub fn read_local_variable_type_list(r: &mut ByteReader, n: usize, ts: Ghost<Seq<LocalVariableType>>) -> (res: Result<Vec<LocalVariableType>, JavaError>)
    requires
        old(r).wf(),
    ensures
        old(r).moved_to(*final(r)),
        final(r).canonical ==> old(r).canonical,
        res matches Ok(v) ==> v@.len() == n && (final(r).canonical ==> old(r).span(*final(r)) == ser_local_variable_type_list(v@)),
        old(r).offers(ser_local_variable_type_list(ts@)) && n == ts@.len() && (forall|i: int| 0 <= i < ts@.len() ==> wf_local_variable_type(#[trigger] ts@[i]))
            ==> (res matches Ok(v) && old(r).took(*final(r), ser_local_variable_type_list(ts@))),
{
    let ghost pre = r.offers(ser_local_variable_type_list(ts@)) && n == ts@.len() && (forall|i: int| 0 <= i < ts@.len() ==> wf_local_variable_type(#[trigger] ts@[i]));
    let mut v: Vec<LocalVariableType> = Vec::new();
    let mut k: usize = 0;
    assert(old(r).span(*r) =~= Seq::<u8>::empty());
    assert(ts@.take(0) =~= Seq::<LocalVariableType>::empty());
    while k < n
        invariant
            r.wf(),
            old(r).moved_to(*r),
            r.canonical ==> old(r).canonical,
            k <= n,
            v@.len() == k,
            r.canonical ==> old(r).span(*r) == ser_local_variable_type_list(v@),
            pre == (old(r).offers(ser_local_variable_type_list(ts@)) && n == ts@.len() && (forall|i: int| 0 <= i < ts@.len() ==> wf_local_variable_type(#[trigger] ts@[i]))),
            pre ==> r.canonical && r.pos == old(r).pos + ser_local_variable_type_list(ts@.take(k as int)).len(),
        decreases n - k,
    {
        let ghost before = *r;
        proof {
            if pre {
                lemma_local_variable_type_list_step(old(r).data@, old(r).pos as int, ts@, k as int);
                assert(wf_local_variable_type(ts@[k as int]));
            }
        }
        let x = read_local_variable_type(r, Ghost(ts@[k as int]))?;
        proof {
            lemma_span_split(r.data@, old(r).pos as int, before.pos as int, r.pos as int);
            assert(v@.push(x).drop_last() =~= v@);
        }
        v.push(x);
        k = k + 1;
    }
    proof {
        if pre {
            assert(ts@.take(n as int) =~= ts@);
        }
    }
    Ok(v)
}

/// One handler of a `Code` attribute.
#[derive(Debug, Clone, Copy, PartialEq, Eq, Structural)]
pub struct ExceptionTableEntry {
    pub start_pc: u16,
    pub end_pc: u16,
    pub handler_pc: u16,
    pub catch_type: u16,
}

/// The bytes of one `ExceptionTableEntry`.
pub open spec fn ser_exception_table_entry(x: ExceptionTableEntry) -> Seq<u8> {
    be_u16(x.start_pc)
        + be_u16(x.end_pc)
        + be_u16(x.handler_pc)
        + be_u16(x.catch_type)
}

/// What decoding guarantees of a `ExceptionTableEntry`: flag sets that a word unpacks to, counts
/// that fit their fields, parts that decoding guarantees.
pub open spec fn wf_exception_table_entry(x: ExceptionTableEntry) -> bool {
    true
}

proof fn lemma_exception_table_entry_pieces(data: Seq<u8>, pos: int, x: ExceptionTableEntry)
    requires
        starts_at(data, pos, ser_exception_table_entry(x)),
    ensures
        starts_at(data, pos + 0, be_u16(x.start_pc)),
        starts_at(data, pos + (be_u16(x.start_pc)).len(), be_u16(x.end_pc)),
        starts_at(data, pos + (be_u16(x.start_pc)).len() + (be_u16(x.end_pc)).len(), be_u16(x.handler_pc)),
        starts_at(data, pos + (be_u16(x.start_pc)).len() + (be_u16(x.end_pc)).len() + (be_u16(x.handler_pc)).len(), be_u16(x.catch_type)),
{
    lemma_starts_concat(data, pos, be_u16(x.start_pc) + be_u16(x.end_pc) + be_u16(x.handler_pc), be_u16(x.catch_type));
    lemma_starts_concat(data, pos, be_u16(x.start_pc) + be_u16(x.end_pc), be_u16(x.handler_pc));
    lemma_starts_concat(data, pos, be_u16(x.start_pc), be_u16(x.end_pc));
}

/// Reads one `ExceptionTableEntry`; where the input offers the bytes of a well-formed
/// `t`, it reads them.
pub fn read_exception_table_entry(r: &mut ByteReader, t: Ghost<ExceptionTableEntry>) -> (res: Result<ExceptionTableEntry, JavaError>)
    requires
        old(r).wf(),
    ensures
        old(r).moved_to(*final(r)),
        final(r).canonical ==> old(r).canonical,
        res matches Ok(x) ==> (final(r).canonical ==> old(r).span(*final(r)) == ser_exception_table_entry(x)),
        old(r).offers(ser_exception_table_entry(t@)) && wf_exception_table_entry(t@) ==> (res matches Ok(x) && old(r).took(*final(r), ser_exception_table_entry(t@))
            && ser_exception_table_entry(x) == ser_exception_table_entry(t@)),
{
    let ghost at0 = *r;
    let ghost pre = r.offers(ser_exception_table_entry(t@)) && wf_exception_table_entry(t@);
    proof { if pre { lemma_exception_table_entry_pieces(r.data@, r.pos as int, t@); } }
    let start_pc = r.read_u16()?;
    let ghost at1 = *r;
    let end_pc = r.read_u16()?;
    let ghost at2 = *r;
    let handler_pc = r.read_u16()?;
    let ghost at3 = *r;
    let catch_type = r.read_u16()?;
    let ghost at4 = *r;
    let x = ExceptionTableEntry { start_pc, end_pc, handler_pc, catch_type };
    proof {
        lemma_span_split(r.data@, at0.pos as int, at3.pos as int, r.pos as int);
        lemma_span_split(r.data@, at0.pos as int, at2.pos as int, r.pos as int);
        lemma_span_split(r.data@, at0.pos as int, at1.pos as int, r.pos as int);
        if r.canonical {
            assert(at0.span(*r) =~= at0.span(at1) + at1.span(at2) + at2.span(at3) + at3.span(at4));
            assert(at0.span(*r) =~= ser_exception_table_entry(x));
        }
        if pre {
            assert(at0.span(*r) =~= r.data@.subrange(at0.pos as int, at0.pos + ser_exception_table_entry(t@).len()));
        }
    }
    Ok(x)
}

/// Writes one `ExceptionTableEntry`.
pub fn write_exception_table_entry(out: &mut Vec<u8>, x: &ExceptionTableEntry)
    ensures
        final(out)@ == old(out)@ + ser_exception_table_entry(*x),
{
    let ghost start = out@;
    push_u16(out, x.start_pc);
    push_u16(out, x.end_pc);
    push_u16(out, x.handler_pc);
    push_u16(out, x.catch_type);
    assert(out@ =~= start + ser_exception_table_entry(*x));
}

/// The bytes of each `ExceptionTableEntry`, in order.
pub open spec fn ser_exception_table_entry_list(s: Seq<ExceptionTableEntry>) -> Seq<u8>
    decreases s.len(),
{
    if s.len() == 0 {
        Seq::empty()
    } else {
        ser_exception_table_entry_list(s.drop_last()) + ser_exception_table_entry(s.last())
    }
}

proof fn lemma_exception_table_entry_list_concat(a: Seq<ExceptionTableEntry>, b: Seq<ExceptionTableEntry>)
    ensures
        ser_exception_table_entry_list(a + b) == ser_exception_table_entry_list(a) + ser_exception_table_entry_list(b),
    decreases b.len(),
{
    if b.len() == 0 {
        assert(a + b =~= a);
        assert(ser_exception_table_entry_list(a) + ser_exception_table_entry_list(b) =~= ser_exception_table_entry_list(a));
    } else {
        lemma_exception_table_entry_list_concat(a, b.drop_last());
        assert((a + b).drop_last() =~= a + b.drop_last());
    }
}

proof fn lemma_exception_table_entry_list_step(data: Seq<u8>, pos: int, s: Seq<ExceptionTableEntry>, k: int)
    requires
        starts_at(data, pos, ser_exception_table_entry_list(s)),
        0 <= k < s.len(),
    ensures
        starts_at(data, pos + ser_exception_table_entry_list(s.take(k)).len(), ser_exception_table_entry(s[k])),
        ser_exception_table_entry_list(s.take(k + 1)) == ser_exception_table_entry_list(s.take(k)) + ser_exception_table_entry(s[k]),
{
    lemma_exception_table_entry_list_concat(s.take(k + 1), s.skip(k + 1));
    assert(s.take(k + 1) + s.skip(k + 1) =~= s);
    assert(s.take(k + 1).drop_last() =~= s.take(k));
    lemma_starts_concat(data, pos, ser_exception_table_entry_list(s.take(k + 1)), ser_exception_table_entry_list(s.skip(k + 1)));
    lemma_starts_concat(data, pos, ser_exception_table_entry_list(s.take(k)), ser_exception_table_entry(s[k]));
}

/// Writes each `ExceptionTableEntry`, in order.
pub fn write_exception_table_entry_list(out: &mut Vec<u8>, v: &Vec<ExceptionTableEntry>)
    ensures
        final(out)@ == old(out)@ + ser_exception_table_entry_list(v@),
{
    let mut i: usize = 0;
    while i < v.len()
        invariant
            i <= v@.len(),
            out@ == old(out)@ + ser_exception_table_entry_list(v@.take(i as int)),
        decreases v@.len() - i,
    {
        write_exception_table_entry(out, &v[i]);
        assert(v@.take(i + 1).drop_last() =~= v@.take(i as int));
        i = i + 1;
    }
    assert(v@.take(v@.len() as int) =~= v@);
}

/// Reads `n` values of `ExceptionTableEntry`; where the input offers the bytes of `ts`,
/// `n` well-formed values, it reads them.
pub fn read_exception_table_entry_list(r: &mut ByteReader, n: usize, ts: Ghost<Seq<ExceptionTableEntry>>) -> (res: Result<Vec<ExceptionTableEntry>, JavaError>)
    requires
        old(r).wf(),
    ensures
        old(r).moved_to(*final(r)),
        final(r).canonical ==> old(r).canonical,
        res matches Ok(v) ==> v@.len() == n && (final(r).canonical ==> old(r).span(*final(r)) == ser_exception_table_entry_list(v@)),
        old(r).offers(ser_exception_table_entry_list(ts@)) && n == ts@.len() && (forall|i: int| 0 <= i < ts@.len() ==> wf_exception_table_entry(#[trigger] ts@[i]))
            ==> (res matches Ok(v) && old(r).took(*final(r), ser_exception_table_entry_list(ts@))),
{
    let ghost pre = r.offers(ser_exception_table_entry_list(ts@)) && n == ts@.len() && (forall|i: int| 0 <= i < ts@.len() ==> wf_exception_table_entry(#[trigger] ts@[i]));
    let mut v: Vec<ExceptionTableEntry> = Vec::new();
    let mut k: usize = 0;
    assert(old(r).span(*r) =~= Seq::<u8>::empty());
    assert(ts@.take(0) =~= Seq::<ExceptionTableEntry>::empty());
    while k < n
        invariant
            r.wf(),
            old(r).moved_to(*r),
            r.canonical ==> old(r).canonical,
            k <= n,
            v@.len() == k,
            r.canonical ==> old(r).span(*r) == ser_exception_table_entry_list(v@),
            pre == (old(r).offers(ser_exception_table_entry_list(ts@)) && n == ts@.len() && (forall|i: int| 0 <= i < ts@.len() ==> wf_exception_table_entry(#[trigger] ts@[i]))),
            pre ==> r.canonical && r.pos == old(r).pos + ser_exception_table_entry_list(ts@.take(k as int)).len(),
        decreases n - k,
    {
        let ghost before = *r;
        proof {
            if pre {
                lemma_exception_table_entry_list_step(old(r).data@, old(r).pos as int, ts@, k as int);
                assert(wf_exception_table_entry(ts@[k as int]));
            }
        }
        let x = read_exception_table_entry(r, Ghost(ts@[k as int]))?;
        proof {
            lemma_span_split(r.data@, old(r).pos as int, before.pos as int, r.pos as int);
            assert(v@.push(x).drop_last() =~= v@);
        }
        v.push(x);
        k = k + 1;
    }
    proof {
        if pre {
            assert(ts@.take(n as int) =~= ts@);
        }
    }
    Ok(v)
}

/// One entry of an `InnerClasses` attribute.
#[derive(Debug, Clone, PartialEq)]
pub struct InnerClass {
    pub inner_class_info_index: u16,
    pub outer_class_info_index: u16,
    pub inner_name_index: u16,
    pub inner_class_access_flags: Vec<AccessFlag>,
}

/// The bytes of one `InnerClass`.
pub open spec fn ser_inner_class(x: InnerClass) -> Seq<u8> {
    be_u16(x.inner_class_info_index)
        + be_u16(x.outer_class_info_index)
        + be_u16(x.inner_name_index)
        + be_u16(pack(FlagContext::InnerClass, x.inner_class_access_flags@))
}

/// What decoding guarantees of a `InnerClass`: flag sets that a word unpacks to, counts
/// that fit their fields, parts that decoding guarantees.
pub open spec fn wf_inner_class(x: InnerClass) -> bool {
    (unpack(FlagContext::InnerClass, pack(FlagContext::InnerClass, x.inner_class_access_flags@)) == x.inner_class_access_flags@)
}

proof fn lemma_inner_class_pieces(data: Seq<u8>, pos: int, x: InnerClass)
    requires
        starts_at(data, pos, ser_inner_class(x)),
    ensures
        starts_at(data, pos + 0, be_u16(x.inner_class_info_index)),
        starts_at(data, pos + (be_u16(x.inner_class_info_index)).len(), be_u16(x.outer_class_info_index)),
        starts_at(data, pos + (be_u16(x.inner_class_info_index)).len() + (be_u16(x.outer_class_info_index)).len(), be_u16(x.inner_name_index)),
        starts_at(data, pos + (be_u16(x.inner_class_info_index)).len() + (be_u16(x.outer_class_info_index)).len() + (be_u16(x.inner_name_index)).len(), be_u16(pack(FlagContext::InnerClass, x.inner_class_access_flags@))),
{
    lemma_starts_concat(data, pos, be_u16(x.inner_class_info_index) + be_u16(x.outer_class_info_index) + be_u16(x.inner_name_index), be_u16(pack(FlagContext::InnerClass, x.inner_class_access_flags@)));
    lemma_starts_concat(data, pos, be_u16(x.inner_class_info_index) + be_u16(x.outer_class_info_index), be_u16(x.inner_name_index));
    lemma_starts_concat(data, pos, be_u16(x.inner_class_info_index), be_u16(x.outer_class_info_index));
}

/// Reads one `InnerClass`; where the input offers the bytes of a well-formed
/// `t`, it reads them.
pub fn read_inner_class(r: &mut ByteReader, t: Ghost<InnerClass>) -> (res: Result<InnerClass, JavaError>)
    requires
        old(r).wf(),
    ensures
        old(r).moved_to(*final(r)),
        final(r).canonical ==> old(r).canonical,
        res matches Ok(x) ==> (final(r).canonical ==> old(r).span(*final(r)) == ser_inner_class(x)),
        old(r).offers(ser_inner_class(t@)) && wf_inner_class(t@) ==> (res matches Ok(x) && old(r).took(*final(r), ser_inner_class(t@))
            && ser_inner_class(x) == ser_inner_class(t@)),
{
    let ghost at0 = *r;
    let ghost pre = r.offers(ser_inner_class(t@)) && wf_inner_class(t@);
    proof { if pre { lemma_inner_class_pieces(r.data@, r.pos as int, t@); } }
    let inner_class_info_index = r.read_u16()?;
    let ghost at1 = *r;
    let outer_class_info_index = r.read_u16()?;
    let ghost at2 = *r;
    let inner_name_index = r.read_u16()?;
    let ghost at3 = *r;
    let inner_class_access_flags = read_flags(r, FlagContext::InnerClass, Ghost(t@.inner_class_access_flags@))?;
    let ghost at4 = *r;
    let x = InnerClass { inner_class_info_index, outer_class_info_index, inner_name_index, inner_class_access_flags };
    proof {
        lemma_span_split(r.data@, at0.pos as int, at3.pos as int, r.pos as int);
        lemma_span_split(r.data@, at0.pos as int, at2.pos as int, r.pos as int);
        lemma_span_split(r.data@, at0.pos as int, at1.pos as int, r.pos as int);
        if r.canonical {
            assert(at0.span(*r) =~= at0.span(at1) + at1.span(at2) + at2.span(at3) + at3.span(at4));
            assert(at0.span(*r) =~= ser_inner_class(x));
        }
        if pre {
            assert(at0.span(*r) =~= r.data@.subrange(at0.pos as int, at0.pos + ser_inner_class(t@).len()));
        }
    }
    Ok(x)
}

/// Writes one `InnerClass`.
pub fn write_inner_class(out: &mut Vec<u8>, x: &InnerClass)
    ensures
        final(out)@ == old(out)@ + ser_inner_class(*x),
{
    let ghost start = out@;
    push_u16(out, x.inner_class_info_index);
    push_u16(out, x.outer_class_info_index);
    push_u16(out, x.inner_name_index);
    push_u16(out, compact_flags(&x.inner_class_access_flags, FlagContext::InnerClass));
    assert(out@ =~= start + ser_inner_class(*x));
}

/// The bytes of each `InnerClass`, in order.
pub open spec fn ser_inner_class_list(s: Seq<InnerClass>) -> Seq<u8>
    decreases s.len(),
{
    if s.len() == 0 {
        Seq::empty()
    } else {
        ser_inner_class_list(s.drop_last()) + ser_inner_class(s.last())
    }
}

proof fn lemma_inner_class_list_concat(a: Seq<InnerClass>, b: Seq<InnerClass>)
    ensures
        ser_inner_class_list(a + b) == ser_inner_class_list(a) + ser_inner_class_list(b),
    decreases b.len(),
{
    if b.len() == 0 {
        assert(a + b =~= a);
        assert(ser_inner_class_list(a) + ser_inner_class_list(b) =~= ser_inner_class_list(a));
    } else {
        lemma_inner_class_list_concat(a, b.drop_last());
        assert((a + b).drop_last() =~= a + b.drop_last());
    }
}

proof fn lemma_inner_class_list_step(data: Seq<u8>, pos: int, s: Seq<InnerClass>, k: int)
    requires
        starts_at(data, pos, ser_inner_class_list(s)),
        0 <= k < s.len(),
    ensures
        starts_at(data, pos + ser_inner_class_list(s.take(k)).len(), ser_inner_class(s[k])),
        ser_inner_class_list(s.take(k + 1)) == ser_inner_class_list(s.take(k)) + ser_inner_class(s[k]),
{
    lemma_inner_class_list_concat(s.take(k + 1), s.skip(k + 1));
    assert(s.take(k + 1) + s.skip(k + 1) =~= s);
    assert(s.take(k + 1).drop_last() =~= s.take(k));
    lemma_starts_concat(data, pos, ser_inner_class_list(s.take(k + 1)), ser_inner_class_list(s.skip(k + 1)));
    lemma_starts_concat(data, pos, ser_inner_class_list(s.take(k)), ser_inner_class(s[k]));
}

/// Writes each `InnerClass`, in order.
pub fn write_inner_class_list(out: &mut Vec<u8>, v: &Vec<InnerClass>)
    ensures
        final(out)@ == old(out)@ + ser_inner_class_list(v@),
{
    let mut i: usize = 0;
    while i < v.len()
        invariant
            i <= v@.len(),
            out@ == old(out)@ + ser_inner_class_list(v@.take(i as int)),
        decreases v@.len() - i,
    {
        write_inner_class(out, &v[i]);
        assert(v@.take(i + 1).drop_last() =~= v@.take(i as int));
        i = i + 1;
    }
    assert(v@.take(v@.len() as int) =~= v@);
}

/// Reads `n` values of `InnerClass`; where the input offers the bytes of `ts`,
/// `n` well-formed values, it reads them.
pub fn read_inner_class_list(r: &mut ByteReader, n: usize, ts: Ghost<Seq<InnerClass>>) -> (res: Result<Vec<InnerClass>, JavaError>)
    requires
        old(r).wf(),
    ensures
        old(r).moved_to(*final(r)),
        final(r).canonical ==> old(r).canonical,
        res matches Ok(v) ==> v@.len() == n && (final(r).canonical ==> old(r).span(*final(r)) == ser_inner_class_list(v@)),
        old(r).offers(ser_inner_class_list(ts@)) && n == ts@.len() && (forall|i: int| 0 <= i < ts@.len() ==> wf_inner_class(#[trigger] ts@[i]))
            ==> (res matches Ok(v) && old(r).took(*final(r), ser_inner_class_list(ts@))),
{
    let ghost pre = r.offers(ser_inner_class_list(ts@)) && n == ts@.len() && (forall|i: int| 0 <= i < ts@.len() ==> wf_inner_class(#[trigger] ts@[i]));
    let mut v: Vec<InnerClass> = Vec::new();
    let mut k: usize = 0;
    assert(old(r).span(*r) =~= Seq::<u8>::empty());
    assert(ts@.take(0) =~= Seq::<InnerClass>::empty());
    while k < n
        invariant
            r.wf(),
            old(r).moved_to(*r),
            r.canonical ==> old(r).canonical,
            k <= n,
            v@.len() == k,
            r.canonical ==> old(r).span(*r) == ser_inner_class_list(v@),
            pre == (old(r).offers(ser_inner_class_list(ts@)) && n == ts@.len() && (forall|i: int| 0 <= i < ts@.len() ==> wf_inner_class(#[trigger] ts@[i]))),
            pre ==> r.canonical && r.pos == old(r).pos + ser_inner_class_list(ts@.take(k as int)).len(),
        decreases n - k,
    {
        let ghost before = *r;
        proof {
            if pre {
                lemma_inner_class_list_step(old(r).data@, old(r).pos as int, ts@, k as int);
                assert(wf_inner_class(ts@[k as int]));
            }
        }
        let x = read_inner_class(r, Ghost(ts@[k as int]))?;
        proof {
            lemma_span_split(r.data@, old(r).pos as int, before.pos as int, r.pos as int);
            assert(v@.push(x).drop_last() =~= v@);
        }
        v.push(x);
        k = k + 1;
    }
    proof {
        if pre {
            assert(ts@.take(n as int) =~= ts@);
        }
    }
    Ok(v)
}

/// One entry of a `BootstrapMethods` attribute.
#[derive(Debug, Clone, PartialEq)]
pub struct BootstrapMethod {
    pub bootstrap_method_ref: u16,
    pub bootstrap_arguments: Vec<u16>,
}

/// The bytes of one `BootstrapMethod`.
pub open spec fn ser_bootstrap_method(x: BootstrapMethod) -> Seq<u8> {
    be_u16(x.bootstrap_method_ref)
        + be_u16(#[verifier::truncate] (x.bootstrap_arguments@.len() as u16))
        + ser_u16s(x.bootstrap_arguments@)
}

/// What decoding guarantees of a `BootstrapMethod`: flag sets that a word unpacks to, counts
/// that fit their fields, parts that decoding guarantees.
pub open spec fn wf_bootstrap_method(x: BootstrapMethod) -> bool {
    (x.bootstrap_arguments@.len() <= 0xFFFF)
}

proof fn lemma_bootstrap_method_pieces(data: Seq<u8>, pos: int, x: BootstrapMethod)
    requires
        starts_at(data, pos, ser_bootstrap_method(x)),
    ensures
        starts_at(data, pos + 0, be_u16(x.bootstrap_method_ref)),
        starts_at(data, pos + (be_u16(x.bootstrap_method_ref)).len(), be_u16(#[verifier::truncate] (x.bootstrap_arguments@.len() as u16))),
        starts_at(data, pos + (be_u16(x.bootstrap_method_ref)).len() + (be_u16(#[verifier::truncate] (x.bootstrap_arguments@.len() as u16))).len(), ser_u16s(x.bootstrap_arguments@)),
{
    lemma_starts_concat(data, pos, be_u16(x.bootstrap_method_ref) + be_u16(#[verifier::truncate] (x.bootstrap_arguments@.len() as u16)), ser_u16s(x.bootstrap_arguments@));
    lemma_starts_concat(data, pos, be_u16(x.bootstrap_method_ref), be_u16(#[verifier::truncate] (x.bootstrap_arguments@.len() as u16)));
}

/// Reads one `BootstrapMethod`; where the input offers the bytes of a well-formed
/// `t`, it reads them.
pub fn read_bootstrap_method(r: &mut ByteReader, t: Ghost<BootstrapMethod>) -> (res: Result<BootstrapMethod, JavaError>)
    requires
        old(r).wf(),
    ensures
        old(r).moved_to(*final(r)),
        final(r).canonical ==> old(r).canonical,
        res matches Ok(x) ==> (final(r).canonical ==> old(r).span(*final(r)) == ser_bootstrap_method(x)),
        old(r).offers(ser_bootstrap_method(t@)) && wf_bootstrap_method(t@) ==> (res matches Ok(x) && old(r).took(*final(r), ser_bootstrap_method(t@))
            && ser_bootstrap_method(x) == ser_bootstrap_method(t@)),
{
    let ghost at0 = *r;
    let ghost pre = r.offers(ser_bootstrap_method(t@)) && wf_bootstrap_method(t@);
    proof { if pre { lemma_bootstrap_method_pieces(r.data@, r.pos as int, t@); } }
    let bootstrap_method_ref = r.read_u16()?;
    let ghost at1 = *r;
    let bootstrap_arguments_count = r.read_u16()?;
    proof { if pre { assert(at1.span(*r) =~= r.data@.subrange(at1.pos as int, at1.pos + 2)); lemma_be_u16_injective(bootstrap_arguments_count, #[verifier::truncate] (t@.bootstrap_arguments@.len() as u16)); } }
    let ghost at2 = *r;
    proof { if pre { lemma_ser_u16s_len(t@.bootstrap_arguments@); } }
    let bootstrap_arguments = read_u16s(r, bootstrap_arguments_count as usize)?;
    let ghost at3 = *r;
    let x = BootstrapMethod { bootstrap_method_ref, bootstrap_arguments };
    proof {
        lemma_span_split(r.data@, at0.pos as int, at2.pos as int, r.pos as int);
        lemma_span_split(r.data@, at0.pos as int, at1.pos as int, r.pos as int);
        if r.canonical {
            assert(at0.span(*r) =~= at0.span(at1) + at1.span(at2) + at2.span(at3));
            assert(at0.span(*r) =~= ser_bootstrap_method(x));
        }
        if pre {
            assert(at0.span(*r) =~= r.data@.subrange(at0.pos as int, at0.pos + ser_bootstrap_method(t@).len()));
        }
    }
    Ok(x)
}

/// Writes one `BootstrapMethod`.
pub fn write_bootstrap_method(out: &mut Vec<u8>, x: &BootstrapMethod)
    ensures
        final(out)@ == old(out)@ + ser_bootstrap_method(*x),
{
    let ghost start = out@;
    push_u16(out, x.bootstrap_method_ref);
    push_u16(out, #[verifier::truncate] (x.bootstrap_arguments.len() as u16));
    write_u16s(out, &x.bootstrap_arguments);
    assert(out@ =~= start + ser_bootstrap_method(*x));
}

/// The bytes of each `BootstrapMethod`, in order.
pub open spec fn ser_bootstrap_method_list(s: Seq<BootstrapMethod>) -> Seq<u8>
    decreases s.len(),
{
    if s.len() == 0 {
        Seq::empty()
    } else {
        ser_bootstrap_method_list(s.drop_last()) + ser_bootstrap_method(s.last())
    }
}

proof fn lemma_bootstrap_method_list_concat(a: Seq<BootstrapMethod>, b: Seq<BootstrapMethod>)
    ensures
        ser_bootstrap_method_list(a + b) == ser_bootstrap_method_list(a) + ser_bootstrap_method_list(b),
    decreases b.len(),
{
    if b.len() == 0 {
        assert(a + b =~= a);
        assert(ser_bootstrap_method_list(a) + ser_bootstrap_method_list(b) =~= ser_bootstrap_method_list(a));
    } else {
        lemma_bootstrap_method_list_concat(a, b.drop_last());
        assert((a + b).drop_last() =~= a + b.drop_last());
    }
}

proof fn lemma_bootstrap_method_list_step(data: Seq<u8>, pos: int, s: Seq<BootstrapMethod>, k: int)
    requires
        starts_at(data, pos, ser_bootstrap_method_list(s)),
        0 <= k < s.len(),
    ensures
        starts_at(data, pos + ser_bootstrap_method_list(s.take(k)).len(), ser_bootstrap_method(s[k])),
        ser_bootstrap_method_list(s.take(k + 1)) == ser_bootstrap_method_list(s.take(k)) + ser_bootstrap_method(s[k]),
{
    lemma_bootstrap_method_list_concat(s.take(k + 1), s.skip(k + 1));
    assert(s.take(k + 1) + s.skip(k + 1) =~= s);
    assert(s.take(k + 1).drop_last() =~= s.take(k));
    lemma_starts_concat(data, pos, ser_bootstrap_method_list(s.take(k + 1)), ser_bootstrap_method_list(s.skip(k + 1)));
    lemma_starts_concat(data, pos, ser_bootstrap_method_list(s.take(k)), ser_bootstrap_method(s[k]));
}

/// Writes each `BootstrapMethod`, in order.
pub fn write_bootstrap_method_list(out: &mut Vec<u8>, v: &Vec<BootstrapMethod>)
    ensures
        final(out)@ == old(out)@ + ser_bootstrap_method_list(v@),
{
    let mut i: usize = 0;
    while i < v.len()
        invariant
            i <= v@.len(),
            out@ == old(out)@ + ser_bootstrap_method_list(v@.take(i as int)),
        decreases v@.len() - i,
    {
        write_bootstrap_method(out, &v[i]);
        assert(v@.take(i + 1).drop_last() =~= v@.take(i as int));
        i = i + 1;
    }
    assert(v@.take(v@.len() as int) =~= v@);
}

/// Reads `n` values of `BootstrapMethod`; where the input offers the bytes of `ts`,
/// `n` well-formed values, it reads them.
pub fn read_bootstrap_method_list(r: &mut ByteReader, n: usize, ts: Ghost<Seq<BootstrapMethod>>) -> (res: Result<Vec<BootstrapMethod>, JavaError>)
    requires
        old(r).wf(),
    ensures
        old(r).moved_to(*final(r)),
        final(r).canonical ==> old(r).canonical,
        res matches Ok(v) ==> v@.len() == n && (final(r).canonical ==> old(r).span(*final(r)) == ser_bootstrap_method_list(v@)),
        old(r).offers(ser_bootstrap_method_list(ts@)) && n == ts@.len() && (forall|i: int| 0 <= i < ts@.len() ==> wf_bootstrap_method(#[trigger] ts@[i]))
            ==> (res matches Ok(v) && old(r).took(*final(r), ser_bootstrap_method_list(ts@))),
{
    let ghost pre = r.offers(ser_bootstrap_method_list(ts@)) && n == ts@.len() && (forall|i: int| 0 <= i < ts@.len() ==> wf_bootstrap_method(#[trigger] ts@[i]));
    let mut v: Vec<BootstrapMethod> = Vec::new();
    let mut k: usize = 0;
    assert(old(r).span(*r) =~= Seq::<u8>::empty());
    assert(ts@.take(0) =~= Seq::<BootstrapMethod>::empty());
    while k < n
        invariant
            r.wf(),
            old(r).moved_to(*r),
            r.canonical ==> old(r).canonical,
            k <= n,
            v@.len() == k,
            r.canonical ==> old(r).span(*r) == ser_bootstrap_method_list(v@),
            pre == (old(r).offers(ser_bootstrap_method_list(ts@)) && n == ts@.len() && (forall|i: int| 0 <= i < ts@.len() ==> wf_bootstrap_method(#[trigger] ts@[i]))),
            pre ==> r.canonical && r.pos == old(r).pos + ser_bootstrap_method_list(ts@.take(k as int)).len(),
        decreases n - k,
    {
        let ghost before = *r;
        proof {
            if pre {
                lemma_bootstrap_method_list_step(old(r).data@, old(r).pos as int, ts@, k as int);
                assert(wf_bootstrap_method(ts@[k as int]));
            }
        }
        let x = read_bootstrap_method(r, Ghost(ts@[k as int]))?;
        proof {
            lemma_span_split(r.data@, old(r).pos as int, before.pos as int, r.pos as int);
            assert(v@.push(x).drop_last() =~= v@);
        }
        v.push(x);
        k = k + 1;
    }
    proof {
        if pre {
            assert(ts@.take(n as int) =~= ts@);
        }
    }
    Ok(v)
}

/// One entry of a `MethodParameters` attribute.
#[derive(Debug, Clone, PartialEq)]
pub struct MethodParameter {
    pub name_index: u16,
    pub access_flags: Vec<AccessFlag>,
}

/// The bytes of one `MethodParameter`.
pub open spec fn ser_method_parameter(x: MethodParameter) -> Seq<u8> {
    be_u16(x.name_index)
        + be_u16(pack(FlagContext::MethodParameter, x.access_flags@))
}

/// What decoding guarantees of a `MethodParameter`: flag sets that a word unpacks to, counts
/// that fit their fields, parts that decoding guarantees.
pub open spec fn wf_method_parameter(x: MethodParameter) -> bool {
    (unpack(FlagContext::MethodParameter, pack(FlagContext::MethodParameter, x.access_flags@)) == x.access_flags@)
}

proof fn lemma_method_parameter_pieces(data: Seq<u8>, pos: int, x: MethodParameter)
    requires
        starts_at(data, pos, ser_method_parameter(x)),
    ensures
        starts_at(data, pos + 0, be_u16(x.name_index)),
        starts_at(data, pos + (be_u16(x.name_index)).len(), be_u16(pack(FlagContext::MethodParameter, x.access_flags@))),
{
    lemma_starts_concat(data, pos, be_u16(x.name_index), be_u16(pack(FlagContext::MethodParameter, x.access_flags@)));
}

/// Reads one `MethodParameter`; where the input offers the bytes of a well-formed
/// `t`, it reads them.
pub fn read_method_parameter(r: &mut ByteReader, t: Ghost<MethodParameter>) -> (res: Result<MethodParameter, JavaError>)
    requires
        old(r).wf(),
    ensures
        old(r).moved_to(*final(r)),
        final(r).canonical ==> old(r).canonical,
        res matches Ok(x) ==> (final(r).canonical ==> old(r).span(*final(r)) == ser_method_parameter(x)),
        old(r).offers(ser_method_parameter(t@)) && wf_method_parameter(t@) ==> (res matches Ok(x) && old(r).took(*final(r), ser_method_parameter(t@))
            && ser_method_parameter(x) == ser_method_parameter(t@)),
{
    let ghost at0 = *r;
    let ghost pre = r.offers(ser_method_parameter(t@)) && wf_method_parameter(t@);
    proof { if pre { lemma_method_parameter_pieces(r.data@, r.pos as int, t@); } }
    let name_index = r.read_u16()?;
    let ghost at1 = *r;
    let access_flags = read_flags(r, FlagContext::MethodParameter, Ghost(t@.access_flags@))?;
    let ghost at2 = *r;
    let x = MethodParameter { name_index, access_flags };
    proof {
        lemma_span_split(r.data@, at0.pos as int, at1.pos as int, r.pos as int);
        if r.canonical {
            assert(at0.span(*r) =~= at0.span(at1) + at1.span(at2));
            assert(at0.span(*r) =~= ser_method_parameter(x));
        }
        if pre {
            assert(at0.span(*r) =~= r.data@.subrange(at0.pos as int, at0.pos + ser_method_parameter(t@).len()));
        }
    }
    Ok(x)
}

/// Writes one `MethodParameter`.
pub fn write_method_parameter(out: &mut Vec<u8>, x: &MethodParameter)
    ensures
        final(out)@ == old(out)@ + ser_method_parameter(*x),
{
    let ghost start = out@;
    push_u16(out, x.name_index);
    push_u16(out, compact_flags(&x.access_flags, FlagContext::MethodParameter));
    assert(out@ =~= start + ser_method_parameter(*x));
}

/// The bytes of each `MethodParameter`, in order.
pub open spec fn ser_method_parameter_list(s: Seq<MethodParameter>) -> Seq<u8>
    decreases s.len(),
{
    if s.len() == 0 {
        Seq::empty()
    } else {
        ser_method_parameter_list(s.drop_last()) + ser_method_parameter(s.last())
    }
}

proof fn lemma_method_parameter_list_concat(a: Seq<MethodParameter>, b: Seq<MethodParameter>)
    ensures
        ser_method_parameter_list(a + b) == ser_method_parameter_list(a) + ser_method_parameter_list(b),
    decreases b.len(),
{
    if b.len() == 0 {
        assert(a + b =~= a);
        assert(ser_method_parameter_list(a) + ser_method_parameter_list(b) =~= ser_method_parameter_list(a));
    } else {
        lemma_method_parameter_list_concat(a, b.drop_last());
        assert((a + b).drop_last() =~= a + b.drop_last());
    }
}

proof fn lemma_method_parameter_list_step(data: Seq<u8>, pos: int, s: Seq<MethodParameter>, k: int)
    requires
        starts_at(data, pos, ser_method_parameter_list(s)),
        0 <= k < s.len(),
    ensures
        starts_at(data, pos + ser_method_parameter_list(s.take(k)).len(), ser_method_parameter(s[k])),
        ser_method_parameter_list(s.take(k + 1)) == ser_method_parameter_list(s.take(k)) + ser_method_parameter(s[k]),
{
    lemma_method_parameter_list_concat(s.take(k + 1), s.skip(k + 1));
    assert(s.take(k + 1) + s.skip(k + 1) =~= s);
    assert(s.take(k + 1).drop_last() =~= s.take(k));
    lemma_starts_concat(data, pos, ser_method_parameter_list(s.take(k + 1)), ser_method_parameter_list(s.skip(k + 1)));
    lemma_starts_concat(data, pos, ser_method_parameter_list(s.take(k)), ser_method_parameter(s[k]));
}

/// Writes each `MethodParameter`, in order.
pub fn write_method_parameter_list(out: &mut Vec<u8>, v: &Vec<MethodParameter>)
    ensures
        final(out)@ == old(out)@ + ser_method_parameter_list(v@),
{
    let mut i: usize = 0;
    while i < v.len()
        invariant
            i <= v@.len(),
            out@ == old(out)@ + ser_method_parameter_list(v@.take(i as int)),
        decreases v@.len() - i,
    {
        write_method_parameter(out, &v[i]);
        assert(v@.take(i + 1).drop_last() =~= v@.take(i as int));
        i = i + 1;
    }
    assert(v@.take(v@.len() as int) =~= v@);
}

/// Reads `n` values of `MethodParameter`; where the input offers the bytes of `ts`,
/// `n` well-formed values, it reads them.
pub fn read_method_parameter_list(r: &mut ByteReader, n: usize, ts: Ghost<Seq<MethodParameter>>) -> (res: Result<Vec<MethodParameter>, JavaError>)
    requires
        old(r).wf(),
    ensures
        old(r).moved_to(*final(r)),
        final(r).canonical ==> old(r).canonical,
        res matches Ok(v) ==> v@.len() == n && (final(r).canonical ==> old(r).span(*final(r)) == ser_method_parameter_list(v@)),
        old(r).offers(ser_method_parameter_list(ts@)) && n == ts@.len() && (forall|i: int| 0 <= i < ts@.len() ==> wf_method_parameter(#[trigger] ts@[i]))
            ==> (res matches Ok(v) && old(r).took(*final(r), ser_method_parameter_list(ts@))),
{
    let ghost pre = r.offers(ser_method_parameter_list(ts@)) && n == ts@.len() && (forall|i: int| 0 <= i < ts@.len() ==> wf_method_parameter(#[trigger] ts@[i]));
    let mut v: Vec<MethodParameter> = Vec::new();
    let mut k: usize = 0;
    assert(old(r).span(*r) =~= Seq::<u8>::empty());
    assert(ts@.take(0) =~= Seq::<MethodParameter>::empty());
    while k < n
        invariant
            r.wf(),
            old(r).moved_to(*r),
            r.canonical ==> old(r).canonical,
            k <= n,
            v@.len() == k,
            r.canonical ==> old(r).span(*r) == ser_method_parameter_list(v@),
            pre == (old(r).offers(ser_method_parameter_list(ts@)) && n == ts@.len() && (forall|i: int| 0 <= i < ts@.len() ==> wf_method_parameter(#[trigger] ts@[i]))),
            pre ==> r.canonical && r.pos == old(r).pos + ser_method_parameter_list(ts@.take(k as int)).len(),
        decreases n - k,
    {
        let ghost before = *r;
        proof {
            if pre {
                lemma_method_parameter_list_step(old(r).data@, old(r).pos as int, ts@, k as int);
                assert(wf_method_parameter(ts@[k as int]));
            }
        }
        let x = read_method_parameter(r, Ghost(ts@[k as int]))?;
        proof {
            lemma_span_split(r.data@, old(r).pos as int, before.pos as int, r.pos as int);
            assert(v@.push(x).drop_last() =~= v@);
        }
        v.push(x);
        k = k + 1;
    }
    proof {
        if pre {
            assert(ts@.take(n as int) =~= ts@);
        }
    }
    Ok(v)
}

/// One `requires` entry of a `Module` attribute.
#[derive(Debug, Clone, PartialEq)]
pub struct ModuleRequires {
    pub requires_index: u16,
    pub requires_flags: Vec<AccessFlag>,
    pub requires_version_index: u16,
}

/// The bytes of one `ModuleRequires`.
pub open spec fn ser_module_requires(x: ModuleRequires) -> Seq<u8> {
    be_u16(x.requires_index)
        + be_u16(pack(FlagContext::ModuleRequires, x.requires_flags@))
        + be_u16(x.requires_version_index)
}

/// What decoding guarantees of a `ModuleRequires`: flag sets that a word unpacks to, counts
/// that fit their fields, parts that decoding guarantees.
pub open spec fn wf_module_requires(x: ModuleRequires) -> bool {
    (unpack(FlagContext::ModuleRequires, pack(FlagContext::ModuleRequires, x.requires_flags@)) == x.requires_flags@)
}

proof fn lemma_module_requires_pieces(data: Seq<u8>, pos: int, x: ModuleRequires)
    requires
        starts_at(data, pos, ser_module_requires(x)),
    ensures
        starts_at(data, pos + 0, be_u16(x.requires_index)),
        starts_at(data, pos + (be_u16(x.requires_index)).len(), be_u16(pack(FlagContext::ModuleRequires, x.requires_flags@))),
        starts_at(data, pos + (be_u16(x.requires_index)).len() + (be_u16(pack(FlagContext::ModuleRequires, x.requires_flags@))).len(), be_u16(x.requires_version_index)),
{
    lemma_starts_concat(data, pos, be_u16(x.requires_index) + be_u16(pack(FlagContext::ModuleRequires, x.requires_flags@)), be_u16(x.requires_version_index));
    lemma_starts_concat(data, pos, be_u16(x.requires_index), be_u16(pack(FlagContext::ModuleRequires, x.requires_flags@)));
}

/// Reads one `ModuleRequires`; where the input offers the bytes of a well-formed
/// `t`, it reads them.
pub fn read_module_requires(r: &mut ByteReader, t: Ghost<ModuleRequires>) -> (res: Result<ModuleRequires, JavaError>)
    requires
        old(r).wf(),
    ensures
        old(r).moved_to(*final(r)),
        final(r).canonical ==> old(r).canonical,
        res matches Ok(x) ==> (final(r).canonical ==> old(r).span(*final(r)) == ser_module_requires(x)),
        old(r).offers(ser_module_requires(t@)) && wf_module_requires(t@) ==> (res matches Ok(x) && old(r).took(*final(r), ser_module_requires(t@))
            && ser_module_requires(x) == ser_module_requires(t@)),
{
    let ghost at0 = *r;
    let ghost pre = r.offers(ser_module_requires(t@)) && wf_module_requires(t@);
    proof { if pre { lemma_module_requires_pieces(r.data@, r.pos as int, t@); } }
    let requires_index = r.read_u16()?;
    let ghost at1 = *r;
    let requires_flags = read_flags(r, FlagContext::ModuleRequires, Ghost(t@.requires_flags@))?;
    let ghost at2 = *r;
    let requires_version_index = r.read_u16()?;
    let ghost at3 = *r;
    let x = ModuleRequires { requires_index, requires_flags, requires_version_index };
    proof {
        lemma_span_split(r.data@, at0.pos as int, at2.pos as int, r.pos as int);
        lemma_span_split(r.data@, at0.pos as int, at1.pos as int, r.pos as int);
        if r.canonical {
            assert(at0.span(*r) =~= at0.span(at1) + at1.span(at2) + at2.span(at3));
            assert(at0.span(*r) =~= ser_module_requires(x));
        }
        if pre {
            assert(at0.span(*r) =~= r.data@.subrange(at0.pos as int, at0.pos + ser_module_requires(t@).len()));
        }
    }
    Ok(x)
}

/// Writes one `ModuleRequires`.
pub fn write_module_requires(out: &mut Vec<u8>, x: &ModuleRequires)
    ensures
        final(out)@ == old(out)@ + ser_module_requires(*x),
{
    let ghost start = out@;
    push_u16(out, x.requires_index);
    push_u16(out, compact_flags(&x.requires_flags, FlagContext::ModuleRequires));
    push_u16(out, x.requires_version_index);
    assert(out@ =~= start + ser_module_requires(*x));
}

/// The bytes of each `ModuleRequires`, in order.
pub open spec fn ser_module_requires_list(s: Seq<ModuleRequires>) -> Seq<u8>
    decreases s.len(),
{
    if s.len() == 0 {
        Seq::empty()
    } else {
        ser_module_requires_list(s.drop_last()) + ser_module_requires(s.last())
    }
}

proof fn lemma_module_requires_list_concat(a: Seq<ModuleRequires>, b: Seq<ModuleRequires>)
    ensures
        ser_module_requires_list(a + b) == ser_module_requires_list(a) + ser_module_requires_list(b),
    decreases b.len(),
{
    if b.len() == 0 {
        assert(a + b =~= a);
        assert(ser_module_requires_list(a) + ser_module_requires_list(b) =~= ser_module_requires_list(a));
    } else {
        lemma_module_requires_list_concat(a, b.drop_last());
        assert((a + b).drop_last() =~= a + b.drop_last());
    }
}

proof fn lemma_module_requires_list_step(data: Seq<u8>, pos: int, s: Seq<ModuleRequires>, k: int)
    requires
        starts_at(data, pos, ser_module_requires_list(s)),
        0 <= k < s.len(),
    ensures
        starts_at(data, pos + ser_module_requires_list(s.take(k)).len(), ser_module_requires(s[k])),
        ser_module_requires_list(s.take(k + 1)) == ser_module_requires_list(s.take(k)) + ser_module_requires(s[k]),
{
    lemma_module_requires_list_concat(s.take(k + 1), s.skip(k + 1));
    assert(s.take(k + 1) + s.skip(k + 1) =~= s);
    assert(s.take(k + 1).drop_last() =~= s.take(k));
    lemma_starts_concat(data, pos, ser_module_requires_list(s.take(k + 1)), ser_module_requires_list(s.skip(k + 1)));
    lemma_starts_concat(data, pos, ser_module_requires_list(s.take(k)), ser_module_requires(s[k]));
}

/// Writes each `ModuleRequires`, in order.
pub fn write_module_requires_list(out: &mut Vec<u8>, v: &Vec<ModuleRequires>)
    ensures
        final(out)@ == old(out)@ + ser_module_requires_list(v@),
{
    let mut i: usize = 0;
    while i < v.len()
        invariant
            i <= v@.len(),
            out@ == old(out)@ + ser_module_requires_list(v@.take(i as int)),
        decreases v@.len() - i,
    {
        write_module_requires(out, &v[i]);
        assert(v@.take(i + 1).drop_last() =~= v@.take(i as int));
        i = i + 1;
    }
    assert(v@.take(v@.len() as int) =~= v@);
}

/// Reads `n` values of `ModuleRequires`; where the input offers the bytes of `ts`,
/// `n` well-formed values, it reads them.
pub fn read_module_requires_list(r: &mut ByteReader, n: usize, ts: Ghost<Seq<ModuleRequires>>) -> (res: Result<Vec<ModuleRequires>, JavaError>)
    requires
        old(r).wf(),
    ensures
        old(r).moved_to(*final(r)),
        final(r).canonical ==> old(r).canonical,
        res matches Ok(v) ==> v@.len() == n && (final(r).canonical ==> old(r).span(*final(r)) == ser_module_requires_list(v@)),
        old(r).offers(ser_module_requires_list(ts@)) && n == ts@.len() && (forall|i: int| 0 <= i < ts@.len() ==> wf_module_requires(#[trigger] ts@[i]))
            ==> (res matches Ok(v) && old(r).took(*final(r), ser_module_requires_list(ts@))),
{
    let ghost pre = r.offers(ser_module_requires_list(ts@)) && n == ts@.len() && (forall|i: int| 0 <= i < ts@.len() ==> wf_module_requires(#[trigger] ts@[i]));
    let mut v: Vec<ModuleRequires> = Vec::new();
    let mut k: usize = 0;
    assert(old(r).span(*r) =~= Seq::<u8>::empty());
    assert(ts@.take(0) =~= Seq::<ModuleRequires>::empty());
    while k < n
        invariant
            r.wf(),
            old(r).moved_to(*r),
            r.canonical ==> old(r).canonical,
            k <= n,
            v@.len() == k,
            r.canonical ==> old(r).span(*r) == ser_module_requires_list(v@),
            pre == (old(r).offers(ser_module_requires_list(ts@)) && n == ts@.len() && (forall|i: int| 0 <= i < ts@.len() ==> wf_module_requires(#[trigger] ts@[i]))),
            pre ==> r.canonical && r.pos == old(r).pos + ser_module_requires_list(ts@.take(k as int)).len(),
        decreases n - k,
    {
        let ghost before = *r;
        proof {
            if pre {
                lemma_module_requires_list_step(old(r).data@, old(r).pos as int, ts@, k as int);
                assert(wf_module_requires(ts@[k as int]));
            }
        }
        let x = read_module_requires(r, Ghost(ts@[k as int]))?;
        proof {
            lemma_span_split(r.data@, old(r).pos as int, before.pos as int, r.pos as int);
            assert(v@.push(x).drop_last() =~= v@);
        }
        v.push(x);
        k = k + 1;
    }
    proof {
        if pre {
            assert(ts@.take(n as int) =~= ts@);
        }
    }
    Ok(v)
}

/// One `exports` entry of a `Module` attribute.
#[derive(Debug, Clone, PartialEq)]
pub struct ModuleExports {
    pub exports_index: u16,
    pub exports_flags: Vec<AccessFlag>,
    pub exports_to_index: Vec<u16>,
}

/// The bytes of one `ModuleExports`.
pub open spec fn ser_module_exports(x: ModuleExports) -> Seq<u8> {
    be_u16(x.exports_index)
        + be_u16(pack(FlagContext::ModuleExports, x.exports_flags@))
        + be_u16(#[verifier::truncate] (x.exports_to_index@.len() as u16))
        + ser_u16s(x.exports_to_index@)
}

/// What decoding guarantees of a `ModuleExports`: flag sets that a word unpacks to, counts
/// that fit their fields, parts that decoding guarantees.
pub open spec fn wf_module_exports(x: ModuleExports) -> bool {
    (unpack(FlagContext::ModuleExports, pack(FlagContext::ModuleExports, x.exports_flags@)) == x.exports_flags@)
    && (x.exports_to_index@.len() <= 0xFFFF)
}

proof fn lemma_module_exports_pieces(data: Seq<u8>, pos: int, x: ModuleExports)
    requires
        starts_at(data, pos, ser_module_exports(x)),
    ensures
        starts_at(data, pos + 0, be_u16(x.exports_index)),
        starts_at(data, pos + (be_u16(x.exports_index)).len(), be_u16(pack(FlagContext::ModuleExports, x.exports_flags@))),
        starts_at(data, pos + (be_u16(x.exports_index)).len() + (be_u16(pack(FlagContext::ModuleExports, x.exports_flags@))).len(), be_u16(#[verifier::truncate] (x.exports_to_index@.len() as u16))),
        starts_at(data, pos + (be_u16(x.exports_index)).len() + (be_u16(pack(FlagContext::ModuleExports, x.exports_flags@))).len() + (be_u16(#[verifier::truncate] (x.exports_to_index@.len() as u16))).len(), ser_u16s(x.exports_to_index@)),
{
    lemma_starts_concat(data, pos, be_u16(x.exports_index) + be_u16(pack(FlagContext::ModuleExports, x.exports_flags@)) + be_u16(#[verifier::truncate] (x.exports_to_index@.len() as u16)), ser_u16s(x.exports_to_index@));
    lemma_starts_concat(data, pos, be_u16(x.exports_index) + be_u16(pack(FlagContext::ModuleExports, x.exports_flags@)), be_u16(#[verifier::truncate] (x.exports_to_index@.len() as u16)));
    lemma_starts_concat(data, pos, be_u16(x.exports_index), be_u16(pack(FlagContext::ModuleExports, x.exports_flags@)));
}

/// Reads one `ModuleExports`; where the input offers the bytes of a well-formed
/// `t`, it reads them.
pub fn read_module_exports(r: &mut ByteReader, t: Ghost<ModuleExports>) -> (res: Result<ModuleExports, JavaError>)
    requires
        old(r).wf(),
    ensures
        old(r).moved_to(*final(r)),
        final(r).canonical ==> old(r).canonical,
        res matches Ok(x) ==> (final(r).canonical ==> old(r).span(*final(r)) == ser_module_exports(x)),
        old(r).offers(ser_module_exports(t@)) && wf_module_exports(t@) ==> (res matches Ok(x) && old(r).took(*final(r), ser_module_exports(t@))
            && ser_module_exports(x) == ser_module_exports(t@)),
{
    let ghost at0 = *r;
    let ghost pre = r.offers(ser_module_exports(t@)) && wf_module_exports(t@);
    proof { if pre { lemma_module_exports_pieces(r.data@, r.pos as int, t@); } }
    let exports_index = r.read_u16()?;
    let ghost at1 = *r;
    let exports_flags = read_flags(r, FlagContext::ModuleExports, Ghost(t@.exports_flags@))?;
    let ghost at2 = *r;
    let exports_to_index_count = r.read_u16()?;
    proof { if pre { assert(at2.span(*r) =~= r.data@.subrange(at2.pos as int, at2.pos + 2)); lemma_be_u16_injective(exports_to_index_count, #[verifier::truncate] (t@.exports_to_index@.len() as u16)); } }
    let ghost at3 = *r;
    proof { if pre { lemma_ser_u16s_len(t@.exports_to_index@); } }
    let exports_to_index = read_u16s(r, exports_to_index_count as usize)?;
    let ghost at4 = *r;
    let x = ModuleExports { exports_index, exports_flags, exports_to_index };
    proof {
        lemma_span_split(r.data@, at0.pos as int, at3.pos as int, r.pos as int);
        lemma_span_split(r.data@, at0.pos as int, at2.pos as int, r.pos as int);
        lemma_span_split(r.data@, at0.pos as int, at1.pos as int, r.pos as int);
        if r.canonical {
            assert(at0.span(*r) =~= at0.span(at1) + at1.span(at2) + at2.span(at3) + at3.span(at4));
            assert(at0.span(*r) =~= ser_module_exports(x));
        }
        if pre {
            assert(at0.span(*r) =~= r.data@.subrange(at0.pos as int, at0.pos + ser_module_exports(t@).len()));
        }
    }
    Ok(x)
}

/// Writes one `ModuleExports`.
pub fn write_module_exports(out: &mut Vec<u8>, x: &ModuleExports)
    ensures
        final(out)@ == old(out)@ + ser_module_exports(*x),
{
    let ghost start = out@;
    push_u16(out, x.exports_index);
    push_u16(out, compact_flags(&x.exports_flags, FlagContext::ModuleExports));
    push_u16(out, #[verifier::truncate] (x.exports_to_index.len() as u16));
    write_u16s(out, &x.exports_to_index);
    assert(out@ =~= start + ser_module_exports(*x));
}

/// The bytes of each `ModuleExports`, in order.
pub open spec fn ser_module_exports_list(s: Seq<ModuleExports>) -> Seq<u8>
    decreases s.len(),
{
    if s.len() == 0 {
        Seq::empty()
    } else {
        ser_module_exports_list(s.drop_last()) + ser_module_exports(s.last())
    }
}

proof fn lemma_module_exports_list_concat(a: Seq<ModuleExports>, b: Seq<ModuleExports>)
    ensures
        ser_module_exports_list(a + b) == ser_module_exports_list(a) + ser_module_exports_list(b),
    decreases b.len(),
{
    if b.len() == 0 {
        assert(a + b =~= a);
        assert(ser_module_exports_list(a) + ser_module_exports_list(b) =~= ser_module_exports_list(a));
    } else {
        lemma_module_exports_list_concat(a, b.drop_last());
        assert((a + b).drop_last() =~= a + b.drop_last());
    }
}

proof fn lemma_module_exports_list_step(data: Seq<u8>, pos: int, s: Seq<ModuleExports>, k: int)
    requires
        starts_at(data, pos, ser_module_exports_list(s)),
        0 <= k < s.len(),
    ensures
        starts_at(data, pos + ser_module_exports_list(s.take(k)).len(), ser_module_exports(s[k])),
        ser_module_exports_list(s.take(k + 1)) == ser_module_exports_list(s.take(k)) + ser_module_exports(s[k]),
{
    lemma_module_exports_list_concat(s.take(k + 1), s.skip(k + 1));
    assert(s.take(k + 1) + s.skip(k + 1) =~= s);
    assert(s.take(k + 1).drop_last() =~= s.take(k));
    lemma_starts_concat(data, pos, ser_module_exports_list(s.take(k + 1)), ser_module_exports_list(s.skip(k + 1)));
    lemma_starts_concat(data, pos, ser_module_exports_list(s.take(k)), ser_module_exports(s[k]));
}

/// Writes each `ModuleExports`, in order.
pub fn write_module_exports_list(out: &mut Vec<u8>, v: &Vec<ModuleExports>)
    ensures
        final(out)@ == old(out)@ + ser_module_exports_list(v@),
{
    let mut i: usize = 0;
    while i < v.len()
        invariant
            i <= v@.len(),
            out@ == old(out)@ + ser_module_exports_list(v@.take(i as int)),
        decreases v@.len() - i,
    {
        write_module_exports(out, &v[i]);
        assert(v@.take(i + 1).drop_last() =~= v@.take(i as int));
        i = i + 1;
    }
    assert(v@.take(v@.len() as int) =~= v@);
}

/// Reads `n` values of `ModuleExports`; where the input offers the bytes of `ts`,
/// `n` well-formed values, it reads them.
pub fn read_module_exports_list(r: &mut ByteReader, n: usize, ts: Ghost<Seq<ModuleExports>>) -> (res: Result<Vec<ModuleExports>, JavaError>)
    requires
        old(r).wf(),
    ensures
        old(r).moved_to(*final(r)),
        final(r).canonical ==> old(r).canonical,
        res matches Ok(v) ==> v@.len() == n && (final(r).canonical ==> old(r).span(*final(r)) == ser_module_exports_list(v@)),
        old(r).offers(ser_module_exports_list(ts@)) && n == ts@.len() && (forall|i: int| 0 <= i < ts@.len() ==> wf_module_exports(#[trigger] ts@[i]))
            ==> (res matches Ok(v) && old(r).took(*final(r), ser_module_exports_list(ts@))),
{
    let ghost pre = r.offers(ser_module_exports_list(ts@)) && n == ts@.len() && (forall|i: int| 0 <= i < ts@.len() ==> wf_module_exports(#[trigger] ts@[i]));
    let mut v: Vec<ModuleExports> = Vec::new();
    let mut k: usize = 0;
    assert(old(r).span(*r) =~= Seq::<u8>::empty());
    assert(ts@.take(0) =~= Seq::<ModuleExports>::empty());
    while k < n
        invariant
            r.wf(),
            old(r).moved_to(*r),
            r.canonical ==> old(r).canonical,
            k <= n,
            v@.len() == k,
            r.canonical ==> old(r).span(*r) == ser_module_exports_list(v@),
            pre == (old(r).offers(ser_module_exports_list(ts@)) && n == ts@.len() && (forall|i: int| 0 <= i < ts@.len() ==> wf_module_exports(#[trigger] ts@[i]))),
            pre ==> r.canonical && r.pos == old(r).pos + ser_module_exports_list(ts@.take(k as int)).len(),
        decreases n - k,
    {
        let ghost before = *r;
        proof {
            if pre {
                lemma_module_exports_list_step(old(r).data@, old(r).pos as int, ts@, k as int);
                assert(wf_module_exports(ts@[k as int]));
            }
        }
        let x = read_module_exports(r, Ghost(ts@[k as int]))?;
        proof {
            lemma_span_split(r.data@, old(r).pos as int, before.pos as int, r.pos as int);
            assert(v@.push(x).drop_last() =~= v@);
        }
        v.push(x);
        k = k + 1;
    }
    proof {
        if pre {
            assert(ts@.take(n as int) =~= ts@);
        }
    }
    Ok(v)
}

/// One `opens` entry of a `Module` attribute.
#[derive(Debug, Clone, PartialEq)]
pub struct ModuleOpens {
    pub opens_index: u16,
    pub opens_flags: Vec<AccessFlag>,
    pub opens_to_index: Vec<u16>,
}

/// The bytes of one `ModuleOpens`.
pub open spec fn ser_module_opens(x: ModuleOpens) -> Seq<u8> {
    be_u16(x.opens_index)
        + be_u16(pack(FlagContext::ModuleOpens, x.opens_flags@))
        + be_u16(#[verifier::truncate] (x.opens_to_index@.len() as u16))
        + ser_u16s(x.opens_to_index@)
}

/// What decoding guarantees of a `ModuleOpens`: flag sets that a word unpacks to, counts
/// that fit their fields, parts that decoding guarantees.
pub open spec fn wf_module_opens(x: ModuleOpens) -> bool {
    (unpack(FlagContext::ModuleOpens, pack(FlagContext::ModuleOpens, x.opens_flags@)) == x.opens_flags@)
    && (x.opens_to_index@.len() <= 0xFFFF)
}

proof fn lemma_module_opens_pieces(data: Seq<u8>, pos: int, x: ModuleOpens)
    requires
        starts_at(data, pos, ser_module_opens(x)),
    ensures
        starts_at(data, pos + 0, be_u16(x.opens_index)),
        starts_at(data, pos + (be_u16(x.opens_index)).len(), be_u16(pack(FlagContext::ModuleOpens, x.opens_flags@))),
        starts_at(data, pos + (be_u16(x.opens_index)).len() + (be_u16(pack(FlagContext::ModuleOpens, x.opens_flags@))).len(), be_u16(#[verifier::truncate] (x.opens_to_index@.len() as u16))),
        starts_at(data, pos + (be_u16(x.opens_index)).len() + (be_u16(pack(FlagContext::ModuleOpens, x.opens_flags@))).len() + (be_u16(#[verifier::truncate] (x.opens_to_index@.len() as u16))).len(), ser_u16s(x.opens_to_index@)),
{
    lemma_starts_concat(data, pos, be_u16(x.opens_index) + be_u16(pack(FlagContext::ModuleOpens, x.opens_flags@)) + be_u16(#[verifier::truncate] (x.opens_to_index@.len() as u16)), ser_u16s(x.opens_to_index@));
    lemma_starts_concat(data, pos, be_u16(x.opens_index) + be_u16(pack(FlagContext::ModuleOpens, x.opens_flags@)), be_u16(#[verifier::truncate] (x.opens_to_index@.len() as u16)));
    lemma_starts_concat(data, pos, be_u16(x.opens_index), be_u16(pack(FlagContext::ModuleOpens, x.opens_flags@)));
}

/// Reads one `ModuleOpens`; where the input offers the bytes of a well-formed
/// `t`, it reads them.
pub fn read_module_opens(r: &mut ByteReader, t: Ghost<ModuleOpens>) -> (res: Result<ModuleOpens, JavaError>)
    requires
        old(r).wf(),
    ensures
        old(r).moved_to(*final(r)),
        final(r).canonical ==> old(r).canonical,
        res matches Ok(x) ==> (final(r).canonical ==> old(r).span(*final(r)) == ser_module_opens(x)),
        old(r).offers(ser_module_opens(t@)) && wf_module_opens(t@) ==> (res matches Ok(x) && old(r).took(*final(r), ser_module_opens(t@))
            && ser_module_opens(x) == ser_module_opens(t@)),
{
    let ghost at0 = *r;
    let ghost pre = r.offers(ser_module_opens(t@)) && wf_module_opens(t@);
    proof { if pre { lemma_module_opens_pieces(r.data@, r.pos as int, t@); } }
    let opens_index = r.read_u16()?;
    let ghost at1 = *r;
    let opens_flags = read_flags(r, FlagContext::ModuleOpens, Ghost(t@.opens_flags@))?;
    let ghost at2 = *r;
    let opens_to_index_count = r.read_u16()?;
    proof { if pre { assert(at2.span(*r) =~= r.data@.subrange(at2.pos as int, at2.pos + 2)); lemma_be_u16_injective(opens_to_index_count, #[verifier::truncate] (t@.opens_to_index@.len() as u16)); } }
    let ghost at3 = *r;
    proof { if pre { lemma_ser_u16s_len(t@.opens_to_index@); } }
    let opens_to_index = read_u16s(r, opens_to_index_count as usize)?;
    let ghost at4 = *r;
    let x = ModuleOpens { opens_index, opens_flags, opens_to_index };
    proof {
        lemma_span_split(r.data@, at0.pos as int, at3.pos as int, r.pos as int);
        lemma_span_split(r.data@, at0.pos as int, at2.pos as int, r.pos as int);
        lemma_span_split(r.data@, at0.pos as int, at1.pos as int, r.pos as int);
        if r.canonical {
            assert(at0.span(*r) =~= at0.span(at1) + at1.span(at2) + at2.span(at3) + at3.span(at4));
            assert(at0.span(*r) =~= ser_module_opens(x));
        }
        if pre {
            assert(at0.span(*r) =~= r.data@.subrange(at0.pos as int, at0.pos + ser_module_opens(t@).len()));
        }
    }
    Ok(x)
}

/// Writes one `ModuleOpens`.
pub fn write_module_opens(out: &mut Vec<u8>, x: &ModuleOpens)
    ensures
        final(out)@ == old(out)@ + ser_module_opens(*x),
{
    let ghost start = out@;
    push_u16(out, x.opens_index);
    push_u16(out, compact_flags(&x.opens_flags, FlagContext::ModuleOpens));
    push_u16(out, #[verifier::truncate] (x.opens_to_index.len() as u16));
    write_u16s(out, &x.opens_to_index);
    assert(out@ =~= start + ser_module_opens(*x));
}

/// The bytes of each `ModuleOpens`, in order.
pub open spec fn ser_module_opens_list(s: Seq<ModuleOpens>) -> Seq<u8>
    decreases s.len(),
{
    if s.len() == 0 {
        Seq::empty()
    } else {
        ser_module_opens_list(s.drop_last()) + ser_module_opens(s.last())
    }
}

proof fn lemma_module_opens_list_concat(a: Seq<ModuleOpens>, b: Seq<ModuleOpens>)
    ensures
        ser_module_opens_list(a + b) == ser_module_opens_list(a) + ser_module_opens_list(b),
    decreases b.len(),
{
    if b.len() == 0 {
        assert(a + b =~= a);
        assert(ser_module_opens_list(a) + ser_module_opens_list(b) =~= ser_module_opens_list(a));
    } else {
        lemma_module_opens_list_concat(a, b.drop_last());
        assert((a + b).drop_last() =~= a + b.drop_last());
    }
}

proof fn lemma_module_opens_list_step(data: Seq<u8>, pos: int, s: Seq<ModuleOpens>, k: int)
    requires
        starts_at(data, pos, ser_module_opens_list(s)),
        0 <= k < s.len(),
    ensures
        starts_at(data, pos + ser_module_opens_list(s.take(k)).len(), ser_module_opens(s[k])),
        ser_module_opens_list(s.take(k + 1)) == ser_module_opens_list(s.take(k)) + ser_module_opens(s[k]),
{
    lemma_module_opens_list_concat(s.take(k + 1), s.skip(k + 1));
    assert(s.take(k + 1) + s.skip(k + 1) =~= s);
    assert(s.take(k + 1).drop_last() =~= s.take(k));
    lemma_starts_concat(data, pos, ser_module_opens_list(s.take(k + 1)), ser_module_opens_list(s.skip(k + 1)));
    lemma_starts_concat(data, pos, ser_module_opens_list(s.take(k)), ser_module_opens(s[k]));
}

/// Writes each `ModuleOpens`, in order.
pub fn write_module_opens_list(out: &mut Vec<u8>, v: &Vec<ModuleOpens>)
    ensures
        final(out)@ == old(out)@ + ser_module_opens_list(v@),
{
    let mut i: usize = 0;
    while i < v.len()
        invariant
            i <= v@.len(),
            out@ == old(out)@ + ser_module_opens_list(v@.take(i as int)),
        decreases v@.len() - i,
    {
        write_module_opens(out, &v[i]);
        assert(v@.take(i + 1).drop_last() =~= v@.take(i as int));
        i = i + 1;
    }
    assert(v@.take(v@.len() as int) =~= v@);
}

/// Reads `n` values of `ModuleOpens`; where the input offers the bytes of `ts`,
/// `n` well-formed values, it reads them.
pub fn read_module_opens_list(r: &mut ByteReader, n: usize, ts: Ghost<Seq<ModuleOpens>>) -> (res: Result<Vec<ModuleOpens>, JavaError>)
    requires
        old(r).wf(),
    ensures
        old(r).moved_to(*final(r)),
        final(r).canonical ==> old(r).canonical,
        res matches Ok(v) ==> v@.len() == n && (final(r).canonical ==> old(r).span(*final(r)) == ser_module_opens_list(v@)),
        old(r).offers(ser_module_opens_list(ts@)) && n == ts@.len() && (forall|i: int| 0 <= i < ts@.len() ==> wf_module_opens(#[trigger] ts@[i]))
            ==> (res matches Ok(v) && old(r).took(*final(r), ser_module_opens_list(ts@))),
{
    let ghost pre = r.offers(ser_module_opens_list(ts@)) && n == ts@.len() && (forall|i: int| 0 <= i < ts@.len() ==> wf_module_opens(#[trigger] ts@[i]));
    let mut v: Vec<ModuleOpens> = Vec::new();
    let mut k: usize = 0;
    assert(old(r).span(*r) =~= Seq::<u8>::empty());
    assert(ts@.take(0) =~= Seq::<ModuleOpens>::empty());
    while k < n
        invariant
            r.wf(),
            old(r).moved_to(*r),
            r.canonical ==> old(r).canonical,
            k <= n,
            v@.len() == k,
            r.canonical ==> old(r).span(*r) == ser_module_opens_list(v@),
            pre == (old(r).offers(ser_module_opens_list(ts@)) && n == ts@.len() && (forall|i: int| 0 <= i < ts@.len() ==> wf_module_opens(#[trigger] ts@[i]))),
            pre ==> r.canonical && r.pos == old(r).pos + ser_module_opens_list(ts@.take(k as int)).len(),
        decreases n - k,
    {
        let ghost before = *r;
        proof {
            if pre {
                lemma_module_opens_list_step(old(r).data@, old(r).pos as int, ts@, k as int);
                assert(wf_module_opens(ts@[k as int]));
            }
        }
        let x = read_module_opens(r, Ghost(ts@[k as int]))?;
        proof {
            lemma_span_split(r.data@, old(r).pos as int, before.pos as int, r.pos as int);
            assert(v@.push(x).drop_last() =~= v@);
        }
        v.push(x);
        k = k + 1;
    }
    proof {
        if pre {
            assert(ts@.take(n as int) =~= ts@);
        }
    }
    Ok(v)
}

/// One `provides` entry of a `Module` attribute.
#[derive(Debug, Clone, PartialEq)]
pub struct ModuleProvides {
    pub provides_index: u16,
    pub provides_with_index: Vec<u16>,
}

/// The bytes of one `ModuleProvides`.
pub open spec fn ser_module_provides(x: ModuleProvides) -> Seq<u8> {
    be_u16(x.provides_index)
        + be_u16(#[verifier::truncate] (x.provides_with_index@.len() as u16))
        + ser_u16s(x.provides_with_index@)
}

/// What decoding guarantees of a `ModuleProvides`: flag sets that a word unpacks to, counts
/// that fit their fields, parts that decoding guarantees.
pub open spec fn wf_module_provides(x: ModuleProvides) -> bool {
    (x.provides_with_index@.len() <= 0xFFFF)
}

proof fn lemma_module_provides_pieces(data: Seq<u8>, pos: int, x: ModuleProvides)
    requires
        starts_at(data, pos, ser_module_provides(x)),
    ensures
        starts_at(data, pos + 0, be_u16(x.provides_index)),
        starts_at(data, pos + (be_u16(x.provides_index)).len(), be_u16(#[verifier::truncate] (x.provides_with_index@.len() as u16))),
        starts_at(data, pos + (be_u16(x.provides_index)).len() + (be_u16(#[verifier::truncate] (x.provides_with_index@.len() as u16))).len(), ser_u16s(x.provides_with_index@)),
{
    lemma_starts_concat(data, pos, be_u16(x.provides_index) + be_u16(#[verifier::truncate] (x.provides_with_index@.len() as u16)), ser_u16s(x.provides_with_index@));
    lemma_starts_concat(data, pos, be_u16(x.provides_index), be_u16(#[verifier::truncate] (x.provides_with_index@.len() as u16)));
}

/// Reads one `ModuleProvides`; where the input offers the bytes of a well-formed
/// `t`, it reads them.
pub fn read_module_provides(r: &mut ByteReader, t: Ghost<ModuleProvides>) -> (res: Result<ModuleProvides, JavaError>)
    requires
        old(r).wf(),
    ensures
        old(r).moved_to(*final(r)),
        final(r).canonical ==> old(r).canonical,
        res matches Ok(x) ==> (final(r).canonical ==> old(r).span(*final(r)) == ser_module_provides(x)),
        old(r).offers(ser_module_provides(t@)) && wf_module_provides(t@) ==> (res matches Ok(x) && old(r).took(*final(r), ser_module_provides(t@))
            && ser_module_provides(x) == ser_module_provides(t@)),
{
    let ghost at0 = *r;
    let ghost pre = r.offers(ser_module_provides(t@)) && wf_module_provides(t@);
    proof { if pre { lemma_module_provides_pieces(r.data@, r.pos as int, t@); } }
    let provides_index = r.read_u16()?;
    let ghost at1 = *r;
    let provides_with_index_count = r.read_u16()?;
    proof { if pre { assert(at1.span(*r) =~= r.data@.subrange(at1.pos as int, at1.pos + 2)); lemma_be_u16_injective(provides_with_index_count, #[verifier::truncate] (t@.provides_with_index@.len() as u16)); } }
    let ghost at2 = *r;
    proof { if pre { lemma_ser_u16s_len(t@.provides_with_index@); } }
    let provides_with_index = read_u16s(r, provides_with_index_count as usize)?;
    let ghost at3 = *r;
    let x = ModuleProvides { provides_index, provides_with_index };
    proof {
        lemma_span_split(r.data@, at0.pos as int, at2.pos as int, r.pos as int);
        lemma_span_split(r.data@, at0.pos as int, at1.pos as int, r.pos as int);
        if r.canonical {
            assert(at0.span(*r) =~= at0.span(at1) + at1.span(at2) + at2.span(at3));
            assert(at0.span(*r) =~= ser_module_provides(x));
        }
        if pre {
            assert(at0.span(*r) =~= r.data@.subrange(at0.pos as int, at0.pos + ser_module_provides(t@).len()));
        }
    }
    Ok(x)
}

/// Writes one `ModuleProvides`.
pub fn write_module_provides(out: &mut Vec<u8>, x: &ModuleProvides)
    ensures
        final(out)@ == old(out)@ + ser_module_provides(*x),
{
    let ghost start = out@;
    push_u16(out, x.provides_index);
    push_u16(out, #[verifier::truncate] (x.provides_with_index.len() as u16));
    write_u16s(out, &x.provides_with_index);
    assert(out@ =~= start + ser_module_provides(*x));
}

/// The bytes of each `ModuleProvides`, in order.
pub open spec fn ser_module_provides_list(s: Seq<ModuleProvides>) -> Seq<u8>
    decreases s.len(),
{
    if s.len() == 0 {
        Seq::empty()
    } else {
        ser_module_provides_list(s.drop_last()) + ser_module_provides(s.last())
    }
}

proof fn lemma_module_provides_list_concat(a: Seq<ModuleProvides>, b: Seq<ModuleProvides>)
    ensures
        ser_module_provides_list(a + b) == ser_module_provides_list(a) + ser_module_provides_list(b),
    decreases b.len(),
{
    if b.len() == 0 {
        assert(a + b =~= a);
        assert(ser_module_provides_list(a) + ser_module_provides_list(b) =~= ser_module_provides_list(a));
    } else {
        lemma_module_provides_list_concat(a, b.drop_last());
        assert((a + b).drop_last() =~= a + b.drop_last());
    }
}

proof fn lemma_module_provides_list_step(data: Seq<u8>, pos: int, s: Seq<ModuleProvides>, k: int)
    requires
        starts_at(data, pos, ser_module_provides_list(s)),
        0 <= k < s.len(),
    ensures
        starts_at(data, pos + ser_module_provides_list(s.take(k)).len(), ser_module_provides(s[k])),
        ser_module_provides_list(s.take(k + 1)) == ser_module_provides_list(s.take(k)) + ser_module_provides(s[k]),
{
    lemma_module_provides_list_concat(s.take(k + 1), s.skip(k + 1));
    assert(s.take(k + 1) + s.skip(k + 1) =~= s);
    assert(s.take(k + 1).drop_last() =~= s.take(k));
    lemma_starts_concat(data, pos, ser_module_provides_list(s.take(k + 1)), ser_module_provides_list(s.skip(k + 1)));
    lemma_starts_concat(data, pos, ser_module_provides_list(s.take(k)), ser_module_provides(s[k]));
}

/// Writes each `ModuleProvides`, in order.
pub fn write_module_provides_list(out: &mut Vec<u8>, v: &Vec<ModuleProvides>)
    ensures
        final(out)@ == old(out)@ + ser_module_provides_list(v@),
{
    let mut i: usize = 0;
    while i < v.len()
        invariant
            i <= v@.len(),
            out@ == old(out)@ + ser_module_provides_list(v@.take(i as int)),
        decreases v@.len() - i,
    {
        write_module_provides(out, &v[i]);
        assert(v@.take(i + 1).drop_last() =~= v@.take(i as int));
        i = i + 1;
    }
    assert(v@.take(v@.len() as int) =~= v@);
}

/// Reads `n` values of `ModuleProvides`; where the input offers the bytes of `ts`,
/// `n` well-formed values, it reads them.
pub fn read_module_provides_list(r: &mut ByteReader, n: usize, ts: Ghost<Seq<ModuleProvides>>) -> (res: Result<Vec<ModuleProvides>, JavaError>)
    requires
        old(r).wf(),
    ensures
        old(r).moved_to(*final(r)),
        final(r).canonical ==> old(r).canonical,
        res matches Ok(v) ==> v@.len() == n && (final(r).canonical ==> old(r).span(*final(r)) == ser_module_provides_list(v@)),
        old(r).offers(ser_module_provides_list(ts@)) && n == ts@.len() && (forall|i: int| 0 <= i < ts@.len() ==> wf_module_provides(#[trigger] ts@[i]))
            ==> (res matches Ok(v) && old(r).took(*final(r), ser_module_provides_list(ts@))),
{
    let ghost pre = r.offers(ser_module_provides_list(ts@)) && n == ts@.len() && (forall|i: int| 0 <= i < ts@.len() ==> wf_module_provides(#[trigger] ts@[i]));
    let mut v: Vec<ModuleProvides> = Vec::new();
    let mut k: usize = 0;
    assert(old(r).span(*r) =~= Seq::<u8>::empty());
    assert(ts@.take(0) =~= Seq::<ModuleProvides>::empty());
    while k < n
        invariant
            r.wf(),
            old(r).moved_to(*r),
            r.canonical ==> old(r).canonical,
            k <= n,
            v@.len() == k,
            r.canonical ==> old(r).span(*r) == ser_module_provides_list(v@),
            pre == (old(r).offers(ser_module_provides_list(ts@)) && n == ts@.len() && (forall|i: int| 0 <= i < ts@.len() ==> wf_module_provides(#[trigger] ts@[i]))),
            pre ==> r.canonical && r.pos == old(r).pos + ser_module_provides_list(ts@.take(k as int)).len(),
        decreases n - k,
    {
        let ghost before = *r;
        proof {
            if pre {
                lemma_module_provides_list_step(old(r).data@, old(r).pos as int, ts@, k as int);
                assert(wf_module_provides(ts@[k as int]));
            }
        }
        let x = read_module_provides(r, Ghost(ts@[k as int]))?;
        proof {
            lemma_span_split(r.data@, old(r).pos as int, before.pos as int, r.pos as int);
            assert(v@.push(x).drop_last() =~= v@);
        }
        v.push(x);
        k = k + 1;
    }
    proof {
        if pre {
            assert(ts@.take(n as int) =~= ts@);
        }
    }
    Ok(v)
}

/// One entry of the table of a local-variable type-annotation target.
#[derive(Debug, Clone, Copy, PartialEq, Eq, Structural)]
pub struct LocalVar {
    pub start_pc: u16,
    pub length: u16,
    pub index: u16,
}

/// The bytes of one `LocalVar`.
pub open spec fn ser_local_var(x: LocalVar) -> Seq<u8> {
    be_u16(x.start_pc)
        + be_u16(x.length)
        + be_u16(x.index)
}

/// What decoding guarantees of a `LocalVar`: flag sets that a word unpacks to, counts
/// that fit their fields, parts that decoding guarantees.
pub open spec fn wf_local_var(x: LocalVar) -> bool {
    true
}

proof fn lemma_local_var_pieces(data: Seq<u8>, pos: int, x: LocalVar)
    requires
        starts_at(data, pos, ser_local_var(x)),
    ensures
        starts_at(data, pos + 0, be_u16(x.start_pc)),
        starts_at(data, pos + (be_u16(x.start_pc)).len(), be_u16(x.length)),
        starts_at(data, pos + (be_u16(x.start_pc)).len() + (be_u16(x.length)).len(), be_u16(x.index)),
{
    lemma_starts_concat(data, pos, be_u16(x.start_pc) + be_u16(x.length), be_u16(x.index));
    lemma_starts_concat(data, pos, be_u16(x.start_pc), be_u16(x.length));
}

/// Reads one `LocalVar`; where the input offers the bytes of a well-formed
/// `t`, it reads them.
pub fn read_local_var(r: &mut ByteReader, t: Ghost<LocalVar>) -> (res: Result<LocalVar, JavaError>)
    requires
        old(r).wf(),
    ensures
        old(r).moved_to(*final(r)),
        final(r).canonical ==> old(r).canonical,
        res matches Ok(x) ==> (final(r).canonical ==> old(r).span(*final(r)) == ser_local_var(x)),
        old(r).offers(ser_local_var(t@)) && wf_local_var(t@) ==> (res matches Ok(x) && old(r).took(*final(r), ser_local_var(t@))
            && ser_local_var(x) == ser_local_var(t@)),
{
    let ghost at0 = *r;
    let ghost pre = r.offers(ser_local_var(t@)) && wf_local_var(t@);
    proof { if pre { lemma_local_var_pieces(r.data@, r.pos as int, t@); } }
    let start_pc = r.read_u16()?;
    let ghost at1 = *r;
    let length = r.read_u16()?;
    let ghost at2 = *r;
    let index = r.read_u16()?;
    let ghost at3 = *r;
    let x = LocalVar { start_pc, length, index };
    proof {
        lemma_span_split(r.data@, at0.pos as int, at2.pos as int, r.pos as int);
        lemma_span_split(r.data@, at0.pos as int, at1.pos as int, r.pos as int);
        if r.canonical {
            assert(at0.span(*r) =~= at0.span(at1) + at1.span(at2) + at2.span(at3));
            assert(at0.span(*r) =~= ser_local_var(x));
        }
        if pre {
            assert(at0.span(*r) =~= r.data@.subrange(at0.pos as int, at0.pos + ser_local_var(t@).len()));
        }
    }
    Ok(x)
}

/// Writes one `LocalVar`.
pub fn write_local_var(out: &mut Vec<u8>, x: &LocalVar)
    ensures
        final(out)@ == old(out)@ + ser_local_var(*x),
{
    let ghost start = out@;
    push_u16(out, x.start_pc);
    push_u16(out, x.length);
    push_u16(out, x.index);
    assert(out@ =~= start + ser_local_var(*x));
}

/// The bytes of each `LocalVar`, in order.
pub open spec fn ser_local_var_list(s: Seq<LocalVar>) -> Seq<u8>
    decreases s.len(),
{
    if s.len() == 0 {
        Seq::empty()
    } else {
        ser_local_var_list(s.drop_last()) + ser_local_var(s.last())
    }
}

proof fn lemma_local_var_list_concat(a: Seq<LocalVar>, b: Seq<LocalVar>)
    ensures
        ser_local_var_list(a + b) == ser_local_var_list(a) + ser_local_var_list(b),
    decreases b.len(),
{
    if b.len() == 0 {
        assert(a + b =~= a);
        assert(ser_local_var_list(a) + ser_local_var_list(b) =~= ser_local_var_list(a));
    } else {
        lemma_local_var_list_concat(a, b.drop_last());
        assert((a + b).drop_last() =~= a + b.drop_last());
    }
}

proof fn lemma_local_var_list_step(data: Seq<u8>, pos: int, s: Seq<LocalVar>, k: int)
    requires
        starts_at(data, pos, ser_local_var_list(s)),
        0 <= k < s.len(),
    ensures
        starts_at(data, pos + ser_local_var_list(s.take(k)).len(), ser_local_var(s[k])),
        ser_local_var_list(s.take(k + 1)) == ser_local_var_list(s.take(k)) + ser_local_var(s[k]),
{
    lemma_local_var_list_concat(s.take(k + 1), s.skip(k + 1));
    assert(s.take(k + 1) + s.skip(k + 1) =~= s);
    assert(s.take(k + 1).drop_last() =~= s.take(k));
    lemma_starts_concat(data, pos, ser_local_var_list(s.take(k + 1)), ser_local_var_list(s.skip(k + 1)));
    lemma_starts_concat(data, pos, ser_local_var_list(s.take(k)), ser_local_var(s[k]));
}

/// Writes each `LocalVar`, in order.
pub fn write_local_var_list(out: &mut Vec<u8>, v: &Vec<LocalVar>)
    ensures
        final(out)@ == old(out)@ + ser_local_var_list(v@),
{
    let mut i: usize = 0;
    while i < v.len()
        invariant
            i <= v@.len(),
            out@ == old(out)@ + ser_local_var_list(v@.take(i as int)),
        decreases v@.len() - i,
    {
        write_local_var(out, &v[i]);
        assert(v@.take(i + 1).drop_last() =~= v@.take(i as int));
        i = i + 1;
    }
    assert(v@.take(v@.len() as int) =~= v@);
}

/// Reads `n` values of `LocalVar`; where the input offers the bytes of `ts`,
/// `n` well-formed values, it reads them.
pub fn read_local_var_list(r: &mut ByteReader, n: usize, ts: Ghost<Seq<LocalVar>>) -> (res: Result<Vec<LocalVar>, JavaError>)
    requires
        old(r).wf(),
    ensures
        old(r).moved_to(*final(r)),
        final(r).canonical ==> old(r).canonical,
        res matches Ok(v) ==> v@.len() == n && (final(r).canonical ==> old(r).span(*final(r)) == ser_local_var_list(v@)),
        old(r).offers(ser_local_var_list(ts@)) && n == ts@.len() && (forall|i: int| 0 <= i < ts@.len() ==> wf_local_var(#[trigger] ts@[i]))
            ==> (res matches Ok(v) && old(r).took(*final(r), ser_local_var_list(ts@))),
{
    let ghost pre = r.offers(ser_local_var_list(ts@)) && n == ts@.len() && (forall|i: int| 0 <= i < ts@.len() ==> wf_local_var(#[trigger] ts@[i]));
    let mut v: Vec<LocalVar> = Vec::new();
    let mut k: usize = 0;
    assert(old(r).span(*r) =~= Seq::<u8>::empty());
    assert(ts@.take(0) =~= Seq::<LocalVar>::empty());
    while k < n
        invariant
            r.wf(),
            old(r).moved_to(*r),
            r.canonical ==> old(r).canonical,
            k <= n,
            v@.len() == k,
            r.canonical ==> old(r).span(*r) == ser_local_var_list(v@),
            pre == (old(r).offers(ser_local_var_list(ts@)) && n == ts@.len() && (forall|i: int| 0 <= i < ts@.len() ==> wf_local_var(#[trigger] ts@[i]))),
            pre ==> r.canonical && r.pos == old(r).pos + ser_local_var_list(ts@.take(k as int)).len(),
        decreases n - k,
    {
        let ghost before = *r;
        proof {
            if pre {
                lemma_local_var_list_step(old(r).data@, old(r).pos as int, ts@, k as int);
                assert(wf_local_var(ts@[k as int]));
            }
        }
        let x = read_local_var(r, Ghost(ts@[k as int]))?;
        proof {
            lemma_span_split(r.data@, old(r).pos as int, before.pos as int, r.pos as int);
            assert(v@.push(x).drop_last() =~= v@);
        }
        v.push(x);
        k = k + 1;
    }
    proof {
        if pre {
            assert(ts@.take(n as int) =~= ts@);
        }
    }
    Ok(v)
}

/// One step of a type-annotation path.
#[derive(Debug, Clone, Copy, PartialEq, Eq, Structural)]
pub struct TypePath {
    pub type_path_kind: u8,
    pub type_argument_index: u8,
}

/// The bytes of one `TypePath`.
pub open spec fn ser_type_path(x: TypePath) -> Seq<u8> {
    seq![x.type_path_kind]
        + seq![x.type_argument_index]
}

/// What decoding guarantees of a `TypePath`: flag sets that a word unpacks to, counts
/// that fit their fields, parts that decoding guarantees.
pub open spec fn wf_type_path(x: TypePath) -> bool {
    true
}

proof fn lemma_type_path_pieces(data: Seq<u8>, pos: int, x: TypePath)
    requires
        starts_at(data, pos, ser_type_path(x)),
    ensures
        starts_at(data, pos + 0, seq![x.type_path_kind]),
        starts_at(data, pos + (seq![x.type_path_kind]).len(), seq![x.type_argument_index]),
{
    lemma_starts_concat(data, pos, seq![x.type_path_kind], seq![x.type_argument_index]);
}

/// Reads one `TypePath`; where the input offers the bytes of a well-formed
/// `t`, it reads them.
pub fn read_type_path(r: &mut ByteReader, t: Ghost<TypePath>) -> (res: Result<TypePath, JavaError>)
    requires
        old(r).wf(),
    ensures
        old(r).moved_to(*final(r)),
        final(r).canonical ==> old(r).canonical,
        res matches Ok(x) ==> (final(r).canonical ==> old(r).span(*final(r)) == ser_type_path(x)),
        old(r).offers(ser_type_path(t@)) && wf_type_path(t@) ==> (res matches Ok(x) && old(r).took(*final(r), ser_type_path(t@))
            && ser_type_path(x) == ser_type_path(t@)),
{
    let ghost at0 = *r;
    let ghost pre = r.offers(ser_type_path(t@)) && wf_type_path(t@);
    proof { if pre { lemma_type_path_pieces(r.data@, r.pos as int, t@); } }
    let type_path_kind = r.read_u8()?;
    let ghost at1 = *r;
    let type_argument_index = r.read_u8()?;
    let ghost at2 = *r;
    let x = TypePath { type_path_kind, type_argument_index };
    proof {
        lemma_span_split(r.data@, at0.pos as int, at1.pos as int, r.pos as int);
        if r.canonical {
            assert(at0.span(*r) =~= at0.span(at1) + at1.span(at2));
            assert(at0.span(*r) =~= ser_type_path(x));
        }
        if pre {
            assert(at0.span(*r) =~= r.data@.subrange(at0.pos as int, at0.pos + ser_type_path(t@).len()));
        }
    }
    Ok(x)
}

/// Writes one `TypePath`.
pub fn write_type_path(out: &mut Vec<u8>, x: &TypePath)
    ensures
        final(out)@ == old(out)@ + ser_type_path(*x),
{
    let ghost start = out@;
    push_u8(out, x.type_path_kind);
    push_u8(out, x.type_argument_index);
    assert(out@ =~= start + ser_type_path(*x));
}

/// The bytes of each `TypePath`, in order.
pub open spec fn ser_type_path_list(s: Seq<TypePath>) -> Seq<u8>
    decreases s.len(),
{
    if s.len() == 0 {
        Seq::empty()
    } else {
        ser_type_path_list(s.drop_last()) + ser_type_path(s.last())
    }
}

proof fn lemma_type_path_list_concat(a: Seq<TypePath>, b: Seq<TypePath>)
    ensures
        ser_type_path_list(a + b) == ser_type_path_list(a) + ser_type_path_list(b),
    decreases b.len(),
{
    if b.len() == 0 {
        assert(a + b =~= a);
        assert(ser_type_path_list(a) + ser_type_path_list(b) =~= ser_type_path_list(a));
    } else {
        lemma_type_path_list_concat(a, b.drop_last());
        assert((a + b).drop_last() =~= a + b.drop_last());
    }
}

proof fn lemma_type_path_list_step(data: Seq<u8>, pos: int, s: Seq<TypePath>, k: int)
    requires
        starts_at(data, pos, ser_type_path_list(s)),
        0 <= k < s.len(),
    ensures
        starts_at(data, pos + ser_type_path_list(s.take(k)).len(), ser_type_path(s[k])),
        ser_type_path_list(s.take(k + 1)) == ser_type_path_list(s.take(k)) + ser_type_path(s[k]),
{
    lemma_type_path_list_concat(s.take(k + 1), s.skip(k + 1));
    assert(s.take(k + 1) + s.skip(k + 1) =~= s);
    assert(s.take(k + 1).drop_last() =~= s.take(k));
    lemma_starts_concat(data, pos, ser_type_path_list(s.take(k + 1)), ser_type_path_list(s.skip(k + 1)));
    lemma_starts_concat(data, pos, ser_type_path_list(s.take(k)), ser_type_path(s[k]));
}

/// Writes each `TypePath`, in order.
pub fn write_type_path_list(out: &mut Vec<u8>, v: &Vec<TypePath>)
    ensures
        final(out)@ == old(out)@ + ser_type_path_list(v@),
{
    let mut i: usize = 0;
    while i < v.len()
        invariant
            i <= v@.len(),
            out@ == old(out)@ + ser_type_path_list(v@.take(i as int)),
        decreases v@.len() - i,
    {
        write_type_path(out, &v[i]);
        assert(v@.take(i + 1).drop_last() =~= v@.take(i as int));
        i = i + 1;
    }
    assert(v@.take(v@.len() as int) =~= v@);
}

/// Reads `n` values of `TypePath`; where the input offers the bytes of `ts`,
/// `n` well-formed values, it reads them.
pub fn read_type_path_list(r: &mut ByteReader, n: usize, ts: Ghost<Seq<TypePath>>) -> (res: Result<Vec<TypePath>, JavaError>)
    requires
        old(r).wf(),
    ensures
        old(r).moved_to(*final(r)),
        final(r).canonical ==> old(r).canonical,
        res matches Ok(v) ==> v@.len() == n && (final(r).canonical ==> old(r).span(*final(r)) == ser_type_path_list(v@)),
        old(r).offers(ser_type_path_list(ts@)) && n == ts@.len() && (forall|i: int| 0 <= i < ts@.len() ==> wf_type_path(#[trigger] ts@[i]))
            ==> (res matches Ok(v) && old(r).took(*final(r), ser_type_path_list(ts@))),
{
    let ghost pre = r.offers(ser_type_path_list(ts@)) && n == ts@.len() && (forall|i: int| 0 <= i < ts@.len() ==> wf_type_path(#[trigger] ts@[i]));
    let mut v: Vec<TypePath> = Vec::new();
    let mut k: usize = 0;
    assert(old(r).span(*r) =~= Seq::<u8>::empty());
    assert(ts@.take(0) =~= Seq::<TypePath>::empty());
    while k < n
        invariant
            r.wf(),
            old(r).moved_to(*r),
            r.canonical ==> old(r).canonical,
            k <= n,
            v@.len() == k,
            r.canonical ==> old(r).span(*r) == ser_type_path_list(v@),
            pre == (old(r).offers(ser_type_path_list(ts@)) && n == ts@.len() && (forall|i: int| 0 <= i < ts@.len() ==> wf_type_path(#[trigger] ts@[i]))),
            pre ==> r.canonical && r.pos == old(r).pos + ser_type_path_list(ts@.take(k as int)).len(),
        decreases n - k,
    {
        let ghost before = *r;
        proof {
            if pre {
                lemma_type_path_list_step(old(r).data@, old(r).pos as int, ts@, k as int);
                assert(wf_type_path(ts@[k as int]));
            }
        }
        let x = read_type_path(r, Ghost(ts@[k as int]))?;
        proof {
            lemma_span_split(r.data@, old(r).pos as int, before.pos as int, r.pos as int);
            assert(v@.push(x).drop_last() =~= v@);
        }
        v.push(x);
        k = k + 1;
    }
    proof {
        if pre {
            assert(ts@.take(n as int) =~= ts@);
        }
    }
    Ok(v)
}


} // verus!
