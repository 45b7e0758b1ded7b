use vstd::prelude::*;

use crate::bytes::{
    be_u16, lemma_be_u16_injective, lemma_span_split, lemma_starts_concat, push_u16, push_u8, starts_at, ByteReader,
};
use crate::errors::JavaError;

verus! {

/// The type of one local-variable or stack slot in a stack-map frame.
#[derive(Debug, Clone, Copy, PartialEq, Eq, Structural)]
pub enum VerificationType {
    Double,
    Float,
    Integer,
    Long,
    Null,
    Object { cpool_index: u16 },
    Top,
    Uninitialized { offset: u16 },
    UninitializedThis,
}

/// The bytes of a verification type: its tag, then the index or offset that
/// tags 7 and 8 carry.
pub open spec fn ser_verification_type(v: VerificationType) -> Seq<u8> {
    match v {
        VerificationType::Top => seq![0u8],
        VerificationType::Integer => seq![1u8],
        VerificationType::Float => seq![2u8],
        VerificationType::Double => seq![3u8],
        VerificationType::Long => seq![4u8],
        VerificationType::Null => seq![5u8],
        VerificationType::UninitializedThis => seq![6u8],
        VerificationType::Object { cpool_index } => seq![7u8] + be_u16(cpool_index),
        VerificationType::Uninitialized { offset } => seq![8u8] + be_u16(offset),
    }
}

/// Every verification type can be decoded.
pub open spec fn wf_verification_type(v: VerificationType) -> bool {
    true
}

/// Reads one verification type; a tag above 8 is an error. Where the input
/// offers the bytes of `t`, it reads them.
pub fn read_verification_type(r: &mut ByteReader, t: Ghost<VerificationType>) -> (res: Result<VerificationType, JavaError>)
    requires
        old(r).wf(),
    ensures
        old(r).moved_to(*final(r)),
        final(r).canonical == old(r).canonical,
        res matches Ok(v) ==> old(r).span(*final(r)) == ser_verification_type(v),
        old(r).offers(ser_verification_type(t@)) ==> (res matches Ok(v) && old(r).took(*final(r), ser_verification_type(t@))),
{
    let ghost r0 = *r;
    let ghost pre = r0.offers(ser_verification_type(t@));
    proof {
        if pre {
            assert(ser_verification_type(t@).len() >= 1);
        }
    }
    let tag = r.read_u8()?;
    proof {
        if pre {
            assert(r0.span(*r)[0] == r0.data@.subrange(r0.pos as int, r0.pos + ser_verification_type(t@).len())[0]);
            assert(tag == ser_verification_type(t@)[0]);
        }
    }
    let ghost r1 = *r;
    let v = match tag {
        0 => VerificationType::Top,
        1 => VerificationType::Integer,
        2 => VerificationType::Float,
        3 => VerificationType::Double,
        4 => VerificationType::Long,
        5 => VerificationType::Null,
        6 => VerificationType::UninitializedThis,
        7 => VerificationType::Object { cpool_index: r.read_u16()? },
        8 => VerificationType::Uninitialized { offset: r.read_u16()? },
        _ => {
            return Err(JavaError::Malformed);
        },
    };
    proof {
        lemma_span_split(r.data@, r0.pos as int, r1.pos as int, r.pos as int);
        if r1.pos == r.pos {
            assert(r1.span(*r) =~= Seq::<u8>::empty());
        }
        assert(r0.span(*r) =~= ser_verification_type(v));
        if pre {
            assert(ser_verification_type(v).len() == ser_verification_type(t@).len());
        }
    }
    Ok(v)
}

/// Writes one verification type.
pub fn write_verification_type(out: &mut Vec<u8>, v: &VerificationType)
    ensures
        final(out)@ == old(out)@ + ser_verification_type(*v),
{
    let ghost start = out@;
    match v {
        VerificationType::Top => push_u8(out, 0),
        VerificationType::Integer => push_u8(out, 1),
        VerificationType::Float => push_u8(out, 2),
        VerificationType::Double => push_u8(out, 3),
        VerificationType::Long => push_u8(out, 4),
        VerificationType::Null => push_u8(out, 5),
        VerificationType::UninitializedThis => push_u8(out, 6),
        VerificationType::Object { cpool_index } => {
            push_u8(out, 7);
            push_u16(out, *cpool_index);
        },
        VerificationType::Uninitialized { offset } => {
            push_u8(out, 8);
            push_u16(out, *offset);
        },
    }
    assert(out@ =~= start + ser_verification_type(*v));
}

/// The bytes of each `VerificationType`, in order.
pub open spec fn ser_verification_type_list(s: Seq<VerificationType>) -> Seq<u8>
    decreases s.len(),
{
    if s.len() == 0 {
        Seq::empty()
    } else {
        ser_verification_type_list(s.drop_last()) + ser_verification_type(s.last())
    }
}

proof fn lemma_verification_type_list_concat(a: Seq<VerificationType>, b: Seq<VerificationType>)
    ensures
        ser_verification_type_list(a + b) == ser_verification_type_list(a) + ser_verification_type_list(b),
    decreases b.len(),
{
    if b.len() == 0 {
        assert(a + b =~= a);
        assert(ser_verification_type_list(a) + ser_verification_type_list(b) =~= ser_verification_type_list(a));
    } else {
        lemma_verification_type_list_concat(a, b.drop_last());
        assert((a + b).drop_last() =~= a + b.drop_last());
    }
}

proof fn lemma_verification_type_list_step(data: Seq<u8>, pos: int, s: Seq<VerificationType>, k: int)
    requires
        starts_at(data, pos, ser_verification_type_list(s)),
        0 <= k < s.len(),
    ensures
        starts_at(data, pos + ser_verification_type_list(s.take(k)).len(), ser_verification_type(s[k])),
        ser_verification_type_list(s.take(k + 1)) == ser_verification_type_list(s.take(k)) + ser_verification_type(s[k]),
{
    lemma_verification_type_list_concat(s.take(k + 1), s.skip(k + 1));
    assert(s.take(k + 1) + s.skip(k + 1) =~= s);
    assert(s.take(k + 1).drop_last() =~= s.take(k));
    lemma_starts_concat(data, pos, ser_verification_type_list(s.take(k + 1)), ser_verification_type_list(s.skip(k + 1)));
    lemma_starts_concat(data, pos, ser_verification_type_list(s.take(k)), ser_verification_type(s[k]));
}

/// Writes each `VerificationType`, in order.
pub fn write_verification_type_list(out: &mut Vec<u8>, v: &Vec<VerificationType>)
    ensures
        final(out)@ == old(out)@ + ser_verification_type_list(v@),
{
    let mut i: usize = 0;
    while i < v.len()
        invariant
            i <= v@.len(),
            out@ == old(out)@ + ser_verification_type_list(v@.take(i as int)),
        decreases v@.len() - i,
    {
        write_verification_type(out, &v[i]);
        assert(v@.take(i + 1).drop_last() =~= v@.take(i as int));
        i = i + 1;
    }
    assert(v@.take(v@.len() as int) =~= v@);
}

/// Reads `n` values of `VerificationType`; where the input offers the bytes of `ts`,
/// `n` well-formed values, it reads them.
pub fn read_verification_type_list(r: &mut ByteReader, n: usize, ts: Ghost<Seq<VerificationType>>) -> (res: Result<Vec<VerificationType>, JavaError>)
    requires
        old(r).wf(),
    ensures
        old(r).moved_to(*final(r)),
        final(r).canonical ==> old(r).canonical,
        res matches Ok(v) ==> v@.len() == n && (final(r).canonical ==> old(r).span(*final(r)) == ser_verification_type_list(v@)),
        old(r).offers(ser_verification_type_list(ts@)) && n == ts@.len() && (forall|i: int| 0 <= i < ts@.len() ==> wf_verification_type(#[trigger] ts@[i]))
            ==> (res matches Ok(v) && old(r).took(*final(r), ser_verification_type_list(ts@))),
{
    let ghost pre = r.offers(ser_verification_type_list(ts@)) && n == ts@.len() && (forall|i: int| 0 <= i < ts@.len() ==> wf_verification_type(#[trigger] ts@[i]));
    let mut v: Vec<VerificationType> = Vec::new();
    let mut k: usize = 0;
    assert(old(r).span(*r) =~= Seq::<u8>::empty());
    assert(ts@.take(0) =~= Seq::<VerificationType>::empty());
    while k < n
        invariant
            r.wf(),
            old(r).moved_to(*r),
            r.canonical ==> old(r).canonical,
            k <= n,
            v@.len() == k,
            r.canonical ==> old(r).span(*r) == ser_verification_type_list(v@),
            pre == (old(r).offers(ser_verification_type_list(ts@)) && n == ts@.len() && (forall|i: int| 0 <= i < ts@.len() ==> wf_verification_type(#[trigger] ts@[i]))),
            pre ==> r.canonical && r.pos == old(r).pos + ser_verification_type_list(ts@.take(k as int)).len(),
        decreases n - k,
    {
        let ghost before = *r;
        proof {
            if pre {
                lemma_verification_type_list_step(old(r).data@, old(r).pos as int, ts@, k as int);
                assert(wf_verification_type(ts@[k as int]));
            }
        }
        let x = read_verification_type(r, Ghost(ts@[k as int]))?;
        proof {
            lemma_span_split(r.data@, old(r).pos as int, before.pos as int, r.pos as int);
            assert(v@.push(x).drop_last() =~= v@);
        }
        v.push(x);
        k = k + 1;
    }
    proof {
        if pre {
            assert(ts@.take(n as int) =~= ts@);
        }
    }
    Ok(v)
}


/// Which of the seven encodings a stack-map frame uses. Where the frame-type
/// byte itself carries data, the variant keeps it.
#[derive(Debug, Clone, Copy, PartialEq, Eq, Structural)]
pub enum StackMapFrameType {
    AppendFrame(u8),
    ChopFrame(u8),
    FullFrame,
    SameFrame(u8),
    SameFrameExtended,
    SameLocals1StackItemFrame(u8),
    SameLocals1StackItemFrameExtended,
}

/// One frame of a `StackMapTable`.
#[derive(Debug, Clone, PartialEq)]
pub struct StackMapFrame {
    pub frame_type: StackMapFrameType,
    pub offset_delta: u16,
    pub locals: Vec<VerificationType>,
    pub stack: Vec<VerificationType>,
}

/// The bytes of a frame. The compact encodings write the frame-type byte
/// they keep and leave out what it implies.
pub open spec fn ser_stack_map_frame(f: StackMapFrame) -> Seq<u8> {
    match f.frame_type {
        StackMapFrameType::SameFrame(ft) => seq![ft],
        StackMapFrameType::SameLocals1StackItemFrame(ft) => seq![ft] + ser_verification_type_list(f.stack@),
        StackMapFrameType::SameLocals1StackItemFrameExtended =>
            seq![247u8] + be_u16(f.offset_delta) + ser_verification_type_list(f.stack@),
        StackMapFrameType::ChopFrame(ft) => seq![ft] + be_u16(f.offset_delta),
        StackMapFrameType::SameFrameExtended => seq![251u8] + be_u16(f.offset_delta),
        StackMapFrameType::AppendFrame(ft) =>
            seq![ft] + be_u16(f.offset_delta) + ser_verification_type_list(f.locals@),
        StackMapFrameType::FullFrame =>
            seq![255u8] + be_u16(f.offset_delta) + be_u16(#[verifier::truncate] (f.locals@.len() as u16))
                + ser_verification_type_list(f.locals@) + be_u16(#[verifier::truncate] (f.stack@.len() as u16))
                + ser_verification_type_list(f.stack@),
    }
}

/// What decoding guarantees of a frame: the frame-type byte lies in the range
/// of its encoding, and the offset delta and the slots it implies agree with it.
pub open spec fn frame_consistent(f: StackMapFrame) -> bool {
    match f.frame_type {
        StackMapFrameType::SameFrame(ft) =>
            ft <= 63 && f.offset_delta == ft && f.locals@.len() == 0 && f.stack@.len() == 0,
        StackMapFrameType::SameLocals1StackItemFrame(ft) =>
            64 <= ft <= 127 && f.offset_delta == ft - 64 && f.locals@.len() == 0 && f.stack@.len() == 1,
        StackMapFrameType::SameLocals1StackItemFrameExtended => f.locals@.len() == 0 && f.stack@.len() == 1,
        StackMapFrameType::ChopFrame(ft) => 248 <= ft <= 250 && f.locals@.len() == 0 && f.stack@.len() == 0,
        StackMapFrameType::SameFrameExtended => f.locals@.len() == 0 && f.stack@.len() == 0,
        StackMapFrameType::AppendFrame(ft) =>
            252 <= ft <= 254 && f.locals@.len() == ft - 251 && f.stack@.len() == 0,
        StackMapFrameType::FullFrame => true,
    }
}

/// A frame that decoding can give: consistent, its counts fitting 16 bits.
pub open spec fn wf_stack_map_frame(f: StackMapFrame) -> bool {
    frame_consistent(f) && f.locals@.len() <= 0xFFFF && f.stack@.len() <= 0xFFFF
}

/// Reads one frame; a frame-type byte from 128 to 246 is an error. Where the
/// input offers the bytes of a well-formed `t`, it reads them.
#[verifier::rlimit(100)]
#[verifier::spinoff_prover]
pub fn read_stack_map_frame(r: &mut ByteReader, t: Ghost<StackMapFrame>) -> (res: Result<StackMapFrame, JavaError>)
    requires
        old(r).wf(),
    ensures
        old(r).moved_to(*final(r)),
        final(r).canonical ==> old(r).canonical,
        res matches Ok(f) ==> frame_consistent(f) && (final(r).canonical ==> old(r).span(*final(r)) == ser_stack_map_frame(f)),
        old(r).offers(ser_stack_map_frame(t@)) && wf_stack_map_frame(t@) ==> (res matches Ok(f) && old(r).took(
            *final(r),
            ser_stack_map_frame(t@),
        )),
{
    let ghost r0 = *r;
    let ghost tt = t@;
    let ghost whole = ser_stack_map_frame(tt);
    let ghost pre = r0.offers(whole) && wf_stack_map_frame(tt);
    let ghost rest = whole.subrange(1, whole.len() as int);
    proof {
        if pre {
            assert(whole.len() >= 1);
            assert(whole =~= seq![whole[0]] + rest);
            lemma_starts_concat(r0.data@, r0.pos as int, seq![whole[0]], rest);
        }
    }
    let ft = r.read_u8()?;
    let ghost r1 = *r;
    proof {
        if pre {
            assert(r0.span(*r) =~= r0.data@.subrange(r0.pos as int, r0.pos + 1));
            assert(ft == whole[0]);
        }
    }
    let f = if ft <= 63 {
        StackMapFrame { frame_type: StackMapFrameType::SameFrame(ft), offset_delta: ft as u16, locals: Vec::new(), stack: Vec::new() }
    } else if ft <= 127 {
        proof {
            if pre {
                assert(rest =~= ser_verification_type_list(tt.stack@));
            }
        }
        let stack = read_verification_type_list(r, 1, Ghost(tt.stack@))?;
        StackMapFrame {
            frame_type: StackMapFrameType::SameLocals1StackItemFrame(ft),
            offset_delta: (ft - 64) as u16,
            locals: Vec::new(),
            stack,
        }
    } else if ft < 247 {
        return Err(JavaError::Malformed);
    } else {
        proof {
            if pre {
                assert(rest.len() >= 2);
                assert(rest =~= be_u16(tt.offset_delta) + rest.subrange(2, rest.len() as int));
                lemma_starts_concat(r1.data@, r1.pos as int, be_u16(tt.offset_delta), rest.subrange(2, rest.len() as int));
            }
        }
        let offset_delta = r.read_u16()?;
        let ghost r2 = *r;
        let ghost rest2 = rest.subrange(2, rest.len() as int);
        if ft == 247 {
            proof {
                if pre {
                    assert(rest2 =~= ser_verification_type_list(tt.stack@));
                }
            }
            let stack = read_verification_type_list(r, 1, Ghost(tt.stack@))?;
            proof { lemma_span_split(r.data@, r1.pos as int, r2.pos as int, r.pos as int); }
            StackMapFrame {
                frame_type: StackMapFrameType::SameLocals1StackItemFrameExtended,
                offset_delta,
                locals: Vec::new(),
                stack,
            }
        } else if ft <= 250 {
            StackMapFrame { frame_type: StackMapFrameType::ChopFrame(ft), offset_delta, locals: Vec::new(), stack: Vec::new() }
        } else if ft == 251 {
            StackMapFrame { frame_type: StackMapFrameType::SameFrameExtended, offset_delta, locals: Vec::new(), stack: Vec::new() }
        } else if ft <= 254 {
            proof {
                if pre {
                    assert(rest2 =~= ser_verification_type_list(tt.locals@));
                }
            }
            let locals = read_verification_type_list(r, (ft - 251) as usize, Ghost(tt.locals@))?;
            proof { lemma_span_split(r.data@, r1.pos as int, r2.pos as int, r.pos as int); }
            StackMapFrame { frame_type: StackMapFrameType::AppendFrame(ft), offset_delta, locals, stack: Vec::new() }
        } else {
            let ghost a = be_u16(#[verifier::truncate] (tt.locals@.len() as u16));
            let ghost b = ser_verification_type_list(tt.locals@);
            let ghost c = be_u16(#[verifier::truncate] (tt.stack@.len() as u16));
            let ghost d = ser_verification_type_list(tt.stack@);
            proof {
                if pre {
                    assert(rest2 =~= a + b + c + d);
                    lemma_starts_concat(r2.data@, r2.pos as int, a + b + c, d);
                    lemma_starts_concat(r2.data@, r2.pos as int, a + b, c);
                    lemma_starts_concat(r2.data@, r2.pos as int, a, b);
                }
            }
            let nl = r.read_u16()?;
            let ghost r3 = *r;
            proof {
                if pre {
                    assert(r2.span(r3) =~= r2.data@.subrange(r2.pos as int, r2.pos + 2));
                    lemma_be_u16_injective(nl, #[verifier::truncate] (tt.locals@.len() as u16));
                }
            }
            let locals = read_verification_type_list(r, nl as usize, Ghost(tt.locals@))?;
            let ghost r4 = *r;
            let ns = r.read_u16()?;
            let ghost r5 = *r;
            proof {
                if pre {
                    assert(r4.span(r5) =~= r4.data@.subrange(r4.pos as int, r4.pos + 2));
                    lemma_be_u16_injective(ns, #[verifier::truncate] (tt.stack@.len() as u16));
                }
            }
            let stack = read_verification_type_list(r, ns as usize, Ghost(tt.stack@))?;
            proof {
                lemma_span_split(r.data@, r4.pos as int, r5.pos as int, r.pos as int);
                lemma_span_split(r.data@, r3.pos as int, r4.pos as int, r.pos as int);
                lemma_span_split(r.data@, r2.pos as int, r3.pos as int, r.pos as int);
                lemma_span_split(r.data@, r1.pos as int, r2.pos as int, r.pos as int);
                assert(r1.span(*r) =~= r1.span(r2) + r2.span(r3) + r3.span(r4) + r4.span(r5) + r5.span(*r));
            }
            StackMapFrame { frame_type: StackMapFrameType::FullFrame, offset_delta, locals, stack }
        }
    };
    proof {
        lemma_span_split(r.data@, r0.pos as int, r1.pos as int, r.pos as int);
        if r1.pos == r.pos {
            assert(r1.span(*r) =~= Seq::<u8>::empty());
        }
        assert(f.locals@.len() == 0 ==> ser_verification_type_list(f.locals@) =~= Seq::<u8>::empty());
        assert(f.stack@.len() == 0 ==> ser_verification_type_list(f.stack@) =~= Seq::<u8>::empty());
        if r.canonical {
            assert(r0.span(*r) =~= ser_stack_map_frame(f));
        }
        if pre {
            assert(r0.span(*r) =~= r0.data@.subrange(r0.pos as int, r0.pos + whole.len()));
        }
    }
    Ok(f)
}

/// Writes one frame.
pub fn write_stack_map_frame(out: &mut Vec<u8>, f: &StackMapFrame)
    ensures
        final(out)@ == old(out)@ + ser_stack_map_frame(*f),
{
    let ghost start = out@;
    match f.frame_type {
        StackMapFrameType::SameFrame(ft) => push_u8(out, ft),
        StackMapFrameType::SameLocals1StackItemFrame(ft) => {
            push_u8(out, ft);
            write_verification_type_list(out, &f.stack);
        },
        StackMapFrameType::SameLocals1StackItemFrameExtended => {
            push_u8(out, 247);
            push_u16(out, f.offset_delta);
            write_verification_type_list(out, &f.stack);
        },
        StackMapFrameType::ChopFrame(ft) => {
            push_u8(out, ft);
            push_u16(out, f.offset_delta);
        },
        StackMapFrameType::SameFrameExtended => {
            push_u8(out, 251);
            push_u16(out, f.offset_delta);
        },
        StackMapFrameType::AppendFrame(ft) => {
            push_u8(out, ft);
            push_u16(out, f.offset_delta);
            write_verification_type_list(out, &f.locals);
        },
        StackMapFrameType::FullFrame => {
            push_u8(out, 255);
            push_u16(out, f.offset_delta);
            push_u16(out, #[verifier::truncate] (f.locals.len() as u16));
            write_verification_type_list(out, &f.locals);
            push_u16(out, #[verifier::truncate] (f.stack.len() as u16));
            write_verification_type_list(out, &f.stack);
        },
    }
    assert(out@ =~= start + ser_stack_map_frame(*f));
}

/// The bytes of each `StackMapFrame`, in order.
pub open spec fn ser_stack_map_frame_list(s: Seq<StackMapFrame>) -> Seq<u8>
    decreases s.len(),
{
    if s.len() == 0 {
        Seq::empty()
    } else {
        ser_stack_map_frame_list(s.drop_last()) + ser_stack_map_frame(s.last())
    }
}

proof fn lemma_stack_map_frame_list_concat(a: Seq<StackMapFrame>, b: Seq<StackMapFrame>)
    ensures
        ser_stack_map_frame_list(a + b) == ser_stack_map_frame_list(a) + ser_stack_map_frame_list(b),
    decreases b.len(),
{
    if b.len() == 0 {
        assert(a + b =~= a);
        assert(ser_stack_map_frame_list(a) + ser_stack_map_frame_list(b) =~= ser_stack_map_frame_list(a));
    } else {
        lemma_stack_map_frame_list_concat(a, b.drop_last());
        assert((a + b).drop_last() =~= a + b.drop_last());
    }
}

proof fn lemma_stack_map_frame_list_step(data: Seq<u8>, pos: int, s: Seq<StackMapFrame>, k: int)
    requires
        starts_at(data, pos, ser_stack_map_frame_list(s)),
        0 <= k < s.len(),
    ensures
        starts_at(data, pos + ser_stack_map_frame_list(s.take(k)).len(), ser_stack_map_frame(s[k])),
        ser_stack_map_frame_list(s.take(k + 1)) == ser_stack_map_frame_list(s.take(k)) + ser_stack_map_frame(s[k]),
{
    lemma_stack_map_frame_list_concat(s.take(k + 1), s.skip(k + 1));
    assert(s.take(k + 1) + s.skip(k + 1) =~= s);
    assert(s.take(k + 1).drop_last() =~= s.take(k));
    lemma_starts_concat(data, pos, ser_stack_map_frame_list(s.take(k + 1)), ser_stack_map_frame_list(s.skip(k + 1)));
    lemma_starts_concat(data, pos, ser_stack_map_frame_list(s.take(k)), ser_stack_map_frame(s[k]));
}

/// Writes each `StackMapFrame`, in order.
pub fn write_stack_map_frame_list(out: &mut Vec<u8>, v: &Vec<StackMapFrame>)
    ensures
        final(out)@ == old(out)@ + ser_stack_map_frame_list(v@),
{
    let mut i: usize = 0;
    while i < v.len()
        invariant
            i <= v@.len(),
            out@ == old(out)@ + ser_stack_map_frame_list(v@.take(i as int)),
        decreases v@.len() - i,
    {
        write_stack_map_frame(out, &v[i]);
        assert(v@.take(i + 1).drop_last() =~= v@.take(i as int));
        i = i + 1;
    }
    assert(v@.take(v@.len() as int) =~= v@);
}

/// Reads `n` values of `StackMapFrame`; where the input offers the bytes of `ts`,
/// `n` well-formed values, it reads them.
pub fn read_stack_map_frame_list(r: &mut ByteReader, n: usize, ts: Ghost<Seq<StackMapFrame>>) -> (res: Result<Vec<StackMapFrame>, JavaError>)
    requires
        old(r).wf(),
    ensures
        old(r).moved_to(*final(r)),
        final(r).canonical ==> old(r).canonical,
        res matches Ok(v) ==> v@.len() == n && (final(r).canonical ==> old(r).span(*final(r)) == ser_stack_map_frame_list(v@)),
        old(r).offers(ser_stack_map_frame_list(ts@)) && n == ts@.len() && (forall|i: int| 0 <= i < ts@.len() ==> wf_stack_map_frame(#[trigger] ts@[i]))
            ==> (res matches Ok(v) && old(r).took(*final(r), ser_stack_map_frame_list(ts@))),
{
    let ghost pre = r.offers(ser_stack_map_frame_list(ts@)) && n == ts@.len() && (forall|i: int| 0 <= i < ts@.len() ==> wf_stack_map_frame(#[trigger] ts@[i]));
    let mut v: Vec<StackMapFrame> = Vec::new();
    let mut k: usize = 0;
    assert(old(r).span(*r) =~= Seq::<u8>::empty());
    assert(ts@.take(0) =~= Seq::<StackMapFrame>::empty());
    while k < n
        invariant
            r.wf(),
            old(r).moved_to(*r),
            r.canonical ==> old(r).canonical,
            k <= n,
            v@.len() == k,
            r.canonical ==> old(r).span(*r) == ser_stack_map_frame_list(v@),
            pre == (old(r).offers(ser_stack_map_frame_list(ts@)) && n == ts@.len() && (forall|i: int| 0 <= i < ts@.len() ==> wf_stack_map_frame(#[trigger] ts@[i]))),
            pre ==> r.canonical && r.pos == old(r).pos + ser_stack_map_frame_list(ts@.take(k as int)).len(),
        decreases n - k,
    {
        let ghost before = *r;
        proof {
            if pre {
                lemma_stack_map_frame_list_step(old(r).data@, old(r).pos as int, ts@, k as int);
                assert(wf_stack_map_frame(ts@[k as int]));
            }
        }
        let x = read_stack_map_frame(r, Ghost(ts@[k as int]))?;
        proof {
            lemma_span_split(r.data@, old(r).pos as int, before.pos as int, r.pos as int);
            assert(v@.push(x).drop_last() =~= v@);
        }
        v.push(x);
        k = k + 1;
    }
    proof {
        if pre {
            assert(ts@.take(n as int) =~= ts@);
        }
    }
    Ok(v)
}


} // verus!
