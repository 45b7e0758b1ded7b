use vstd::prelude::*;

use crate::bytes::{be_u16, be_u32, be_u64, lemma_be_u16_injective, lemma_span_split, lemma_starts_concat, starts_at, push_bytes, push_u16, push_u32, push_u64, push_u8, ByteReader};
use crate::errors::JavaError;

verus! {

/// One entry of the constant pool. `Float` and `Double` hold the IEEE 754
/// bit patterns of their values; `Utf8` holds its bytes as they stand in the
/// file.
#[derive(Debug, Clone, PartialEq)]
pub enum Constant {
    Class { name_index: u16 },
    Double(u64),
    Dynamic { bootstrap_method_attr_index: u16, name_and_type_index: u16 },
    Fieldref { class_index: u16, name_and_type_index: u16 },
    Float(u32),
    Integer(i32),
    InterfaceMethodref { class_index: u16, name_and_type_index: u16 },
    /// The entry at index 0, and the one after each `Long` and `Double`.
    Invalid,
    InvokeDynamic { bootstrap_method_attr_index: u16, name_and_type_index: u16 },
    Long(i64),
    MethodHandle { reference_kind: u8, reference_index: u16 },
    Methodref { class_index: u16, name_and_type_index: u16 },
    MethodType { descriptor_index: u16 },
    Module { name_index: u16 },
    NameAndType { name_index: u16, descriptor_index: u16 },
    Package { name_index: u16 },
    String { string_index: u16 },
    Utf8(Vec<u8>),
}

/// The entry takes two slots of the pool.
pub open spec fn is_wide(c: Constant) -> bool {
    c is Long || c is Double
}

/// A tag that some constant kind uses.
pub open spec fn constant_tag(t: u8) -> bool {
    t == 1 || (3 <= t <= 12) || (15 <= t <= 20)
}

/// The bytes of one entry: its tag and payload. `Invalid` has none.
pub open spec fn ser_constant(c: Constant) -> Seq<u8> {
    match c {
        Constant::Invalid => Seq::empty(),
        Constant::Utf8(b) => seq![1u8] + be_u16(b@.len() as u16) + b@,
        Constant::Integer(v) => seq![3u8] + be_u32(#[verifier::truncate] (v as u32)),
        Constant::Float(v) => seq![4u8] + be_u32(v),
        Constant::Long(v) => seq![5u8] + be_u64(#[verifier::truncate] (v as u64)),
        Constant::Double(v) => seq![6u8] + be_u64(v),
        Constant::Class { name_index } => seq![7u8] + be_u16(name_index),
        Constant::String { string_index } => seq![8u8] + be_u16(string_index),
        Constant::Fieldref { class_index, name_and_type_index } =>
            seq![9u8] + be_u16(class_index) + be_u16(name_and_type_index),
        Constant::Methodref { class_index, name_and_type_index } =>
            seq![10u8] + be_u16(class_index) + be_u16(name_and_type_index),
        Constant::InterfaceMethodref { class_index, name_and_type_index } =>
            seq![11u8] + be_u16(class_index) + be_u16(name_and_type_index),
        Constant::NameAndType { name_index, descriptor_index } =>
            seq![12u8] + be_u16(name_index) + be_u16(descriptor_index),
        Constant::MethodHandle { reference_kind, reference_index } =>
            seq![15u8, reference_kind] + be_u16(reference_index),
        Constant::MethodType { descriptor_index } => seq![16u8] + be_u16(descriptor_index),
        Constant::Dynamic { bootstrap_method_attr_index, name_and_type_index } =>
            seq![17u8] + be_u16(bootstrap_method_attr_index) + be_u16(name_and_type_index),
        Constant::InvokeDynamic { bootstrap_method_attr_index, name_and_type_index } =>
            seq![18u8] + be_u16(bootstrap_method_attr_index) + be_u16(name_and_type_index),
        Constant::Module { name_index } => seq![19u8] + be_u16(name_index),
        Constant::Package { name_index } => seq![20u8] + be_u16(name_index),
    }
}

/// The bytes of the entries of a pool, in order.
pub open spec fn ser_entries(pool: Seq<Constant>) -> Seq<u8>
    decreases pool.len(),
{
    if pool.len() == 0 {
        Seq::empty()
    } else {
        ser_entries(pool.drop_last()) + ser_constant(pool.last())
    }
}

/// The bytes of a constant pool: its length, placeholders included, then
/// its entries.
pub open spec fn ser_pool(pool: Seq<Constant>) -> Seq<u8> {
    be_u16(pool.len() as u16) + ser_entries(pool)
}

/// Every length in the entry fits its 16-bit field.
pub open spec fn constant_fits(c: Constant) -> bool {
    c matches Constant::Utf8(b) ==> b@.len() <= 0xFFFF
}

/// The pool can be written: its length and each string length fit 16 bits.
pub open spec fn pool_fits(pool: Seq<Constant>) -> bool {
    &&& pool.len() <= 0xFFFF
    &&& forall|i: int| 0 <= i < pool.len() ==> constant_fits(#[trigger] pool[i])
}

/// The slot layout of a decoded pool: `Invalid` at index 0 and right after
/// each `Long` and `Double`, nowhere else, and no wide entry in the last slot.
pub open spec fn pool_layout(pool: Seq<Constant>) -> bool {
    &&& pool.len() >= 1
    &&& pool[0] is Invalid
    &&& forall|i: int| 1 <= i < pool.len() ==> (#[trigger] pool[i] is Invalid <==> is_wide(pool[i - 1]))
    &&& !is_wide(pool.last())
}

/// The indices that an entry refers to.
pub open spec fn references(c: Constant) -> Seq<u16> {
    match c {
        Constant::Class { name_index } => seq![name_index],
        Constant::String { string_index } => seq![string_index],
        Constant::Fieldref { class_index, name_and_type_index } => seq![class_index, name_and_type_index],
        Constant::Methodref { class_index, name_and_type_index } => seq![class_index, name_and_type_index],
        Constant::InterfaceMethodref { class_index, name_and_type_index } =>
            seq![class_index, name_and_type_index],
        Constant::NameAndType { name_index, descriptor_index } => seq![name_index, descriptor_index],
        Constant::MethodHandle { reference_kind, reference_index } => seq![reference_index],
        Constant::MethodType { descriptor_index } => seq![descriptor_index],
        Constant::Dynamic { bootstrap_method_attr_index, name_and_type_index } => seq![name_and_type_index],
        Constant::InvokeDynamic { bootstrap_method_attr_index, name_and_type_index } =>
            seq![name_and_type_index],
        Constant::Module { name_index } => seq![name_index],
        Constant::Package { name_index } => seq![name_index],
        _ => Seq::empty(),
    }
}

/// `index` names an entry of the pool that is not a placeholder.
pub open spec fn resolves(pool: Seq<Constant>, index: u16) -> bool {
    index < pool.len() && !(pool[index as int] is Invalid)
}

/// Every index that an entry refers to names an entry that is not a
/// placeholder.
pub open spec fn references_resolve(pool: Seq<Constant>) -> bool {
    forall|i: int, k: int|
        0 <= i < pool.len() && 0 <= k < references(pool[i]).len() ==> resolves(
            pool,
            #[trigger] references(pool[i])[k],
        )
}

proof fn lemma_ser_entries_push(pool: Seq<Constant>, c: Constant)
    ensures
        ser_entries(pool.push(c)) == ser_entries(pool) + ser_constant(c),
{
    assert(pool.push(c).drop_last() =~= pool);
}

/// Writes one entry.
pub fn write_constant(out: &mut Vec<u8>, c: &Constant)
    requires
        constant_fits(*c),
    ensures
        final(out)@ == old(out)@ + ser_constant(*c),
{
    let ghost start = out@;
    match c {
        Constant::Invalid => {},
        Constant::Utf8(b) => {
            push_u8(out, 1);
            push_u16(out, b.len() as u16);
            push_bytes(out, b.as_slice());
        },
        Constant::Integer(v) => {
            push_u8(out, 3);
            push_u32(out, #[verifier::truncate] (*v as u32));
        },
        Constant::Float(v) => {
            push_u8(out, 4);
            push_u32(out, *v);
        },
        Constant::Long(v) => {
            push_u8(out, 5);
            push_u64(out, #[verifier::truncate] (*v as u64));
        },
        Constant::Double(v) => {
            push_u8(out, 6);
            push_u64(out, *v);
        },
        Constant::Class { name_index } => {
            push_u8(out, 7);
            push_u16(out, *name_index);
        },
        Constant::String { string_index } => {
            push_u8(out, 8);
            push_u16(out, *string_index);
        },
        Constant::Fieldref { class_index, name_and_type_index } => {
            push_u8(out, 9);
            push_u16(out, *class_index);
            push_u16(out, *name_and_type_index);
        },
        Constant::Methodref { class_index, name_and_type_index } => {
            push_u8(out, 10);
            push_u16(out, *class_index);
            push_u16(out, *name_and_type_index);
        },
        Constant::InterfaceMethodref { class_index, name_and_type_index } => {
            push_u8(out, 11);
            push_u16(out, *class_index);
            push_u16(out, *name_and_type_index);
        },
        Constant::NameAndType { name_index, descriptor_index } => {
            push_u8(out, 12);
            push_u16(out, *name_index);
            push_u16(out, *descriptor_index);
        },
        Constant::MethodHandle { reference_kind, reference_index } => {
            push_u8(out, 15);
            push_u8(out, *reference_kind);
            push_u16(out, *reference_index);
        },
        Constant::MethodType { descriptor_index } => {
            push_u8(out, 16);
            push_u16(out, *descriptor_index);
        },
        Constant::Dynamic { bootstrap_method_attr_index, name_and_type_index } => {
            push_u8(out, 17);
            push_u16(out, *bootstrap_method_attr_index);
            push_u16(out, *name_and_type_index);
        },
        Constant::InvokeDynamic { bootstrap_method_attr_index, name_and_type_index } => {
            push_u8(out, 18);
            push_u16(out, *bootstrap_method_attr_index);
            push_u16(out, *name_and_type_index);
        },
        Constant::Module { name_index } => {
            push_u8(out, 19);
            push_u16(out, *name_index);
        },
        Constant::Package { name_index } => {
            push_u8(out, 20);
            push_u16(out, *name_index);
        },
    }
    assert(out@ =~= start + ser_constant(*c));
}

/// Writes the pool: its length, placeholders included, then every entry.
/// It fails, writing nothing, where a length does not fit its field.
pub fn write_constant_pool(out: &mut Vec<u8>, constants: &Vec<Constant>) -> (res: Result<(), JavaError>)
    ensures
        res is Ok <==> pool_fits(constants@),
        res is Ok ==> final(out)@ == old(out)@ + ser_pool(constants@),
        res is Err ==> final(out)@ == old(out)@ && res == Err::<(), JavaError>(JavaError::Malformed),
{
    if constants.len() > 0xFFFF {
        return Err(JavaError::Malformed);
    }
    let mut k: usize = 0;
    while k < constants.len()
        invariant
            k <= constants@.len(),
            forall|i: int| 0 <= i < k ==> constant_fits(#[trigger] constants@[i]),
        decreases constants@.len() - k,
    {
        if let Constant::Utf8(b) = &constants[k] {
            if b.len() > 0xFFFF {
                return Err(JavaError::Malformed);
            }
        }
        k = k + 1;
    }
    let ghost start = out@;
    push_u16(out, constants.len() as u16);
    let mut i: usize = 0;
    while i < constants.len()
        invariant
            pool_fits(constants@),
            i <= constants@.len(),
            out@ == start + be_u16(constants@.len() as u16) + ser_entries(constants@.take(i as int)),
        decreases constants@.len() - i,
    {
        write_constant(out, &constants[i]);
        assert(constants@.take(i + 1) =~= constants@.take(i as int).push(constants@[i as int]));
        proof { lemma_ser_entries_push(constants@.take(i as int), constants@[i as int]); }
        i = i + 1;
    }
    assert(constants@.take(constants@.len() as int) =~= constants@);
    Ok(())
}

proof fn lemma_tag_u16(tag: u8, a: u16, b: u16)
    ensures
        (seq![tag] + be_u16(a) == seq![tag] + be_u16(b)) ==> a == b,
{
    if seq![tag] + be_u16(a) == seq![tag] + be_u16(b) {
        assert((seq![tag] + be_u16(a)).subrange(1, 3) =~= be_u16(a));
        assert((seq![tag] + be_u16(b)).subrange(1, 3) =~= be_u16(b));
        lemma_be_u16_injective(a, b);
    }
}

proof fn lemma_tag_u16_u16(tag: u8, a: u16, b: u16, c: u16, d: u16)
    ensures
        (seq![tag] + be_u16(a) + be_u16(b) == seq![tag] + be_u16(c) + be_u16(d)) ==> a == c && b == d,
{
    if seq![tag] + be_u16(a) + be_u16(b) == seq![tag] + be_u16(c) + be_u16(d) {
        assert((seq![tag] + be_u16(a) + be_u16(b)).subrange(1, 3) =~= be_u16(a));
        assert((seq![tag] + be_u16(c) + be_u16(d)).subrange(1, 3) =~= be_u16(c));
        assert((seq![tag] + be_u16(a) + be_u16(b)).subrange(3, 5) =~= be_u16(b));
        assert((seq![tag] + be_u16(c) + be_u16(d)).subrange(3, 5) =~= be_u16(d));
        lemma_be_u16_injective(a, c);
        lemma_be_u16_injective(b, d);
    }
}

/// The tag byte of an entry's kind.
pub open spec fn tag_of(c: Constant) -> u8 {
    match c {
        Constant::Invalid => 0,
        Constant::Utf8(_) => 1,
        Constant::Integer(_) => 3,
        Constant::Float(_) => 4,
        Constant::Long(_) => 5,
        Constant::Double(_) => 6,
        Constant::Class { .. } => 7,
        Constant::String { .. } => 8,
        Constant::Fieldref { .. } => 9,
        Constant::Methodref { .. } => 10,
        Constant::InterfaceMethodref { .. } => 11,
        Constant::NameAndType { .. } => 12,
        Constant::MethodHandle { .. } => 15,
        Constant::MethodType { .. } => 16,
        Constant::Dynamic { .. } => 17,
        Constant::InvokeDynamic { .. } => 18,
        Constant::Module { .. } => 19,
        Constant::Package { .. } => 20,
    }
}

proof fn lemma_first_byte(c: Constant)
    requires
        !(c is Invalid),
    ensures
        ser_constant(c).len() >= 1,
        ser_constant(c)[0] == tag_of(c),
{
}

/// Two entries with the same bytes take the same slots and refer to the
/// same indices.
proof fn lemma_same_constant(c: Constant, t: Constant)
    requires
        ser_constant(c) == ser_constant(t),
        !(c is Invalid),
        !(t is Invalid),
    ensures
        is_wide(c) == is_wide(t),
        references(c) == references(t),
        same_text(c, t),
{
    lemma_first_byte(c);
    lemma_first_byte(t);
    assert(tag_of(c) == tag_of(t));
    match (c, t) {
        (Constant::Class { name_index: a }, Constant::Class { name_index: b }) => lemma_tag_u16(7, a, b),
        (Constant::String { string_index: a }, Constant::String { string_index: b }) => lemma_tag_u16(8, a, b),
        (Constant::MethodType { descriptor_index: a }, Constant::MethodType { descriptor_index: b }) => lemma_tag_u16(16, a, b),
        (Constant::Module { name_index: a }, Constant::Module { name_index: b }) => lemma_tag_u16(19, a, b),
        (Constant::Package { name_index: a }, Constant::Package { name_index: b }) => lemma_tag_u16(20, a, b),
        (Constant::Fieldref { class_index: a, name_and_type_index: b }, Constant::Fieldref { class_index: x, name_and_type_index: y }) =>
            lemma_tag_u16_u16(9, a, b, x, y),
        (Constant::Methodref { class_index: a, name_and_type_index: b }, Constant::Methodref { class_index: x, name_and_type_index: y }) =>
            lemma_tag_u16_u16(10, a, b, x, y),
        (Constant::InterfaceMethodref { class_index: a, name_and_type_index: b }, Constant::InterfaceMethodref { class_index: x, name_and_type_index: y }) =>
            lemma_tag_u16_u16(11, a, b, x, y),
        (Constant::NameAndType { name_index: a, descriptor_index: b }, Constant::NameAndType { name_index: x, descriptor_index: y }) =>
            lemma_tag_u16_u16(12, a, b, x, y),
        (Constant::Dynamic { bootstrap_method_attr_index: a, name_and_type_index: b }, Constant::Dynamic { bootstrap_method_attr_index: x, name_and_type_index: y }) =>
            lemma_tag_u16_u16(17, a, b, x, y),
        (Constant::InvokeDynamic { bootstrap_method_attr_index: a, name_and_type_index: b }, Constant::InvokeDynamic { bootstrap_method_attr_index: x, name_and_type_index: y }) =>
            lemma_tag_u16_u16(18, a, b, x, y),
        (Constant::Utf8(a), Constant::Utf8(b)) => {
            let sa = ser_constant(c);
            assert(sa =~= seq![1u8] + be_u16(a@.len() as u16) + a@);
            assert(ser_constant(t) =~= seq![1u8] + be_u16(b@.len() as u16) + b@);
            assert(sa.subrange(1, 3) =~= be_u16(a@.len() as u16));
            assert(ser_constant(t).subrange(1, 3) =~= be_u16(b@.len() as u16));
            lemma_be_u16_injective(a@.len() as u16, b@.len() as u16);
            assert(a@ =~= sa.subrange(3, sa.len() as int));
            assert(b@ =~= ser_constant(t).subrange(3, sa.len() as int));
        },
        (Constant::MethodHandle { reference_kind: k, reference_index: a }, Constant::MethodHandle { reference_kind: k2, reference_index: b }) => {
            assert((seq![15u8, k] + be_u16(a)).subrange(2, 4) =~= be_u16(a));
            assert((seq![15u8, k2] + be_u16(b)).subrange(2, 4) =~= be_u16(b));
            lemma_be_u16_injective(a, b);
        },
        _ => {},
    }
}

/// Reads two big-endian `u16` fields.
fn read_pair(r: &mut ByteReader) -> (res: Result<(u16, u16), JavaError>)
    requires
        old(r).wf(),
    ensures
        old(r).moved_to(*final(r)),
        final(r).canonical == old(r).canonical,
        res matches Ok((a, b)) ==> old(r).span(*final(r)) == be_u16(a) + be_u16(b),
        res matches Err(e) ==> e is UnexpectedEnd,
        res is Err <==> old(r).remaining() < 4,
{
    let ghost r0 = *r;
    let a = r.read_u16()?;
    let ghost r1 = *r;
    let b = r.read_u16()?;
    proof { lemma_span_split(r0.data@, r0.pos as int, r1.pos as int, r.pos as int); }
    Ok((a, b))
}

/// Reads one entry, tag first. It is never `Invalid`. Where the input offers
/// the bytes of an entry `t`, it is read with the same bytes.
pub fn read_constant(r: &mut ByteReader, t: Ghost<Constant>) -> (res: Result<Constant, JavaError>)
    requires
        old(r).wf(),
    ensures
        old(r).moved_to(*final(r)),
        final(r).canonical == old(r).canonical,
        res matches Ok(c) ==> old(r).span(*final(r)) == ser_constant(c) && !(c is Invalid) && constant_fits(c),
        res matches Err(JavaError::UnknownConstantTag(t)) ==> old(r).pos < old(r).data@.len()
            && t == old(r).data@[old(r).pos as int] && !constant_tag(t),
        ({
            let pre = old(r).offers(ser_constant(t@)) && !(t@ is Invalid) && constant_fits(t@);
            pre ==> (res matches Ok(c) && old(r).took(*final(r), ser_constant(t@)) && ser_constant(c) == ser_constant(t@))
        }),
{
    let ghost r0 = *r;
    let ghost pre = r0.offers(ser_constant(t@)) && !(t@ is Invalid) && constant_fits(t@);
    proof {
        if pre {
            lemma_first_byte(t@);
        }
    }
    let tag = r.read_u8()?;
    assert(r0.span(*r)[0] == r0.data@[r0.pos as int]);
    proof {
        if pre {
            assert(r0.data@[r0.pos as int] == r0.data@.subrange(r0.pos as int, r0.pos + ser_constant(t@).len())[0]);
            assert(tag == tag_of(t@));
        }
    }
    let ghost r1 = *r;
    let c = match tag {
        1 => {
            let len = r.read_u16()?;
            let ghost r2 = *r;
            proof {
                if pre {
                    if let Constant::Utf8(tb) = t@ {
                        let sb = ser_constant(t@);
                        assert(sb == seq![1u8] + be_u16(tb@.len() as u16) + tb@);
                        assert(sb.subrange(1, 3) =~= be_u16(tb@.len() as u16));
                        assert(r1.span(r2) =~= r0.data@.subrange(r0.pos as int, r0.pos + sb.len()).subrange(1, 3));
                        lemma_be_u16_injective(len, tb@.len() as u16);
                    }
                }
            }
            let b = r.read_bytes(len as usize)?;
            proof { lemma_span_split(r1.data@, r1.pos as int, r2.pos as int, r.pos as int); }
            Constant::Utf8(b)
        },
        3 => {
            let v = r.read_u32()?;
            assert(#[verifier::truncate] ((#[verifier::truncate] (v as i32)) as u32) == v) by (bit_vector);
            Constant::Integer(#[verifier::truncate] (v as i32))
        },
        4 => Constant::Float(r.read_u32()?),
        5 => {
            let v = r.read_u64()?;
            assert(#[verifier::truncate] ((#[verifier::truncate] (v as i64)) as u64) == v) by (bit_vector);
            Constant::Long(#[verifier::truncate] (v as i64))
        },
        6 => Constant::Double(r.read_u64()?),
        7 => Constant::Class { name_index: r.read_u16()? },
        8 => Constant::String { string_index: r.read_u16()? },
        9 => {
            let (class_index, name_and_type_index) = read_pair(r)?;
            Constant::Fieldref { class_index, name_and_type_index }
        },
        10 => {
            let (class_index, name_and_type_index) = read_pair(r)?;
            Constant::Methodref { class_index, name_and_type_index }
        },
        11 => {
            let (class_index, name_and_type_index) = read_pair(r)?;
            Constant::InterfaceMethodref { class_index, name_and_type_index }
        },
        12 => {
            let (name_index, descriptor_index) = read_pair(r)?;
            Constant::NameAndType { name_index, descriptor_index }
        },
        15 => {
            let reference_kind = r.read_u8()?;
            let ghost r2 = *r;
            let reference_index = r.read_u16()?;
            proof { lemma_span_split(r1.data@, r1.pos as int, r2.pos as int, r.pos as int); }
            Constant::MethodHandle { reference_kind, reference_index }
        },
        16 => Constant::MethodType { descriptor_index: r.read_u16()? },
        17 => {
            let (bootstrap_method_attr_index, name_and_type_index) = read_pair(r)?;
            Constant::Dynamic { bootstrap_method_attr_index, name_and_type_index }
        },
        18 => {
            let (bootstrap_method_attr_index, name_and_type_index) = read_pair(r)?;
            Constant::InvokeDynamic { bootstrap_method_attr_index, name_and_type_index }
        },
        19 => Constant::Module { name_index: r.read_u16()? },
        20 => Constant::Package { name_index: r.read_u16()? },
        _ => {
            return Err(JavaError::UnknownConstantTag(tag));
        },
    };
    proof {
        lemma_span_split(r0.data@, r0.pos as int, r1.pos as int, r.pos as int);
        assert(r0.span(*r) =~= ser_constant(c));
        if pre {
            assert(ser_constant(c).len() == ser_constant(t@).len());
            assert(r0.span(*r) == r0.data@.subrange(r0.pos as int, r0.pos + ser_constant(t@).len()));
        }
    }
    Ok(c)
}

/// Checks that every index an entry refers to names an entry that is not a
/// placeholder; the first that does not is reported.
pub fn check_references(constants: &Vec<Constant>) -> (res: Result<(), JavaError>)
    ensures
        res is Ok <==> references_resolve(constants@),
        res matches Err(e) ==> e is InvalidConstantId,
{
    let mut i: usize = 0;
    while i < constants.len()
        invariant
            i <= constants@.len(),
            forall|j: int, k: int|
                0 <= j < i && 0 <= k < references(constants@[j]).len() ==> resolves(
                    constants@,
                    #[trigger] references(constants@[j])[k],
                ),
        decreases constants@.len() - i,
    {
        let refs = referenced_indices(&constants[i]);
        let mut k: usize = 0;
        while k < refs.len()
            invariant
                i < constants@.len(),
                refs@ == references(constants@[i as int]),
                k <= refs@.len(),
                forall|j: int, k2: int|
                    0 <= j < i && 0 <= k2 < references(constants@[j]).len() ==> resolves(
                        constants@,
                        #[trigger] references(constants@[j])[k2],
                    ),
                forall|k2: int| 0 <= k2 < k ==> resolves(constants@, #[trigger] refs@[k2]),
            decreases refs@.len() - k,
        {
            let idx = refs[k];
            if idx as usize >= constants.len() {
                return Err(JavaError::InvalidConstantId(idx));
            }
            if let Constant::Invalid = &constants[idx as usize] {
                return Err(JavaError::InvalidConstantId(idx));
            }
            k = k + 1;
        }
        i = i + 1;
    }
    Ok(())
}

/// The indices that an entry refers to.
fn referenced_indices(c: &Constant) -> (r: Vec<u16>)
    ensures
        r@ == references(*c),
{
    match c {
        Constant::Class { name_index } => vec![*name_index],
        Constant::String { string_index } => vec![*string_index],
        Constant::Fieldref { class_index, name_and_type_index } => vec![*class_index, *name_and_type_index],
        Constant::Methodref { class_index, name_and_type_index } => vec![*class_index, *name_and_type_index],
        Constant::InterfaceMethodref { class_index, name_and_type_index } =>
            vec![*class_index, *name_and_type_index],
        Constant::NameAndType { name_index, descriptor_index } => vec![*name_index, *descriptor_index],
        Constant::MethodHandle { reference_kind, reference_index } => vec![*reference_index],
        Constant::MethodType { descriptor_index } => vec![*descriptor_index],
        Constant::Dynamic { bootstrap_method_attr_index, name_and_type_index } => vec![*name_and_type_index],
        Constant::InvokeDynamic { bootstrap_method_attr_index, name_and_type_index } =>
            vec![*name_and_type_index],
        Constant::Module { name_index } => vec![*name_index],
        Constant::Package { name_index } => vec![*name_index],
        _ => Vec::new(),
    }
}

/// Two entries agree where they are both placeholders or neither is, take
/// the same slots and refer to the same indices.
pub open spec fn agrees(a: Constant, b: Constant) -> bool {
    &&& (a is Invalid <==> b is Invalid)
    &&& is_wide(a) == is_wide(b)
    &&& references(a) == references(b)
    &&& same_text(a, b)
}

/// Both entries are `Utf8` with the same bytes, or neither is `Utf8`.
pub open spec fn same_text(a: Constant, b: Constant) -> bool {
    &&& (a is Utf8 <==> b is Utf8)
    &&& (a is Utf8 ==> a->Utf8_0@ == b->Utf8_0@)
}

/// Entry by entry, the pools agree on which entries are `Utf8` and what
/// those hold.
pub open spec fn same_texts(p1: Seq<Constant>, p2: Seq<Constant>) -> bool {
    &&& p1.len() == p2.len()
    &&& forall|i: int| 0 <= i < p1.len() ==> same_text(#[trigger] p1[i], p2[i])
}

/// Pools with the same texts name every string at the same index.
pub proof fn lemma_same_texts_first(p1: Seq<Constant>, p2: Seq<Constant>, name: Seq<u8>)
    requires
        same_texts(p1, p2),
    ensures
        first_utf8(p1, name) == first_utf8(p2, name),
    decreases p1.len(),
{
    if p1.len() > 0 {
        assert(same_text(p1[p1.len() - 1], p2[p2.len() - 1]));
        assert forall|i: int| 0 <= i < p1.drop_last().len() implies same_text(#[trigger] p1.drop_last()[i], p2.drop_last()[i]) by {
            assert(same_text(p1[i], p2[i]));
        }
        lemma_same_texts_first(p1.drop_last(), p2.drop_last(), name);
    }
}

/// `p` is a decodable pool whose bytes the cursor offers.
pub open spec fn pool_offered(r: ByteReader, p: Seq<Constant>) -> bool {
    &&& r.offers(ser_pool(p))
    &&& pool_layout(p)
    &&& pool_fits(p)
    &&& references_resolve(p)
}

proof fn lemma_ser_entries_concat(a: Seq<Constant>, b: Seq<Constant>)
    ensures
        ser_entries(a + b) == ser_entries(a) + ser_entries(b),
    decreases b.len(),
{
    if b.len() == 0 {
        assert(a + b =~= a);
        assert(ser_entries(a) + ser_entries(b) =~= ser_entries(a));
    } else {
        lemma_ser_entries_concat(a, b.drop_last());
        assert((a + b).drop_last() =~= a + b.drop_last());
        assert((a + b).last() == b.last());
    }
}

/// Reads the pool: its length, then entries until that many slots are
/// filled, a placeholder after each `Long` and `Double` and one at index 0.
/// A length of 0, a wide entry in the last slot and a reference to no entry
/// are errors. Where the input offers a decodable pool, it is read.
pub fn read_constant_pool(r: &mut ByteReader) -> (res: Result<Vec<Constant>, JavaError>)
    requires
        old(r).wf(),
    ensures
        old(r).moved_to(*final(r)),
        final(r).canonical == old(r).canonical,
        res matches Ok(pool) ==> {
            &&& old(r).span(*final(r)) == ser_pool(pool@)
            &&& pool_layout(pool@)
            &&& references_resolve(pool@)
            &&& pool_fits(pool@)
        },
        (exists|p: Seq<Constant>| pool_offered(*old(r), p)) ==> (res matches Ok(pool) && final(r).canonical && exists|p: Seq<Constant>|
            #![auto] pool_offered(*old(r), p) && old(r).took(*final(r), ser_pool(p)) && ser_pool(pool@) == ser_pool(p)),
{
    let ghost target = choose|p: Seq<Constant>| pool_offered(*r, p);
    read_constant_pool_as(r, Ghost(target))
}

proof fn lemma_pool_step(data: Seq<u8>, pos: int, p: Seq<Constant>, k: int)
    requires
        starts_at(data, pos, ser_entries(p)),
        0 <= k < p.len(),
    ensures
        starts_at(data, pos + ser_entries(p.take(k)).len(), ser_constant(p[k])),
        ser_entries(p.take(k + 1)) == ser_entries(p.take(k)) + ser_constant(p[k]),
{
    lemma_ser_entries_concat(p.take(k + 1), p.skip(k + 1));
    assert(p.take(k + 1) + p.skip(k + 1) =~= p);
    lemma_ser_entries_push(p.take(k), p[k]);
    assert(p.take(k + 1) =~= p.take(k).push(p[k]));
    lemma_starts_concat(data, pos, ser_entries(p.take(k + 1)), ser_entries(p.skip(k + 1)));
    lemma_starts_concat(data, pos, ser_entries(p.take(k)), ser_constant(p[k]));
}

/// Reads the pool; where the input offers the pool `target`, the pool read
/// has its bytes.
#[verifier::rlimit(100)]
#[verifier::spinoff_prover]
pub fn read_constant_pool_as(r: &mut ByteReader, target: Ghost<Seq<Constant>>) -> (res: Result<Vec<Constant>, JavaError>)
    requires
        old(r).wf(),
    ensures
        old(r).moved_to(*final(r)),
        final(r).canonical == old(r).canonical,
        res matches Ok(pool) ==> {
            &&& old(r).span(*final(r)) == ser_pool(pool@)
            &&& pool_layout(pool@)
            &&& references_resolve(pool@)
            &&& pool_fits(pool@)
        },
        pool_offered(*old(r), target@) ==> (res matches Ok(pool) && old(r).took(*final(r), ser_pool(target@))
            && ser_pool(pool@) == ser_pool(target@) && same_texts(pool@, target@)),
{
    let ghost p = target@;
    let ghost pre = pool_offered(*r, p);
    let ghost r0 = *r;
    proof {
        if pre {
            lemma_starts_concat(r0.data@, r0.pos as int, be_u16(p.len() as u16), ser_entries(p));
        }
    }
    let count = r.read_u16()?;
    let ghost r1 = *r;
    proof {
        if pre {
            assert(r0.span(r1) =~= r0.data@.subrange(r0.pos as int, r0.pos + 2));
            lemma_be_u16_injective(count, p.len() as u16);
            assert(count == p.len());
        }
    }
    if count == 0 {
        return Err(JavaError::Malformed);
    }
    let mut constants: Vec<Constant> = vec![Constant::Invalid];
    assert(ser_entries(constants@) =~= Seq::<u8>::empty()) by {
        assert(constants@.drop_last() =~= Seq::<Constant>::empty());
        assert(ser_entries(Seq::<Constant>::empty()) == Seq::<u8>::empty());
        assert(ser_constant(Constant::Invalid) =~= Seq::<u8>::empty());
    }
    proof {
        if pre {
            lemma_ser_entries_push(Seq::<Constant>::empty(), p[0]);
            assert(Seq::<Constant>::empty().push(p[0]) =~= p.take(1));
            assert(ser_entries(Seq::<Constant>::empty()) == Seq::<u8>::empty());
            assert(ser_constant(p[0]) =~= Seq::<u8>::empty());
            assert(ser_entries(p.take(1)) =~= Seq::<u8>::empty());
        }
    }
    while constants.len() < count as usize
        invariant
            r.wf(),
            r1.moved_to(*r),
            old(r).moved_to(r1),
            r.canonical == old(r).canonical,
            r1.canonical == old(r).canonical,
            1 <= constants@.len() <= count,
            constants@[0] is Invalid,
            forall|i: int| 1 <= i < constants@.len() ==> (#[trigger] constants@[i] is Invalid <==> is_wide(constants@[i - 1])),
            !is_wide(constants@.last()),
            forall|i: int| 0 <= i < constants@.len() ==> constant_fits(#[trigger] constants@[i]),
            r1.span(*r) == ser_entries(constants@),
            pre == pool_offered(r0, p),
            r0 == *old(r),
            p == target@,
            r1.pos == r0.pos + 2,
            pre ==> count == p.len(),
            pre ==> starts_at(r1.data@, r1.pos as int, ser_entries(p)),
            pre ==> r.canonical && r.pos == r1.pos + ser_entries(p.take(constants@.len() as int)).len(),
            pre ==> forall|i: int| 0 <= i < constants@.len() ==> agrees(#[trigger] constants@[i], p[i]),
        decreases count - constants@.len(),
    {
        let ghost before = *r;
        let ghost k = constants@.len() as int;
        proof {
            if pre {
                assert(agrees(constants@[k - 1], p[k - 1]));
                assert(!(p[k] is Invalid));
                assert(constant_fits(p[k]));
                lemma_pool_step(r1.data@, r1.pos as int, p, k);
                assert(r.data@ == r1.data@);
                assert(r.offers(ser_constant(p[k])));
            }
        }
        let c = read_constant(r, Ghost(p[k]))?;
        let wide = match &c {
            Constant::Long(_) | Constant::Double(_) => true,
            _ => false,
        };
        proof {
            lemma_span_split(r1.data@, r1.pos as int, before.pos as int, r.pos as int);
            lemma_ser_entries_push(constants@, c);
            if pre {
                lemma_same_constant(c, p[k]);
            }
        }
        constants.push(c);
        if wide {
            proof {
                if pre {
                    assert(is_wide(p[k]));
                    assert(k + 1 < p.len());
                }
            }
            if constants.len() >= count as usize {
                return Err(JavaError::Malformed);
            }
            proof {
                lemma_ser_entries_push(constants@, Constant::Invalid);
                if pre {
                    assert(p[k + 1] is Invalid);
                    lemma_ser_entries_push(p.take(k + 1), p[k + 1]);
                    assert(p.take(k + 2) =~= p.take(k + 1).push(p[k + 1]));
                }
            }
            assert(ser_constant(Constant::Invalid) =~= Seq::<u8>::empty());
            constants.push(Constant::Invalid);
        }
    }
    proof {
        if pre {
            assert(constants@.len() == p.len());
            assert(p.take(p.len() as int) =~= p);
            assert forall|i: int, k: int|
                0 <= i < constants@.len() && 0 <= k < references(constants@[i]).len() implies resolves(
                    constants@,
                    #[trigger] references(constants@[i])[k],
                ) by {
                assert(agrees(constants@[i], p[i]));
                assert(resolves(p, references(p[i])[k]));
                let x = references(p[i])[k];
                assert(agrees(constants@[x as int], p[x as int]));
            }
        }
    }
    check_references(&constants)?;
    proof {
        if pre {
            assert forall|i: int| 0 <= i < constants@.len() implies same_text(#[trigger] constants@[i], p[i]) by {
                assert(agrees(constants@[i], p[i]));
            }
        }
        lemma_span_split(r0.data@, r0.pos as int, r1.pos as int, r.pos as int);
        if pre {
            assert(r0.span(*r) =~= r0.data@.subrange(r0.pos as int, r0.pos + ser_pool(p).len()));
        }
    }
    Ok(constants)
}

/// What resolving a string through the pool gives.
pub enum Lookup {
    Found(Seq<u8>),
    NoEntry(u16),
    WrongKind(u16),
}

/// The string that entry `id` stands for: a `Utf8` entry's bytes, or what the
/// entry that a `String` or `Class` entry names stands for, following at most
/// `fuel` such steps.
pub open spec fn lookup_string(pool: Seq<Constant>, id: u16, fuel: nat) -> Lookup
    decreases fuel,
{
    if id >= pool.len() {
        Lookup::NoEntry(id)
    } else {
        match pool[id as int] {
            Constant::Utf8(b) => Lookup::Found(b@),
            Constant::String { string_index } => if fuel == 0 {
                Lookup::WrongKind(id)
            } else {
                lookup_string(pool, string_index, (fuel - 1) as nat)
            },
            Constant::Class { name_index } => if fuel == 0 {
                Lookup::WrongKind(id)
            } else {
                lookup_string(pool, name_index, (fuel - 1) as nat)
            },
            _ => Lookup::WrongKind(id),
        }
    }
}

/// The index of the first `Utf8` entry whose bytes are `name`, or the pool's
/// length where there is none.
pub open spec fn first_utf8(pool: Seq<Constant>, name: Seq<u8>) -> int
    decreases pool.len(),
{
    if pool.len() == 0 {
        0
    } else {
        let k = first_utf8(pool.drop_last(), name);
        if k < pool.len() - 1 {
            k
        } else if pool.last() matches Constant::Utf8(b) && b@ == name {
            pool.len() - 1
        } else {
            pool.len() as int
        }
    }
}

/// `name` is the text of a `Utf8` entry whose index fits 16 bits.
pub open spec fn has_utf8(pool: Seq<Constant>, name: Seq<u8>) -> bool {
    first_utf8(pool, name) < pool.len() && first_utf8(pool, name) <= 0xFFFF
}

pub proof fn lemma_first_utf8_bounds(pool: Seq<Constant>, name: Seq<u8>)
    ensures
        0 <= first_utf8(pool, name) <= pool.len(),
        first_utf8(pool, name) < pool.len() ==> (pool[first_utf8(pool, name)] matches Constant::Utf8(b) && b@ == name),
    decreases pool.len(),
{
    if pool.len() > 0 {
        lemma_first_utf8_bounds(pool.drop_last(), name);
    }
}

/// The message that names entry `id` as not a string.
pub uninterp spec fn not_a_string_text(id: u16) -> Seq<char>;

/// Relies on std's `format!`: a message naming the entry that is not a
/// string, which depends on the index alone.
#[verifier::external_body]
fn not_a_string(id: u16) -> (r: String)
    ensures
        r@ == not_a_string_text(id),
{
    format!("#{id} is not a string")
}

/// A copy of a byte slice.
pub fn copy_bytes(b: &[u8]) -> (r: Vec<u8>)
    ensures
        r@ == b@,
{
    let mut r: Vec<u8> = Vec::new();
    push_bytes(&mut r, b);
    assert(r@ =~= b@);
    r
}

/// Resolves entry `id` to a string: a `Utf8` entry gives its bytes, and a
/// `String` or `Class` entry gives what the entry it names gives.
pub fn pool_string(pool: &Vec<Constant>, id: u16) -> (res: Result<Vec<u8>, JavaError>)
    ensures
        match lookup_string(pool@, id, pool@.len()) {
            Lookup::Found(s) => res matches Ok(v) && v@ == s,
            Lookup::NoEntry(i) => res == Err::<Vec<u8>, JavaError>(JavaError::InvalidConstantId(i)),
            Lookup::WrongKind(i) => res matches Err(JavaError::ConstantTypeError(m)) && m@ == not_a_string_text(i),
        },
{
    let mut cur = id;
    let mut fuel: usize = pool.len();
    while true
        invariant
            fuel <= pool@.len(),
            lookup_string(pool@, id, pool@.len() as nat) == lookup_string(pool@, cur, fuel as nat),
        decreases fuel,
    {
        if cur as usize >= pool.len() {
            return Err(JavaError::InvalidConstantId(cur));
        }
        match &pool[cur as usize] {
            Constant::Utf8(b) => {
                return Ok(copy_bytes(b.as_slice()));
            },
            Constant::String { string_index } => {
                if fuel == 0 {
                    return Err(JavaError::ConstantTypeError(not_a_string(cur)));
                }
                cur = *string_index;
                fuel = fuel - 1;
            },
            Constant::Class { name_index } => {
                if fuel == 0 {
                    return Err(JavaError::ConstantTypeError(not_a_string(cur)));
                }
                cur = *name_index;
                fuel = fuel - 1;
            },
            _ => {
                return Err(JavaError::ConstantTypeError(not_a_string(cur)));
            },
        }
    }
    Err(JavaError::StringNotFound)
}

/// Tells whether two byte strings are equal.
pub fn bytes_eq(a: &[u8], b: &[u8]) -> (r: bool)
    ensures
        r == (a@ == b@),
{
    if a.len() != b.len() {
        return false;
    }
    let mut i: usize = 0;
    while i < a.len()
        invariant
            a@.len() == b@.len(),
            i <= a@.len(),
            forall|j: int| 0 <= j < i ==> a@[j] == b@[j],
        decreases a@.len() - i,
    {
        if a[i] != b[i] {
            return false;
        }
        i = i + 1;
    }
    assert(a@ =~= b@);
    true
}

/// The index of the first `Utf8` entry whose bytes are `name`.
pub fn pool_string_index(pool: &Vec<Constant>, name: &[u8]) -> (res: Result<u16, JavaError>)
    ensures
        res is Ok <==> has_utf8(pool@, name@),
        res matches Ok(i) ==> i == first_utf8(pool@, name@),
        res is Err ==> res == Err::<u16, JavaError>(JavaError::StringNotFound),
{
    let mut i: usize = 0;
    while i < pool.len() && i <= 0xFFFF
        invariant
            i <= pool@.len(),
            i <= 0x10000,
            first_utf8(pool@.take(i as int), name@) == i,
        decreases pool@.len() - i,
    {
        proof {
            assert(pool@.take(i + 1).drop_last() =~= pool@.take(i as int));
        }
        if let Constant::Utf8(b) = &pool[i] {
            if bytes_eq(b.as_slice(), name) {
                proof { lemma_first_utf8_prefix(pool@, name@, i as int + 1); }
                return Ok(i as u16);
            }
        }
        i = i + 1;
    }
    proof {
        lemma_first_utf8_prefix(pool@, name@, i as int);
        lemma_first_utf8_bounds(pool@, name@);
    }
    Err(JavaError::StringNotFound)
}

/// The first match in a prefix is the first match in the whole pool.
proof fn lemma_first_utf8_prefix(pool: Seq<Constant>, name: Seq<u8>, k: int)
    requires
        0 <= k <= pool.len(),
    ensures
        first_utf8(pool.take(k), name) < k ==> first_utf8(pool, name) == first_utf8(pool.take(k), name),
        first_utf8(pool.take(k), name) == k ==> first_utf8(pool, name) >= k,
    decreases pool.len() - k,
{
    if k < pool.len() {
        lemma_first_utf8_prefix(pool, name, k + 1);
        assert(pool.take(k + 1).drop_last() =~= pool.take(k));
    } else {
        assert(pool.take(k) =~= pool);
    }
}

} // verus!
