use vstd::prelude::*;

use crate::attributes::{
    attributes_writable, lemma_list_pools, read_attribute_table_as, readable_list, same_names, ser_attributes,
    write_attribute_table, Attribute,
};
use crate::bytes::{
    be_u16, lemma_be_u16_injective, lemma_span_split, lemma_starts_concat, push_u16, starts_at, ByteReader, MAX_NESTING,
};
use crate::constants::Constant;
use crate::errors::JavaError;
use crate::mapping::{compact_flags, pack, unpack, AccessFlag, FlagContext};
use crate::structs::{lemma_ser_u16s_len, read_flags, read_u16s, ser_u16s, write_u16s};
use crate::JVMClass;

verus! {

/// What fields and methods share: flags, name, descriptor, attributes.
#[derive(Debug)]
pub struct MemberData {
    pub access_flags: Vec<AccessFlag>,
    pub name: u16,
    pub descriptor: u16,
    pub attributes: Vec<Attribute>,
}

/// A field of a class.
#[derive(Debug)]
pub struct Field(pub MemberData);

/// A method of a class.
#[derive(Debug)]
pub struct Method(pub MemberData);

/// The bytes of a member whose flags are read in `context`.
pub open spec fn ser_member(pool: Seq<Constant>, context: FlagContext, m: MemberData) -> Seq<u8> {
    be_u16(pack(context, m.access_flags@)) + be_u16(m.name) + be_u16(m.descriptor) + ser_attributes(pool, m.attributes@)
}

/// The bytes of each member, in order.
pub open spec fn ser_members(pool: Seq<Constant>, context: FlagContext, s: Seq<MemberData>) -> Seq<u8>
    decreases s.len(),
{
    if s.len() == 0 {
        Seq::empty()
    } else {
        ser_members(pool, context, s.drop_last()) + ser_member(pool, context, s.last())
    }
}

/// Every attribute of every member can be written.
pub open spec fn members_writable(pool: Seq<Constant>, s: Seq<MemberData>) -> bool {
    forall|i: int| 0 <= i < s.len() ==> attributes_writable(pool, #[trigger] s[i].attributes@)
}

/// The member data of each field.
pub open spec fn field_data(s: Seq<Field>) -> Seq<MemberData> {
    s.map_values(|f: Field| f.0)
}

/// The member data of each method.
pub open spec fn method_data(s: Seq<Method>) -> Seq<MemberData> {
    s.map_values(|m: Method| m.0)
}

/// The bytes of a field table: its count, then each field.
pub open spec fn ser_fields(pool: Seq<Constant>, s: Seq<Field>) -> Seq<u8> {
    be_u16(#[verifier::truncate] (s.len() as u16)) + ser_members(pool, FlagContext::Field, field_data(s))
}

/// The bytes of a method table: its count, then each method.
pub open spec fn ser_methods(pool: Seq<Constant>, s: Seq<Method>) -> Seq<u8> {
    be_u16(#[verifier::truncate] (s.len() as u16)) + ser_members(pool, FlagContext::Method, method_data(s))
}

/// The bytes of the interface table: its count, then each index.
pub open spec fn ser_interfaces(s: Seq<u16>) -> Seq<u8> {
    be_u16(#[verifier::truncate] (s.len() as u16)) + ser_u16s(s)
}

proof fn lemma_members_push(pool: Seq<Constant>, context: FlagContext, s: Seq<MemberData>, m: MemberData)
    ensures
        ser_members(pool, context, s.push(m)) == ser_members(pool, context, s) + ser_member(pool, context, m),
{
    assert(s.push(m).drop_last() =~= s);
}

/// The member is read back from its bytes: flags that a word unpacks to and
/// a readable attribute table.
pub open spec fn member_readable(pool: Seq<Constant>, context: FlagContext, m: MemberData) -> bool {
    &&& unpack(context, pack(context, m.access_flags@)) == m.access_flags@
    &&& m.attributes@.len() <= 0xFFFF
    &&& readable_list(pool, m.attributes@, MAX_NESTING as nat)
}

/// Every member is read back from its bytes, and the count fits 16 bits.
pub open spec fn members_readable(pool: Seq<Constant>, context: FlagContext, s: Seq<MemberData>) -> bool {
    s.len() <= 0xFFFF && forall|i: int| 0 <= i < s.len() ==> member_readable(pool, context, #[trigger] s[i])
}

proof fn lemma_members_concat(pool: Seq<Constant>, context: FlagContext, a: Seq<MemberData>, b: Seq<MemberData>)
    ensures
        ser_members(pool, context, a + b) == ser_members(pool, context, a) + ser_members(pool, context, b),
    decreases b.len(),
{
    if b.len() == 0 {
        assert(a + b =~= a);
        assert(ser_members(pool, context, a) + ser_members(pool, context, b) =~= ser_members(pool, context, a));
    } else {
        lemma_members_concat(pool, context, a, b.drop_last());
        assert((a + b).drop_last() =~= a + b.drop_last());
    }
}

proof fn lemma_members_step(data: Seq<u8>, pos: int, pool: Seq<Constant>, context: FlagContext, s: Seq<MemberData>, k: int)
    requires
        starts_at(data, pos, ser_members(pool, context, s)),
        0 <= k < s.len(),
    ensures
        starts_at(data, pos + ser_members(pool, context, s.take(k)).len(), ser_member(pool, context, s[k])),
        ser_members(pool, context, s.take(k + 1)) == ser_members(pool, context, s.take(k)) + ser_member(pool, context, s[k]),
{
    lemma_members_concat(pool, context, s.take(k + 1), s.skip(k + 1));
    assert(s.take(k + 1) + s.skip(k + 1) =~= s);
    lemma_members_push(pool, context, s.take(k), s[k]);
    assert(s.take(k + 1) =~= s.take(k).push(s[k]));
    lemma_starts_concat(data, pos, ser_members(pool, context, s.take(k + 1)), ser_members(pool, context, s.skip(k + 1)));
    lemma_starts_concat(data, pos, ser_members(pool, context, s.take(k)), ser_member(pool, context, s[k]));
}

/// Members' bytes and readability depend on the pool only through the
/// indices of names.
pub proof fn lemma_members_pools(p1: Seq<Constant>, p2: Seq<Constant>, context: FlagContext, s: Seq<MemberData>)
    requires
        same_names(p1, p2),
    ensures
        ser_members(p1, context, s) == ser_members(p2, context, s),
        members_readable(p1, context, s) == members_readable(p2, context, s),
    decreases s.len(),
{
    if s.len() > 0 {
        lemma_members_pools(p1, p2, context, s.drop_last());
        lemma_list_pools(p1, p2, s.last().attributes@, MAX_NESTING as nat);
    }
    assert forall|i: int| 0 <= i < s.len() implies member_readable(p1, context, #[trigger] s[i]) == member_readable(p2, context, s[i]) by {
        lemma_list_pools(p1, p2, s[i].attributes@, MAX_NESTING as nat);
    }
}

/// Reads one member, its flags read in `context`.
fn read_member(pool: &Vec<Constant>, r: &mut ByteReader, context: FlagContext, t: Ghost<MemberData>) -> (res: Result<MemberData, JavaError>)
    requires
        old(r).wf(),
    ensures
        old(r).moved_to(*final(r)),
        final(r).canonical ==> old(r).canonical,
        res matches Ok(m) ==> (final(r).canonical ==> old(r).span(*final(r)) == ser_member(pool@, context, m)),
        res matches Ok(m) ==> (final(r).canonical ==> attributes_writable(pool@, m.attributes@)),
        old(r).offers(ser_member(pool@, context, t@)) && member_readable(pool@, context, t@) ==> (res is Ok && old(r).took(
            *final(r),
            ser_member(pool@, context, t@),
        )),
{
    let ghost at0 = *r;
    let ghost tt = t@;
    let ghost pre = r.offers(ser_member(pool@, context, tt)) && member_readable(pool@, context, tt);
    proof {
        if pre {
            let a = be_u16(pack(context, tt.access_flags@));
            let b = be_u16(tt.name);
            let c = be_u16(tt.descriptor);
            let d = ser_attributes(pool@, tt.attributes@);
            lemma_starts_concat(r.data@, r.pos as int, a + b + c, d);
            lemma_starts_concat(r.data@, r.pos as int, a + b, c);
            lemma_starts_concat(r.data@, r.pos as int, a, b);
        }
    }
    let access_flags = read_flags(r, context, Ghost(tt.access_flags@))?;
    let ghost at1 = *r;
    let name = r.read_u16()?;
    let ghost at2 = *r;
    let descriptor = r.read_u16()?;
    let ghost at3 = *r;
    let attributes = read_attribute_table_as(pool, r, Ghost(tt.attributes@))?;
    let m = MemberData { access_flags, name, descriptor, attributes };
    proof {
        lemma_span_split(r.data@, at2.pos as int, at3.pos as int, r.pos as int);
        lemma_span_split(r.data@, at1.pos as int, at2.pos as int, r.pos as int);
        lemma_span_split(r.data@, at0.pos as int, at1.pos as int, r.pos as int);
        if r.canonical {
            assert(at0.span(*r) =~= ser_member(pool@, context, m));
        }
    }
    Ok(m)
}

/// Reads a member table: a count, then that many members.
fn read_members(pool: &Vec<Constant>, r: &mut ByteReader, context: FlagContext, ts: Ghost<Seq<MemberData>>) -> (res: Result<Vec<MemberData>, JavaError>)
    requires
        old(r).wf(),
    ensures
        old(r).moved_to(*final(r)),
        final(r).canonical ==> old(r).canonical,
        res matches Ok(v) ==> v@.len() <= 0xFFFF && (final(r).canonical ==> old(r).span(*final(r))
            == be_u16(v@.len() as u16) + ser_members(pool@, context, v@)),
        res matches Ok(v) ==> (final(r).canonical ==> members_writable(pool@, v@)),
        old(r).offers(be_u16(ts@.len() as u16) + ser_members(pool@, context, ts@)) && members_readable(pool@, context, ts@)
            ==> (res matches Ok(v) && v@.len() == ts@.len() && old(r).took(*final(r), be_u16(ts@.len() as u16) + ser_members(pool@, context, ts@))),
{
    let ghost r0 = *r;
    let ghost pre = r.offers(be_u16(ts@.len() as u16) + ser_members(pool@, context, ts@)) && members_readable(pool@, context, ts@);
    proof {
        if pre {
            lemma_starts_concat(r.data@, r.pos as int, be_u16(ts@.len() as u16), ser_members(pool@, context, ts@));
        }
    }
    let n = r.read_u16()?;
    let ghost r1 = *r;
    proof {
        if pre {
            assert(r0.span(r1) =~= r.data@.subrange(r0.pos as int, r0.pos + 2));
            lemma_be_u16_injective(n, ts@.len() as u16);
            assert(ts@.take(0) =~= Seq::<MemberData>::empty());
        }
    }
    let mut v: Vec<MemberData> = Vec::new();
    let mut k: u16 = 0;
    assert(r1.span(*r) =~= Seq::<u8>::empty());
    while k < n
        invariant
            r.wf(),
            r1.moved_to(*r),
            r0.moved_to(r1),
            old(r).moved_to(r1),
            r1.canonical == old(r).canonical,
            r.canonical ==> r1.canonical,
            r0.span(r1) == be_u16(n),
            r0.pos == old(r).pos,
            k <= n,
            v@.len() == k,
            r.canonical ==> r1.span(*r) == ser_members(pool@, context, v@),
            r.canonical ==> members_writable(pool@, v@),
            pre == (old(r).offers(be_u16(ts@.len() as u16) + ser_members(pool@, context, ts@)) && members_readable(pool@, context, ts@)),
            pre ==> n == ts@.len() && r.canonical && r.pos == r1.pos + ser_members(pool@, context, ts@.take(k as int)).len(),
            pre ==> starts_at(r1.data@, r1.pos as int, ser_members(pool@, context, ts@)) && members_readable(pool@, context, ts@),
        decreases n - k,
    {
        let ghost before = *r;
        let ghost before_ok = before.canonical ==> members_writable(pool@, v@);
        assert(before_ok);
        proof {
            if pre {
                lemma_members_step(r1.data@, r1.pos as int, pool@, context, ts@, k as int);
                assert(member_readable(pool@, context, ts@[k as int]));
            }
        }
        let m = read_member(pool, r, context, Ghost(ts@[k as int]))?;
        proof {
            lemma_span_split(r.data@, r1.pos as int, before.pos as int, r.pos as int);
            lemma_members_push(pool@, context, v@, m);
        }
        let ghost old_v = v@;
        v.push(m);
        proof {
            if r.canonical {
                assert forall|i: int| 0 <= i < v@.len() implies attributes_writable(pool@, #[trigger] v@[i].attributes@) by {
                    if i < old_v.len() {
                        assert(v@[i] == old_v[i]);
                        assert(members_writable(pool@, old_v));
                        assert(attributes_writable(pool@, old_v[i].attributes@));
                    } else {
                        assert(v@[i] == m);
                        assert(attributes_writable(pool@, m.attributes@));
                    }
                }
            }
        }
        k = k + 1;
    }
    proof {
        lemma_span_split(r.data@, r0.pos as int, r1.pos as int, r.pos as int);
        if pre {
            assert(ts@.take(n as int) =~= ts@);
        }
    }
    Ok(v)
}

/// Writes one member, its flags packed in `context`.
fn write_member(pool: &Vec<Constant>, out: &mut Vec<u8>, m: &MemberData, context: FlagContext) -> (res: Result<(), JavaError>)
    ensures
        res is Ok <==> attributes_writable(pool@, m.attributes@),
        res is Ok ==> final(out)@ == old(out)@ + ser_member(pool@, context, *m),
{
    let ghost start = out@;
    push_u16(out, compact_flags(&m.access_flags, context));
    push_u16(out, m.name);
    push_u16(out, m.descriptor);
    write_attribute_table(pool, out, &m.attributes)?;
    assert(out@ =~= start + ser_member(pool@, context, *m));
    Ok(())
}

/// Reads the interface table: a count, then that many class indices.
pub fn read_interfaces(r: &mut ByteReader) -> (res: Result<Vec<u16>, JavaError>)
    requires
        old(r).wf(),
    ensures
        old(r).moved_to(*final(r)),
        final(r).canonical == old(r).canonical,
        res matches Ok(v) ==> old(r).span(*final(r)) == ser_interfaces(v@),
        (exists|t: Seq<u16>| old(r).offers(ser_interfaces(t)) && t.len() <= 0xFFFF) ==> res is Ok,
{
    let ghost t = choose|t: Seq<u16>| r.offers(ser_interfaces(t)) && t.len() <= 0xFFFF;
    read_interfaces_as(r, Ghost(t))
}

/// Reads the interface table; where the input offers the table `t`, it
/// reads exactly its bytes.
pub fn read_interfaces_as(r: &mut ByteReader, t: Ghost<Seq<u16>>) -> (res: Result<Vec<u16>, JavaError>)
    requires
        old(r).wf(),
    ensures
        old(r).moved_to(*final(r)),
        final(r).canonical == old(r).canonical,
        res matches Ok(v) ==> old(r).span(*final(r)) == ser_interfaces(v@),
        old(r).offers(ser_interfaces(t@)) && t@.len() <= 0xFFFF ==> (res is Ok && old(r).took(*final(r), ser_interfaces(t@))),
{
    let ghost r0 = *r;
    let ghost pre = r.offers(ser_interfaces(t@)) && t@.len() <= 0xFFFF;
    proof {
        if pre {
            lemma_starts_concat(r.data@, r.pos as int, be_u16(#[verifier::truncate] (t@.len() as u16)), ser_u16s(t@));
            lemma_ser_u16s_len(t@);
        }
    }
    let n = r.read_u16()?;
    let ghost r1 = *r;
    proof {
        if pre {
            assert(r0.span(r1) =~= r.data@.subrange(r0.pos as int, r0.pos + 2));
            lemma_be_u16_injective(n, #[verifier::truncate] (t@.len() as u16));
        }
    }
    let v = read_u16s(r, n as usize)?;
    proof { lemma_span_split(r.data@, r0.pos as int, r1.pos as int, r.pos as int); }
    Ok(v)
}

/// Writes the interface table.
pub fn write_interfaces(out: &mut Vec<u8>, interfaces: &Vec<u16>)
    ensures
        final(out)@ == old(out)@ + ser_interfaces(interfaces@),
{
    let ghost start = out@;
    push_u16(out, #[verifier::truncate] (interfaces.len() as u16));
    write_u16s(out, interfaces);
    assert(out@ =~= start + ser_interfaces(interfaces@));
}

/// Reads the field table; flags are read in the field context.
pub fn read_fields(jvm: &JVMClass, r: &mut ByteReader) -> (res: Result<Vec<Field>, JavaError>)
    requires
        old(r).wf(),
    ensures
        old(r).moved_to(*final(r)),
        final(r).canonical ==> old(r).canonical,
        res matches Ok(v) ==> (final(r).canonical ==> old(r).span(*final(r)) == ser_fields(jvm.constants@, v@)),
        res matches Ok(v) ==> (final(r).canonical ==> members_writable(jvm.constants@, field_data(v@))),
        (exists|t: Seq<Field>| old(r).offers(ser_fields(jvm.constants@, t)) && members_readable(jvm.constants@, FlagContext::Field, field_data(t)))
            ==> (res is Ok && final(r).canonical),
{
    let ghost t = choose|t: Seq<Field>| r.offers(ser_fields(jvm.constants@, t)) && members_readable(jvm.constants@, FlagContext::Field, field_data(t));
    read_fields_as(jvm, r, Ghost(t))
}

/// Reads the field table; flags are read in the field context.
pub fn read_fields_as(jvm: &JVMClass, r: &mut ByteReader, t: Ghost<Seq<Field>>) -> (res: Result<Vec<Field>, JavaError>)
    requires
        old(r).wf(),
    ensures
        old(r).moved_to(*final(r)),
        final(r).canonical ==> old(r).canonical,
        res matches Ok(v) ==> (final(r).canonical ==> old(r).span(*final(r)) == ser_fields(jvm.constants@, v@)),
        res matches Ok(v) ==> (final(r).canonical ==> members_writable(jvm.constants@, field_data(v@))),
        old(r).offers(ser_fields(jvm.constants@, t@)) && members_readable(jvm.constants@, FlagContext::Field, field_data(t@)) ==> (res is Ok
            && old(r).took(*final(r), ser_fields(jvm.constants@, t@))),
{
    proof {
        if old(r).offers(ser_fields(jvm.constants@, t@)) && members_readable(jvm.constants@, FlagContext::Field, field_data(t@)) {
            assert(field_data(t@).len() == t@.len());
            assert(be_u16(field_data(t@).len() as u16) == be_u16(#[verifier::truncate] (t@.len() as u16)));
        }
    }
    let ms = read_members(&jvm.constants, r, FlagContext::Field, Ghost(field_data(t@)))?;
    let mut v: Vec<Field> = Vec::new();
    let mut i: usize = 0;
    let ghost msv = ms@;
    let n = ms.len();
    let mut ms = ms;
    while i < n
        invariant
            n == msv.len(),
            i <= msv.len(),
            ms@ == msv.subrange(i as int, msv.len() as int),
            field_data(v@) =~= msv.take(i as int),
            v@.len() == i,
        decreases msv.len() - i,
    {
        let m = ms.remove(0);
        v.push(Field(m));
        proof {
            assert(field_data(v@) =~= msv.take(i + 1));
        }
        i = i + 1;
    }
    proof {
        assert(msv.take(msv.len() as int) =~= msv);
    }
    Ok(v)
}

/// Reads the method table; flags are read in the method context.
pub fn read_methods(jvm: &JVMClass, r: &mut ByteReader) -> (res: Result<Vec<Method>, JavaError>)
    requires
        old(r).wf(),
    ensures
        old(r).moved_to(*final(r)),
        final(r).canonical ==> old(r).canonical,
        res matches Ok(v) ==> (final(r).canonical ==> old(r).span(*final(r)) == ser_methods(jvm.constants@, v@)),
        res matches Ok(v) ==> (final(r).canonical ==> members_writable(jvm.constants@, method_data(v@))),
        (exists|t: Seq<Method>| old(r).offers(ser_methods(jvm.constants@, t)) && members_readable(jvm.constants@, FlagContext::Method, method_data(t)))
            ==> (res is Ok && final(r).canonical),
{
    let ghost t = choose|t: Seq<Method>| r.offers(ser_methods(jvm.constants@, t)) && members_readable(jvm.constants@, FlagContext::Method, method_data(t));
    read_methods_as(jvm, r, Ghost(t))
}

/// Reads the method table; flags are read in the method context.
pub fn read_methods_as(jvm: &JVMClass, r: &mut ByteReader, t: Ghost<Seq<Method>>) -> (res: Result<Vec<Method>, JavaError>)
    requires
        old(r).wf(),
    ensures
        old(r).moved_to(*final(r)),
        final(r).canonical ==> old(r).canonical,
        res matches Ok(v) ==> (final(r).canonical ==> old(r).span(*final(r)) == ser_methods(jvm.constants@, v@)),
        res matches Ok(v) ==> (final(r).canonical ==> members_writable(jvm.constants@, method_data(v@))),
        old(r).offers(ser_methods(jvm.constants@, t@)) && members_readable(jvm.constants@, FlagContext::Method, method_data(t@)) ==> (res is Ok
            && old(r).took(*final(r), ser_methods(jvm.constants@, t@))),
{
    proof {
        if old(r).offers(ser_methods(jvm.constants@, t@)) && members_readable(jvm.constants@, FlagContext::Method, method_data(t@)) {
            assert(method_data(t@).len() == t@.len());
            assert(be_u16(method_data(t@).len() as u16) == be_u16(#[verifier::truncate] (t@.len() as u16)));
        }
    }
    let ms = read_members(&jvm.constants, r, FlagContext::Method, Ghost(method_data(t@)))?;
    let mut v: Vec<Method> = Vec::new();
    let mut i: usize = 0;
    let ghost msv = ms@;
    let n = ms.len();
    let mut ms = ms;
    while i < n
        invariant
            n == msv.len(),
            i <= msv.len(),
            ms@ == msv.subrange(i as int, msv.len() as int),
            method_data(v@) =~= msv.take(i as int),
            v@.len() == i,
        decreases msv.len() - i,
    {
        let m = ms.remove(0);
        v.push(Method(m));
        proof {
            assert(method_data(v@) =~= msv.take(i + 1));
        }
        i = i + 1;
    }
    proof {
        assert(msv.take(msv.len() as int) =~= msv);
    }
    Ok(v)
}

/// Writes the field table. It fails where an attribute cannot be written.
pub fn write_fields(out: &mut Vec<u8>, fields: &Vec<Field>, jvm: &JVMClass) -> (res: Result<(), JavaError>)
    ensures
        res is Ok <==> members_writable(jvm.constants@, field_data(fields@)),
        res is Ok ==> final(out)@ == old(out)@ + ser_fields(jvm.constants@, fields@),
{
    let ghost start = out@;
    push_u16(out, #[verifier::truncate] (fields.len() as u16));
    let mut i: usize = 0;
    while i < fields.len()
        invariant
            i <= fields@.len(),
            out@ == start + be_u16(#[verifier::truncate] (fields@.len() as u16))
                + ser_members(jvm.constants@, FlagContext::Field, field_data(fields@.take(i as int))),
            members_writable(jvm.constants@, field_data(fields@.take(i as int))),
        decreases fields@.len() - i,
    {
        let res = write_member(&jvm.constants, out, &fields[i].0, FlagContext::Field);
        if res.is_err() {
            assert(field_data(fields@)[i as int] == fields@[i as int].0);
            return res;
        }
        proof {
            assert(field_data(fields@.take(i + 1)) =~= field_data(fields@.take(i as int)).push(fields@[i as int].0));
            lemma_members_push(jvm.constants@, FlagContext::Field, field_data(fields@.take(i as int)), fields@[i as int].0);
            let ghost nxt = field_data(fields@.take(i + 1));
            let ghost prv = field_data(fields@.take(i as int));
            assert forall|j: int| 0 <= j < nxt.len() implies attributes_writable(jvm.constants@, #[trigger] nxt[j].attributes@) by {
                if j < prv.len() {
                    assert(nxt[j] == prv[j]);
                    assert(attributes_writable(jvm.constants@, prv[j].attributes@));
                } else {
                    assert(nxt[j] == fields@[i as int].0);
                    assert(attributes_writable(jvm.constants@, fields@[i as int].0.attributes@));
                }
            }
        }
        i = i + 1;
    }
    assert(fields@.take(fields@.len() as int) =~= fields@);
    Ok(())
}

/// Writes the method table. It fails where an attribute cannot be written.
pub fn write_methods(out: &mut Vec<u8>, methods: &Vec<Method>, jvm: &JVMClass) -> (res: Result<(), JavaError>)
    ensures
        res is Ok <==> members_writable(jvm.constants@, method_data(methods@)),
        res is Ok ==> final(out)@ == old(out)@ + ser_methods(jvm.constants@, methods@),
{
    let ghost start = out@;
    push_u16(out, #[verifier::truncate] (methods.len() as u16));
    let mut i: usize = 0;
    while i < methods.len()
        invariant
            i <= methods@.len(),
            out@ == start + be_u16(#[verifier::truncate] (methods@.len() as u16))
                + ser_members(jvm.constants@, FlagContext::Method, method_data(methods@.take(i as int))),
            members_writable(jvm.constants@, method_data(methods@.take(i as int))),
        decreases methods@.len() - i,
    {
        let res = write_member(&jvm.constants, out, &methods[i].0, FlagContext::Method);
        if res.is_err() {
            assert(method_data(methods@)[i as int] == methods@[i as int].0);
            return res;
        }
        proof {
            assert(method_data(methods@.take(i + 1)) =~= method_data(methods@.take(i as int)).push(methods@[i as int].0));
            lemma_members_push(jvm.constants@, FlagContext::Method, method_data(methods@.take(i as int)), methods@[i as int].0);
            let ghost nxt = method_data(methods@.take(i + 1));
            let ghost prv = method_data(methods@.take(i as int));
            assert forall|j: int| 0 <= j < nxt.len() implies attributes_writable(jvm.constants@, #[trigger] nxt[j].attributes@) by {
                if j < prv.len() {
                    assert(nxt[j] == prv[j]);
                    assert(attributes_writable(jvm.constants@, prv[j].attributes@));
                } else {
                    assert(nxt[j] == methods@[i as int].0);
                    assert(attributes_writable(jvm.constants@, methods@[i as int].0.attributes@));
                }
            }
        }
        i = i + 1;
    }
    assert(methods@.take(methods@.len() as int) =~= methods@);
    Ok(())
}

} // verus!
