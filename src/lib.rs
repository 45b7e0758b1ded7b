//! Reading and writing JVM class files, byte for byte.
use vstd::prelude::*;

pub mod annotations;
pub mod attributes;
pub mod bytes;
pub mod constants;
pub mod errors;
pub mod frames;
pub mod instructions;
pub mod mapping;
pub mod members;
pub mod structs;

pub use annotations::{Annotation, ElementValue, ElementValuePair, TargetInfo, TypeAnnotation};
pub use attributes::{Attribute, RecordComponent};
pub use bytes::ByteReader;
pub use constants::Constant;
pub use errors::JavaError;
pub use frames::{StackMapFrame, StackMapFrameType, VerificationType};
pub use instructions::{Instruction, LookupSwitchPair};
pub use mapping::{AccessFlag, FlagContext};
pub use members::{Field, MemberData, Method};
pub use structs::{
    BootstrapMethod, ExceptionTableEntry, InnerClass, LineNumber, LocalVar, LocalVariable,
    LocalVariableType, MethodParameter, ModuleExports, ModuleOpens, ModuleProvides, ModuleRequires,
    TypePath,
};

use crate::attributes::{
    attributes_writable, lemma_list_pools, read_attribute_table_as, readable_list, same_names, ser_attributes,
    write_attributes,
};
use crate::bytes::{
    be_u16, be_u32, lemma_be_u32_injective, lemma_span_split, lemma_starts_concat, push_bytes, push_u16, push_u32,
    MAX_NESTING,
};
use crate::constants::{
    first_utf8, has_utf8, lemma_same_texts_first, lookup_string, not_a_string_text, read_constant_pool_as, pool_fits, pool_layout, pool_string, pool_string_index,
    read_constant_pool, references_resolve, ser_pool, write_constant_pool, Lookup,
};
use crate::mapping::{compact_class_flags, pack, unpack};
use crate::members::{
    field_data, lemma_members_pools, members_readable, members_writable, method_data, read_fields_as,
    read_interfaces_as, read_methods_as, ser_fields,
    ser_interfaces, ser_methods, write_fields, write_interfaces, write_methods,
};
use crate::structs::read_flags;

verus! {

/// A class file: version, constant pool, flags, this and super class,
/// interfaces, fields, methods and attributes.
#[derive(Debug)]
pub struct JVMClass {
    pub major: u16,
    pub minor: u16,
    pub access_flags: Vec<AccessFlag>,
    pub this_class: u16,
    pub super_class: u16,
    pub constants: Vec<Constant>,
    pub interfaces: Vec<u16>,
    pub fields: Vec<Field>,
    pub methods: Vec<Method>,
    pub attributes: Vec<Attribute>,
}

/// The bytes of a class file: magic, version, pool, flags, this and super
/// class, interfaces, fields, methods, attributes.
pub open spec fn ser_class(c: JVMClass) -> Seq<u8> {
    be_u32(0xCAFEBABE) + be_u16(c.minor) + be_u16(c.major) + ser_pool(c.constants@)
        + be_u16(pack(FlagContext::Class, c.access_flags@)) + be_u16(c.this_class) + be_u16(c.super_class)
        + ser_interfaces(c.interfaces@) + ser_fields(c.constants@, c.fields@) + ser_methods(c.constants@, c.methods@)
        + ser_attributes(c.constants@, c.attributes@)
}

/// `bytes` are exactly the encoding of `c`, and `c` can be written.
pub open spec fn loads_exactly(bytes: Seq<u8>, c: JVMClass) -> bool {
    &&& ser_class(c) == bytes
    &&& class_writable(c)
}

/// The class is read back from its bytes: a decodable pool, flag sets that
/// words unpack to, counts that fit, readable members and attributes.
pub open spec fn class_readable(c: JVMClass) -> bool {
    &&& pool_layout(c.constants@)
    &&& pool_fits(c.constants@)
    &&& references_resolve(c.constants@)
    &&& unpack(FlagContext::Class, pack(FlagContext::Class, c.access_flags@)) == c.access_flags@
    &&& c.interfaces@.len() <= 0xFFFF
    &&& members_readable(c.constants@, FlagContext::Field, field_data(c.fields@))
    &&& members_readable(c.constants@, FlagContext::Method, method_data(c.methods@))
    &&& c.attributes@.len() <= 0xFFFF
    &&& readable_list(c.constants@, c.attributes@, MAX_NESTING as nat)
}

/// The cursor offers the bytes of the readable class `c`.
pub open spec fn class_offered(r: ByteReader, c: JVMClass) -> bool {
    r.offers(ser_class(c)) && class_readable(c)
}

/// The class can be written: its pool's lengths fit and every attribute, at
/// any depth, can be written.
pub open spec fn class_writable(c: JVMClass) -> bool {
    &&& pool_fits(c.constants@)
    &&& members_writable(c.constants@, field_data(c.fields@))
    &&& members_writable(c.constants@, method_data(c.methods@))
    &&& attributes_writable(c.constants@, c.attributes@)
}

impl JVMClass {
    /// An empty class: version 0.0, no flags, no entries.
    pub fn new() -> (c: JVMClass)
        ensures
            c.major == 0 && c.minor == 0 && c.this_class == 0 && c.super_class == 0,
            c.access_flags@.len() == 0 && c.constants@.len() == 0 && c.interfaces@.len() == 0,
            c.fields@.len() == 0 && c.methods@.len() == 0 && c.attributes@.len() == 0,
    {
        JVMClass {
            major: 0,
            minor: 0,
            access_flags: Vec::new(),
            this_class: 0,
            super_class: 0,
            constants: Vec::new(),
            interfaces: Vec::new(),
            fields: Vec::new(),
            methods: Vec::new(),
            attributes: Vec::new(),
        }
    }

    /// Reads a class file and takes its contents. Where it fails, the class is
    /// left as it was. Where `canonical` stays set, the bytes read are exactly
    /// the encoding of the result.
    pub fn load(&mut self, r: &mut ByteReader) -> (res: Result<(), JavaError>)
        requires
            old(r).wf(),
        ensures
            old(r).moved_to(*final(r)),
            final(r).canonical ==> old(r).canonical,
            res is Ok ==> {
                &&& pool_layout(final(self).constants@)
                &&& references_resolve(final(self).constants@)
                &&& (final(r).canonical ==> loads_exactly(old(r).span(*final(r)), *final(self)))
            },
            res is Err ==> *final(self) == *old(self),
            old(r).remaining() >= 4 && old(r).data@.subrange(old(r).pos as int, old(r).pos + 4) != be_u32(0xCAFEBABE)
                ==> (res matches Err(JavaError::BadMagic(m)) && be_u32(m) == old(r).data@.subrange(
                old(r).pos as int,
                old(r).pos + 4,
            )),
            (exists|c: JVMClass| class_offered(*old(r), c)) ==> (res is Ok && final(r).canonical),
    {
        let ghost t = choose|c: JVMClass| class_offered(*r, c);
        self.load_as(r, Ghost(t))
    }

    /// Reads a class file as `load` does; where the input offers the bytes of
    /// the readable class `t`, it reads them.
    #[verifier::rlimit(100)]
    #[verifier::spinoff_prover]
    fn load_as(&mut self, r: &mut ByteReader, t: Ghost<JVMClass>) -> (res: Result<(), JavaError>)
        requires
            old(r).wf(),
        ensures
            old(r).moved_to(*final(r)),
            final(r).canonical ==> old(r).canonical,
            res is Ok ==> {
                &&& pool_layout(final(self).constants@)
                &&& references_resolve(final(self).constants@)
                &&& (final(r).canonical ==> loads_exactly(old(r).span(*final(r)), *final(self)))
            },
            res is Err ==> *final(self) == *old(self),
            old(r).remaining() >= 4 && old(r).data@.subrange(old(r).pos as int, old(r).pos + 4) != be_u32(0xCAFEBABE)
                ==> (res matches Err(JavaError::BadMagic(m)) && be_u32(m) == old(r).data@.subrange(
                old(r).pos as int,
                old(r).pos + 4,
            )),
            class_offered(*old(r), t@) ==> (res is Ok && old(r).took(*final(r), ser_class(t@))),
    {
        let ghost at0 = *r;
        let ghost tt = t@;
        let ghost tp = tt.constants@;
        let ghost pre = class_offered(*r, tt);
        let ghost m0 = be_u32(0xCAFEBABE);
        let ghost m1 = be_u16(tt.minor);
        let ghost m2 = be_u16(tt.major);
        let ghost m3 = ser_pool(tp);
        let ghost m4 = be_u16(pack(FlagContext::Class, tt.access_flags@));
        let ghost m5 = be_u16(tt.this_class);
        let ghost m6 = be_u16(tt.super_class);
        let ghost m7 = ser_interfaces(tt.interfaces@);
        let ghost m8 = ser_fields(tp, tt.fields@);
        let ghost m9 = ser_methods(tp, tt.methods@);
        let ghost m10 = ser_attributes(tp, tt.attributes@);
        proof {
            if pre {
                let d = r.data@;
                let q = r.pos as int;
                lemma_starts_concat(d, q, m0 + m1 + m2 + m3 + m4 + m5 + m6 + m7 + m8 + m9, m10);
                lemma_starts_concat(d, q, m0 + m1 + m2 + m3 + m4 + m5 + m6 + m7 + m8, m9);
                lemma_starts_concat(d, q, m0 + m1 + m2 + m3 + m4 + m5 + m6 + m7, m8);
                lemma_starts_concat(d, q, m0 + m1 + m2 + m3 + m4 + m5 + m6, m7);
                lemma_starts_concat(d, q, m0 + m1 + m2 + m3 + m4 + m5, m6);
                lemma_starts_concat(d, q, m0 + m1 + m2 + m3 + m4, m5);
                lemma_starts_concat(d, q, m0 + m1 + m2 + m3, m4);
                lemma_starts_concat(d, q, m0 + m1 + m2, m3);
                lemma_starts_concat(d, q, m0 + m1, m2);
                lemma_starts_concat(d, q, m0, m1);
            }
        }
        let magic = r.read_u32()?;
        proof {
            if pre {
                assert(at0.span(*r) =~= r.data@.subrange(at0.pos as int, at0.pos + 4));
                lemma_be_u32_injective(magic, 0xCAFEBABE);
            }
        }
        if magic != 0xCAFEBABE {
            return Err(JavaError::BadMagic(magic));
        }
        let ghost at1 = *r;
        let minor = r.read_u16()?;
        let ghost at2 = *r;
        let major = r.read_u16()?;
        let ghost at3 = *r;
        let constants = read_constant_pool_as(r, Ghost(tp))?;
        let ghost at4 = *r;
        proof {
            if pre {
                assert forall|n: Seq<u8>| #[trigger] first_utf8(constants@, n) == first_utf8(tp, n) by {
                    lemma_same_texts_first(constants@, tp, n);
                }
                assert(same_names(constants@, tp));
                lemma_members_pools(constants@, tp, FlagContext::Field, field_data(tt.fields@));
                lemma_members_pools(constants@, tp, FlagContext::Method, method_data(tt.methods@));
                lemma_list_pools(constants@, tp, tt.attributes@, MAX_NESTING as nat);
            }
        }
        let access_flags = read_flags(r, FlagContext::Class, Ghost(tt.access_flags@))?;
        let ghost at5 = *r;
        let this_class = r.read_u16()?;
        let ghost at6 = *r;
        let super_class = r.read_u16()?;
        let ghost at7 = *r;
        let interfaces = read_interfaces_as(r, Ghost(tt.interfaces@))?;
        let ghost at8 = *r;
        let mut c = JVMClass::new();
        c.constants = constants;
        let fields = read_fields_as(&c, r, Ghost(tt.fields@))?;
        let ghost at9 = *r;
        let methods = read_methods_as(&c, r, Ghost(tt.methods@))?;
        let ghost at10 = *r;
        let attributes = read_attribute_table_as(&c.constants, r, Ghost(tt.attributes@))?;
        c.major = major;
        c.minor = minor;
        c.access_flags = access_flags;
        c.this_class = this_class;
        c.super_class = super_class;
        c.interfaces = interfaces;
        c.fields = fields;
        c.methods = methods;
        c.attributes = attributes;
        proof {
            lemma_span_split(r.data@, at0.pos as int, at10.pos as int, r.pos as int);
            lemma_span_split(r.data@, at0.pos as int, at9.pos as int, at10.pos as int);
            lemma_span_split(r.data@, at0.pos as int, at8.pos as int, at9.pos as int);
            lemma_span_split(r.data@, at0.pos as int, at7.pos as int, at8.pos as int);
            lemma_span_split(r.data@, at0.pos as int, at6.pos as int, at7.pos as int);
            lemma_span_split(r.data@, at0.pos as int, at5.pos as int, at6.pos as int);
            lemma_span_split(r.data@, at0.pos as int, at4.pos as int, at5.pos as int);
            lemma_span_split(r.data@, at0.pos as int, at3.pos as int, at4.pos as int);
            lemma_span_split(r.data@, at0.pos as int, at2.pos as int, at3.pos as int);
            lemma_span_split(r.data@, at0.pos as int, at1.pos as int, at2.pos as int);
            if r.canonical {
                assert(at0.span(*r) =~= ser_class(c));
            }
        }
        *self = c;
        Ok(())
    }

    /// Writes the class file. It fails, writing nothing, where a length does
    /// not fit its field, an attribute's name is not in the pool or its code
    /// has no encoding.
    pub fn store(&self, out: &mut Vec<u8>) -> (res: Result<(), JavaError>)
        ensures
            res is Ok <==> class_writable(*self),
            res is Ok ==> final(out)@ == old(out)@ + ser_class(*self),
            res is Err ==> final(out)@ == old(out)@,
    {
        let mut buf: Vec<u8> = Vec::new();
        push_u32(&mut buf, 0xCAFEBABE);
        push_u16(&mut buf, self.minor);
        push_u16(&mut buf, self.major);
        write_constant_pool(&mut buf, &self.constants)?;
        push_u16(&mut buf, compact_class_flags(&self.access_flags));
        push_u16(&mut buf, self.this_class);
        push_u16(&mut buf, self.super_class);
        write_interfaces(&mut buf, &self.interfaces);
        write_fields(&mut buf, &self.fields, self)?;
        write_methods(&mut buf, &self.methods, self)?;
        write_attributes(&mut buf, &self.attributes, self)?;
        assert(buf@ =~= ser_class(*self));
        push_bytes(out, buf.as_slice());
        Ok(())
    }

    /// The string that entry `id` stands for: a `Utf8` entry's bytes, or, for
    /// a `String` or `Class` entry, what the entry it names stands for.
    pub fn get_string(&self, id: u16) -> (res: Result<Vec<u8>, JavaError>)
        ensures
            match lookup_string(self.constants@, id, self.constants@.len()) {
                Lookup::Found(s) => res matches Ok(v) && v@ == s,
                Lookup::NoEntry(i) => res == Err::<Vec<u8>, JavaError>(JavaError::InvalidConstantId(i)),
                Lookup::WrongKind(i) => res matches Err(JavaError::ConstantTypeError(m)) && m@ == not_a_string_text(i),
            },
    {
        pool_string(&self.constants, id)
    }

    /// The index of the first `Utf8` entry whose bytes are `string`.
    pub fn get_string_index(&self, string: &[u8]) -> (res: Result<u16, JavaError>)
        ensures
            res is Ok <==> has_utf8(self.constants@, string@),
            res matches Ok(i) ==> i == first_utf8(self.constants@, string@),
            res is Err ==> res == Err::<u16, JavaError>(JavaError::StringNotFound),
    {
        pool_string_index(&self.constants, string)
    }
}

} // verus!
