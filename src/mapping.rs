use vstd::prelude::*;

use crate::bytes::{be_u16, lemma_be_u16_injective};

verus! {

/// A symbolic access flag. Which bit stands for it depends on the context
/// in which the flag word occurs.
#[derive(Debug, Clone, Copy, PartialEq, Eq, Structural)]
pub enum AccessFlag {
    Abstract,
    Annotation,
    Bridge,
    Enum,
    Final,
    Interface,
    Mandated,
    Module,
    Native,
    Open,
    Public,
    Private,
    Protected,
    Static,
    StaticPhase,
    Strict,
    Super,
    Synchronized,
    Synthetic,
    Transient,
    Transitive,
    VarArgs,
    Volatile,
}

/// The places where a flag word occurs; each has its own table.
#[derive(Debug, Clone, Copy, PartialEq, Eq, Structural)]
pub enum FlagContext {
    Class,
    InnerClass,
    Field,
    Method,
    MethodParameter,
    Module,
    ModuleRequires,
    ModuleOpens,
    ModuleExports,
}

/// The bit that stands for `flag` in `context`, or 0 where the context has no
/// such flag.
pub open spec fn mask_of(context: FlagContext, flag: AccessFlag) -> u16 {
    match context {
        FlagContext::Class => match flag {
            AccessFlag::Public => 0x0001,
            AccessFlag::Final => 0x0010,
            AccessFlag::Super => 0x0020,
            AccessFlag::Interface => 0x0200,
            AccessFlag::Abstract => 0x0400,
            AccessFlag::Synthetic => 0x1000,
            AccessFlag::Annotation => 0x2000,
            AccessFlag::Enum => 0x4000,
            AccessFlag::Module => 0x8000,
            _ => 0,
        },
        FlagContext::InnerClass => match flag {
            AccessFlag::Public => 0x0001,
            AccessFlag::Private => 0x0002,
            AccessFlag::Protected => 0x0004,
            AccessFlag::Static => 0x0008,
            AccessFlag::Final => 0x0010,
            AccessFlag::Interface => 0x0200,
            AccessFlag::Abstract => 0x0400,
            AccessFlag::Synthetic => 0x1000,
            AccessFlag::Annotation => 0x2000,
            AccessFlag::Enum => 0x4000,
            _ => 0,
        },
        FlagContext::Field => match flag {
            AccessFlag::Public => 0x0001,
            AccessFlag::Private => 0x0002,
            AccessFlag::Protected => 0x0004,
            AccessFlag::Static => 0x0008,
            AccessFlag::Final => 0x0010,
            AccessFlag::Volatile => 0x0040,
            AccessFlag::Transient => 0x0080,
            AccessFlag::Synthetic => 0x1000,
            AccessFlag::Enum => 0x4000,
            _ => 0,
        },
        FlagContext::Method => match flag {
            AccessFlag::Public => 0x0001,
            AccessFlag::Private => 0x0002,
            AccessFlag::Protected => 0x0004,
            AccessFlag::Static => 0x0008,
            AccessFlag::Final => 0x0010,
            AccessFlag::Synchronized => 0x0020,
            AccessFlag::Bridge => 0x0040,
            AccessFlag::VarArgs => 0x0080,
            AccessFlag::Native => 0x0100,
            AccessFlag::Abstract => 0x0400,
            AccessFlag::Strict => 0x0800,
            AccessFlag::Synthetic => 0x1000,
            _ => 0,
        },
        FlagContext::MethodParameter => match flag {
            AccessFlag::Final => 0x0010,
            AccessFlag::Synthetic => 0x1000,
            AccessFlag::Mandated => 0x8000,
            _ => 0,
        },
        FlagContext::Module => match flag {
            AccessFlag::Open => 0x0020,
            AccessFlag::Synthetic => 0x1000,
            AccessFlag::Mandated => 0x8000,
            _ => 0,
        },
        FlagContext::ModuleRequires => match flag {
            AccessFlag::Transitive => 0x0020,
            AccessFlag::StaticPhase => 0x0040,
            AccessFlag::Synthetic => 0x1000,
            AccessFlag::Mandated => 0x8000,
            _ => 0,
        },
        FlagContext::ModuleOpens => match flag {
            AccessFlag::Synthetic => 0x1000,
            AccessFlag::Mandated => 0x8000,
            _ => 0,
        },
        FlagContext::ModuleExports => match flag {
            AccessFlag::Synthetic => 0x1000,
            AccessFlag::Mandated => 0x8000,
            _ => 0,
        },
    }
}

/// The flags of `context`, in the order of its table.
pub open spec fn order_of(context: FlagContext) -> Seq<AccessFlag> {
    match context {
        FlagContext::Class => seq![AccessFlag::Public, AccessFlag::Final, AccessFlag::Super, AccessFlag::Interface, AccessFlag::Abstract, AccessFlag::Synthetic, AccessFlag::Annotation, AccessFlag::Enum, AccessFlag::Module],
        FlagContext::InnerClass => seq![AccessFlag::Public, AccessFlag::Private, AccessFlag::Protected, AccessFlag::Static, AccessFlag::Final, AccessFlag::Interface, AccessFlag::Abstract, AccessFlag::Synthetic, AccessFlag::Annotation, AccessFlag::Enum],
        FlagContext::Field => seq![AccessFlag::Public, AccessFlag::Private, AccessFlag::Protected, AccessFlag::Static, AccessFlag::Final, AccessFlag::Volatile, AccessFlag::Transient, AccessFlag::Synthetic, AccessFlag::Enum],
        FlagContext::Method => seq![AccessFlag::Public, AccessFlag::Private, AccessFlag::Protected, AccessFlag::Static, AccessFlag::Final, AccessFlag::Synchronized, AccessFlag::Bridge, AccessFlag::VarArgs, AccessFlag::Native, AccessFlag::Abstract, AccessFlag::Strict, AccessFlag::Synthetic],
        FlagContext::MethodParameter => seq![AccessFlag::Final, AccessFlag::Synthetic, AccessFlag::Mandated],
        FlagContext::Module => seq![AccessFlag::Open, AccessFlag::Synthetic, AccessFlag::Mandated],
        FlagContext::ModuleRequires => seq![AccessFlag::Transitive, AccessFlag::StaticPhase, AccessFlag::Synthetic, AccessFlag::Mandated],
        FlagContext::ModuleOpens => seq![AccessFlag::Synthetic, AccessFlag::Mandated],
        FlagContext::ModuleExports => seq![AccessFlag::Synthetic, AccessFlag::Mandated],
    }
}

/// The flags of `order` whose bit is set in `word`, in the order of `order`.
pub open spec fn unpack_in(context: FlagContext, order: Seq<AccessFlag>, word: u16) -> Seq<AccessFlag>
    decreases order.len(),
{
    if order.len() == 0 {
        Seq::empty()
    } else {
        let rest = unpack_in(context, order.drop_last(), word);
        if mask_of(context, order.last()) & word != 0 {
            rest.push(order.last())
        } else {
            rest
        }
    }
}

/// The flag set that a flag word stands for in `context`.
pub open spec fn unpack(context: FlagContext, word: u16) -> Seq<AccessFlag> {
    unpack_in(context, order_of(context), word)
}

/// The flag word of a flag set: the bits of all its flags that `context` maps.
pub open spec fn pack(context: FlagContext, flags: Seq<AccessFlag>) -> u16
    decreases flags.len(),
{
    if flags.len() == 0 {
        0
    } else {
        pack(context, flags.drop_last()) | mask_of(context, flags.last())
    }
}

/// Every bit that `context` maps.
pub open spec fn mask_union(context: FlagContext) -> u16 {
    pack(context, order_of(context))
}

/// `m` has at most one bit set.
pub open spec fn at_most_one_bit(m: u16) -> bool {
    m == 0 || m == 0x0001 || m == 0x0002 || m == 0x0004 || m == 0x0008 || m == 0x0010
        || m == 0x0020 || m == 0x0040 || m == 0x0080 || m == 0x0100 || m == 0x0200
        || m == 0x0400 || m == 0x0800 || m == 0x1000 || m == 0x2000 || m == 0x4000
        || m == 0x8000
}

proof fn lemma_masks_are_bits(context: FlagContext, flag: AccessFlag)
    ensures
        at_most_one_bit(mask_of(context, flag)),
{
}

proof fn lemma_add_bit(word: u16, acc: u16, b: u16)
    requires
        at_most_one_bit(b),
    ensures
        (if b & word != 0 { (word & acc) | b } else { word & acc }) == word & (acc | b),
{
    if b & word != 0 {
        assert((b == 0 || b == 0x0001 || b == 0x0002 || b == 0x0004 || b == 0x0008 || b == 0x0010
            || b == 0x0020 || b == 0x0040 || b == 0x0080 || b == 0x0100 || b == 0x0200
            || b == 0x0400 || b == 0x0800 || b == 0x1000 || b == 0x2000 || b == 0x4000
            || b == 0x8000) && b & word != 0 ==> (word & acc) | b == word & (acc | b)) by (bit_vector);
    } else {
        assert(b & word == 0 ==> word & acc == word & (acc | b)) by (bit_vector);
    }
}

proof fn lemma_pack_push(context: FlagContext, flags: Seq<AccessFlag>, f: AccessFlag)
    ensures
        pack(context, flags.push(f)) == pack(context, flags) | mask_of(context, f),
{
    assert(flags.push(f).drop_last() =~= flags);
}

proof fn lemma_pack_unpack_in(context: FlagContext, order: Seq<AccessFlag>, word: u16)
    ensures
        pack(context, unpack_in(context, order, word)) == word & pack(context, order),
    decreases order.len(),
{
    if order.len() == 0 {
        assert(word & 0 == 0) by (bit_vector);
    } else {
        let f = order.last();
        let rest = unpack_in(context, order.drop_last(), word);
        lemma_pack_unpack_in(context, order.drop_last(), word);
        lemma_masks_are_bits(context, f);
        if mask_of(context, f) & word != 0 {
            lemma_pack_push(context, rest, f);
        }
        lemma_add_bit(word, pack(context, order.drop_last()), mask_of(context, f));
    }
}

/// Packing the flag set that a word unpacks to gives back the word with the
/// bits that the context does not map cleared.
pub proof fn lemma_pack_unpack(context: FlagContext, word: u16)
    ensures
        pack(context, unpack(context, word)) == word & mask_union(context),
{
    lemma_pack_unpack_in(context, order_of(context), word);
}

proof fn lemma_unpack_in_masked(context: FlagContext, order: Seq<AccessFlag>, word: u16, keep: u16)
    requires
        forall|i: int| 0 <= i < order.len() ==> #[trigger] mask_of(context, order[i]) & keep == mask_of(context, order[i]),
    ensures
        unpack_in(context, order, word & keep) == unpack_in(context, order, word),
    decreases order.len(),
{
    if order.len() > 0 {
        let m = mask_of(context, order.last());
        assert(mask_of(context, order[order.len() - 1]) & keep == m);
        assert(m & keep == m ==> (m & (word & keep) != 0) == (m & word != 0)) by (bit_vector);
        assert forall|i: int| 0 <= i < order.drop_last().len() implies #[trigger] mask_of(context, order.drop_last()[i]) & keep
            == mask_of(context, order.drop_last()[i]) by {
            assert(order.drop_last()[i] == order[i]);
        }
        lemma_unpack_in_masked(context, order.drop_last(), word, keep);
    }
}

proof fn lemma_mask_in_union(context: FlagContext, order: Seq<AccessFlag>, i: int)
    requires
        0 <= i < order.len(),
    ensures
        mask_of(context, order[i]) & pack(context, order) == mask_of(context, order[i]),
    decreases order.len(),
{
    let m = mask_of(context, order[i]);
    let rest = pack(context, order.drop_last());
    let last = mask_of(context, order.last());
    if i == order.len() - 1 {
        assert(m == last ==> m & (rest | last) == m) by (bit_vector);
    } else {
        lemma_mask_in_union(context, order.drop_last(), i);
        assert(order.drop_last()[i] == order[i]);
        assert(m & rest == m ==> m & (rest | last) == m) by (bit_vector);
    }
}

/// Unpacking the word that a decoded flag set packs to gives that flag set
/// back: decoding, encoding and decoding again is decoding once.
pub proof fn lemma_unpack_pack_unpack(context: FlagContext, word: u16)
    ensures
        unpack(context, pack(context, unpack(context, word))) == unpack(context, word),
{
    let order = order_of(context);
    lemma_pack_unpack(context, word);
    assert forall|i: int| 0 <= i < order.len() implies #[trigger] mask_of(context, order[i]) & mask_union(context)
        == mask_of(context, order[i]) by {
        lemma_mask_in_union(context, order, i);
    }
    lemma_unpack_in_masked(context, order, word, mask_union(context));
}

/// Two flag words have the same bytes exactly where they are equal.
pub proof fn lemma_be_flags(a: u16, b: u16)
    ensures
        (be_u16(a) == be_u16(b)) <==> a == b,
{
    lemma_be_u16_injective(a, b);
}

/// The bit that stands for `flag` in `context`, or 0.
pub fn flag_mask(context: FlagContext, flag: AccessFlag) -> (r: u16)
    ensures
        r == mask_of(context, flag),
{
    match context {
        FlagContext::Class => match flag {
            AccessFlag::Public => 0x0001,
            AccessFlag::Final => 0x0010,
            AccessFlag::Super => 0x0020,
            AccessFlag::Interface => 0x0200,
            AccessFlag::Abstract => 0x0400,
            AccessFlag::Synthetic => 0x1000,
            AccessFlag::Annotation => 0x2000,
            AccessFlag::Enum => 0x4000,
            AccessFlag::Module => 0x8000,
            _ => 0,
        },
        FlagContext::InnerClass => match flag {
            AccessFlag::Public => 0x0001,
            AccessFlag::Private => 0x0002,
            AccessFlag::Protected => 0x0004,
            AccessFlag::Static => 0x0008,
            AccessFlag::Final => 0x0010,
            AccessFlag::Interface => 0x0200,
            AccessFlag::Abstract => 0x0400,
            AccessFlag::Synthetic => 0x1000,
            AccessFlag::Annotation => 0x2000,
            AccessFlag::Enum => 0x4000,
            _ => 0,
        },
        FlagContext::Field => match flag {
            AccessFlag::Public => 0x0001,
            AccessFlag::Private => 0x0002,
            AccessFlag::Protected => 0x0004,
            AccessFlag::Static => 0x0008,
            AccessFlag::Final => 0x0010,
            AccessFlag::Volatile => 0x0040,
            AccessFlag::Transient => 0x0080,
            AccessFlag::Synthetic => 0x1000,
            AccessFlag::Enum => 0x4000,
            _ => 0,
        },
        FlagContext::Method => match flag {
            AccessFlag::Public => 0x0001,
            AccessFlag::Private => 0x0002,
            AccessFlag::Protected => 0x0004,
            AccessFlag::Static => 0x0008,
            AccessFlag::Final => 0x0010,
            AccessFlag::Synchronized => 0x0020,
            AccessFlag::Bridge => 0x0040,
            AccessFlag::VarArgs => 0x0080,
            AccessFlag::Native => 0x0100,
            AccessFlag::Abstract => 0x0400,
            AccessFlag::Strict => 0x0800,
            AccessFlag::Synthetic => 0x1000,
            _ => 0,
        },
        FlagContext::MethodParameter => match flag {
            AccessFlag::Final => 0x0010,
            AccessFlag::Synthetic => 0x1000,
            AccessFlag::Mandated => 0x8000,
            _ => 0,
        },
        FlagContext::Module => match flag {
            AccessFlag::Open => 0x0020,
            AccessFlag::Synthetic => 0x1000,
            AccessFlag::Mandated => 0x8000,
            _ => 0,
        },
        FlagContext::ModuleRequires => match flag {
            AccessFlag::Transitive => 0x0020,
            AccessFlag::StaticPhase => 0x0040,
            AccessFlag::Synthetic => 0x1000,
            AccessFlag::Mandated => 0x8000,
            _ => 0,
        },
        FlagContext::ModuleOpens => match flag {
            AccessFlag::Synthetic => 0x1000,
            AccessFlag::Mandated => 0x8000,
            _ => 0,
        },
        FlagContext::ModuleExports => match flag {
            AccessFlag::Synthetic => 0x1000,
            AccessFlag::Mandated => 0x8000,
            _ => 0,
        },
    }
}

/// The flags of `context`, in table order.
pub fn flag_order(context: FlagContext) -> (r: Vec<AccessFlag>)
    ensures
        r@ == order_of(context),
{
    match context {
        FlagContext::Class => vec![AccessFlag::Public, AccessFlag::Final, AccessFlag::Super, AccessFlag::Interface, AccessFlag::Abstract, AccessFlag::Synthetic, AccessFlag::Annotation, AccessFlag::Enum, AccessFlag::Module],
        FlagContext::InnerClass => vec![AccessFlag::Public, AccessFlag::Private, AccessFlag::Protected, AccessFlag::Static, AccessFlag::Final, AccessFlag::Interface, AccessFlag::Abstract, AccessFlag::Synthetic, AccessFlag::Annotation, AccessFlag::Enum],
        FlagContext::Field => vec![AccessFlag::Public, AccessFlag::Private, AccessFlag::Protected, AccessFlag::Static, AccessFlag::Final, AccessFlag::Volatile, AccessFlag::Transient, AccessFlag::Synthetic, AccessFlag::Enum],
        FlagContext::Method => vec![AccessFlag::Public, AccessFlag::Private, AccessFlag::Protected, AccessFlag::Static, AccessFlag::Final, AccessFlag::Synchronized, AccessFlag::Bridge, AccessFlag::VarArgs, AccessFlag::Native, AccessFlag::Abstract, AccessFlag::Strict, AccessFlag::Synthetic],
        FlagContext::MethodParameter => vec![AccessFlag::Final, AccessFlag::Synthetic, AccessFlag::Mandated],
        FlagContext::Module => vec![AccessFlag::Open, AccessFlag::Synthetic, AccessFlag::Mandated],
        FlagContext::ModuleRequires => vec![AccessFlag::Transitive, AccessFlag::StaticPhase, AccessFlag::Synthetic, AccessFlag::Mandated],
        FlagContext::ModuleOpens => vec![AccessFlag::Synthetic, AccessFlag::Mandated],
        FlagContext::ModuleExports => vec![AccessFlag::Synthetic, AccessFlag::Mandated],
    }
}

/// The flags of `context` whose bit is set in `flags`, in table order.
pub fn extract_flags(flags: u16, context: FlagContext) -> (r: Vec<AccessFlag>)
    ensures
        r@ == unpack(context, flags),
{
    let order = flag_order(context);
    let mut r: Vec<AccessFlag> = Vec::new();
    let mut i: usize = 0;
    while i < order.len()
        invariant
            order@ == order_of(context),
            i <= order@.len(),
            r@ == unpack_in(context, order@.take(i as int), flags),
        decreases order@.len() - i,
    {
        let f = order[i];
        assert(order@.take(i + 1).drop_last() =~= order@.take(i as int));
        if flag_mask(context, f) & flags != 0 {
            r.push(f);
        }
        i = i + 1;
    }
    assert(order@.take(order@.len() as int) =~= order@);
    r
}

/// The flag word of `flags` in `context`: the bits of every flag it holds
/// that the context maps.
pub fn compact_flags(flags: &Vec<AccessFlag>, context: FlagContext) -> (r: u16)
    ensures
        r == pack(context, flags@),
{
    let mut acc: u16 = 0;
    let mut i: usize = 0;
    while i < flags.len()
        invariant
            i <= flags@.len(),
            acc == pack(context, flags@.take(i as int)),
        decreases flags@.len() - i,
    {
        assert(flags@.take(i + 1).drop_last() =~= flags@.take(i as int));
        acc = acc | flag_mask(context, flags[i]);
        i = i + 1;
    }
    assert(flags@.take(flags@.len() as int) =~= flags@);
    acc
}

/// The class flags that a flag word holds.
pub fn extract_class_flags(flags: u16) -> (r: Vec<AccessFlag>)
    ensures
        r@ == unpack(FlagContext::Class, flags),
{
    extract_flags(flags, FlagContext::Class)
}

/// The flag word of a set of class flags.
pub fn compact_class_flags(flags: &Vec<AccessFlag>) -> (r: u16)
    ensures
        r == pack(FlagContext::Class, flags@),
{
    compact_flags(flags, FlagContext::Class)
}

/// The inner class flags that a flag word holds.
pub fn extract_inner_class_flags(flags: u16) -> (r: Vec<AccessFlag>)
    ensures
        r@ == unpack(FlagContext::InnerClass, flags),
{
    extract_flags(flags, FlagContext::InnerClass)
}

/// The flag word of a set of inner class flags.
pub fn compact_inner_class_flags(flags: &Vec<AccessFlag>) -> (r: u16)
    ensures
        r == pack(FlagContext::InnerClass, flags@),
{
    compact_flags(flags, FlagContext::InnerClass)
}

/// The field flags that a flag word holds.
pub fn extract_field_flags(flags: u16) -> (r: Vec<AccessFlag>)
    ensures
        r@ == unpack(FlagContext::Field, flags),
{
    extract_flags(flags, FlagContext::Field)
}

/// The flag word of a set of field flags.
pub fn compact_field_flags(flags: &Vec<AccessFlag>) -> (r: u16)
    ensures
        r == pack(FlagContext::Field, flags@),
{
    compact_flags(flags, FlagContext::Field)
}

/// The method flags that a flag word holds.
pub fn extract_method_flags(flags: u16) -> (r: Vec<AccessFlag>)
    ensures
        r@ == unpack(FlagContext::Method, flags),
{
    extract_flags(flags, FlagContext::Method)
}

/// The flag word of a set of method flags.
pub fn compact_method_flags(flags: &Vec<AccessFlag>) -> (r: u16)
    ensures
        r == pack(FlagContext::Method, flags@),
{
    compact_flags(flags, FlagContext::Method)
}

/// The method parameter flags that a flag word holds.
pub fn extract_method_parameter_flags(flags: u16) -> (r: Vec<AccessFlag>)
    ensures
        r@ == unpack(FlagContext::MethodParameter, flags),
{
    extract_flags(flags, FlagContext::MethodParameter)
}

/// The flag word of a set of method parameter flags.
pub fn compact_method_parameter_flags(flags: &Vec<AccessFlag>) -> (r: u16)
    ensures
        r == pack(FlagContext::MethodParameter, flags@),
{
    compact_flags(flags, FlagContext::MethodParameter)
}

/// The module flags that a flag word holds.
pub fn extract_module_flags(flags: u16) -> (r: Vec<AccessFlag>)
    ensures
        r@ == unpack(FlagContext::Module, flags),
{
    extract_flags(flags, FlagContext::Module)
}

/// The flag word of a set of module flags.
pub fn compact_module_flags(flags: &Vec<AccessFlag>) -> (r: u16)
    ensures
        r == pack(FlagContext::Module, flags@),
{
    compact_flags(flags, FlagContext::Module)
}

/// The module requires flags that a flag word holds.
pub fn extract_module_requires_flags(flags: u16) -> (r: Vec<AccessFlag>)
    ensures
        r@ == unpack(FlagContext::ModuleRequires, flags),
{
    extract_flags(flags, FlagContext::ModuleRequires)
}

/// The flag word of a set of module requires flags.
pub fn compact_module_requires_flags(flags: &Vec<AccessFlag>) -> (r: u16)
    ensures
        r == pack(FlagContext::ModuleRequires, flags@),
{
    compact_flags(flags, FlagContext::ModuleRequires)
}

/// The module opens flags that a flag word holds.
pub fn extract_module_opens_flags(flags: u16) -> (r: Vec<AccessFlag>)
    ensures
        r@ == unpack(FlagContext::ModuleOpens, flags),
{
    extract_flags(flags, FlagContext::ModuleOpens)
}

/// The flag word of a set of module opens flags.
pub fn compact_module_opens_flags(flags: &Vec<AccessFlag>) -> (r: u16)
    ensures
        r == pack(FlagContext::ModuleOpens, flags@),
{
    compact_flags(flags, FlagContext::ModuleOpens)
}

/// The module exports flags that a flag word holds.
pub fn extract_module_exports_flags(flags: u16) -> (r: Vec<AccessFlag>)
    ensures
        r@ == unpack(FlagContext::ModuleExports, flags),
{
    extract_flags(flags, FlagContext::ModuleExports)
}

/// The flag word of a set of module exports flags.
pub fn compact_module_exports_flags(flags: &Vec<AccessFlag>) -> (r: u16)
    ensures
        r == pack(FlagContext::ModuleExports, flags@),
{
    compact_flags(flags, FlagContext::ModuleExports)
}

} // verus!
