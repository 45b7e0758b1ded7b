use vstd::prelude::*;

use crate::annotations::{
    read_annotation_list, read_element_value_as, read_parameter_annotations_list, read_type_annotation_list,
    wf_annotation, wf_element_value, wf_parameter_annotations, wf_type_annotation,
    ser_annotation_list, ser_element_value, ser_parameter_annotations_list, ser_type_annotation_list,
    write_annotation_list, write_element_value, write_parameter_annotations_list, write_type_annotation_list,
    Annotation, ElementValue, TypeAnnotation,
};
use crate::bytes::{
    be_u16, be_u32, lemma_be_u16_injective, lemma_be_u32_injective, lemma_span_split, lemma_starts_concat, push_bytes,
    push_u16, push_u32, push_u8, starts_at, ByteReader, MAX_NESTING,
};
use crate::constants::{
    bytes_eq, copy_bytes, first_utf8, has_utf8, lemma_first_utf8_bounds, pool_string, pool_string_index, Constant,
};
use crate::errors::JavaError;
use crate::JVMClass;
use crate::frames::{
    read_stack_map_frame_list, ser_stack_map_frame_list, wf_stack_map_frame, write_stack_map_frame_list, StackMapFrame,
};
use crate::instructions::{
    compile, decodable_at, decompile_as, encodable, pc_of, ser_code, ser_code_block, Instruction,
};
use crate::mapping::{compact_flags, pack, unpack, AccessFlag, FlagContext};
use crate::structs::{
    read_bootstrap_method_list, read_exception_table_entry_list, read_flags, read_inner_class_list,
    read_line_number_list, read_local_variable_list, read_local_variable_type_list, read_method_parameter_list,
    read_module_exports_list, read_module_opens_list, read_module_provides_list, read_module_requires_list,
    read_u16s, ser_bootstrap_method_list, ser_exception_table_entry_list, ser_inner_class_list,
    ser_line_number_list, ser_local_variable_list, ser_local_variable_type_list, ser_method_parameter_list,
    ser_module_exports_list, ser_module_opens_list, ser_module_provides_list, ser_module_requires_list,
    ser_u16s, write_bootstrap_method_list, write_exception_table_entry_list, write_inner_class_list,
    write_line_number_list, write_local_variable_list, write_local_variable_type_list,
    write_method_parameter_list, write_module_exports_list, write_module_opens_list,
    write_module_provides_list, write_module_requires_list, write_u16s, BootstrapMethod,
    ExceptionTableEntry, InnerClass, LineNumber, LocalVariable, LocalVariableType, MethodParameter,
    ModuleExports, ModuleOpens, ModuleProvides, ModuleRequires, lemma_ser_u16s_len, wf_bootstrap_method,
    wf_exception_table_entry, wf_inner_class, wf_line_number, wf_local_variable, wf_local_variable_type,
    wf_method_parameter, wf_module_exports, wf_module_opens, wf_module_provides, wf_module_requires,
};

verus! {

broadcast use vstd::std_specs::vec::axiom_vec_decreases_to_view, vstd::seq::axiom_seq_subrange_decreases;

/// An attribute, dispatched by its name.
#[derive(Debug)]
pub enum Attribute {
    AnnotationDefault(ElementValue),
    BootstrapMethods(Vec<BootstrapMethod>),
    Code {
        code: Vec<Instruction>,
        max_stack: u16,
        max_locals: u16,
        exception_table: Vec<ExceptionTableEntry>,
        attributes: Vec<Attribute>,
    },
    ConstantValue { constantvalue_index: u16 },
    Deprecated,
    EnclosingMethod { class_index: u16, method_index: u16 },
    Exceptions(Vec<u16>),
    InnerClasses(Vec<InnerClass>),
    LineNumberTable(Vec<LineNumber>),
    LocalVariableTable(Vec<LocalVariable>),
    LocalVariableTypeTable(Vec<LocalVariableType>),
    MethodParameters(Vec<MethodParameter>),
    Module { module_name_index: u16, module_flags: Vec<AccessFlag>, module_version_index: u16, module_requires: Vec<ModuleRequires>, exports: Vec<ModuleExports>, opens: Vec<ModuleOpens>, uses: Vec<u16>, provides: Vec<ModuleProvides> },
    ModuleMainClass(u16),
    ModulePackages(Vec<u16>),
    NestHost(u16),
    NestMembers(Vec<u16>),
    PermittedSubclasses(Vec<u16>),
    Record(Vec<RecordComponent>),
    RuntimeInvisibleAnnotations(Vec<Annotation>),
    RuntimeInvisibleParameterAnnotations(Vec<Vec<Annotation>>),
    RuntimeInvisibleTypeAnnotations(Vec<TypeAnnotation>),
    RuntimeVisibleAnnotations(Vec<Annotation>),
    RuntimeVisibleParameterAnnotations(Vec<Vec<Annotation>>),
    RuntimeVisibleTypeAnnotations(Vec<TypeAnnotation>),
    Signature { signature_index: u16 },
    SourceDebugExtension { debug_extension: Vec<u8> },
    SourceFile { sourcefile_index: u16 },
    StackMapTable(Vec<StackMapFrame>),
    Synthetic,
    /// An attribute whose name no variant has; its payload is kept as it is.
    Unknown { name: Vec<u8>, data: Vec<u8> },
}

/// One component of a `Record` attribute.
#[derive(Debug)]
pub struct RecordComponent {
    pub name_index: u16,
    pub descriptor_index: u16,
    pub attributes: Vec<Attribute>,
}

/// The name under which an attribute is written.
pub open spec fn attribute_name(a: Attribute) -> Seq<u8> {
    match a {
        Attribute::AnnotationDefault(..) => seq![65u8, 110u8, 110u8, 111u8, 116u8, 97u8, 116u8, 105u8, 111u8, 110u8, 68u8, 101u8, 102u8, 97u8, 117u8, 108u8, 116u8],
        Attribute::BootstrapMethods(..) => seq![66u8, 111u8, 111u8, 116u8, 115u8, 116u8, 114u8, 97u8, 112u8, 77u8, 101u8, 116u8, 104u8, 111u8, 100u8, 115u8],
        Attribute::Code { .. } => seq![67u8, 111u8, 100u8, 101u8],
        Attribute::ConstantValue { .. } => seq![67u8, 111u8, 110u8, 115u8, 116u8, 97u8, 110u8, 116u8, 86u8, 97u8, 108u8, 117u8, 101u8],
        Attribute::Deprecated => seq![68u8, 101u8, 112u8, 114u8, 101u8, 99u8, 97u8, 116u8, 101u8, 100u8],
        Attribute::EnclosingMethod { .. } => seq![69u8, 110u8, 99u8, 108u8, 111u8, 115u8, 105u8, 110u8, 103u8, 77u8, 101u8, 116u8, 104u8, 111u8, 100u8],
        Attribute::Exceptions(..) => seq![69u8, 120u8, 99u8, 101u8, 112u8, 116u8, 105u8, 111u8, 110u8, 115u8],
        Attribute::InnerClasses(..) => seq![73u8, 110u8, 110u8, 101u8, 114u8, 67u8, 108u8, 97u8, 115u8, 115u8, 101u8, 115u8],
        Attribute::LineNumberTable(..) => seq![76u8, 105u8, 110u8, 101u8, 78u8, 117u8, 109u8, 98u8, 101u8, 114u8, 84u8, 97u8, 98u8, 108u8, 101u8],
        Attribute::LocalVariableTable(..) => seq![76u8, 111u8, 99u8, 97u8, 108u8, 86u8, 97u8, 114u8, 105u8, 97u8, 98u8, 108u8, 101u8, 84u8, 97u8, 98u8, 108u8, 101u8],
        Attribute::LocalVariableTypeTable(..) => seq![76u8, 111u8, 99u8, 97u8, 108u8, 86u8, 97u8, 114u8, 105u8, 97u8, 98u8, 108u8, 101u8, 84u8, 121u8, 112u8, 101u8, 84u8, 97u8, 98u8, 108u8, 101u8],
        Attribute::MethodParameters(..) => seq![77u8, 101u8, 116u8, 104u8, 111u8, 100u8, 80u8, 97u8, 114u8, 97u8, 109u8, 101u8, 116u8, 101u8, 114u8, 115u8],
        Attribute::Module { .. } => seq![77u8, 111u8, 100u8, 117u8, 108u8, 101u8],
        Attribute::ModuleMainClass(..) => seq![77u8, 111u8, 100u8, 117u8, 108u8, 101u8, 77u8, 97u8, 105u8, 110u8, 67u8, 108u8, 97u8, 115u8, 115u8],
        Attribute::ModulePackages(..) => seq![77u8, 111u8, 100u8, 117u8, 108u8, 101u8, 80u8, 97u8, 99u8, 107u8, 97u8, 103u8, 101u8, 115u8],
        Attribute::NestHost(..) => seq![78u8, 101u8, 115u8, 116u8, 72u8, 111u8, 115u8, 116u8],
        Attribute::NestMembers(..) => seq![78u8, 101u8, 115u8, 116u8, 77u8, 101u8, 109u8, 98u8, 101u8, 114u8, 115u8],
        Attribute::PermittedSubclasses(..) => seq![80u8, 101u8, 114u8, 109u8, 105u8, 116u8, 116u8, 101u8, 100u8, 83u8, 117u8, 98u8, 99u8, 108u8, 97u8, 115u8, 115u8, 101u8, 115u8],
        Attribute::Record(..) => seq![82u8, 101u8, 99u8, 111u8, 114u8, 100u8],
        Attribute::RuntimeInvisibleAnnotations(..) => seq![82u8, 117u8, 110u8, 116u8, 105u8, 109u8, 101u8, 73u8, 110u8, 118u8, 105u8, 115u8, 105u8, 98u8, 108u8, 101u8, 65u8, 110u8, 110u8, 111u8, 116u8, 97u8, 116u8, 105u8, 111u8, 110u8, 115u8],
        Attribute::RuntimeInvisibleParameterAnnotations(..) => seq![82u8, 117u8, 110u8, 116u8, 105u8, 109u8, 101u8, 73u8, 110u8, 118u8, 105u8, 115u8, 105u8, 98u8, 108u8, 101u8, 80u8, 97u8, 114u8, 97u8, 109u8, 101u8, 116u8, 101u8, 114u8, 65u8, 110u8, 110u8, 111u8, 116u8, 97u8, 116u8, 105u8, 111u8, 110u8, 115u8],
        Attribute::RuntimeInvisibleTypeAnnotations(..) => seq![82u8, 117u8, 110u8, 116u8, 105u8, 109u8, 101u8, 73u8, 110u8, 118u8, 105u8, 115u8, 105u8, 98u8, 108u8, 101u8, 84u8, 121u8, 112u8, 101u8, 65u8, 110u8, 110u8, 111u8, 116u8, 97u8, 116u8, 105u8, 111u8, 110u8, 115u8],
        Attribute::RuntimeVisibleAnnotations(..) => seq![82u8, 117u8, 110u8, 116u8, 105u8, 109u8, 101u8, 86u8, 105u8, 115u8, 105u8, 98u8, 108u8, 101u8, 65u8, 110u8, 110u8, 111u8, 116u8, 97u8, 116u8, 105u8, 111u8, 110u8, 115u8],
        Attribute::RuntimeVisibleParameterAnnotations(..) => seq![82u8, 117u8, 110u8, 116u8, 105u8, 109u8, 101u8, 86u8, 105u8, 115u8, 105u8, 98u8, 108u8, 101u8, 80u8, 97u8, 114u8, 97u8, 109u8, 101u8, 116u8, 101u8, 114u8, 65u8, 110u8, 110u8, 111u8, 116u8, 97u8, 116u8, 105u8, 111u8, 110u8, 115u8],
        Attribute::RuntimeVisibleTypeAnnotations(..) => seq![82u8, 117u8, 110u8, 116u8, 105u8, 109u8, 101u8, 86u8, 105u8, 115u8, 105u8, 98u8, 108u8, 101u8, 84u8, 121u8, 112u8, 101u8, 65u8, 110u8, 110u8, 111u8, 116u8, 97u8, 116u8, 105u8, 111u8, 110u8, 115u8],
        Attribute::Signature { .. } => seq![83u8, 105u8, 103u8, 110u8, 97u8, 116u8, 117u8, 114u8, 101u8],
        Attribute::SourceDebugExtension { .. } => seq![83u8, 111u8, 117u8, 114u8, 99u8, 101u8, 68u8, 101u8, 98u8, 117u8, 103u8, 69u8, 120u8, 116u8, 101u8, 110u8, 115u8, 105u8, 111u8, 110u8],
        Attribute::SourceFile { .. } => seq![83u8, 111u8, 117u8, 114u8, 99u8, 101u8, 70u8, 105u8, 108u8, 101u8],
        Attribute::StackMapTable(..) => seq![83u8, 116u8, 97u8, 99u8, 107u8, 77u8, 97u8, 112u8, 84u8, 97u8, 98u8, 108u8, 101u8],
        Attribute::Synthetic => seq![83u8, 121u8, 110u8, 116u8, 104u8, 101u8, 116u8, 105u8, 99u8],
        Attribute::Unknown { name, .. } => name@,
    }
}

/// No variant has `s` as its name.
pub open spec fn unknown_name(s: Seq<u8>) -> bool {
    s != seq![65u8, 110u8, 110u8, 111u8, 116u8, 97u8, 116u8, 105u8, 111u8, 110u8, 68u8, 101u8, 102u8, 97u8, 117u8, 108u8, 116u8]
        && s != seq![66u8, 111u8, 111u8, 116u8, 115u8, 116u8, 114u8, 97u8, 112u8, 77u8, 101u8, 116u8, 104u8, 111u8, 100u8, 115u8]
        && s != seq![67u8, 111u8, 100u8, 101u8]
        && s != seq![67u8, 111u8, 110u8, 115u8, 116u8, 97u8, 110u8, 116u8, 86u8, 97u8, 108u8, 117u8, 101u8]
        && s != seq![68u8, 101u8, 112u8, 114u8, 101u8, 99u8, 97u8, 116u8, 101u8, 100u8]
        && s != seq![69u8, 110u8, 99u8, 108u8, 111u8, 115u8, 105u8, 110u8, 103u8, 77u8, 101u8, 116u8, 104u8, 111u8, 100u8]
        && s != seq![69u8, 120u8, 99u8, 101u8, 112u8, 116u8, 105u8, 111u8, 110u8, 115u8]
        && s != seq![73u8, 110u8, 110u8, 101u8, 114u8, 67u8, 108u8, 97u8, 115u8, 115u8, 101u8, 115u8]
        && s != seq![76u8, 105u8, 110u8, 101u8, 78u8, 117u8, 109u8, 98u8, 101u8, 114u8, 84u8, 97u8, 98u8, 108u8, 101u8]
        && s != seq![76u8, 111u8, 99u8, 97u8, 108u8, 86u8, 97u8, 114u8, 105u8, 97u8, 98u8, 108u8, 101u8, 84u8, 97u8, 98u8, 108u8, 101u8]
        && s != seq![76u8, 111u8, 99u8, 97u8, 108u8, 86u8, 97u8, 114u8, 105u8, 97u8, 98u8, 108u8, 101u8, 84u8, 121u8, 112u8, 101u8, 84u8, 97u8, 98u8, 108u8, 101u8]
        && s != seq![77u8, 101u8, 116u8, 104u8, 111u8, 100u8, 80u8, 97u8, 114u8, 97u8, 109u8, 101u8, 116u8, 101u8, 114u8, 115u8]
        && s != seq![77u8, 111u8, 100u8, 117u8, 108u8, 101u8]
        && s != seq![77u8, 111u8, 100u8, 117u8, 108u8, 101u8, 77u8, 97u8, 105u8, 110u8, 67u8, 108u8, 97u8, 115u8, 115u8]
        && s != seq![77u8, 111u8, 100u8, 117u8, 108u8, 101u8, 80u8, 97u8, 99u8, 107u8, 97u8, 103u8, 101u8, 115u8]
        && s != seq![78u8, 101u8, 115u8, 116u8, 72u8, 111u8, 115u8, 116u8]
        && s != seq![78u8, 101u8, 115u8, 116u8, 77u8, 101u8, 109u8, 98u8, 101u8, 114u8, 115u8]
        && s != seq![80u8, 101u8, 114u8, 109u8, 105u8, 116u8, 116u8, 101u8, 100u8, 83u8, 117u8, 98u8, 99u8, 108u8, 97u8, 115u8, 115u8, 101u8, 115u8]
        && s != seq![82u8, 101u8, 99u8, 111u8, 114u8, 100u8]
        && s != seq![82u8, 117u8, 110u8, 116u8, 105u8, 109u8, 101u8, 73u8, 110u8, 118u8, 105u8, 115u8, 105u8, 98u8, 108u8, 101u8, 65u8, 110u8, 110u8, 111u8, 116u8, 97u8, 116u8, 105u8, 111u8, 110u8, 115u8]
        && s != seq![82u8, 117u8, 110u8, 116u8, 105u8, 109u8, 101u8, 73u8, 110u8, 118u8, 105u8, 115u8, 105u8, 98u8, 108u8, 101u8, 80u8, 97u8, 114u8, 97u8, 109u8, 101u8, 116u8, 101u8, 114u8, 65u8, 110u8, 110u8, 111u8, 116u8, 97u8, 116u8, 105u8, 111u8, 110u8, 115u8]
        && s != seq![82u8, 117u8, 110u8, 116u8, 105u8, 109u8, 101u8, 73u8, 110u8, 118u8, 105u8, 115u8, 105u8, 98u8, 108u8, 101u8, 84u8, 121u8, 112u8, 101u8, 65u8, 110u8, 110u8, 111u8, 116u8, 97u8, 116u8, 105u8, 111u8, 110u8, 115u8]
        && s != seq![82u8, 117u8, 110u8, 116u8, 105u8, 109u8, 101u8, 86u8, 105u8, 115u8, 105u8, 98u8, 108u8, 101u8, 65u8, 110u8, 110u8, 111u8, 116u8, 97u8, 116u8, 105u8, 111u8, 110u8, 115u8]
        && s != seq![82u8, 117u8, 110u8, 116u8, 105u8, 109u8, 101u8, 86u8, 105u8, 115u8, 105u8, 98u8, 108u8, 101u8, 80u8, 97u8, 114u8, 97u8, 109u8, 101u8, 116u8, 101u8, 114u8, 65u8, 110u8, 110u8, 111u8, 116u8, 97u8, 116u8, 105u8, 111u8, 110u8, 115u8]
        && s != seq![82u8, 117u8, 110u8, 116u8, 105u8, 109u8, 101u8, 86u8, 105u8, 115u8, 105u8, 98u8, 108u8, 101u8, 84u8, 121u8, 112u8, 101u8, 65u8, 110u8, 110u8, 111u8, 116u8, 97u8, 116u8, 105u8, 111u8, 110u8, 115u8]
        && s != seq![83u8, 105u8, 103u8, 110u8, 97u8, 116u8, 117u8, 114u8, 101u8]
        && s != seq![83u8, 111u8, 117u8, 114u8, 99u8, 101u8, 68u8, 101u8, 98u8, 117u8, 103u8, 69u8, 120u8, 116u8, 101u8, 110u8, 115u8, 105u8, 111u8, 110u8]
        && s != seq![83u8, 111u8, 117u8, 114u8, 99u8, 101u8, 70u8, 105u8, 108u8, 101u8]
        && s != seq![83u8, 116u8, 97u8, 99u8, 107u8, 77u8, 97u8, 112u8, 84u8, 97u8, 98u8, 108u8, 101u8]
        && s != seq![83u8, 121u8, 110u8, 116u8, 104u8, 101u8, 116u8, 105u8, 99u8]
}

/// The name under which an attribute is written.
pub fn name_of(a: &Attribute) -> (r: Vec<u8>)
    ensures
        r@ == attribute_name(*a),
{
    match a {
        Attribute::AnnotationDefault(..) => vec![65u8, 110u8, 110u8, 111u8, 116u8, 97u8, 116u8, 105u8, 111u8, 110u8, 68u8, 101u8, 102u8, 97u8, 117u8, 108u8, 116u8],
        Attribute::BootstrapMethods(..) => vec![66u8, 111u8, 111u8, 116u8, 115u8, 116u8, 114u8, 97u8, 112u8, 77u8, 101u8, 116u8, 104u8, 111u8, 100u8, 115u8],
        Attribute::Code { .. } => vec![67u8, 111u8, 100u8, 101u8],
        Attribute::ConstantValue { .. } => vec![67u8, 111u8, 110u8, 115u8, 116u8, 97u8, 110u8, 116u8, 86u8, 97u8, 108u8, 117u8, 101u8],
        Attribute::Deprecated => vec![68u8, 101u8, 112u8, 114u8, 101u8, 99u8, 97u8, 116u8, 101u8, 100u8],
        Attribute::EnclosingMethod { .. } => vec![69u8, 110u8, 99u8, 108u8, 111u8, 115u8, 105u8, 110u8, 103u8, 77u8, 101u8, 116u8, 104u8, 111u8, 100u8],
        Attribute::Exceptions(..) => vec![69u8, 120u8, 99u8, 101u8, 112u8, 116u8, 105u8, 111u8, 110u8, 115u8],
        Attribute::InnerClasses(..) => vec![73u8, 110u8, 110u8, 101u8, 114u8, 67u8, 108u8, 97u8, 115u8, 115u8, 101u8, 115u8],
        Attribute::LineNumberTable(..) => vec![76u8, 105u8, 110u8, 101u8, 78u8, 117u8, 109u8, 98u8, 101u8, 114u8, 84u8, 97u8, 98u8, 108u8, 101u8],
        Attribute::LocalVariableTable(..) => vec![76u8, 111u8, 99u8, 97u8, 108u8, 86u8, 97u8, 114u8, 105u8, 97u8, 98u8, 108u8, 101u8, 84u8, 97u8, 98u8, 108u8, 101u8],
        Attribute::LocalVariableTypeTable(..) => vec![76u8, 111u8, 99u8, 97u8, 108u8, 86u8, 97u8, 114u8, 105u8, 97u8, 98u8, 108u8, 101u8, 84u8, 121u8, 112u8, 101u8, 84u8, 97u8, 98u8, 108u8, 101u8],
        Attribute::MethodParameters(..) => vec![77u8, 101u8, 116u8, 104u8, 111u8, 100u8, 80u8, 97u8, 114u8, 97u8, 109u8, 101u8, 116u8, 101u8, 114u8, 115u8],
        Attribute::Module { .. } => vec![77u8, 111u8, 100u8, 117u8, 108u8, 101u8],
        Attribute::ModuleMainClass(..) => vec![77u8, 111u8, 100u8, 117u8, 108u8, 101u8, 77u8, 97u8, 105u8, 110u8, 67u8, 108u8, 97u8, 115u8, 115u8],
        Attribute::ModulePackages(..) => vec![77u8, 111u8, 100u8, 117u8, 108u8, 101u8, 80u8, 97u8, 99u8, 107u8, 97u8, 103u8, 101u8, 115u8],
        Attribute::NestHost(..) => vec![78u8, 101u8, 115u8, 116u8, 72u8, 111u8, 115u8, 116u8],
        Attribute::NestMembers(..) => vec![78u8, 101u8, 115u8, 116u8, 77u8, 101u8, 109u8, 98u8, 101u8, 114u8, 115u8],
        Attribute::PermittedSubclasses(..) => vec![80u8, 101u8, 114u8, 109u8, 105u8, 116u8, 116u8, 101u8, 100u8, 83u8, 117u8, 98u8, 99u8, 108u8, 97u8, 115u8, 115u8, 101u8, 115u8],
        Attribute::Record(..) => vec![82u8, 101u8, 99u8, 111u8, 114u8, 100u8],
        Attribute::RuntimeInvisibleAnnotations(..) => vec![82u8, 117u8, 110u8, 116u8, 105u8, 109u8, 101u8, 73u8, 110u8, 118u8, 105u8, 115u8, 105u8, 98u8, 108u8, 101u8, 65u8, 110u8, 110u8, 111u8, 116u8, 97u8, 116u8, 105u8, 111u8, 110u8, 115u8],
        Attribute::RuntimeInvisibleParameterAnnotations(..) => vec![82u8, 117u8, 110u8, 116u8, 105u8, 109u8, 101u8, 73u8, 110u8, 118u8, 105u8, 115u8, 105u8, 98u8, 108u8, 101u8, 80u8, 97u8, 114u8, 97u8, 109u8, 101u8, 116u8, 101u8, 114u8, 65u8, 110u8, 110u8, 111u8, 116u8, 97u8, 116u8, 105u8, 111u8, 110u8, 115u8],
        Attribute::RuntimeInvisibleTypeAnnotations(..) => vec![82u8, 117u8, 110u8, 116u8, 105u8, 109u8, 101u8, 73u8, 110u8, 118u8, 105u8, 115u8, 105u8, 98u8, 108u8, 101u8, 84u8, 121u8, 112u8, 101u8, 65u8, 110u8, 110u8, 111u8, 116u8, 97u8, 116u8, 105u8, 111u8, 110u8, 115u8],
        Attribute::RuntimeVisibleAnnotations(..) => vec![82u8, 117u8, 110u8, 116u8, 105u8, 109u8, 101u8, 86u8, 105u8, 115u8, 105u8, 98u8, 108u8, 101u8, 65u8, 110u8, 110u8, 111u8, 116u8, 97u8, 116u8, 105u8, 111u8, 110u8, 115u8],
        Attribute::RuntimeVisibleParameterAnnotations(..) => vec![82u8, 117u8, 110u8, 116u8, 105u8, 109u8, 101u8, 86u8, 105u8, 115u8, 105u8, 98u8, 108u8, 101u8, 80u8, 97u8, 114u8, 97u8, 109u8, 101u8, 116u8, 101u8, 114u8, 65u8, 110u8, 110u8, 111u8, 116u8, 97u8, 116u8, 105u8, 111u8, 110u8, 115u8],
        Attribute::RuntimeVisibleTypeAnnotations(..) => vec![82u8, 117u8, 110u8, 116u8, 105u8, 109u8, 101u8, 86u8, 105u8, 115u8, 105u8, 98u8, 108u8, 101u8, 84u8, 121u8, 112u8, 101u8, 65u8, 110u8, 110u8, 111u8, 116u8, 97u8, 116u8, 105u8, 111u8, 110u8, 115u8],
        Attribute::Signature { .. } => vec![83u8, 105u8, 103u8, 110u8, 97u8, 116u8, 117u8, 114u8, 101u8],
        Attribute::SourceDebugExtension { .. } => vec![83u8, 111u8, 117u8, 114u8, 99u8, 101u8, 68u8, 101u8, 98u8, 117u8, 103u8, 69u8, 120u8, 116u8, 101u8, 110u8, 115u8, 105u8, 111u8, 110u8],
        Attribute::SourceFile { .. } => vec![83u8, 111u8, 117u8, 114u8, 99u8, 101u8, 70u8, 105u8, 108u8, 101u8],
        Attribute::StackMapTable(..) => vec![83u8, 116u8, 97u8, 99u8, 107u8, 77u8, 97u8, 112u8, 84u8, 97u8, 98u8, 108u8, 101u8],
        Attribute::Synthetic => vec![83u8, 121u8, 110u8, 116u8, 104u8, 101u8, 116u8, 105u8, 99u8],
        Attribute::Unknown { name, .. } => copy_bytes(name.as_slice()),
    }
}

/// The payload of an attribute: what follows its name index and length.
pub open spec fn ser_payload(pool: Seq<Constant>, a: Attribute) -> Seq<u8>
    decreases a, 0int,
{
    match a {
        Attribute::AnnotationDefault(v) => ser_element_value(v),
        Attribute::BootstrapMethods(v) => be_u16(#[verifier::truncate] (v@.len() as u16)) + ser_bootstrap_method_list(v@),
        Attribute::Code { code, max_stack, max_locals, exception_table, attributes } => be_u16(max_stack) + be_u16(max_locals) + ser_code_block(code@) + be_u16(#[verifier::truncate] (exception_table@.len() as u16)) + ser_exception_table_entry_list(exception_table@) + be_u16(#[verifier::truncate] (attributes@.len() as u16)) + ser_attribute_list(pool, attributes@),
        Attribute::ConstantValue { constantvalue_index } => be_u16(constantvalue_index),
        Attribute::Deprecated => Seq::empty(),
        Attribute::EnclosingMethod { class_index, method_index } => be_u16(class_index) + be_u16(method_index),
        Attribute::Exceptions(v) => be_u16(#[verifier::truncate] (v@.len() as u16)) + ser_u16s(v@),
        Attribute::InnerClasses(v) => be_u16(#[verifier::truncate] (v@.len() as u16)) + ser_inner_class_list(v@),
        Attribute::LineNumberTable(v) => be_u16(#[verifier::truncate] (v@.len() as u16)) + ser_line_number_list(v@),
        Attribute::LocalVariableTable(v) => be_u16(#[verifier::truncate] (v@.len() as u16)) + ser_local_variable_list(v@),
        Attribute::LocalVariableTypeTable(v) => be_u16(#[verifier::truncate] (v@.len() as u16)) + ser_local_variable_type_list(v@),
        Attribute::MethodParameters(v) => seq![#[verifier::truncate] (v@.len() as u8)] + ser_method_parameter_list(v@),
        Attribute::Module { module_name_index, module_flags, module_version_index, module_requires, exports, opens, uses, provides } => be_u16(module_name_index) + be_u16(pack(FlagContext::Module, module_flags@)) + be_u16(module_version_index) + be_u16(#[verifier::truncate] (module_requires@.len() as u16)) + ser_module_requires_list(module_requires@) + be_u16(#[verifier::truncate] (exports@.len() as u16)) + ser_module_exports_list(exports@) + be_u16(#[verifier::truncate] (opens@.len() as u16)) + ser_module_opens_list(opens@) + be_u16(#[verifier::truncate] (uses@.len() as u16)) + ser_u16s(uses@) + be_u16(#[verifier::truncate] (provides@.len() as u16)) + ser_module_provides_list(provides@),
        Attribute::ModuleMainClass(v) => be_u16(v),
        Attribute::ModulePackages(v) => be_u16(#[verifier::truncate] (v@.len() as u16)) + ser_u16s(v@),
        Attribute::NestHost(v) => be_u16(v),
        Attribute::NestMembers(v) => be_u16(#[verifier::truncate] (v@.len() as u16)) + ser_u16s(v@),
        Attribute::PermittedSubclasses(v) => be_u16(#[verifier::truncate] (v@.len() as u16)) + ser_u16s(v@),
        Attribute::Record(components) => be_u16(#[verifier::truncate] (components@.len() as u16)) + ser_record_components(pool, components@),
        Attribute::RuntimeInvisibleAnnotations(v) => be_u16(#[verifier::truncate] (v@.len() as u16)) + ser_annotation_list(v@),
        Attribute::RuntimeInvisibleParameterAnnotations(v) => seq![#[verifier::truncate] (v@.len() as u8)] + ser_parameter_annotations_list(v@),
        Attribute::RuntimeInvisibleTypeAnnotations(v) => be_u16(#[verifier::truncate] (v@.len() as u16)) + ser_type_annotation_list(v@),
        Attribute::RuntimeVisibleAnnotations(v) => be_u16(#[verifier::truncate] (v@.len() as u16)) + ser_annotation_list(v@),
        Attribute::RuntimeVisibleParameterAnnotations(v) => seq![#[verifier::truncate] (v@.len() as u8)] + ser_parameter_annotations_list(v@),
        Attribute::RuntimeVisibleTypeAnnotations(v) => be_u16(#[verifier::truncate] (v@.len() as u16)) + ser_type_annotation_list(v@),
        Attribute::Signature { signature_index } => be_u16(signature_index),
        Attribute::SourceDebugExtension { debug_extension } => debug_extension@,
        Attribute::SourceFile { sourcefile_index } => be_u16(sourcefile_index),
        Attribute::StackMapTable(v) => be_u16(#[verifier::truncate] (v@.len() as u16)) + ser_stack_map_frame_list(v@),
        Attribute::Synthetic => Seq::empty(),
        Attribute::Unknown { name, data } => data@,
    }
}

/// The bytes of an attribute: the index of its name in the pool, the length
/// of its payload, the payload.
pub open spec fn ser_attribute(pool: Seq<Constant>, a: Attribute) -> Seq<u8>
    decreases a, 1int,
{
    be_u16(#[verifier::truncate] (first_utf8(pool, attribute_name(a)) as u16))
        + be_u32(#[verifier::truncate] (ser_payload(pool, a).len() as u32)) + ser_payload(pool, a)
}

/// The bytes of each attribute, in order.
pub open spec fn ser_attribute_list(pool: Seq<Constant>, s: Seq<Attribute>) -> Seq<u8>
    decreases s, 0int,
{
    if s.len() == 0 {
        Seq::empty()
    } else {
        ser_attribute_list(pool, s.subrange(0, s.len() - 1)) + ser_attribute(pool, s[s.len() - 1])
    }
}

/// The bytes of an attribute table: its count, then each attribute.
pub open spec fn ser_attributes(pool: Seq<Constant>, s: Seq<Attribute>) -> Seq<u8> {
    be_u16(#[verifier::truncate] (s.len() as u16)) + ser_attribute_list(pool, s)
}

/// The bytes of each record component: name, descriptor, attributes.
pub open spec fn ser_record_components(pool: Seq<Constant>, s: Seq<RecordComponent>) -> Seq<u8>
    decreases s, 0int,
{
    if s.len() == 0 {
        Seq::empty()
    } else {
        let c = s[s.len() - 1];
        ser_record_components(pool, s.subrange(0, s.len() - 1)) + be_u16(c.name_index) + be_u16(c.descriptor_index)
            + be_u16(#[verifier::truncate] (c.attributes@.len() as u16)) + ser_attribute_list(pool, c.attributes@)
    }
}

/// The payload can be written: its code has an encoding and every nested
/// attribute can be written.
pub open spec fn payload_writable(pool: Seq<Constant>, a: Attribute) -> bool
    decreases a, 0int,
{
    match a {
        Attribute::Code { code, attributes, .. } => {
            &&& forall|k: int| 0 <= k < code@.len() ==> encodable(#[trigger] code@[k])
            &&& ser_code(code@).len() <= u32::MAX
            &&& attributes_writable(pool, attributes@)
        },
        Attribute::Record(components) => components_writable(pool, components@),
        _ => true,
    }
}

/// The attribute can be written: its name is in the pool, its payload can be
/// written and its length fits 32 bits.
pub open spec fn attribute_writable(pool: Seq<Constant>, a: Attribute) -> bool
    decreases a, 1int,
{
    &&& has_utf8(pool, attribute_name(a))
    &&& payload_writable(pool, a)
    &&& ser_payload(pool, a).len() <= u32::MAX
}

/// Every attribute of the list can be written.
pub open spec fn attributes_writable(pool: Seq<Constant>, s: Seq<Attribute>) -> bool
    decreases s, 0int,
{
    s.len() == 0 || (attributes_writable(pool, s.subrange(0, s.len() - 1)) && attribute_writable(pool, s[s.len() - 1]))
}

/// Every attribute of every component can be written.
pub open spec fn components_writable(pool: Seq<Constant>, s: Seq<RecordComponent>) -> bool
    decreases s, 0int,
{
    s.len() == 0 || (components_writable(pool, s.subrange(0, s.len() - 1)) && attributes_writable(
        pool,
        s[s.len() - 1].attributes@,
    ))
}

/// The payload is one that decoding gives back from its bytes, with `depth`
/// levels of attribute nesting to spare: flag sets that words unpack to,
/// counts that fit, parts that decode, a name no variant has for `Unknown`.
pub open spec fn readable_payload(pool: Seq<Constant>, a: Attribute, depth: nat) -> bool
    decreases a, 0int,
{
    match a {
        Attribute::AnnotationDefault(v) => (wf_element_value(v, MAX_NESTING as nat)),
        Attribute::BootstrapMethods(v) => (v@.len() <= 0xFFFF) && (forall|i: int| 0 <= i < v@.len() ==> wf_bootstrap_method(#[trigger] v@[i])),
        Attribute::Code { code, max_stack, max_locals, exception_table, attributes } => (forall|i: int| 0 <= i < code@.len() ==> decodable_at(#[trigger] code@[i], pc_of(code@, i))) && (ser_code(code@).len() <= u32::MAX) && (exception_table@.len() <= 0xFFFF) && (forall|i: int| 0 <= i < exception_table@.len() ==> wf_exception_table_entry(#[trigger] exception_table@[i])) && (depth > 0) && (attributes@.len() <= 0xFFFF) && (readable_list(pool, attributes@, (depth - 1) as nat)),
        Attribute::ConstantValue { constantvalue_index } => true,
        Attribute::Deprecated => true,
        Attribute::EnclosingMethod { class_index, method_index } => true,
        Attribute::Exceptions(v) => (v@.len() <= 0xFFFF),
        Attribute::InnerClasses(v) => (v@.len() <= 0xFFFF) && (forall|i: int| 0 <= i < v@.len() ==> wf_inner_class(#[trigger] v@[i])),
        Attribute::LineNumberTable(v) => (v@.len() <= 0xFFFF) && (forall|i: int| 0 <= i < v@.len() ==> wf_line_number(#[trigger] v@[i])),
        Attribute::LocalVariableTable(v) => (v@.len() <= 0xFFFF) && (forall|i: int| 0 <= i < v@.len() ==> wf_local_variable(#[trigger] v@[i])),
        Attribute::LocalVariableTypeTable(v) => (v@.len() <= 0xFFFF) && (forall|i: int| 0 <= i < v@.len() ==> wf_local_variable_type(#[trigger] v@[i])),
        Attribute::MethodParameters(v) => (v@.len() <= 0xFF) && (forall|i: int| 0 <= i < v@.len() ==> wf_method_parameter(#[trigger] v@[i])),
        Attribute::Module { module_name_index, module_flags, module_version_index, module_requires, exports, opens, uses, provides } => (unpack(FlagContext::Module, pack(FlagContext::Module, module_flags@)) == module_flags@) && (module_requires@.len() <= 0xFFFF) && (forall|i: int| 0 <= i < module_requires@.len() ==> wf_module_requires(#[trigger] module_requires@[i])) && (exports@.len() <= 0xFFFF) && (forall|i: int| 0 <= i < exports@.len() ==> wf_module_exports(#[trigger] exports@[i])) && (opens@.len() <= 0xFFFF) && (forall|i: int| 0 <= i < opens@.len() ==> wf_module_opens(#[trigger] opens@[i])) && (uses@.len() <= 0xFFFF) && (provides@.len() <= 0xFFFF) && (forall|i: int| 0 <= i < provides@.len() ==> wf_module_provides(#[trigger] provides@[i])),
        Attribute::ModuleMainClass(v) => true,
        Attribute::ModulePackages(v) => (v@.len() <= 0xFFFF),
        Attribute::NestHost(v) => true,
        Attribute::NestMembers(v) => (v@.len() <= 0xFFFF),
        Attribute::PermittedSubclasses(v) => (v@.len() <= 0xFFFF),
        Attribute::Record(components) => (depth > 0) && (components@.len() <= 0xFFFF) && (readable_components(pool, components@, (depth - 1) as nat)),
        Attribute::RuntimeInvisibleAnnotations(v) => (v@.len() <= 0xFFFF) && (forall|i: int| 0 <= i < v@.len() ==> wf_annotation(#[trigger] v@[i])),
        Attribute::RuntimeInvisibleParameterAnnotations(v) => (v@.len() <= 0xFF) && (forall|i: int| 0 <= i < v@.len() ==> wf_parameter_annotations(#[trigger] v@[i])),
        Attribute::RuntimeInvisibleTypeAnnotations(v) => (v@.len() <= 0xFFFF) && (forall|i: int| 0 <= i < v@.len() ==> wf_type_annotation(#[trigger] v@[i])),
        Attribute::RuntimeVisibleAnnotations(v) => (v@.len() <= 0xFFFF) && (forall|i: int| 0 <= i < v@.len() ==> wf_annotation(#[trigger] v@[i])),
        Attribute::RuntimeVisibleParameterAnnotations(v) => (v@.len() <= 0xFF) && (forall|i: int| 0 <= i < v@.len() ==> wf_parameter_annotations(#[trigger] v@[i])),
        Attribute::RuntimeVisibleTypeAnnotations(v) => (v@.len() <= 0xFFFF) && (forall|i: int| 0 <= i < v@.len() ==> wf_type_annotation(#[trigger] v@[i])),
        Attribute::Signature { signature_index } => true,
        Attribute::SourceDebugExtension { debug_extension } => true,
        Attribute::SourceFile { sourcefile_index } => true,
        Attribute::StackMapTable(v) => (v@.len() <= 0xFFFF) && (forall|i: int| 0 <= i < v@.len() ==> wf_stack_map_frame(#[trigger] v@[i])),
        Attribute::Synthetic => true,
        Attribute::Unknown { name, data } => (unknown_name(name@)),
    }
}

/// The attribute is read back from its bytes: its name is in the pool, its
/// payload's length fits 32 bits and the payload is readable.
pub open spec fn readable_attribute(pool: Seq<Constant>, a: Attribute, depth: nat) -> bool
    decreases a, 1int,
{
    &&& has_utf8(pool, attribute_name(a))
    &&& ser_payload(pool, a).len() <= u32::MAX
    &&& readable_payload(pool, a, depth)
}

/// Every attribute of the list is read back from its bytes.
pub open spec fn readable_list(pool: Seq<Constant>, s: Seq<Attribute>, depth: nat) -> bool
    decreases s, 0int,
{
    s.len() == 0 || (readable_list(pool, s.subrange(0, s.len() - 1), depth) && readable_attribute(pool, s[s.len() - 1], depth))
}

/// Every component is read back from its bytes.
pub open spec fn readable_components(pool: Seq<Constant>, s: Seq<RecordComponent>, depth: nat) -> bool
    decreases s, 0int,
{
    s.len() == 0 || (readable_components(pool, s.subrange(0, s.len() - 1), depth) && s[s.len() - 1].attributes@.len()
        <= 0xFFFF && readable_list(pool, s[s.len() - 1].attributes@, depth))
}

/// The pools have the same length and name every string at the same index.
pub open spec fn same_names(at1: Seq<Constant>, at2: Seq<Constant>) -> bool {
    &&& at1.len() == at2.len()
    &&& forall|n: Seq<u8>| #[trigger] first_utf8(at1, n) == first_utf8(at2, n)
}

/// A payload's bytes and readability depend on the pool only through the
/// indices of names.
pub proof fn lemma_payload_pools(at1: Seq<Constant>, at2: Seq<Constant>, a: Attribute, d: nat)
    requires
        same_names(at1, at2),
    ensures
        ser_payload(at1, a) == ser_payload(at2, a),
        readable_payload(at1, a, d) == readable_payload(at2, a, d),
    decreases a, 0int,
{
    let e: nat = if d > 0 { (d - 1) as nat } else { 0 };
    match a {
        Attribute::Code { attributes, .. } => lemma_list_pools(at1, at2, attributes@, e),
        Attribute::Record(cs) => lemma_components_pools(at1, at2, cs@, e),
        _ => {},
    }
}

/// An attribute's bytes and readability depend on the pool only through the
/// indices of names.
pub proof fn lemma_attribute_pools(at1: Seq<Constant>, at2: Seq<Constant>, a: Attribute, d: nat)
    requires
        same_names(at1, at2),
    ensures
        ser_attribute(at1, a) == ser_attribute(at2, a),
        readable_attribute(at1, a, d) == readable_attribute(at2, a, d),
    decreases a, 1int,
{
    lemma_payload_pools(at1, at2, a, d);
    assert(first_utf8(at1, attribute_name(a)) == first_utf8(at2, attribute_name(a)));
}

/// A list's bytes and readability depend on the pool only through the
/// indices of names.
pub proof fn lemma_list_pools(at1: Seq<Constant>, at2: Seq<Constant>, s: Seq<Attribute>, d: nat)
    requires
        same_names(at1, at2),
    ensures
        ser_attribute_list(at1, s) == ser_attribute_list(at2, s),
        readable_list(at1, s, d) == readable_list(at2, s, d),
    decreases s, 0int,
{
    if s.len() > 0 {
        lemma_list_pools(at1, at2, s.subrange(0, s.len() - 1), d);
        lemma_attribute_pools(at1, at2, s[s.len() - 1], d);
    }
}

/// The components' bytes and readability depend on the pool only through
/// the indices of names.
pub proof fn lemma_components_pools(at1: Seq<Constant>, at2: Seq<Constant>, s: Seq<RecordComponent>, d: nat)
    requires
        same_names(at1, at2),
    ensures
        ser_record_components(at1, s) == ser_record_components(at2, s),
        readable_components(at1, s, d) == readable_components(at2, s, d),
    decreases s, 0int,
{
    if s.len() > 0 {
        lemma_components_pools(at1, at2, s.subrange(0, s.len() - 1), d);
        lemma_list_pools(at1, at2, s[s.len() - 1].attributes@, d);
    }
}

proof fn lemma_readable_list_at(pool: Seq<Constant>, s: Seq<Attribute>, k: int, depth: nat)
    requires
        readable_list(pool, s, depth),
        0 <= k < s.len(),
    ensures
        readable_attribute(pool, s[k], depth),
    decreases s.len(),
{
    if k < s.len() - 1 {
        let init = s.subrange(0, s.len() - 1);
        assert(init[k] == s[k]);
        lemma_readable_list_at(pool, init, k, depth);
    }
}

proof fn lemma_readable_components_at(pool: Seq<Constant>, s: Seq<RecordComponent>, k: int, depth: nat)
    requires
        readable_components(pool, s, depth),
        0 <= k < s.len(),
    ensures
        s[k].attributes@.len() <= 0xFFFF,
        readable_list(pool, s[k].attributes@, depth),
    decreases s.len(),
{
    if k < s.len() - 1 {
        let init = s.subrange(0, s.len() - 1);
        assert(init[k] == s[k]);
        lemma_readable_components_at(pool, init, k, depth);
    }
}

proof fn lemma_attribute_list_concat(pool: Seq<Constant>, a: Seq<Attribute>, b: Seq<Attribute>)
    ensures
        ser_attribute_list(pool, a + b) == ser_attribute_list(pool, a) + ser_attribute_list(pool, b),
    decreases b.len(),
{
    if b.len() == 0 {
        assert(a + b =~= a);
        assert(ser_attribute_list(pool, a) + ser_attribute_list(pool, b) =~= ser_attribute_list(pool, a));
    } else {
        lemma_attribute_list_concat(pool, a, b.subrange(0, b.len() - 1));
        assert((a + b).subrange(0, (a + b).len() - 1) =~= a + b.subrange(0, b.len() - 1));
    }
}

proof fn lemma_components_concat(pool: Seq<Constant>, a: Seq<RecordComponent>, b: Seq<RecordComponent>)
    ensures
        ser_record_components(pool, a + b) == ser_record_components(pool, a) + ser_record_components(pool, b),
    decreases b.len(),
{
    if b.len() == 0 {
        assert(a + b =~= a);
        assert(ser_record_components(pool, a) + ser_record_components(pool, b) =~= ser_record_components(pool, a));
    } else {
        lemma_components_concat(pool, a, b.subrange(0, b.len() - 1));
        assert((a + b).subrange(0, (a + b).len() - 1) =~= a + b.subrange(0, b.len() - 1));
    }
}

proof fn lemma_attribute_list_step(data: Seq<u8>, pos: int, pool: Seq<Constant>, s: Seq<Attribute>, k: int)
    requires
        starts_at(data, pos, ser_attribute_list(pool, s)),
        0 <= k < s.len(),
    ensures
        starts_at(data, pos + ser_attribute_list(pool, s.take(k)).len(), ser_attribute(pool, s[k])),
        ser_attribute_list(pool, s.take(k + 1)) == ser_attribute_list(pool, s.take(k)) + ser_attribute(pool, s[k]),
{
    lemma_attribute_list_concat(pool, s.take(k + 1), s.skip(k + 1));
    assert(s.take(k + 1) + s.skip(k + 1) =~= s);
    lemma_attribute_list_push(pool, s.take(k), s[k]);
    assert(s.take(k + 1) =~= s.take(k).push(s[k]));
    lemma_starts_concat(data, pos, ser_attribute_list(pool, s.take(k + 1)), ser_attribute_list(pool, s.skip(k + 1)));
    lemma_starts_concat(data, pos, ser_attribute_list(pool, s.take(k)), ser_attribute(pool, s[k]));
}

proof fn lemma_components_step(data: Seq<u8>, pos: int, pool: Seq<Constant>, s: Seq<RecordComponent>, k: int)
    requires
        starts_at(data, pos, ser_record_components(pool, s)),
        0 <= k < s.len(),
    ensures
        starts_at(data, pos + ser_record_components(pool, s.take(k)).len(), be_u16(s[k].name_index)),
        starts_at(data, pos + ser_record_components(pool, s.take(k)).len() + 2, be_u16(s[k].descriptor_index)),
        starts_at(data, pos + ser_record_components(pool, s.take(k)).len() + 4, be_u16(#[verifier::truncate] (s[k].attributes@.len() as u16))),
        starts_at(data, pos + ser_record_components(pool, s.take(k)).len() + 6, ser_attribute_list(pool, s[k].attributes@)),
        ser_record_components(pool, s.take(k + 1)) == ser_record_components(pool, s.take(k)) + be_u16(s[k].name_index)
            + be_u16(s[k].descriptor_index) + be_u16(#[verifier::truncate] (s[k].attributes@.len() as u16))
            + ser_attribute_list(pool, s[k].attributes@),
{
    let c = s[k];
    let a = ser_record_components(pool, s.take(k));
    let b1 = be_u16(c.name_index);
    let b2 = be_u16(c.descriptor_index);
    let b3 = be_u16(#[verifier::truncate] (c.attributes@.len() as u16));
    let b4 = ser_attribute_list(pool, c.attributes@);
    lemma_components_concat(pool, s.take(k + 1), s.skip(k + 1));
    assert(s.take(k + 1) + s.skip(k + 1) =~= s);
    lemma_components_push(pool, s.take(k), s[k]);
    assert(s.take(k + 1) =~= s.take(k).push(s[k]));
    lemma_starts_concat(data, pos, ser_record_components(pool, s.take(k + 1)), ser_record_components(pool, s.skip(k + 1)));
    lemma_starts_concat(data, pos, a + b1 + b2 + b3, b4);
    lemma_starts_concat(data, pos, a + b1 + b2, b3);
    lemma_starts_concat(data, pos, a + b1, b2);
    lemma_starts_concat(data, pos, a, b1);
}

proof fn lemma_annotation_default_pieces(data: Seq<u8>, pos: int, pool: Seq<Constant>, t: Attribute)
    requires
        t is AnnotationDefault,
        starts_at(data, pos, ser_payload(pool, t)),
    ensures
        starts_at(data, pos + 0, ser_element_value(t->AnnotationDefault_0)),
{
    assert(ser_payload(pool, t) =~= ser_element_value(t->AnnotationDefault_0));
}

proof fn lemma_bootstrap_methods_pieces(data: Seq<u8>, pos: int, pool: Seq<Constant>, t: Attribute)
    requires
        t is BootstrapMethods,
        starts_at(data, pos, ser_payload(pool, t)),
    ensures
        starts_at(data, pos + 0, be_u16(#[verifier::truncate] (t->BootstrapMethods_0@.len() as u16))),
        starts_at(data, pos + (be_u16(#[verifier::truncate] (t->BootstrapMethods_0@.len() as u16))).len(), ser_bootstrap_method_list(t->BootstrapMethods_0@)),
{
    assert(ser_payload(pool, t) =~= be_u16(#[verifier::truncate] (t->BootstrapMethods_0@.len() as u16)) + ser_bootstrap_method_list(t->BootstrapMethods_0@));
    lemma_starts_concat(data, pos, be_u16(#[verifier::truncate] (t->BootstrapMethods_0@.len() as u16)), ser_bootstrap_method_list(t->BootstrapMethods_0@));
}

proof fn lemma_code_pieces(data: Seq<u8>, pos: int, pool: Seq<Constant>, t: Attribute)
    requires
        t is Code,
        starts_at(data, pos, ser_payload(pool, t)),
    ensures
        starts_at(data, pos + 0, be_u16(t->Code_max_stack)),
        starts_at(data, pos + (be_u16(t->Code_max_stack)).len(), be_u16(t->Code_max_locals)),
        starts_at(data, pos + (be_u16(t->Code_max_stack)).len() + (be_u16(t->Code_max_locals)).len(), ser_code_block(t->Code_code@)),
        starts_at(data, pos + (be_u16(t->Code_max_stack)).len() + (be_u16(t->Code_max_locals)).len() + (ser_code_block(t->Code_code@)).len(), be_u16(#[verifier::truncate] (t->Code_exception_table@.len() as u16))),
        starts_at(data, pos + (be_u16(t->Code_max_stack)).len() + (be_u16(t->Code_max_locals)).len() + (ser_code_block(t->Code_code@)).len() + (be_u16(#[verifier::truncate] (t->Code_exception_table@.len() as u16))).len(), ser_exception_table_entry_list(t->Code_exception_table@)),
        starts_at(data, pos + (be_u16(t->Code_max_stack)).len() + (be_u16(t->Code_max_locals)).len() + (ser_code_block(t->Code_code@)).len() + (be_u16(#[verifier::truncate] (t->Code_exception_table@.len() as u16))).len() + (ser_exception_table_entry_list(t->Code_exception_table@)).len(), be_u16(#[verifier::truncate] (t->Code_attributes@.len() as u16))),
        starts_at(data, pos + (be_u16(t->Code_max_stack)).len() + (be_u16(t->Code_max_locals)).len() + (ser_code_block(t->Code_code@)).len() + (be_u16(#[verifier::truncate] (t->Code_exception_table@.len() as u16))).len() + (ser_exception_table_entry_list(t->Code_exception_table@)).len() + (be_u16(#[verifier::truncate] (t->Code_attributes@.len() as u16))).len(), ser_attribute_list(pool, t->Code_attributes@)),
{
    assert(ser_payload(pool, t) =~= be_u16(t->Code_max_stack) + be_u16(t->Code_max_locals) + ser_code_block(t->Code_code@) + be_u16(#[verifier::truncate] (t->Code_exception_table@.len() as u16)) + ser_exception_table_entry_list(t->Code_exception_table@) + be_u16(#[verifier::truncate] (t->Code_attributes@.len() as u16)) + ser_attribute_list(pool, t->Code_attributes@));
    lemma_starts_concat(data, pos, be_u16(t->Code_max_stack) + be_u16(t->Code_max_locals) + ser_code_block(t->Code_code@) + be_u16(#[verifier::truncate] (t->Code_exception_table@.len() as u16)) + ser_exception_table_entry_list(t->Code_exception_table@) + be_u16(#[verifier::truncate] (t->Code_attributes@.len() as u16)), ser_attribute_list(pool, t->Code_attributes@));
    lemma_starts_concat(data, pos, be_u16(t->Code_max_stack) + be_u16(t->Code_max_locals) + ser_code_block(t->Code_code@) + be_u16(#[verifier::truncate] (t->Code_exception_table@.len() as u16)) + ser_exception_table_entry_list(t->Code_exception_table@), be_u16(#[verifier::truncate] (t->Code_attributes@.len() as u16)));
    lemma_starts_concat(data, pos, be_u16(t->Code_max_stack) + be_u16(t->Code_max_locals) + ser_code_block(t->Code_code@) + be_u16(#[verifier::truncate] (t->Code_exception_table@.len() as u16)), ser_exception_table_entry_list(t->Code_exception_table@));
    lemma_starts_concat(data, pos, be_u16(t->Code_max_stack) + be_u16(t->Code_max_locals) + ser_code_block(t->Code_code@), be_u16(#[verifier::truncate] (t->Code_exception_table@.len() as u16)));
    lemma_starts_concat(data, pos, be_u16(t->Code_max_stack) + be_u16(t->Code_max_locals), ser_code_block(t->Code_code@));
    lemma_starts_concat(data, pos, be_u16(t->Code_max_stack), be_u16(t->Code_max_locals));
}

proof fn lemma_constant_value_pieces(data: Seq<u8>, pos: int, pool: Seq<Constant>, t: Attribute)
    requires
        t is ConstantValue,
        starts_at(data, pos, ser_payload(pool, t)),
    ensures
        starts_at(data, pos + 0, be_u16(t->ConstantValue_constantvalue_index)),
{
    assert(ser_payload(pool, t) =~= be_u16(t->ConstantValue_constantvalue_index));
}


proof fn lemma_enclosing_method_pieces(data: Seq<u8>, pos: int, pool: Seq<Constant>, t: Attribute)
    requires
        t is EnclosingMethod,
        starts_at(data, pos, ser_payload(pool, t)),
    ensures
        starts_at(data, pos + 0, be_u16(t->EnclosingMethod_class_index)),
        starts_at(data, pos + (be_u16(t->EnclosingMethod_class_index)).len(), be_u16(t->EnclosingMethod_method_index)),
{
    assert(ser_payload(pool, t) =~= be_u16(t->EnclosingMethod_class_index) + be_u16(t->EnclosingMethod_method_index));
    lemma_starts_concat(data, pos, be_u16(t->EnclosingMethod_class_index), be_u16(t->EnclosingMethod_method_index));
}

proof fn lemma_exceptions_pieces(data: Seq<u8>, pos: int, pool: Seq<Constant>, t: Attribute)
    requires
        t is Exceptions,
        starts_at(data, pos, ser_payload(pool, t)),
    ensures
        starts_at(data, pos + 0, be_u16(#[verifier::truncate] (t->Exceptions_0@.len() as u16))),
        starts_at(data, pos + (be_u16(#[verifier::truncate] (t->Exceptions_0@.len() as u16))).len(), ser_u16s(t->Exceptions_0@)),
{
    assert(ser_payload(pool, t) =~= be_u16(#[verifier::truncate] (t->Exceptions_0@.len() as u16)) + ser_u16s(t->Exceptions_0@));
    lemma_starts_concat(data, pos, be_u16(#[verifier::truncate] (t->Exceptions_0@.len() as u16)), ser_u16s(t->Exceptions_0@));
}

proof fn lemma_inner_classes_pieces(data: Seq<u8>, pos: int, pool: Seq<Constant>, t: Attribute)
    requires
        t is InnerClasses,
        starts_at(data, pos, ser_payload(pool, t)),
    ensures
        starts_at(data, pos + 0, be_u16(#[verifier::truncate] (t->InnerClasses_0@.len() as u16))),
        starts_at(data, pos + (be_u16(#[verifier::truncate] (t->InnerClasses_0@.len() as u16))).len(), ser_inner_class_list(t->InnerClasses_0@)),
{
    assert(ser_payload(pool, t) =~= be_u16(#[verifier::truncate] (t->InnerClasses_0@.len() as u16)) + ser_inner_class_list(t->InnerClasses_0@));
    lemma_starts_concat(data, pos, be_u16(#[verifier::truncate] (t->InnerClasses_0@.len() as u16)), ser_inner_class_list(t->InnerClasses_0@));
}

proof fn lemma_line_number_table_pieces(data: Seq<u8>, pos: int, pool: Seq<Constant>, t: Attribute)
    requires
        t is LineNumberTable,
        starts_at(data, pos, ser_payload(pool, t)),
    ensures
        starts_at(data, pos + 0, be_u16(#[verifier::truncate] (t->LineNumberTable_0@.len() as u16))),
        starts_at(data, pos + (be_u16(#[verifier::truncate] (t->LineNumberTable_0@.len() as u16))).len(), ser_line_number_list(t->LineNumberTable_0@)),
{
    assert(ser_payload(pool, t) =~= be_u16(#[verifier::truncate] (t->LineNumberTable_0@.len() as u16)) + ser_line_number_list(t->LineNumberTable_0@));
    lemma_starts_concat(data, pos, be_u16(#[verifier::truncate] (t->LineNumberTable_0@.len() as u16)), ser_line_number_list(t->LineNumberTable_0@));
}

proof fn lemma_local_variable_table_pieces(data: Seq<u8>, pos: int, pool: Seq<Constant>, t: Attribute)
    requires
        t is LocalVariableTable,
        starts_at(data, pos, ser_payload(pool, t)),
    ensures
        starts_at(data, pos + 0, be_u16(#[verifier::truncate] (t->LocalVariableTable_0@.len() as u16))),
        starts_at(data, pos + (be_u16(#[verifier::truncate] (t->LocalVariableTable_0@.len() as u16))).len(), ser_local_variable_list(t->LocalVariableTable_0@)),
{
    assert(ser_payload(pool, t) =~= be_u16(#[verifier::truncate] (t->LocalVariableTable_0@.len() as u16)) + ser_local_variable_list(t->LocalVariableTable_0@));
    lemma_starts_concat(data, pos, be_u16(#[verifier::truncate] (t->LocalVariableTable_0@.len() as u16)), ser_local_variable_list(t->LocalVariableTable_0@));
}

proof fn lemma_local_variable_type_table_pieces(data: Seq<u8>, pos: int, pool: Seq<Constant>, t: Attribute)
    requires
        t is LocalVariableTypeTable,
        starts_at(data, pos, ser_payload(pool, t)),
    ensures
        starts_at(data, pos + 0, be_u16(#[verifier::truncate] (t->LocalVariableTypeTable_0@.len() as u16))),
        starts_at(data, pos + (be_u16(#[verifier::truncate] (t->LocalVariableTypeTable_0@.len() as u16))).len(), ser_local_variable_type_list(t->LocalVariableTypeTable_0@)),
{
    assert(ser_payload(pool, t) =~= be_u16(#[verifier::truncate] (t->LocalVariableTypeTable_0@.len() as u16)) + ser_local_variable_type_list(t->LocalVariableTypeTable_0@));
    lemma_starts_concat(data, pos, be_u16(#[verifier::truncate] (t->LocalVariableTypeTable_0@.len() as u16)), ser_local_variable_type_list(t->LocalVariableTypeTable_0@));
}

proof fn lemma_method_parameters_pieces(data: Seq<u8>, pos: int, pool: Seq<Constant>, t: Attribute)
    requires
        t is MethodParameters,
        starts_at(data, pos, ser_payload(pool, t)),
    ensures
        starts_at(data, pos + 0, seq![#[verifier::truncate] (t->MethodParameters_0@.len() as u8)]),
        starts_at(data, pos + (seq![#[verifier::truncate] (t->MethodParameters_0@.len() as u8)]).len(), ser_method_parameter_list(t->MethodParameters_0@)),
{
    assert(ser_payload(pool, t) =~= seq![#[verifier::truncate] (t->MethodParameters_0@.len() as u8)] + ser_method_parameter_list(t->MethodParameters_0@));
    lemma_starts_concat(data, pos, seq![#[verifier::truncate] (t->MethodParameters_0@.len() as u8)], ser_method_parameter_list(t->MethodParameters_0@));
}

proof fn lemma_module_pieces(data: Seq<u8>, pos: int, pool: Seq<Constant>, t: Attribute)
    requires
        t is Module,
        starts_at(data, pos, ser_payload(pool, t)),
    ensures
        starts_at(data, pos + 0, be_u16(t->Module_module_name_index)),
        starts_at(data, pos + (be_u16(t->Module_module_name_index)).len(), be_u16(pack(FlagContext::Module, t->Module_module_flags@))),
        starts_at(data, pos + (be_u16(t->Module_module_name_index)).len() + (be_u16(pack(FlagContext::Module, t->Module_module_flags@))).len(), be_u16(t->Module_module_version_index)),
        starts_at(data, pos + (be_u16(t->Module_module_name_index)).len() + (be_u16(pack(FlagContext::Module, t->Module_module_flags@))).len() + (be_u16(t->Module_module_version_index)).len(), be_u16(#[verifier::truncate] (t->Module_module_requires@.len() as u16))),
        starts_at(data, pos + (be_u16(t->Module_module_name_index)).len() + (be_u16(pack(FlagContext::Module, t->Module_module_flags@))).len() + (be_u16(t->Module_module_version_index)).len() + (be_u16(#[verifier::truncate] (t->Module_module_requires@.len() as u16))).len(), ser_module_requires_list(t->Module_module_requires@)),
        starts_at(data, pos + (be_u16(t->Module_module_name_index)).len() + (be_u16(pack(FlagContext::Module, t->Module_module_flags@))).len() + (be_u16(t->Module_module_version_index)).len() + (be_u16(#[verifier::truncate] (t->Module_module_requires@.len() as u16))).len() + (ser_module_requires_list(t->Module_module_requires@)).len(), be_u16(#[verifier::truncate] (t->Module_exports@.len() as u16))),
        starts_at(data, pos + (be_u16(t->Module_module_name_index)).len() + (be_u16(pack(FlagContext::Module, t->Module_module_flags@))).len() + (be_u16(t->Module_module_version_index)).len() + (be_u16(#[verifier::truncate] (t->Module_module_requires@.len() as u16))).len() + (ser_module_requires_list(t->Module_module_requires@)).len() + (be_u16(#[verifier::truncate] (t->Module_exports@.len() as u16))).len(), ser_module_exports_list(t->Module_exports@)),
        starts_at(data, pos + (be_u16(t->Module_module_name_index)).len() + (be_u16(pack(FlagContext::Module, t->Module_module_flags@))).len() + (be_u16(t->Module_module_version_index)).len() + (be_u16(#[verifier::truncate] (t->Module_module_requires@.len() as u16))).len() + (ser_module_requires_list(t->Module_module_requires@)).len() + (be_u16(#[verifier::truncate] (t->Module_exports@.len() as u16))).len() + (ser_module_exports_list(t->Module_exports@)).len(), be_u16(#[verifier::truncate] (t->Module_opens@.len() as u16))),
        starts_at(data, pos + (be_u16(t->Module_module_name_index)).len() + (be_u16(pack(FlagContext::Module, t->Module_module_flags@))).len() + (be_u16(t->Module_module_version_index)).len() + (be_u16(#[verifier::truncate] (t->Module_module_requires@.len() as u16))).len() + (ser_module_requires_list(t->Module_module_requires@)).len() + (be_u16(#[verifier::truncate] (t->Module_exports@.len() as u16))).len() + (ser_module_exports_list(t->Module_exports@)).len() + (be_u16(#[verifier::truncate] (t->Module_opens@.len() as u16))).len(), ser_module_opens_list(t->Module_opens@)),
        starts_at(data, pos + (be_u16(t->Module_module_name_index)).len() + (be_u16(pack(FlagContext::Module, t->Module_module_flags@))).len() + (be_u16(t->Module_module_version_index)).len() + (be_u16(#[verifier::truncate] (t->Module_module_requires@.len() as u16))).len() + (ser_module_requires_list(t->Module_module_requires@)).len() + (be_u16(#[verifier::truncate] (t->Module_exports@.len() as u16))).len() + (ser_module_exports_list(t->Module_exports@)).len() + (be_u16(#[verifier::truncate] (t->Module_opens@.len() as u16))).len() + (ser_module_opens_list(t->Module_opens@)).len(), be_u16(#[verifier::truncate] (t->Module_uses@.len() as u16))),
        starts_at(data, pos + (be_u16(t->Module_module_name_index)).len() + (be_u16(pack(FlagContext::Module, t->Module_module_flags@))).len() + (be_u16(t->Module_module_version_index)).len() + (be_u16(#[verifier::truncate] (t->Module_module_requires@.len() as u16))).len() + (ser_module_requires_list(t->Module_module_requires@)).len() + (be_u16(#[verifier::truncate] (t->Module_exports@.len() as u16))).len() + (ser_module_exports_list(t->Module_exports@)).len() + (be_u16(#[verifier::truncate] (t->Module_opens@.len() as u16))).len() + (ser_module_opens_list(t->Module_opens@)).len() + (be_u16(#[verifier::truncate] (t->Module_uses@.len() as u16))).len(), ser_u16s(t->Module_uses@)),
        starts_at(data, pos + (be_u16(t->Module_module_name_index)).len() + (be_u16(pack(FlagContext::Module, t->Module_module_flags@))).len() + (be_u16(t->Module_module_version_index)).len() + (be_u16(#[verifier::truncate] (t->Module_module_requires@.len() as u16))).len() + (ser_module_requires_list(t->Module_module_requires@)).len() + (be_u16(#[verifier::truncate] (t->Module_exports@.len() as u16))).len() + (ser_module_exports_list(t->Module_exports@)).len() + (be_u16(#[verifier::truncate] (t->Module_opens@.len() as u16))).len() + (ser_module_opens_list(t->Module_opens@)).len() + (be_u16(#[verifier::truncate] (t->Module_uses@.len() as u16))).len() + (ser_u16s(t->Module_uses@)).len(), be_u16(#[verifier::truncate] (t->Module_provides@.len() as u16))),
        starts_at(data, pos + (be_u16(t->Module_module_name_index)).len() + (be_u16(pack(FlagContext::Module, t->Module_module_flags@))).len() + (be_u16(t->Module_module_version_index)).len() + (be_u16(#[verifier::truncate] (t->Module_module_requires@.len() as u16))).len() + (ser_module_requires_list(t->Module_module_requires@)).len() + (be_u16(#[verifier::truncate] (t->Module_exports@.len() as u16))).len() + (ser_module_exports_list(t->Module_exports@)).len() + (be_u16(#[verifier::truncate] (t->Module_opens@.len() as u16))).len() + (ser_module_opens_list(t->Module_opens@)).len() + (be_u16(#[verifier::truncate] (t->Module_uses@.len() as u16))).len() + (ser_u16s(t->Module_uses@)).len() + (be_u16(#[verifier::truncate] (t->Module_provides@.len() as u16))).len(), ser_module_provides_list(t->Module_provides@)),
{
    assert(ser_payload(pool, t) =~= be_u16(t->Module_module_name_index) + be_u16(pack(FlagContext::Module, t->Module_module_flags@)) + be_u16(t->Module_module_version_index) + be_u16(#[verifier::truncate] (t->Module_module_requires@.len() as u16)) + ser_module_requires_list(t->Module_module_requires@) + be_u16(#[verifier::truncate] (t->Module_exports@.len() as u16)) + ser_module_exports_list(t->Module_exports@) + be_u16(#[verifier::truncate] (t->Module_opens@.len() as u16)) + ser_module_opens_list(t->Module_opens@) + be_u16(#[verifier::truncate] (t->Module_uses@.len() as u16)) + ser_u16s(t->Module_uses@) + be_u16(#[verifier::truncate] (t->Module_provides@.len() as u16)) + ser_module_provides_list(t->Module_provides@));
    lemma_starts_concat(data, pos, be_u16(t->Module_module_name_index) + be_u16(pack(FlagContext::Module, t->Module_module_flags@)) + be_u16(t->Module_module_version_index) + be_u16(#[verifier::truncate] (t->Module_module_requires@.len() as u16)) + ser_module_requires_list(t->Module_module_requires@) + be_u16(#[verifier::truncate] (t->Module_exports@.len() as u16)) + ser_module_exports_list(t->Module_exports@) + be_u16(#[verifier::truncate] (t->Module_opens@.len() as u16)) + ser_module_opens_list(t->Module_opens@) + be_u16(#[verifier::truncate] (t->Module_uses@.len() as u16)) + ser_u16s(t->Module_uses@) + be_u16(#[verifier::truncate] (t->Module_provides@.len() as u16)), ser_module_provides_list(t->Module_provides@));
    lemma_starts_concat(data, pos, be_u16(t->Module_module_name_index) + be_u16(pack(FlagContext::Module, t->Module_module_flags@)) + be_u16(t->Module_module_version_index) + be_u16(#[verifier::truncate] (t->Module_module_requires@.len() as u16)) + ser_module_requires_list(t->Module_module_requires@) + be_u16(#[verifier::truncate] (t->Module_exports@.len() as u16)) + ser_module_exports_list(t->Module_exports@) + be_u16(#[verifier::truncate] (t->Module_opens@.len() as u16)) + ser_module_opens_list(t->Module_opens@) + be_u16(#[verifier::truncate] (t->Module_uses@.len() as u16)) + ser_u16s(t->Module_uses@), be_u16(#[verifier::truncate] (t->Module_provides@.len() as u16)));
    lemma_starts_concat(data, pos, be_u16(t->Module_module_name_index) + be_u16(pack(FlagContext::Module, t->Module_module_flags@)) + be_u16(t->Module_module_version_index) + be_u16(#[verifier::truncate] (t->Module_module_requires@.len() as u16)) + ser_module_requires_list(t->Module_module_requires@) + be_u16(#[verifier::truncate] (t->Module_exports@.len() as u16)) + ser_module_exports_list(t->Module_exports@) + be_u16(#[verifier::truncate] (t->Module_opens@.len() as u16)) + ser_module_opens_list(t->Module_opens@) + be_u16(#[verifier::truncate] (t->Module_uses@.len() as u16)), ser_u16s(t->Module_uses@));
    lemma_starts_concat(data, pos, be_u16(t->Module_module_name_index) + be_u16(pack(FlagContext::Module, t->Module_module_flags@)) + be_u16(t->Module_module_version_index) + be_u16(#[verifier::truncate] (t->Module_module_requires@.len() as u16)) + ser_module_requires_list(t->Module_module_requires@) + be_u16(#[verifier::truncate] (t->Module_exports@.len() as u16)) + ser_module_exports_list(t->Module_exports@) + be_u16(#[verifier::truncate] (t->Module_opens@.len() as u16)) + ser_module_opens_list(t->Module_opens@), be_u16(#[verifier::truncate] (t->Module_uses@.len() as u16)));
    lemma_starts_concat(data, pos, be_u16(t->Module_module_name_index) + be_u16(pack(FlagContext::Module, t->Module_module_flags@)) + be_u16(t->Module_module_version_index) + be_u16(#[verifier::truncate] (t->Module_module_requires@.len() as u16)) + ser_module_requires_list(t->Module_module_requires@) + be_u16(#[verifier::truncate] (t->Module_exports@.len() as u16)) + ser_module_exports_list(t->Module_exports@) + be_u16(#[verifier::truncate] (t->Module_opens@.len() as u16)), ser_module_opens_list(t->Module_opens@));
    lemma_starts_concat(data, pos, be_u16(t->Module_module_name_index) + be_u16(pack(FlagContext::Module, t->Module_module_flags@)) + be_u16(t->Module_module_version_index) + be_u16(#[verifier::truncate] (t->Module_module_requires@.len() as u16)) + ser_module_requires_list(t->Module_module_requires@) + be_u16(#[verifier::truncate] (t->Module_exports@.len() as u16)) + ser_module_exports_list(t->Module_exports@), be_u16(#[verifier::truncate] (t->Module_opens@.len() as u16)));
    lemma_starts_concat(data, pos, be_u16(t->Module_module_name_index) + be_u16(pack(FlagContext::Module, t->Module_module_flags@)) + be_u16(t->Module_module_version_index) + be_u16(#[verifier::truncate] (t->Module_module_requires@.len() as u16)) + ser_module_requires_list(t->Module_module_requires@) + be_u16(#[verifier::truncate] (t->Module_exports@.len() as u16)), ser_module_exports_list(t->Module_exports@));
    lemma_starts_concat(data, pos, be_u16(t->Module_module_name_index) + be_u16(pack(FlagContext::Module, t->Module_module_flags@)) + be_u16(t->Module_module_version_index) + be_u16(#[verifier::truncate] (t->Module_module_requires@.len() as u16)) + ser_module_requires_list(t->Module_module_requires@), be_u16(#[verifier::truncate] (t->Module_exports@.len() as u16)));
    lemma_starts_concat(data, pos, be_u16(t->Module_module_name_index) + be_u16(pack(FlagContext::Module, t->Module_module_flags@)) + be_u16(t->Module_module_version_index) + be_u16(#[verifier::truncate] (t->Module_module_requires@.len() as u16)), ser_module_requires_list(t->Module_module_requires@));
    lemma_starts_concat(data, pos, be_u16(t->Module_module_name_index) + be_u16(pack(FlagContext::Module, t->Module_module_flags@)) + be_u16(t->Module_module_version_index), be_u16(#[verifier::truncate] (t->Module_module_requires@.len() as u16)));
    lemma_starts_concat(data, pos, be_u16(t->Module_module_name_index) + be_u16(pack(FlagContext::Module, t->Module_module_flags@)), be_u16(t->Module_module_version_index));
    lemma_starts_concat(data, pos, be_u16(t->Module_module_name_index), be_u16(pack(FlagContext::Module, t->Module_module_flags@)));
}

proof fn lemma_module_main_class_pieces(data: Seq<u8>, pos: int, pool: Seq<Constant>, t: Attribute)
    requires
        t is ModuleMainClass,
        starts_at(data, pos, ser_payload(pool, t)),
    ensures
        starts_at(data, pos + 0, be_u16(t->ModuleMainClass_0)),
{
    assert(ser_payload(pool, t) =~= be_u16(t->ModuleMainClass_0));
}

proof fn lemma_module_packages_pieces(data: Seq<u8>, pos: int, pool: Seq<Constant>, t: Attribute)
    requires
        t is ModulePackages,
        starts_at(data, pos, ser_payload(pool, t)),
    ensures
        starts_at(data, pos + 0, be_u16(#[verifier::truncate] (t->ModulePackages_0@.len() as u16))),
        starts_at(data, pos + (be_u16(#[verifier::truncate] (t->ModulePackages_0@.len() as u16))).len(), ser_u16s(t->ModulePackages_0@)),
{
    assert(ser_payload(pool, t) =~= be_u16(#[verifier::truncate] (t->ModulePackages_0@.len() as u16)) + ser_u16s(t->ModulePackages_0@));
    lemma_starts_concat(data, pos, be_u16(#[verifier::truncate] (t->ModulePackages_0@.len() as u16)), ser_u16s(t->ModulePackages_0@));
}

proof fn lemma_nest_host_pieces(data: Seq<u8>, pos: int, pool: Seq<Constant>, t: Attribute)
    requires
        t is NestHost,
        starts_at(data, pos, ser_payload(pool, t)),
    ensures
        starts_at(data, pos + 0, be_u16(t->NestHost_0)),
{
    assert(ser_payload(pool, t) =~= be_u16(t->NestHost_0));
}

proof fn lemma_nest_members_pieces(data: Seq<u8>, pos: int, pool: Seq<Constant>, t: Attribute)
    requires
        t is NestMembers,
        starts_at(data, pos, ser_payload(pool, t)),
    ensures
        starts_at(data, pos + 0, be_u16(#[verifier::truncate] (t->NestMembers_0@.len() as u16))),
        starts_at(data, pos + (be_u16(#[verifier::truncate] (t->NestMembers_0@.len() as u16))).len(), ser_u16s(t->NestMembers_0@)),
{
    assert(ser_payload(pool, t) =~= be_u16(#[verifier::truncate] (t->NestMembers_0@.len() as u16)) + ser_u16s(t->NestMembers_0@));
    lemma_starts_concat(data, pos, be_u16(#[verifier::truncate] (t->NestMembers_0@.len() as u16)), ser_u16s(t->NestMembers_0@));
}

proof fn lemma_permitted_subclasses_pieces(data: Seq<u8>, pos: int, pool: Seq<Constant>, t: Attribute)
    requires
        t is PermittedSubclasses,
        starts_at(data, pos, ser_payload(pool, t)),
    ensures
        starts_at(data, pos + 0, be_u16(#[verifier::truncate] (t->PermittedSubclasses_0@.len() as u16))),
        starts_at(data, pos + (be_u16(#[verifier::truncate] (t->PermittedSubclasses_0@.len() as u16))).len(), ser_u16s(t->PermittedSubclasses_0@)),
{
    assert(ser_payload(pool, t) =~= be_u16(#[verifier::truncate] (t->PermittedSubclasses_0@.len() as u16)) + ser_u16s(t->PermittedSubclasses_0@));
    lemma_starts_concat(data, pos, be_u16(#[verifier::truncate] (t->PermittedSubclasses_0@.len() as u16)), ser_u16s(t->PermittedSubclasses_0@));
}

proof fn lemma_record_pieces(data: Seq<u8>, pos: int, pool: Seq<Constant>, t: Attribute)
    requires
        t is Record,
        starts_at(data, pos, ser_payload(pool, t)),
    ensures
        starts_at(data, pos + 0, be_u16(#[verifier::truncate] (t->Record_0@.len() as u16))),
        starts_at(data, pos + (be_u16(#[verifier::truncate] (t->Record_0@.len() as u16))).len(), ser_record_components(pool, t->Record_0@)),
{
    assert(ser_payload(pool, t) =~= be_u16(#[verifier::truncate] (t->Record_0@.len() as u16)) + ser_record_components(pool, t->Record_0@));
    lemma_starts_concat(data, pos, be_u16(#[verifier::truncate] (t->Record_0@.len() as u16)), ser_record_components(pool, t->Record_0@));
}

proof fn lemma_runtime_invisible_annotations_pieces(data: Seq<u8>, pos: int, pool: Seq<Constant>, t: Attribute)
    requires
        t is RuntimeInvisibleAnnotations,
        starts_at(data, pos, ser_payload(pool, t)),
    ensures
        starts_at(data, pos + 0, be_u16(#[verifier::truncate] (t->RuntimeInvisibleAnnotations_0@.len() as u16))),
        starts_at(data, pos + (be_u16(#[verifier::truncate] (t->RuntimeInvisibleAnnotations_0@.len() as u16))).len(), ser_annotation_list(t->RuntimeInvisibleAnnotations_0@)),
{
    assert(ser_payload(pool, t) =~= be_u16(#[verifier::truncate] (t->RuntimeInvisibleAnnotations_0@.len() as u16)) + ser_annotation_list(t->RuntimeInvisibleAnnotations_0@));
    lemma_starts_concat(data, pos, be_u16(#[verifier::truncate] (t->RuntimeInvisibleAnnotations_0@.len() as u16)), ser_annotation_list(t->RuntimeInvisibleAnnotations_0@));
}

proof fn lemma_runtime_invisible_parameter_annotations_pieces(data: Seq<u8>, pos: int, pool: Seq<Constant>, t: Attribute)
    requires
        t is RuntimeInvisibleParameterAnnotations,
        starts_at(data, pos, ser_payload(pool, t)),
    ensures
        starts_at(data, pos + 0, seq![#[verifier::truncate] (t->RuntimeInvisibleParameterAnnotations_0@.len() as u8)]),
        starts_at(data, pos + (seq![#[verifier::truncate] (t->RuntimeInvisibleParameterAnnotations_0@.len() as u8)]).len(), ser_parameter_annotations_list(t->RuntimeInvisibleParameterAnnotations_0@)),
{
    assert(ser_payload(pool, t) =~= seq![#[verifier::truncate] (t->RuntimeInvisibleParameterAnnotations_0@.len() as u8)] + ser_parameter_annotations_list(t->RuntimeInvisibleParameterAnnotations_0@));
    lemma_starts_concat(data, pos, seq![#[verifier::truncate] (t->RuntimeInvisibleParameterAnnotations_0@.len() as u8)], ser_parameter_annotations_list(t->RuntimeInvisibleParameterAnnotations_0@));
}

proof fn lemma_runtime_invisible_type_annotations_pieces(data: Seq<u8>, pos: int, pool: Seq<Constant>, t: Attribute)
    requires
        t is RuntimeInvisibleTypeAnnotations,
        starts_at(data, pos, ser_payload(pool, t)),
    ensures
        starts_at(data, pos + 0, be_u16(#[verifier::truncate] (t->RuntimeInvisibleTypeAnnotations_0@.len() as u16))),
        starts_at(data, pos + (be_u16(#[verifier::truncate] (t->RuntimeInvisibleTypeAnnotations_0@.len() as u16))).len(), ser_type_annotation_list(t->RuntimeInvisibleTypeAnnotations_0@)),
{
    assert(ser_payload(pool, t) =~= be_u16(#[verifier::truncate] (t->RuntimeInvisibleTypeAnnotations_0@.len() as u16)) + ser_type_annotation_list(t->RuntimeInvisibleTypeAnnotations_0@));
    lemma_starts_concat(data, pos, be_u16(#[verifier::truncate] (t->RuntimeInvisibleTypeAnnotations_0@.len() as u16)), ser_type_annotation_list(t->RuntimeInvisibleTypeAnnotations_0@));
}

proof fn lemma_runtime_visible_annotations_pieces(data: Seq<u8>, pos: int, pool: Seq<Constant>, t: Attribute)
    requires
        t is RuntimeVisibleAnnotations,
        starts_at(data, pos, ser_payload(pool, t)),
    ensures
        starts_at(data, pos + 0, be_u16(#[verifier::truncate] (t->RuntimeVisibleAnnotations_0@.len() as u16))),
        starts_at(data, pos + (be_u16(#[verifier::truncate] (t->RuntimeVisibleAnnotations_0@.len() as u16))).len(), ser_annotation_list(t->RuntimeVisibleAnnotations_0@)),
{
    assert(ser_payload(pool, t) =~= be_u16(#[verifier::truncate] (t->RuntimeVisibleAnnotations_0@.len() as u16)) + ser_annotation_list(t->RuntimeVisibleAnnotations_0@));
    lemma_starts_concat(data, pos, be_u16(#[verifier::truncate] (t->RuntimeVisibleAnnotations_0@.len() as u16)), ser_annotation_list(t->RuntimeVisibleAnnotations_0@));
}

proof fn lemma_runtime_visible_parameter_annotations_pieces(data: Seq<u8>, pos: int, pool: Seq<Constant>, t: Attribute)
    requires
        t is RuntimeVisibleParameterAnnotations,
        starts_at(data, pos, ser_payload(pool, t)),
    ensures
        starts_at(data, pos + 0, seq![#[verifier::truncate] (t->RuntimeVisibleParameterAnnotations_0@.len() as u8)]),
        starts_at(data, pos + (seq![#[verifier::truncate] (t->RuntimeVisibleParameterAnnotations_0@.len() as u8)]).len(), ser_parameter_annotations_list(t->RuntimeVisibleParameterAnnotations_0@)),
{
    assert(ser_payload(pool, t) =~= seq![#[verifier::truncate] (t->RuntimeVisibleParameterAnnotations_0@.len() as u8)] + ser_parameter_annotations_list(t->RuntimeVisibleParameterAnnotations_0@));
    lemma_starts_concat(data, pos, seq![#[verifier::truncate] (t->RuntimeVisibleParameterAnnotations_0@.len() as u8)], ser_parameter_annotations_list(t->RuntimeVisibleParameterAnnotations_0@));
}

proof fn lemma_runtime_visible_type_annotations_pieces(data: Seq<u8>, pos: int, pool: Seq<Constant>, t: Attribute)
    requires
        t is RuntimeVisibleTypeAnnotations,
        starts_at(data, pos, ser_payload(pool, t)),
    ensures
        starts_at(data, pos + 0, be_u16(#[verifier::truncate] (t->RuntimeVisibleTypeAnnotations_0@.len() as u16))),
        starts_at(data, pos + (be_u16(#[verifier::truncate] (t->RuntimeVisibleTypeAnnotations_0@.len() as u16))).len(), ser_type_annotation_list(t->RuntimeVisibleTypeAnnotations_0@)),
{
    assert(ser_payload(pool, t) =~= be_u16(#[verifier::truncate] (t->RuntimeVisibleTypeAnnotations_0@.len() as u16)) + ser_type_annotation_list(t->RuntimeVisibleTypeAnnotations_0@));
    lemma_starts_concat(data, pos, be_u16(#[verifier::truncate] (t->RuntimeVisibleTypeAnnotations_0@.len() as u16)), ser_type_annotation_list(t->RuntimeVisibleTypeAnnotations_0@));
}

proof fn lemma_signature_pieces(data: Seq<u8>, pos: int, pool: Seq<Constant>, t: Attribute)
    requires
        t is Signature,
        starts_at(data, pos, ser_payload(pool, t)),
    ensures
        starts_at(data, pos + 0, be_u16(t->Signature_signature_index)),
{
    assert(ser_payload(pool, t) =~= be_u16(t->Signature_signature_index));
}

proof fn lemma_source_debug_extension_pieces(data: Seq<u8>, pos: int, pool: Seq<Constant>, t: Attribute)
    requires
        t is SourceDebugExtension,
        starts_at(data, pos, ser_payload(pool, t)),
    ensures
        starts_at(data, pos + 0, t->SourceDebugExtension_debug_extension@),
{
    assert(ser_payload(pool, t) =~= t->SourceDebugExtension_debug_extension@);
}

proof fn lemma_source_file_pieces(data: Seq<u8>, pos: int, pool: Seq<Constant>, t: Attribute)
    requires
        t is SourceFile,
        starts_at(data, pos, ser_payload(pool, t)),
    ensures
        starts_at(data, pos + 0, be_u16(t->SourceFile_sourcefile_index)),
{
    assert(ser_payload(pool, t) =~= be_u16(t->SourceFile_sourcefile_index));
}

proof fn lemma_stack_map_table_pieces(data: Seq<u8>, pos: int, pool: Seq<Constant>, t: Attribute)
    requires
        t is StackMapTable,
        starts_at(data, pos, ser_payload(pool, t)),
    ensures
        starts_at(data, pos + 0, be_u16(#[verifier::truncate] (t->StackMapTable_0@.len() as u16))),
        starts_at(data, pos + (be_u16(#[verifier::truncate] (t->StackMapTable_0@.len() as u16))).len(), ser_stack_map_frame_list(t->StackMapTable_0@)),
{
    assert(ser_payload(pool, t) =~= be_u16(#[verifier::truncate] (t->StackMapTable_0@.len() as u16)) + ser_stack_map_frame_list(t->StackMapTable_0@));
    lemma_starts_concat(data, pos, be_u16(#[verifier::truncate] (t->StackMapTable_0@.len() as u16)), ser_stack_map_frame_list(t->StackMapTable_0@));
}


proof fn lemma_unknown_pieces(data: Seq<u8>, pos: int, pool: Seq<Constant>, t: Attribute)
    requires
        t is Unknown,
        starts_at(data, pos, ser_payload(pool, t)),
    ensures
        starts_at(data, pos + 0, t->Unknown_data@),
{
    assert(ser_payload(pool, t) =~= t->Unknown_data@);
}


proof fn lemma_attribute_list_push(pool: Seq<Constant>, s: Seq<Attribute>, a: Attribute)
    ensures
        ser_attribute_list(pool, s.push(a)) == ser_attribute_list(pool, s) + ser_attribute(pool, a),
        attributes_writable(pool, s.push(a)) == (attributes_writable(pool, s) && attribute_writable(pool, a)),
{
    assert(s.push(a).subrange(0, s.len() as int) =~= s);
}

proof fn lemma_components_push(pool: Seq<Constant>, s: Seq<RecordComponent>, c: RecordComponent)
    ensures
        ser_record_components(pool, s.push(c)) == ser_record_components(pool, s) + be_u16(c.name_index)
            + be_u16(c.descriptor_index) + be_u16(#[verifier::truncate] (c.attributes@.len() as u16))
            + ser_attribute_list(pool, c.attributes@),
        components_writable(pool, s.push(c)) == (components_writable(pool, s) && attributes_writable(pool, c.attributes@)),
{
    assert(s.push(c).subrange(0, s.len() as int) =~= s);
}

proof fn lemma_attributes_writable_prefix(pool: Seq<Constant>, s: Seq<Attribute>, k: int)
    requires
        0 <= k <= s.len(),
        attributes_writable(pool, s),
    ensures
        attributes_writable(pool, s.take(k)),
    decreases s.len() - k,
{
    if k < s.len() {
        lemma_attributes_writable_prefix(pool, s, k + 1);
        lemma_attribute_list_push(pool, s.take(k), s[k]);
        assert(s.take(k + 1) =~= s.take(k).push(s[k]));
    } else {
        assert(s.take(k) =~= s);
    }
}

proof fn lemma_components_writable_prefix(pool: Seq<Constant>, s: Seq<RecordComponent>, k: int)
    requires
        0 <= k <= s.len(),
        components_writable(pool, s),
    ensures
        components_writable(pool, s.take(k)),
    decreases s.len() - k,
{
    if k < s.len() {
        lemma_components_writable_prefix(pool, s, k + 1);
        lemma_components_push(pool, s.take(k), s[k]);
        assert(s.take(k + 1) =~= s.take(k).push(s[k]));
    } else {
        assert(s.take(k) =~= s);
    }
}

/// Reads the payload of a `AnnotationDefault` attribute.
fn parse_annotation_default(pool: &Vec<Constant>, r: &mut ByteReader, depth: u32, t: Ghost<Attribute>) -> (res: Result<Attribute, JavaError>)
    requires
        old(r).wf(),
    ensures
        old(r).moved_to(*final(r)),
        final(r).canonical ==> old(r).canonical,
        res matches Ok(a) ==> a is AnnotationDefault && (final(r).canonical ==> old(r).span(*final(r)) == ser_payload(pool@, a)),
        old(r).offers(ser_payload(pool@, t@)) && old(r).remaining() == ser_payload(pool@, t@).len() && t@ is AnnotationDefault
            && readable_payload(pool@, t@, depth as nat) ==> (res is Ok && old(r).took(*final(r), ser_payload(pool@, t@))),
{
    let ghost at0 = *r;
    let ghost pre = r.offers(ser_payload(pool@, t@)) && r.remaining() == ser_payload(pool@, t@).len() && t@ is AnnotationDefault && readable_payload(pool@, t@, depth as nat);
    proof { if pre { lemma_annotation_default_pieces(r.data@, r.pos as int, pool@, t@); } }
    let v = read_element_value_as(r, Ghost(t@->AnnotationDefault_0))?;
    let ghost at1 = *r;
    let a = Attribute::AnnotationDefault(v);
    proof {
        if r.canonical {
            assert(at0.span(*r) =~= at0.span(at1));
            assert(at0.span(*r) =~= ser_payload(pool@, a));
        }
    }
    Ok(a)
}

/// Writes the payload of a `AnnotationDefault` attribute.
fn write_annotation_default(pool: &Vec<Constant>, out: &mut Vec<u8>, a: &Attribute) -> (res: Result<(), JavaError>)
    requires
        a is AnnotationDefault,
    ensures
        res is Ok <==> payload_writable(pool@, *a),
        res is Ok ==> final(out)@ == old(out)@ + ser_payload(pool@, *a),
{
    let ghost start = out@;
    match a {
        Attribute::AnnotationDefault(v) => {
            write_element_value(out, v);
        },
        _ => {},
    }
    assert(out@ =~= start + ser_payload(pool@, *a));
    Ok(())
}

/// Reads the payload of a `BootstrapMethods` attribute.
fn parse_bootstrap_methods(pool: &Vec<Constant>, r: &mut ByteReader, depth: u32, t: Ghost<Attribute>) -> (res: Result<Attribute, JavaError>)
    requires
        old(r).wf(),
    ensures
        old(r).moved_to(*final(r)),
        final(r).canonical ==> old(r).canonical,
        res matches Ok(a) ==> a is BootstrapMethods && (final(r).canonical ==> old(r).span(*final(r)) == ser_payload(pool@, a)),
        old(r).offers(ser_payload(pool@, t@)) && old(r).remaining() == ser_payload(pool@, t@).len() && t@ is BootstrapMethods
            && readable_payload(pool@, t@, depth as nat) ==> (res is Ok && old(r).took(*final(r), ser_payload(pool@, t@))),
{
    let ghost at0 = *r;
    let ghost pre = r.offers(ser_payload(pool@, t@)) && r.remaining() == ser_payload(pool@, t@).len() && t@ is BootstrapMethods && readable_payload(pool@, t@, depth as nat);
    proof { if pre { lemma_bootstrap_methods_pieces(r.data@, r.pos as int, pool@, t@); } }
    let v_count = r.read_u16()?;
    proof { if pre { assert(at0.span(*r) =~= r.data@.subrange(at0.pos as int, at0.pos + 2)); lemma_be_u16_injective(v_count, #[verifier::truncate] (t@->BootstrapMethods_0@.len() as u16)); } }
    let ghost at1 = *r;
    let v = read_bootstrap_method_list(r, v_count as usize, Ghost(t@->BootstrapMethods_0@))?;
    let ghost at2 = *r;
    let a = Attribute::BootstrapMethods(v);
    proof {
        lemma_span_split(r.data@, at0.pos as int, at1.pos as int, r.pos as int);
        if r.canonical {
            assert(at0.span(*r) =~= at0.span(at1) + at1.span(at2));
            assert(at0.span(*r) =~= ser_payload(pool@, a));
        }
    }
    Ok(a)
}

/// Writes the payload of a `BootstrapMethods` attribute.
fn write_bootstrap_methods(pool: &Vec<Constant>, out: &mut Vec<u8>, a: &Attribute) -> (res: Result<(), JavaError>)
    requires
        a is BootstrapMethods,
    ensures
        res is Ok <==> payload_writable(pool@, *a),
        res is Ok ==> final(out)@ == old(out)@ + ser_payload(pool@, *a),
{
    let ghost start = out@;
    match a {
        Attribute::BootstrapMethods(v) => {
            push_u16(out, #[verifier::truncate] (v.len() as u16));
            write_bootstrap_method_list(out, v);
        },
        _ => {},
    }
    assert(out@ =~= start + ser_payload(pool@, *a));
    Ok(())
}

/// Reads the payload of a `Code` attribute.
#[verifier::rlimit(100)]
#[verifier::spinoff_prover]
fn parse_code(pool: &Vec<Constant>, r: &mut ByteReader, depth: u32, t: Ghost<Attribute>) -> (res: Result<Attribute, JavaError>)
    requires
        old(r).wf(),
    ensures
        old(r).moved_to(*final(r)),
        final(r).canonical ==> old(r).canonical,
        res matches Ok(a) ==> a is Code && (final(r).canonical ==> payload_writable(pool@, a)) && (final(r).canonical ==> old(r).span(*final(r)) == ser_payload(pool@, a)),
        old(r).offers(ser_payload(pool@, t@)) && old(r).remaining() == ser_payload(pool@, t@).len() && t@ is Code
            && readable_payload(pool@, t@, depth as nat) ==> (res is Ok && old(r).took(*final(r), ser_payload(pool@, t@))),
    decreases old(r).remaining(), 3int,
{
    if depth == 0 {
        return Err(JavaError::Malformed);
    }
    let ghost at0 = *r;
    let ghost pre = r.offers(ser_payload(pool@, t@)) && r.remaining() == ser_payload(pool@, t@).len() && t@ is Code && readable_payload(pool@, t@, depth as nat);
    proof { if pre { lemma_code_pieces(r.data@, r.pos as int, pool@, t@); } }
    let max_stack = r.read_u16()?;
    let ghost at1 = *r;
    let max_locals = r.read_u16()?;
    let ghost at2 = *r;
    let code = decompile_as(r, Ghost(t@->Code_code@))?;
    let ghost at3 = *r;
    let exception_table_count = r.read_u16()?;
    proof { if pre { assert(at3.span(*r) =~= r.data@.subrange(at3.pos as int, at3.pos + 2)); lemma_be_u16_injective(exception_table_count, #[verifier::truncate] (t@->Code_exception_table@.len() as u16)); } }
    let ghost at4 = *r;
    let exception_table = read_exception_table_entry_list(r, exception_table_count as usize, Ghost(t@->Code_exception_table@))?;
    let ghost at5 = *r;
    let attributes_count = r.read_u16()?;
    proof { if pre { assert(at5.span(*r) =~= r.data@.subrange(at5.pos as int, at5.pos + 2)); lemma_be_u16_injective(attributes_count, #[verifier::truncate] (t@->Code_attributes@.len() as u16)); } }
    let ghost at6 = *r;
    let attributes = read_attribute_list(pool, r, attributes_count as usize, depth - 1, Ghost(t@->Code_attributes@))?;
    let ghost at7 = *r;
    let a = Attribute::Code { code, max_stack, max_locals, exception_table, attributes };
    proof {
        lemma_span_split(r.data@, at0.pos as int, at6.pos as int, r.pos as int);
        lemma_span_split(r.data@, at0.pos as int, at5.pos as int, r.pos as int);
        lemma_span_split(r.data@, at0.pos as int, at4.pos as int, r.pos as int);
        lemma_span_split(r.data@, at0.pos as int, at3.pos as int, r.pos as int);
        lemma_span_split(r.data@, at0.pos as int, at2.pos as int, r.pos as int);
        lemma_span_split(r.data@, at0.pos as int, at1.pos as int, r.pos as int);
        if r.canonical {
            assert(at0.span(*r) =~= at0.span(at1) + at1.span(at2) + at2.span(at3) + at3.span(at4) + at4.span(at5) + at5.span(at6) + at6.span(at7));
            assert(at0.span(*r) =~= ser_payload(pool@, a));
        }
    }
    Ok(a)
}

/// Writes the payload of a `Code` attribute.
fn write_code(pool: &Vec<Constant>, out: &mut Vec<u8>, a: &Attribute) -> (res: Result<(), JavaError>)
    requires
        a is Code,
    ensures
        res is Ok <==> payload_writable(pool@, *a),
        res is Ok ==> final(out)@ == old(out)@ + ser_payload(pool@, *a),
    decreases a, 0int,
{
    let ghost start = out@;
    match a {
        Attribute::Code { code, max_stack, max_locals, exception_table, attributes } => {
            push_u16(out, *max_stack);
            push_u16(out, *max_locals);
            compile(out, code)?;
            push_u16(out, #[verifier::truncate] (exception_table.len() as u16));
            write_exception_table_entry_list(out, exception_table);
            push_u16(out, #[verifier::truncate] (attributes.len() as u16));
            write_attribute_list(pool, out, attributes)?;
        },
        _ => {},
    }
    assert(out@ =~= start + ser_payload(pool@, *a));
    Ok(())
}

/// Reads the payload of a `ConstantValue` attribute.
fn parse_constant_value(pool: &Vec<Constant>, r: &mut ByteReader, depth: u32, t: Ghost<Attribute>) -> (res: Result<Attribute, JavaError>)
    requires
        old(r).wf(),
    ensures
        old(r).moved_to(*final(r)),
        final(r).canonical ==> old(r).canonical,
        res matches Ok(a) ==> a is ConstantValue && (final(r).canonical ==> old(r).span(*final(r)) == ser_payload(pool@, a)),
        old(r).offers(ser_payload(pool@, t@)) && old(r).remaining() == ser_payload(pool@, t@).len() && t@ is ConstantValue
            && readable_payload(pool@, t@, depth as nat) ==> (res is Ok && old(r).took(*final(r), ser_payload(pool@, t@))),
{
    let ghost at0 = *r;
    let ghost pre = r.offers(ser_payload(pool@, t@)) && r.remaining() == ser_payload(pool@, t@).len() && t@ is ConstantValue && readable_payload(pool@, t@, depth as nat);
    proof { if pre { lemma_constant_value_pieces(r.data@, r.pos as int, pool@, t@); } }
    let constantvalue_index = r.read_u16()?;
    let ghost at1 = *r;
    let a = Attribute::ConstantValue { constantvalue_index };
    proof {
        if r.canonical {
            assert(at0.span(*r) =~= at0.span(at1));
            assert(at0.span(*r) =~= ser_payload(pool@, a));
        }
    }
    Ok(a)
}

/// Writes the payload of a `ConstantValue` attribute.
fn write_constant_value(pool: &Vec<Constant>, out: &mut Vec<u8>, a: &Attribute) -> (res: Result<(), JavaError>)
    requires
        a is ConstantValue,
    ensures
        res is Ok <==> payload_writable(pool@, *a),
        res is Ok ==> final(out)@ == old(out)@ + ser_payload(pool@, *a),
{
    let ghost start = out@;
    match a {
        Attribute::ConstantValue { constantvalue_index } => {
            push_u16(out, *constantvalue_index);
        },
        _ => {},
    }
    assert(out@ =~= start + ser_payload(pool@, *a));
    Ok(())
}

/// Reads the payload of a `Deprecated` attribute.
fn parse_deprecated(pool: &Vec<Constant>, r: &mut ByteReader, depth: u32, t: Ghost<Attribute>) -> (res: Result<Attribute, JavaError>)
    requires
        old(r).wf(),
    ensures
        old(r).moved_to(*final(r)),
        final(r).canonical ==> old(r).canonical,
        res matches Ok(a) ==> a is Deprecated && (final(r).canonical ==> old(r).span(*final(r)) == ser_payload(pool@, a)),
        old(r).offers(ser_payload(pool@, t@)) && old(r).remaining() == ser_payload(pool@, t@).len() && t@ is Deprecated
            && readable_payload(pool@, t@, depth as nat) ==> (res is Ok && old(r).took(*final(r), ser_payload(pool@, t@))),
{
    let ghost at0 = *r;
    let ghost pre = r.offers(ser_payload(pool@, t@)) && r.remaining() == ser_payload(pool@, t@).len() && t@ is Deprecated && readable_payload(pool@, t@, depth as nat);
    let a = Attribute::Deprecated;
    proof {
        assert(at0.span(*r) =~= Seq::<u8>::empty());
    }
    Ok(a)
}

/// Writes the payload of a `Deprecated` attribute.
fn write_deprecated(pool: &Vec<Constant>, out: &mut Vec<u8>, a: &Attribute) -> (res: Result<(), JavaError>)
    requires
        a is Deprecated,
    ensures
        res is Ok <==> payload_writable(pool@, *a),
        res is Ok ==> final(out)@ == old(out)@ + ser_payload(pool@, *a),
{
    let ghost start = out@;
    match a {
        Attribute::Deprecated => {

        },
        _ => {},
    }
    assert(out@ =~= start + ser_payload(pool@, *a));
    Ok(())
}

/// Reads the payload of a `EnclosingMethod` attribute.
fn parse_enclosing_method(pool: &Vec<Constant>, r: &mut ByteReader, depth: u32, t: Ghost<Attribute>) -> (res: Result<Attribute, JavaError>)
    requires
        old(r).wf(),
    ensures
        old(r).moved_to(*final(r)),
        final(r).canonical ==> old(r).canonical,
        res matches Ok(a) ==> a is EnclosingMethod && (final(r).canonical ==> old(r).span(*final(r)) == ser_payload(pool@, a)),
        old(r).offers(ser_payload(pool@, t@)) && old(r).remaining() == ser_payload(pool@, t@).len() && t@ is EnclosingMethod
            && readable_payload(pool@, t@, depth as nat) ==> (res is Ok && old(r).took(*final(r), ser_payload(pool@, t@))),
{
    let ghost at0 = *r;
    let ghost pre = r.offers(ser_payload(pool@, t@)) && r.remaining() == ser_payload(pool@, t@).len() && t@ is EnclosingMethod && readable_payload(pool@, t@, depth as nat);
    proof { if pre { lemma_enclosing_method_pieces(r.data@, r.pos as int, pool@, t@); } }
    let class_index = r.read_u16()?;
    let ghost at1 = *r;
    let method_index = r.read_u16()?;
    let ghost at2 = *r;
    let a = Attribute::EnclosingMethod { class_index, method_index };
    proof {
        lemma_span_split(r.data@, at0.pos as int, at1.pos as int, r.pos as int);
        if r.canonical {
            assert(at0.span(*r) =~= at0.span(at1) + at1.span(at2));
            assert(at0.span(*r) =~= ser_payload(pool@, a));
        }
    }
    Ok(a)
}

/// Writes the payload of a `EnclosingMethod` attribute.
fn write_enclosing_method(pool: &Vec<Constant>, out: &mut Vec<u8>, a: &Attribute) -> (res: Result<(), JavaError>)
    requires
        a is EnclosingMethod,
    ensures
        res is Ok <==> payload_writable(pool@, *a),
        res is Ok ==> final(out)@ == old(out)@ + ser_payload(pool@, *a),
{
    let ghost start = out@;
    match a {
        Attribute::EnclosingMethod { class_index, method_index } => {
            push_u16(out, *class_index);
            push_u16(out, *method_index);
        },
        _ => {},
    }
    assert(out@ =~= start + ser_payload(pool@, *a));
    Ok(())
}

/// Reads the payload of a `Exceptions` attribute.
fn parse_exceptions(pool: &Vec<Constant>, r: &mut ByteReader, depth: u32, t: Ghost<Attribute>) -> (res: Result<Attribute, JavaError>)
    requires
        old(r).wf(),
    ensures
        old(r).moved_to(*final(r)),
        final(r).canonical ==> old(r).canonical,
        res matches Ok(a) ==> a is Exceptions && (final(r).canonical ==> old(r).span(*final(r)) == ser_payload(pool@, a)),
        old(r).offers(ser_payload(pool@, t@)) && old(r).remaining() == ser_payload(pool@, t@).len() && t@ is Exceptions
            && readable_payload(pool@, t@, depth as nat) ==> (res is Ok && old(r).took(*final(r), ser_payload(pool@, t@))),
{
    let ghost at0 = *r;
    let ghost pre = r.offers(ser_payload(pool@, t@)) && r.remaining() == ser_payload(pool@, t@).len() && t@ is Exceptions && readable_payload(pool@, t@, depth as nat);
    proof { if pre { lemma_exceptions_pieces(r.data@, r.pos as int, pool@, t@); } }
    let v_count = r.read_u16()?;
    proof { if pre { assert(at0.span(*r) =~= r.data@.subrange(at0.pos as int, at0.pos + 2)); lemma_be_u16_injective(v_count, #[verifier::truncate] (t@->Exceptions_0@.len() as u16)); } }
    let ghost at1 = *r;
    proof { if pre { lemma_ser_u16s_len(t@->Exceptions_0@); } }
    let v = read_u16s(r, v_count as usize)?;
    let ghost at2 = *r;
    let a = Attribute::Exceptions(v);
    proof {
        lemma_span_split(r.data@, at0.pos as int, at1.pos as int, r.pos as int);
        if r.canonical {
            assert(at0.span(*r) =~= at0.span(at1) + at1.span(at2));
            assert(at0.span(*r) =~= ser_payload(pool@, a));
        }
    }
    Ok(a)
}

/// Writes the payload of a `Exceptions` attribute.
fn write_exceptions(pool: &Vec<Constant>, out: &mut Vec<u8>, a: &Attribute) -> (res: Result<(), JavaError>)
    requires
        a is Exceptions,
    ensures
        res is Ok <==> payload_writable(pool@, *a),
        res is Ok ==> final(out)@ == old(out)@ + ser_payload(pool@, *a),
{
    let ghost start = out@;
    match a {
        Attribute::Exceptions(v) => {
            push_u16(out, #[verifier::truncate] (v.len() as u16));
            write_u16s(out, v);
        },
        _ => {},
    }
    assert(out@ =~= start + ser_payload(pool@, *a));
    Ok(())
}

/// Reads the payload of a `InnerClasses` attribute.
fn parse_inner_classes(pool: &Vec<Constant>, r: &mut ByteReader, depth: u32, t: Ghost<Attribute>) -> (res: Result<Attribute, JavaError>)
    requires
        old(r).wf(),
    ensures
        old(r).moved_to(*final(r)),
        final(r).canonical ==> old(r).canonical,
        res matches Ok(a) ==> a is InnerClasses && (final(r).canonical ==> old(r).span(*final(r)) == ser_payload(pool@, a)),
        old(r).offers(ser_payload(pool@, t@)) && old(r).remaining() == ser_payload(pool@, t@).len() && t@ is InnerClasses
            && readable_payload(pool@, t@, depth as nat) ==> (res is Ok && old(r).took(*final(r), ser_payload(pool@, t@))),
{
    let ghost at0 = *r;
    let ghost pre = r.offers(ser_payload(pool@, t@)) && r.remaining() == ser_payload(pool@, t@).len() && t@ is InnerClasses && readable_payload(pool@, t@, depth as nat);
    proof { if pre { lemma_inner_classes_pieces(r.data@, r.pos as int, pool@, t@); } }
    let v_count = r.read_u16()?;
    proof { if pre { assert(at0.span(*r) =~= r.data@.subrange(at0.pos as int, at0.pos + 2)); lemma_be_u16_injective(v_count, #[verifier::truncate] (t@->InnerClasses_0@.len() as u16)); } }
    let ghost at1 = *r;
    let v = read_inner_class_list(r, v_count as usize, Ghost(t@->InnerClasses_0@))?;
    let ghost at2 = *r;
    let a = Attribute::InnerClasses(v);
    proof {
        lemma_span_split(r.data@, at0.pos as int, at1.pos as int, r.pos as int);
        if r.canonical {
            assert(at0.span(*r) =~= at0.span(at1) + at1.span(at2));
            assert(at0.span(*r) =~= ser_payload(pool@, a));
        }
    }
    Ok(a)
}

/// Writes the payload of a `InnerClasses` attribute.
fn write_inner_classes(pool: &Vec<Constant>, out: &mut Vec<u8>, a: &Attribute) -> (res: Result<(), JavaError>)
    requires
        a is InnerClasses,
    ensures
        res is Ok <==> payload_writable(pool@, *a),
        res is Ok ==> final(out)@ == old(out)@ + ser_payload(pool@, *a),
{
    let ghost start = out@;
    match a {
        Attribute::InnerClasses(v) => {
            push_u16(out, #[verifier::truncate] (v.len() as u16));
            write_inner_class_list(out, v);
        },
        _ => {},
    }
    assert(out@ =~= start + ser_payload(pool@, *a));
    Ok(())
}

/// Reads the payload of a `LineNumberTable` attribute.
fn parse_line_number_table(pool: &Vec<Constant>, r: &mut ByteReader, depth: u32, t: Ghost<Attribute>) -> (res: Result<Attribute, JavaError>)
    requires
        old(r).wf(),
    ensures
        old(r).moved_to(*final(r)),
        final(r).canonical ==> old(r).canonical,
        res matches Ok(a) ==> a is LineNumberTable && (final(r).canonical ==> old(r).span(*final(r)) == ser_payload(pool@, a)),
        old(r).offers(ser_payload(pool@, t@)) && old(r).remaining() == ser_payload(pool@, t@).len() && t@ is LineNumberTable
            && readable_payload(pool@, t@, depth as nat) ==> (res is Ok && old(r).took(*final(r), ser_payload(pool@, t@))),
{
    let ghost at0 = *r;
    let ghost pre = r.offers(ser_payload(pool@, t@)) && r.remaining() == ser_payload(pool@, t@).len() && t@ is LineNumberTable && readable_payload(pool@, t@, depth as nat);
    proof { if pre { lemma_line_number_table_pieces(r.data@, r.pos as int, pool@, t@); } }
    let v_count = r.read_u16()?;
    proof { if pre { assert(at0.span(*r) =~= r.data@.subrange(at0.pos as int, at0.pos + 2)); lemma_be_u16_injective(v_count, #[verifier::truncate] (t@->LineNumberTable_0@.len() as u16)); } }
    let ghost at1 = *r;
    let v = read_line_number_list(r, v_count as usize, Ghost(t@->LineNumberTable_0@))?;
    let ghost at2 = *r;
    let a = Attribute::LineNumberTable(v);
    proof {
        lemma_span_split(r.data@, at0.pos as int, at1.pos as int, r.pos as int);
        if r.canonical {
            assert(at0.span(*r) =~= at0.span(at1) + at1.span(at2));
            assert(at0.span(*r) =~= ser_payload(pool@, a));
        }
    }
    Ok(a)
}

/// Writes the payload of a `LineNumberTable` attribute.
fn write_line_number_table(pool: &Vec<Constant>, out: &mut Vec<u8>, a: &Attribute) -> (res: Result<(), JavaError>)
    requires
        a is LineNumberTable,
    ensures
        res is Ok <==> payload_writable(pool@, *a),
        res is Ok ==> final(out)@ == old(out)@ + ser_payload(pool@, *a),
{
    let ghost start = out@;
    match a {
        Attribute::LineNumberTable(v) => {
            push_u16(out, #[verifier::truncate] (v.len() as u16));
            write_line_number_list(out, v);
        },
        _ => {},
    }
    assert(out@ =~= start + ser_payload(pool@, *a));
    Ok(())
}

/// Reads the payload of a `LocalVariableTable` attribute.
fn parse_local_variable_table(pool: &Vec<Constant>, r: &mut ByteReader, depth: u32, t: Ghost<Attribute>) -> (res: Result<Attribute, JavaError>)
    requires
        old(r).wf(),
    ensures
        old(r).moved_to(*final(r)),
        final(r).canonical ==> old(r).canonical,
        res matches Ok(a) ==> a is LocalVariableTable && (final(r).canonical ==> old(r).span(*final(r)) == ser_payload(pool@, a)),
        old(r).offers(ser_payload(pool@, t@)) && old(r).remaining() == ser_payload(pool@, t@).len() && t@ is LocalVariableTable
            && readable_payload(pool@, t@, depth as nat) ==> (res is Ok && old(r).took(*final(r), ser_payload(pool@, t@))),
{
    let ghost at0 = *r;
    let ghost pre = r.offers(ser_payload(pool@, t@)) && r.remaining() == ser_payload(pool@, t@).len() && t@ is LocalVariableTable && readable_payload(pool@, t@, depth as nat);
    proof { if pre { lemma_local_variable_table_pieces(r.data@, r.pos as int, pool@, t@); } }
    let v_count = r.read_u16()?;
    proof { if pre { assert(at0.span(*r) =~= r.data@.subrange(at0.pos as int, at0.pos + 2)); lemma_be_u16_injective(v_count, #[verifier::truncate] (t@->LocalVariableTable_0@.len() as u16)); } }
    let ghost at1 = *r;
    let v = read_local_variable_list(r, v_count as usize, Ghost(t@->LocalVariableTable_0@))?;
    let ghost at2 = *r;
    let a = Attribute::LocalVariableTable(v);
    proof {
        lemma_span_split(r.data@, at0.pos as int, at1.pos as int, r.pos as int);
        if r.canonical {
            assert(at0.span(*r) =~= at0.span(at1) + at1.span(at2));
            assert(at0.span(*r) =~= ser_payload(pool@, a));
        }
    }
    Ok(a)
}

/// Writes the payload of a `LocalVariableTable` attribute.
fn write_local_variable_table(pool: &Vec<Constant>, out: &mut Vec<u8>, a: &Attribute) -> (res: Result<(), JavaError>)
    requires
        a is LocalVariableTable,
    ensures
        res is Ok <==> payload_writable(pool@, *a),
        res is Ok ==> final(out)@ == old(out)@ + ser_payload(pool@, *a),
{
    let ghost start = out@;
    match a {
        Attribute::LocalVariableTable(v) => {
            push_u16(out, #[verifier::truncate] (v.len() as u16));
            write_local_variable_list(out, v);
        },
        _ => {},
    }
    assert(out@ =~= start + ser_payload(pool@, *a));
    Ok(())
}

/// Reads the payload of a `LocalVariableTypeTable` attribute.
fn parse_local_variable_type_table(pool: &Vec<Constant>, r: &mut ByteReader, depth: u32, t: Ghost<Attribute>) -> (res: Result<Attribute, JavaError>)
    requires
        old(r).wf(),
    ensures
        old(r).moved_to(*final(r)),
        final(r).canonical ==> old(r).canonical,
        res matches Ok(a) ==> a is LocalVariableTypeTable && (final(r).canonical ==> old(r).span(*final(r)) == ser_payload(pool@, a)),
        old(r).offers(ser_payload(pool@, t@)) && old(r).remaining() == ser_payload(pool@, t@).len() && t@ is LocalVariableTypeTable
            && readable_payload(pool@, t@, depth as nat) ==> (res is Ok && old(r).took(*final(r), ser_payload(pool@, t@))),
{
    let ghost at0 = *r;
    let ghost pre = r.offers(ser_payload(pool@, t@)) && r.remaining() == ser_payload(pool@, t@).len() && t@ is LocalVariableTypeTable && readable_payload(pool@, t@, depth as nat);
    proof { if pre { lemma_local_variable_type_table_pieces(r.data@, r.pos as int, pool@, t@); } }
    let v_count = r.read_u16()?;
    proof { if pre { assert(at0.span(*r) =~= r.data@.subrange(at0.pos as int, at0.pos + 2)); lemma_be_u16_injective(v_count, #[verifier::truncate] (t@->LocalVariableTypeTable_0@.len() as u16)); } }
    let ghost at1 = *r;
    let v = read_local_variable_type_list(r, v_count as usize, Ghost(t@->LocalVariableTypeTable_0@))?;
    let ghost at2 = *r;
    let a = Attribute::LocalVariableTypeTable(v);
    proof {
        lemma_span_split(r.data@, at0.pos as int, at1.pos as int, r.pos as int);
        if r.canonical {
            assert(at0.span(*r) =~= at0.span(at1) + at1.span(at2));
            assert(at0.span(*r) =~= ser_payload(pool@, a));
        }
    }
    Ok(a)
}

/// Writes the payload of a `LocalVariableTypeTable` attribute.
fn write_local_variable_type_table(pool: &Vec<Constant>, out: &mut Vec<u8>, a: &Attribute) -> (res: Result<(), JavaError>)
    requires
        a is LocalVariableTypeTable,
    ensures
        res is Ok <==> payload_writable(pool@, *a),
        res is Ok ==> final(out)@ == old(out)@ + ser_payload(pool@, *a),
{
    let ghost start = out@;
    match a {
        Attribute::LocalVariableTypeTable(v) => {
            push_u16(out, #[verifier::truncate] (v.len() as u16));
            write_local_variable_type_list(out, v);
        },
        _ => {},
    }
    assert(out@ =~= start + ser_payload(pool@, *a));
    Ok(())
}

/// Reads the payload of a `MethodParameters` attribute.
fn parse_method_parameters(pool: &Vec<Constant>, r: &mut ByteReader, depth: u32, t: Ghost<Attribute>) -> (res: Result<Attribute, JavaError>)
    requires
        old(r).wf(),
    ensures
        old(r).moved_to(*final(r)),
        final(r).canonical ==> old(r).canonical,
        res matches Ok(a) ==> a is MethodParameters && (final(r).canonical ==> old(r).span(*final(r)) == ser_payload(pool@, a)),
        old(r).offers(ser_payload(pool@, t@)) && old(r).remaining() == ser_payload(pool@, t@).len() && t@ is MethodParameters
            && readable_payload(pool@, t@, depth as nat) ==> (res is Ok && old(r).took(*final(r), ser_payload(pool@, t@))),
{
    let ghost at0 = *r;
    let ghost pre = r.offers(ser_payload(pool@, t@)) && r.remaining() == ser_payload(pool@, t@).len() && t@ is MethodParameters && readable_payload(pool@, t@, depth as nat);
    proof { if pre { lemma_method_parameters_pieces(r.data@, r.pos as int, pool@, t@); } }
    let v_count = r.read_u8()?;
    proof { if pre { assert(at0.span(*r) =~= r.data@.subrange(at0.pos as int, at0.pos + 1)); assert(at0.span(*r)[0] == seq![#[verifier::truncate] (t@->MethodParameters_0@.len() as u8)][0]); } }
    let ghost at1 = *r;
    let v = read_method_parameter_list(r, v_count as usize, Ghost(t@->MethodParameters_0@))?;
    let ghost at2 = *r;
    let a = Attribute::MethodParameters(v);
    proof {
        lemma_span_split(r.data@, at0.pos as int, at1.pos as int, r.pos as int);
        if r.canonical {
            assert(at0.span(*r) =~= at0.span(at1) + at1.span(at2));
            assert(at0.span(*r) =~= ser_payload(pool@, a));
        }
    }
    Ok(a)
}

/// Writes the payload of a `MethodParameters` attribute.
fn write_method_parameters(pool: &Vec<Constant>, out: &mut Vec<u8>, a: &Attribute) -> (res: Result<(), JavaError>)
    requires
        a is MethodParameters,
    ensures
        res is Ok <==> payload_writable(pool@, *a),
        res is Ok ==> final(out)@ == old(out)@ + ser_payload(pool@, *a),
{
    let ghost start = out@;
    match a {
        Attribute::MethodParameters(v) => {
            push_u8(out, #[verifier::truncate] (v.len() as u8));
            write_method_parameter_list(out, v);
        },
        _ => {},
    }
    assert(out@ =~= start + ser_payload(pool@, *a));
    Ok(())
}

/// Reads the payload of a `Module` attribute.
#[verifier::rlimit(100)]
#[verifier::spinoff_prover]
fn parse_module(pool: &Vec<Constant>, r: &mut ByteReader, depth: u32, t: Ghost<Attribute>) -> (res: Result<Attribute, JavaError>)
    requires
        old(r).wf(),
    ensures
        old(r).moved_to(*final(r)),
        final(r).canonical ==> old(r).canonical,
        res matches Ok(a) ==> a is Module && (final(r).canonical ==> old(r).span(*final(r)) == ser_payload(pool@, a)),
        old(r).offers(ser_payload(pool@, t@)) && old(r).remaining() == ser_payload(pool@, t@).len() && t@ is Module
            && readable_payload(pool@, t@, depth as nat) ==> (res is Ok && old(r).took(*final(r), ser_payload(pool@, t@))),
{
    let ghost at0 = *r;
    let ghost pre = r.offers(ser_payload(pool@, t@)) && r.remaining() == ser_payload(pool@, t@).len() && t@ is Module && readable_payload(pool@, t@, depth as nat);
    proof { if pre { lemma_module_pieces(r.data@, r.pos as int, pool@, t@); } }
    let module_name_index = r.read_u16()?;
    let ghost at1 = *r;
    let module_flags = read_flags(r, FlagContext::Module, Ghost(t@->Module_module_flags@))?;
    let ghost at2 = *r;
    let module_version_index = r.read_u16()?;
    let ghost at3 = *r;
    let module_requires_count = r.read_u16()?;
    proof { if pre { assert(at3.span(*r) =~= r.data@.subrange(at3.pos as int, at3.pos + 2)); lemma_be_u16_injective(module_requires_count, #[verifier::truncate] (t@->Module_module_requires@.len() as u16)); } }
    let ghost at4 = *r;
    let module_requires = read_module_requires_list(r, module_requires_count as usize, Ghost(t@->Module_module_requires@))?;
    let ghost at5 = *r;
    let exports_count = r.read_u16()?;
    proof { if pre { assert(at5.span(*r) =~= r.data@.subrange(at5.pos as int, at5.pos + 2)); lemma_be_u16_injective(exports_count, #[verifier::truncate] (t@->Module_exports@.len() as u16)); } }
    let ghost at6 = *r;
    let exports = read_module_exports_list(r, exports_count as usize, Ghost(t@->Module_exports@))?;
    let ghost at7 = *r;
    let opens_count = r.read_u16()?;
    proof { if pre { assert(at7.span(*r) =~= r.data@.subrange(at7.pos as int, at7.pos + 2)); lemma_be_u16_injective(opens_count, #[verifier::truncate] (t@->Module_opens@.len() as u16)); } }
    let ghost at8 = *r;
    let opens = read_module_opens_list(r, opens_count as usize, Ghost(t@->Module_opens@))?;
    let ghost at9 = *r;
    let uses_count = r.read_u16()?;
    proof { if pre { assert(at9.span(*r) =~= r.data@.subrange(at9.pos as int, at9.pos + 2)); lemma_be_u16_injective(uses_count, #[verifier::truncate] (t@->Module_uses@.len() as u16)); } }
    let ghost at10 = *r;
    proof { if pre { lemma_ser_u16s_len(t@->Module_uses@); } }
    let uses = read_u16s(r, uses_count as usize)?;
    let ghost at11 = *r;
    let provides_count = r.read_u16()?;
    proof { if pre { assert(at11.span(*r) =~= r.data@.subrange(at11.pos as int, at11.pos + 2)); lemma_be_u16_injective(provides_count, #[verifier::truncate] (t@->Module_provides@.len() as u16)); } }
    let ghost at12 = *r;
    let provides = read_module_provides_list(r, provides_count as usize, Ghost(t@->Module_provides@))?;
    let ghost at13 = *r;
    let a = Attribute::Module { module_name_index, module_flags, module_version_index, module_requires, exports, opens, uses, provides };
    proof {
        lemma_span_split(r.data@, at0.pos as int, at12.pos as int, r.pos as int);
        lemma_span_split(r.data@, at0.pos as int, at11.pos as int, r.pos as int);
        lemma_span_split(r.data@, at0.pos as int, at10.pos as int, r.pos as int);
        lemma_span_split(r.data@, at0.pos as int, at9.pos as int, r.pos as int);
        lemma_span_split(r.data@, at0.pos as int, at8.pos as int, r.pos as int);
        lemma_span_split(r.data@, at0.pos as int, at7.pos as int, r.pos as int);
        lemma_span_split(r.data@, at0.pos as int, at6.pos as int, r.pos as int);
        lemma_span_split(r.data@, at0.pos as int, at5.pos as int, r.pos as int);
        lemma_span_split(r.data@, at0.pos as int, at4.pos as int, r.pos as int);
        lemma_span_split(r.data@, at0.pos as int, at3.pos as int, r.pos as int);
        lemma_span_split(r.data@, at0.pos as int, at2.pos as int, r.pos as int);
        lemma_span_split(r.data@, at0.pos as int, at1.pos as int, r.pos as int);
        if r.canonical {
            assert(at0.span(*r) =~= at0.span(at1) + at1.span(at2) + at2.span(at3) + at3.span(at4) + at4.span(at5) + at5.span(at6) + at6.span(at7) + at7.span(at8) + at8.span(at9) + at9.span(at10) + at10.span(at11) + at11.span(at12) + at12.span(at13));
            assert(at0.span(*r) =~= ser_payload(pool@, a));
        }
    }
    Ok(a)
}

/// Writes the payload of a `Module` attribute.
#[verifier::rlimit(60)]
fn write_module(pool: &Vec<Constant>, out: &mut Vec<u8>, a: &Attribute) -> (res: Result<(), JavaError>)
    requires
        a is Module,
    ensures
        res is Ok <==> payload_writable(pool@, *a),
        res is Ok ==> final(out)@ == old(out)@ + ser_payload(pool@, *a),
{
    let ghost start = out@;
    match a {
        Attribute::Module { module_name_index, module_flags, module_version_index, module_requires, exports, opens, uses, provides } => {
            push_u16(out, *module_name_index);
            push_u16(out, compact_flags(module_flags, FlagContext::Module));
            push_u16(out, *module_version_index);
            push_u16(out, #[verifier::truncate] (module_requires.len() as u16));
            write_module_requires_list(out, module_requires);
            push_u16(out, #[verifier::truncate] (exports.len() as u16));
            write_module_exports_list(out, exports);
            push_u16(out, #[verifier::truncate] (opens.len() as u16));
            write_module_opens_list(out, opens);
            push_u16(out, #[verifier::truncate] (uses.len() as u16));
            write_u16s(out, uses);
            push_u16(out, #[verifier::truncate] (provides.len() as u16));
            write_module_provides_list(out, provides);
        },
        _ => {},
    }
    assert(out@ =~= start + ser_payload(pool@, *a));
    Ok(())
}

/// Reads the payload of a `ModuleMainClass` attribute.
fn parse_module_main_class(pool: &Vec<Constant>, r: &mut ByteReader, depth: u32, t: Ghost<Attribute>) -> (res: Result<Attribute, JavaError>)
    requires
        old(r).wf(),
    ensures
        old(r).moved_to(*final(r)),
        final(r).canonical ==> old(r).canonical,
        res matches Ok(a) ==> a is ModuleMainClass && (final(r).canonical ==> old(r).span(*final(r)) == ser_payload(pool@, a)),
        old(r).offers(ser_payload(pool@, t@)) && old(r).remaining() == ser_payload(pool@, t@).len() && t@ is ModuleMainClass
            && readable_payload(pool@, t@, depth as nat) ==> (res is Ok && old(r).took(*final(r), ser_payload(pool@, t@))),
{
    let ghost at0 = *r;
    let ghost pre = r.offers(ser_payload(pool@, t@)) && r.remaining() == ser_payload(pool@, t@).len() && t@ is ModuleMainClass && readable_payload(pool@, t@, depth as nat);
    proof { if pre { lemma_module_main_class_pieces(r.data@, r.pos as int, pool@, t@); } }
    let v = r.read_u16()?;
    let ghost at1 = *r;
    let a = Attribute::ModuleMainClass(v);
    proof {
        if r.canonical {
            assert(at0.span(*r) =~= at0.span(at1));
            assert(at0.span(*r) =~= ser_payload(pool@, a));
        }
    }
    Ok(a)
}

/// Writes the payload of a `ModuleMainClass` attribute.
fn write_module_main_class(pool: &Vec<Constant>, out: &mut Vec<u8>, a: &Attribute) -> (res: Result<(), JavaError>)
    requires
        a is ModuleMainClass,
    ensures
        res is Ok <==> payload_writable(pool@, *a),
        res is Ok ==> final(out)@ == old(out)@ + ser_payload(pool@, *a),
{
    let ghost start = out@;
    match a {
        Attribute::ModuleMainClass(v) => {
            push_u16(out, *v);
        },
        _ => {},
    }
    assert(out@ =~= start + ser_payload(pool@, *a));
    Ok(())
}

/// Reads the payload of a `ModulePackages` attribute.
fn parse_module_packages(pool: &Vec<Constant>, r: &mut ByteReader, depth: u32, t: Ghost<Attribute>) -> (res: Result<Attribute, JavaError>)
    requires
        old(r).wf(),
    ensures
        old(r).moved_to(*final(r)),
        final(r).canonical ==> old(r).canonical,
        res matches Ok(a) ==> a is ModulePackages && (final(r).canonical ==> old(r).span(*final(r)) == ser_payload(pool@, a)),
        old(r).offers(ser_payload(pool@, t@)) && old(r).remaining() == ser_payload(pool@, t@).len() && t@ is ModulePackages
            && readable_payload(pool@, t@, depth as nat) ==> (res is Ok && old(r).took(*final(r), ser_payload(pool@, t@))),
{
    let ghost at0 = *r;
    let ghost pre = r.offers(ser_payload(pool@, t@)) && r.remaining() == ser_payload(pool@, t@).len() && t@ is ModulePackages && readable_payload(pool@, t@, depth as nat);
    proof { if pre { lemma_module_packages_pieces(r.data@, r.pos as int, pool@, t@); } }
    let v_count = r.read_u16()?;
    proof { if pre { assert(at0.span(*r) =~= r.data@.subrange(at0.pos as int, at0.pos + 2)); lemma_be_u16_injective(v_count, #[verifier::truncate] (t@->ModulePackages_0@.len() as u16)); } }
    let ghost at1 = *r;
    proof { if pre { lemma_ser_u16s_len(t@->ModulePackages_0@); } }
    let v = read_u16s(r, v_count as usize)?;
    let ghost at2 = *r;
    let a = Attribute::ModulePackages(v);
    proof {
        lemma_span_split(r.data@, at0.pos as int, at1.pos as int, r.pos as int);
        if r.canonical {
            assert(at0.span(*r) =~= at0.span(at1) + at1.span(at2));
            assert(at0.span(*r) =~= ser_payload(pool@, a));
        }
    }
    Ok(a)
}

/// Writes the payload of a `ModulePackages` attribute.
fn write_module_packages(pool: &Vec<Constant>, out: &mut Vec<u8>, a: &Attribute) -> (res: Result<(), JavaError>)
    requires
        a is ModulePackages,
    ensures
        res is Ok <==> payload_writable(pool@, *a),
        res is Ok ==> final(out)@ == old(out)@ + ser_payload(pool@, *a),
{
    let ghost start = out@;
    match a {
        Attribute::ModulePackages(v) => {
            push_u16(out, #[verifier::truncate] (v.len() as u16));
            write_u16s(out, v);
        },
        _ => {},
    }
    assert(out@ =~= start + ser_payload(pool@, *a));
    Ok(())
}

/// Reads the payload of a `NestHost` attribute.
fn parse_nest_host(pool: &Vec<Constant>, r: &mut ByteReader, depth: u32, t: Ghost<Attribute>) -> (res: Result<Attribute, JavaError>)
    requires
        old(r).wf(),
    ensures
        old(r).moved_to(*final(r)),
        final(r).canonical ==> old(r).canonical,
        res matches Ok(a) ==> a is NestHost && (final(r).canonical ==> old(r).span(*final(r)) == ser_payload(pool@, a)),
        old(r).offers(ser_payload(pool@, t@)) && old(r).remaining() == ser_payload(pool@, t@).len() && t@ is NestHost
            && readable_payload(pool@, t@, depth as nat) ==> (res is Ok && old(r).took(*final(r), ser_payload(pool@, t@))),
{
    let ghost at0 = *r;
    let ghost pre = r.offers(ser_payload(pool@, t@)) && r.remaining() == ser_payload(pool@, t@).len() && t@ is NestHost && readable_payload(pool@, t@, depth as nat);
    proof { if pre { lemma_nest_host_pieces(r.data@, r.pos as int, pool@, t@); } }
    let v = r.read_u16()?;
    let ghost at1 = *r;
    let a = Attribute::NestHost(v);
    proof {
        if r.canonical {
            assert(at0.span(*r) =~= at0.span(at1));
            assert(at0.span(*r) =~= ser_payload(pool@, a));
        }
    }
    Ok(a)
}

/// Writes the payload of a `NestHost` attribute.
fn write_nest_host(pool: &Vec<Constant>, out: &mut Vec<u8>, a: &Attribute) -> (res: Result<(), JavaError>)
    requires
        a is NestHost,
    ensures
        res is Ok <==> payload_writable(pool@, *a),
        res is Ok ==> final(out)@ == old(out)@ + ser_payload(pool@, *a),
{
    let ghost start = out@;
    match a {
        Attribute::NestHost(v) => {
            push_u16(out, *v);
        },
        _ => {},
    }
    assert(out@ =~= start + ser_payload(pool@, *a));
    Ok(())
}

/// Reads the payload of a `NestMembers` attribute.
fn parse_nest_members(pool: &Vec<Constant>, r: &mut ByteReader, depth: u32, t: Ghost<Attribute>) -> (res: Result<Attribute, JavaError>)
    requires
        old(r).wf(),
    ensures
        old(r).moved_to(*final(r)),
        final(r).canonical ==> old(r).canonical,
        res matches Ok(a) ==> a is NestMembers && (final(r).canonical ==> old(r).span(*final(r)) == ser_payload(pool@, a)),
        old(r).offers(ser_payload(pool@, t@)) && old(r).remaining() == ser_payload(pool@, t@).len() && t@ is NestMembers
            && readable_payload(pool@, t@, depth as nat) ==> (res is Ok && old(r).took(*final(r), ser_payload(pool@, t@))),
{
    let ghost at0 = *r;
    let ghost pre = r.offers(ser_payload(pool@, t@)) && r.remaining() == ser_payload(pool@, t@).len() && t@ is NestMembers && readable_payload(pool@, t@, depth as nat);
    proof { if pre { lemma_nest_members_pieces(r.data@, r.pos as int, pool@, t@); } }
    let v_count = r.read_u16()?;
    proof { if pre { assert(at0.span(*r) =~= r.data@.subrange(at0.pos as int, at0.pos + 2)); lemma_be_u16_injective(v_count, #[verifier::truncate] (t@->NestMembers_0@.len() as u16)); } }
    let ghost at1 = *r;
    proof { if pre { lemma_ser_u16s_len(t@->NestMembers_0@); } }
    let v = read_u16s(r, v_count as usize)?;
    let ghost at2 = *r;
    let a = Attribute::NestMembers(v);
    proof {
        lemma_span_split(r.data@, at0.pos as int, at1.pos as int, r.pos as int);
        if r.canonical {
            assert(at0.span(*r) =~= at0.span(at1) + at1.span(at2));
            assert(at0.span(*r) =~= ser_payload(pool@, a));
        }
    }
    Ok(a)
}

/// Writes the payload of a `NestMembers` attribute.
fn write_nest_members(pool: &Vec<Constant>, out: &mut Vec<u8>, a: &Attribute) -> (res: Result<(), JavaError>)
    requires
        a is NestMembers,
    ensures
        res is Ok <==> payload_writable(pool@, *a),
        res is Ok ==> final(out)@ == old(out)@ + ser_payload(pool@, *a),
{
    let ghost start = out@;
    match a {
        Attribute::NestMembers(v) => {
            push_u16(out, #[verifier::truncate] (v.len() as u16));
            write_u16s(out, v);
        },
        _ => {},
    }
    assert(out@ =~= start + ser_payload(pool@, *a));
    Ok(())
}

/// Reads the payload of a `PermittedSubclasses` attribute.
fn parse_permitted_subclasses(pool: &Vec<Constant>, r: &mut ByteReader, depth: u32, t: Ghost<Attribute>) -> (res: Result<Attribute, JavaError>)
    requires
        old(r).wf(),
    ensures
        old(r).moved_to(*final(r)),
        final(r).canonical ==> old(r).canonical,
        res matches Ok(a) ==> a is PermittedSubclasses && (final(r).canonical ==> old(r).span(*final(r)) == ser_payload(pool@, a)),
        old(r).offers(ser_payload(pool@, t@)) && old(r).remaining() == ser_payload(pool@, t@).len() && t@ is PermittedSubclasses
            && readable_payload(pool@, t@, depth as nat) ==> (res is Ok && old(r).took(*final(r), ser_payload(pool@, t@))),
{
    let ghost at0 = *r;
    let ghost pre = r.offers(ser_payload(pool@, t@)) && r.remaining() == ser_payload(pool@, t@).len() && t@ is PermittedSubclasses && readable_payload(pool@, t@, depth as nat);
    proof { if pre { lemma_permitted_subclasses_pieces(r.data@, r.pos as int, pool@, t@); } }
    let v_count = r.read_u16()?;
    proof { if pre { assert(at0.span(*r) =~= r.data@.subrange(at0.pos as int, at0.pos + 2)); lemma_be_u16_injective(v_count, #[verifier::truncate] (t@->PermittedSubclasses_0@.len() as u16)); } }
    let ghost at1 = *r;
    proof { if pre { lemma_ser_u16s_len(t@->PermittedSubclasses_0@); } }
    let v = read_u16s(r, v_count as usize)?;
    let ghost at2 = *r;
    let a = Attribute::PermittedSubclasses(v);
    proof {
        lemma_span_split(r.data@, at0.pos as int, at1.pos as int, r.pos as int);
        if r.canonical {
            assert(at0.span(*r) =~= at0.span(at1) + at1.span(at2));
            assert(at0.span(*r) =~= ser_payload(pool@, a));
        }
    }
    Ok(a)
}

/// Writes the payload of a `PermittedSubclasses` attribute.
fn write_permitted_subclasses(pool: &Vec<Constant>, out: &mut Vec<u8>, a: &Attribute) -> (res: Result<(), JavaError>)
    requires
        a is PermittedSubclasses,
    ensures
        res is Ok <==> payload_writable(pool@, *a),
        res is Ok ==> final(out)@ == old(out)@ + ser_payload(pool@, *a),
{
    let ghost start = out@;
    match a {
        Attribute::PermittedSubclasses(v) => {
            push_u16(out, #[verifier::truncate] (v.len() as u16));
            write_u16s(out, v);
        },
        _ => {},
    }
    assert(out@ =~= start + ser_payload(pool@, *a));
    Ok(())
}

/// Reads the payload of a `Record` attribute.
#[verifier::rlimit(100)]
#[verifier::spinoff_prover]
fn parse_record(pool: &Vec<Constant>, r: &mut ByteReader, depth: u32, t: Ghost<Attribute>) -> (res: Result<Attribute, JavaError>)
    requires
        old(r).wf(),
    ensures
        old(r).moved_to(*final(r)),
        final(r).canonical ==> old(r).canonical,
        res matches Ok(a) ==> a is Record && (final(r).canonical ==> payload_writable(pool@, a)) && (final(r).canonical ==> old(r).span(*final(r)) == ser_payload(pool@, a)),
        old(r).offers(ser_payload(pool@, t@)) && old(r).remaining() == ser_payload(pool@, t@).len() && t@ is Record
            && readable_payload(pool@, t@, depth as nat) ==> (res is Ok && old(r).took(*final(r), ser_payload(pool@, t@))),
    decreases old(r).remaining(), 3int,
{
    if depth == 0 {
        return Err(JavaError::Malformed);
    }
    let ghost at0 = *r;
    let ghost pre = r.offers(ser_payload(pool@, t@)) && r.remaining() == ser_payload(pool@, t@).len() && t@ is Record && readable_payload(pool@, t@, depth as nat);
    proof { if pre { lemma_record_pieces(r.data@, r.pos as int, pool@, t@); } }
    let components_count = r.read_u16()?;
    proof { if pre { assert(at0.span(*r) =~= r.data@.subrange(at0.pos as int, at0.pos + 2)); lemma_be_u16_injective(components_count, #[verifier::truncate] (t@->Record_0@.len() as u16)); } }
    let ghost at1 = *r;
    let components = read_record_components(pool, r, components_count as usize, depth - 1, Ghost(t@->Record_0@))?;
    let ghost at2 = *r;
    let a = Attribute::Record(components);
    proof {
        lemma_span_split(r.data@, at0.pos as int, at1.pos as int, r.pos as int);
        if r.canonical {
            assert(at0.span(*r) =~= at0.span(at1) + at1.span(at2));
            assert(at0.span(*r) =~= ser_payload(pool@, a));
        }
    }
    Ok(a)
}

/// Writes the payload of a `Record` attribute.
fn write_record(pool: &Vec<Constant>, out: &mut Vec<u8>, a: &Attribute) -> (res: Result<(), JavaError>)
    requires
        a is Record,
    ensures
        res is Ok <==> payload_writable(pool@, *a),
        res is Ok ==> final(out)@ == old(out)@ + ser_payload(pool@, *a),
    decreases a, 0int,
{
    let ghost start = out@;
    match a {
        Attribute::Record(components) => {
            push_u16(out, #[verifier::truncate] (components.len() as u16));
            write_record_components(pool, out, components)?;
        },
        _ => {},
    }
    assert(out@ =~= start + ser_payload(pool@, *a));
    Ok(())
}

/// Reads the payload of a `RuntimeInvisibleAnnotations` attribute.
fn parse_runtime_invisible_annotations(pool: &Vec<Constant>, r: &mut ByteReader, depth: u32, t: Ghost<Attribute>) -> (res: Result<Attribute, JavaError>)
    requires
        old(r).wf(),
    ensures
        old(r).moved_to(*final(r)),
        final(r).canonical ==> old(r).canonical,
        res matches Ok(a) ==> a is RuntimeInvisibleAnnotations && (final(r).canonical ==> old(r).span(*final(r)) == ser_payload(pool@, a)),
        old(r).offers(ser_payload(pool@, t@)) && old(r).remaining() == ser_payload(pool@, t@).len() && t@ is RuntimeInvisibleAnnotations
            && readable_payload(pool@, t@, depth as nat) ==> (res is Ok && old(r).took(*final(r), ser_payload(pool@, t@))),
{
    let ghost at0 = *r;
    let ghost pre = r.offers(ser_payload(pool@, t@)) && r.remaining() == ser_payload(pool@, t@).len() && t@ is RuntimeInvisibleAnnotations && readable_payload(pool@, t@, depth as nat);
    proof { if pre { lemma_runtime_invisible_annotations_pieces(r.data@, r.pos as int, pool@, t@); } }
    let v_count = r.read_u16()?;
    proof { if pre { assert(at0.span(*r) =~= r.data@.subrange(at0.pos as int, at0.pos + 2)); lemma_be_u16_injective(v_count, #[verifier::truncate] (t@->RuntimeInvisibleAnnotations_0@.len() as u16)); } }
    let ghost at1 = *r;
    let v = read_annotation_list(r, v_count as usize, Ghost(t@->RuntimeInvisibleAnnotations_0@))?;
    let ghost at2 = *r;
    let a = Attribute::RuntimeInvisibleAnnotations(v);
    proof {
        lemma_span_split(r.data@, at0.pos as int, at1.pos as int, r.pos as int);
        if r.canonical {
            assert(at0.span(*r) =~= at0.span(at1) + at1.span(at2));
            assert(at0.span(*r) =~= ser_payload(pool@, a));
        }
    }
    Ok(a)
}

/// Writes the payload of a `RuntimeInvisibleAnnotations` attribute.
fn write_runtime_invisible_annotations(pool: &Vec<Constant>, out: &mut Vec<u8>, a: &Attribute) -> (res: Result<(), JavaError>)
    requires
        a is RuntimeInvisibleAnnotations,
    ensures
        res is Ok <==> payload_writable(pool@, *a),
        res is Ok ==> final(out)@ == old(out)@ + ser_payload(pool@, *a),
{
    let ghost start = out@;
    match a {
        Attribute::RuntimeInvisibleAnnotations(v) => {
            push_u16(out, #[verifier::truncate] (v.len() as u16));
            write_annotation_list(out, v);
        },
        _ => {},
    }
    assert(out@ =~= start + ser_payload(pool@, *a));
    Ok(())
}

/// Reads the payload of a `RuntimeInvisibleParameterAnnotations` attribute.
fn parse_runtime_invisible_parameter_annotations(pool: &Vec<Constant>, r: &mut ByteReader, depth: u32, t: Ghost<Attribute>) -> (res: Result<Attribute, JavaError>)
    requires
        old(r).wf(),
    ensures
        old(r).moved_to(*final(r)),
        final(r).canonical ==> old(r).canonical,
        res matches Ok(a) ==> a is RuntimeInvisibleParameterAnnotations && (final(r).canonical ==> old(r).span(*final(r)) == ser_payload(pool@, a)),
        old(r).offers(ser_payload(pool@, t@)) && old(r).remaining() == ser_payload(pool@, t@).len() && t@ is RuntimeInvisibleParameterAnnotations
            && readable_payload(pool@, t@, depth as nat) ==> (res is Ok && old(r).took(*final(r), ser_payload(pool@, t@))),
{
    let ghost at0 = *r;
    let ghost pre = r.offers(ser_payload(pool@, t@)) && r.remaining() == ser_payload(pool@, t@).len() && t@ is RuntimeInvisibleParameterAnnotations && readable_payload(pool@, t@, depth as nat);
    proof { if pre { lemma_runtime_invisible_parameter_annotations_pieces(r.data@, r.pos as int, pool@, t@); } }
    let v_count = r.read_u8()?;
    proof { if pre { assert(at0.span(*r) =~= r.data@.subrange(at0.pos as int, at0.pos + 1)); assert(at0.span(*r)[0] == seq![#[verifier::truncate] (t@->RuntimeInvisibleParameterAnnotations_0@.len() as u8)][0]); } }
    let ghost at1 = *r;
    let v = read_parameter_annotations_list(r, v_count as usize, Ghost(t@->RuntimeInvisibleParameterAnnotations_0@))?;
    let ghost at2 = *r;
    let a = Attribute::RuntimeInvisibleParameterAnnotations(v);
    proof {
        lemma_span_split(r.data@, at0.pos as int, at1.pos as int, r.pos as int);
        if r.canonical {
            assert(at0.span(*r) =~= at0.span(at1) + at1.span(at2));
            assert(at0.span(*r) =~= ser_payload(pool@, a));
        }
    }
    Ok(a)
}

/// Writes the payload of a `RuntimeInvisibleParameterAnnotations` attribute.
fn write_runtime_invisible_parameter_annotations(pool: &Vec<Constant>, out: &mut Vec<u8>, a: &Attribute) -> (res: Result<(), JavaError>)
    requires
        a is RuntimeInvisibleParameterAnnotations,
    ensures
        res is Ok <==> payload_writable(pool@, *a),
        res is Ok ==> final(out)@ == old(out)@ + ser_payload(pool@, *a),
{
    let ghost start = out@;
    match a {
        Attribute::RuntimeInvisibleParameterAnnotations(v) => {
            push_u8(out, #[verifier::truncate] (v.len() as u8));
            write_parameter_annotations_list(out, v);
        },
        _ => {},
    }
    assert(out@ =~= start + ser_payload(pool@, *a));
    Ok(())
}

/// Reads the payload of a `RuntimeInvisibleTypeAnnotations` attribute.
fn parse_runtime_invisible_type_annotations(pool: &Vec<Constant>, r: &mut ByteReader, depth: u32, t: Ghost<Attribute>) -> (res: Result<Attribute, JavaError>)
    requires
        old(r).wf(),
    ensures
        old(r).moved_to(*final(r)),
        final(r).canonical ==> old(r).canonical,
        res matches Ok(a) ==> a is RuntimeInvisibleTypeAnnotations && (final(r).canonical ==> old(r).span(*final(r)) == ser_payload(pool@, a)),
        old(r).offers(ser_payload(pool@, t@)) && old(r).remaining() == ser_payload(pool@, t@).len() && t@ is RuntimeInvisibleTypeAnnotations
            && readable_payload(pool@, t@, depth as nat) ==> (res is Ok && old(r).took(*final(r), ser_payload(pool@, t@))),
{
    let ghost at0 = *r;
    let ghost pre = r.offers(ser_payload(pool@, t@)) && r.remaining() == ser_payload(pool@, t@).len() && t@ is RuntimeInvisibleTypeAnnotations && readable_payload(pool@, t@, depth as nat);
    proof { if pre { lemma_runtime_invisible_type_annotations_pieces(r.data@, r.pos as int, pool@, t@); } }
    let v_count = r.read_u16()?;
    proof { if pre { assert(at0.span(*r) =~= r.data@.subrange(at0.pos as int, at0.pos + 2)); lemma_be_u16_injective(v_count, #[verifier::truncate] (t@->RuntimeInvisibleTypeAnnotations_0@.len() as u16)); } }
    let ghost at1 = *r;
    let v = read_type_annotation_list(r, v_count as usize, Ghost(t@->RuntimeInvisibleTypeAnnotations_0@))?;
    let ghost at2 = *r;
    let a = Attribute::RuntimeInvisibleTypeAnnotations(v);
    proof {
        lemma_span_split(r.data@, at0.pos as int, at1.pos as int, r.pos as int);
        if r.canonical {
            assert(at0.span(*r) =~= at0.span(at1) + at1.span(at2));
            assert(at0.span(*r) =~= ser_payload(pool@, a));
        }
    }
    Ok(a)
}

/// Writes the payload of a `RuntimeInvisibleTypeAnnotations` attribute.
fn write_runtime_invisible_type_annotations(pool: &Vec<Constant>, out: &mut Vec<u8>, a: &Attribute) -> (res: Result<(), JavaError>)
    requires
        a is RuntimeInvisibleTypeAnnotations,
    ensures
        res is Ok <==> payload_writable(pool@, *a),
        res is Ok ==> final(out)@ == old(out)@ + ser_payload(pool@, *a),
{
    let ghost start = out@;
    match a {
        Attribute::RuntimeInvisibleTypeAnnotations(v) => {
            push_u16(out, #[verifier::truncate] (v.len() as u16));
            write_type_annotation_list(out, v);
        },
        _ => {},
    }
    assert(out@ =~= start + ser_payload(pool@, *a));
    Ok(())
}

/// Reads the payload of a `RuntimeVisibleAnnotations` attribute.
fn parse_runtime_visible_annotations(pool: &Vec<Constant>, r: &mut ByteReader, depth: u32, t: Ghost<Attribute>) -> (res: Result<Attribute, JavaError>)
    requires
        old(r).wf(),
    ensures
        old(r).moved_to(*final(r)),
        final(r).canonical ==> old(r).canonical,
        res matches Ok(a) ==> a is RuntimeVisibleAnnotations && (final(r).canonical ==> old(r).span(*final(r)) == ser_payload(pool@, a)),
        old(r).offers(ser_payload(pool@, t@)) && old(r).remaining() == ser_payload(pool@, t@).len() && t@ is RuntimeVisibleAnnotations
            && readable_payload(pool@, t@, depth as nat) ==> (res is Ok && old(r).took(*final(r), ser_payload(pool@, t@))),
{
    let ghost at0 = *r;
    let ghost pre = r.offers(ser_payload(pool@, t@)) && r.remaining() == ser_payload(pool@, t@).len() && t@ is RuntimeVisibleAnnotations && readable_payload(pool@, t@, depth as nat);
    proof { if pre { lemma_runtime_visible_annotations_pieces(r.data@, r.pos as int, pool@, t@); } }
    let v_count = r.read_u16()?;
    proof { if pre { assert(at0.span(*r) =~= r.data@.subrange(at0.pos as int, at0.pos + 2)); lemma_be_u16_injective(v_count, #[verifier::truncate] (t@->RuntimeVisibleAnnotations_0@.len() as u16)); } }
    let ghost at1 = *r;
    let v = read_annotation_list(r, v_count as usize, Ghost(t@->RuntimeVisibleAnnotations_0@))?;
    let ghost at2 = *r;
    let a = Attribute::RuntimeVisibleAnnotations(v);
    proof {
        lemma_span_split(r.data@, at0.pos as int, at1.pos as int, r.pos as int);
        if r.canonical {
            assert(at0.span(*r) =~= at0.span(at1) + at1.span(at2));
            assert(at0.span(*r) =~= ser_payload(pool@, a));
        }
    }
    Ok(a)
}

/// Writes the payload of a `RuntimeVisibleAnnotations` attribute.
fn write_runtime_visible_annotations(pool: &Vec<Constant>, out: &mut Vec<u8>, a: &Attribute) -> (res: Result<(), JavaError>)
    requires
        a is RuntimeVisibleAnnotations,
    ensures
        res is Ok <==> payload_writable(pool@, *a),
        res is Ok ==> final(out)@ == old(out)@ + ser_payload(pool@, *a),
{
    let ghost start = out@;
    match a {
        Attribute::RuntimeVisibleAnnotations(v) => {
            push_u16(out, #[verifier::truncate] (v.len() as u16));
            write_annotation_list(out, v);
        },
        _ => {},
    }
    assert(out@ =~= start + ser_payload(pool@, *a));
    Ok(())
}

/// Reads the payload of a `RuntimeVisibleParameterAnnotations` attribute.
fn parse_runtime_visible_parameter_annotations(pool: &Vec<Constant>, r: &mut ByteReader, depth: u32, t: Ghost<Attribute>) -> (res: Result<Attribute, JavaError>)
    requires
        old(r).wf(),
    ensures
        old(r).moved_to(*final(r)),
        final(r).canonical ==> old(r).canonical,
        res matches Ok(a) ==> a is RuntimeVisibleParameterAnnotations && (final(r).canonical ==> old(r).span(*final(r)) == ser_payload(pool@, a)),
        old(r).offers(ser_payload(pool@, t@)) && old(r).remaining() == ser_payload(pool@, t@).len() && t@ is RuntimeVisibleParameterAnnotations
            && readable_payload(pool@, t@, depth as nat) ==> (res is Ok && old(r).took(*final(r), ser_payload(pool@, t@))),
{
    let ghost at0 = *r;
    let ghost pre = r.offers(ser_payload(pool@, t@)) && r.remaining() == ser_payload(pool@, t@).len() && t@ is RuntimeVisibleParameterAnnotations && readable_payload(pool@, t@, depth as nat);
    proof { if pre { lemma_runtime_visible_parameter_annotations_pieces(r.data@, r.pos as int, pool@, t@); } }
    let v_count = r.read_u8()?;
    proof { if pre { assert(at0.span(*r) =~= r.data@.subrange(at0.pos as int, at0.pos + 1)); assert(at0.span(*r)[0] == seq![#[verifier::truncate] (t@->RuntimeVisibleParameterAnnotations_0@.len() as u8)][0]); } }
    let ghost at1 = *r;
    let v = read_parameter_annotations_list(r, v_count as usize, Ghost(t@->RuntimeVisibleParameterAnnotations_0@))?;
    let ghost at2 = *r;
    let a = Attribute::RuntimeVisibleParameterAnnotations(v);
    proof {
        lemma_span_split(r.data@, at0.pos as int, at1.pos as int, r.pos as int);
        if r.canonical {
            assert(at0.span(*r) =~= at0.span(at1) + at1.span(at2));
            assert(at0.span(*r) =~= ser_payload(pool@, a));
        }
    }
    Ok(a)
}

/// Writes the payload of a `RuntimeVisibleParameterAnnotations` attribute.
fn write_runtime_visible_parameter_annotations(pool: &Vec<Constant>, out: &mut Vec<u8>, a: &Attribute) -> (res: Result<(), JavaError>)
    requires
        a is RuntimeVisibleParameterAnnotations,
    ensures
        res is Ok <==> payload_writable(pool@, *a),
        res is Ok ==> final(out)@ == old(out)@ + ser_payload(pool@, *a),
{
    let ghost start = out@;
    match a {
        Attribute::RuntimeVisibleParameterAnnotations(v) => {
            push_u8(out, #[verifier::truncate] (v.len() as u8));
            write_parameter_annotations_list(out, v);
        },
        _ => {},
    }
    assert(out@ =~= start + ser_payload(pool@, *a));
    Ok(())
}

/// Reads the payload of a `RuntimeVisibleTypeAnnotations` attribute.
fn parse_runtime_visible_type_annotations(pool: &Vec<Constant>, r: &mut ByteReader, depth: u32, t: Ghost<Attribute>) -> (res: Result<Attribute, JavaError>)
    requires
        old(r).wf(),
    ensures
        old(r).moved_to(*final(r)),
        final(r).canonical ==> old(r).canonical,
        res matches Ok(a) ==> a is RuntimeVisibleTypeAnnotations && (final(r).canonical ==> old(r).span(*final(r)) == ser_payload(pool@, a)),
        old(r).offers(ser_payload(pool@, t@)) && old(r).remaining() == ser_payload(pool@, t@).len() && t@ is RuntimeVisibleTypeAnnotations
            && readable_payload(pool@, t@, depth as nat) ==> (res is Ok && old(r).took(*final(r), ser_payload(pool@, t@))),
{
    let ghost at0 = *r;
    let ghost pre = r.offers(ser_payload(pool@, t@)) && r.remaining() == ser_payload(pool@, t@).len() && t@ is RuntimeVisibleTypeAnnotations && readable_payload(pool@, t@, depth as nat);
    proof { if pre { lemma_runtime_visible_type_annotations_pieces(r.data@, r.pos as int, pool@, t@); } }
    let v_count = r.read_u16()?;
    proof { if pre { assert(at0.span(*r) =~= r.data@.subrange(at0.pos as int, at0.pos + 2)); lemma_be_u16_injective(v_count, #[verifier::truncate] (t@->RuntimeVisibleTypeAnnotations_0@.len() as u16)); } }
    let ghost at1 = *r;
    let v = read_type_annotation_list(r, v_count as usize, Ghost(t@->RuntimeVisibleTypeAnnotations_0@))?;
    let ghost at2 = *r;
    let a = Attribute::RuntimeVisibleTypeAnnotations(v);
    proof {
        lemma_span_split(r.data@, at0.pos as int, at1.pos as int, r.pos as int);
        if r.canonical {
            assert(at0.span(*r) =~= at0.span(at1) + at1.span(at2));
            assert(at0.span(*r) =~= ser_payload(pool@, a));
        }
    }
    Ok(a)
}

/// Writes the payload of a `RuntimeVisibleTypeAnnotations` attribute.
fn write_runtime_visible_type_annotations(pool: &Vec<Constant>, out: &mut Vec<u8>, a: &Attribute) -> (res: Result<(), JavaError>)
    requires
        a is RuntimeVisibleTypeAnnotations,
    ensures
        res is Ok <==> payload_writable(pool@, *a),
        res is Ok ==> final(out)@ == old(out)@ + ser_payload(pool@, *a),
{
    let ghost start = out@;
    match a {
        Attribute::RuntimeVisibleTypeAnnotations(v) => {
            push_u16(out, #[verifier::truncate] (v.len() as u16));
            write_type_annotation_list(out, v);
        },
        _ => {},
    }
    assert(out@ =~= start + ser_payload(pool@, *a));
    Ok(())
}

/// Reads the payload of a `Signature` attribute.
fn parse_signature(pool: &Vec<Constant>, r: &mut ByteReader, depth: u32, t: Ghost<Attribute>) -> (res: Result<Attribute, JavaError>)
    requires
        old(r).wf(),
    ensures
        old(r).moved_to(*final(r)),
        final(r).canonical ==> old(r).canonical,
        res matches Ok(a) ==> a is Signature && (final(r).canonical ==> old(r).span(*final(r)) == ser_payload(pool@, a)),
        old(r).offers(ser_payload(pool@, t@)) && old(r).remaining() == ser_payload(pool@, t@).len() && t@ is Signature
            && readable_payload(pool@, t@, depth as nat) ==> (res is Ok && old(r).took(*final(r), ser_payload(pool@, t@))),
{
    let ghost at0 = *r;
    let ghost pre = r.offers(ser_payload(pool@, t@)) && r.remaining() == ser_payload(pool@, t@).len() && t@ is Signature && readable_payload(pool@, t@, depth as nat);
    proof { if pre { lemma_signature_pieces(r.data@, r.pos as int, pool@, t@); } }
    let signature_index = r.read_u16()?;
    let ghost at1 = *r;
    let a = Attribute::Signature { signature_index };
    proof {
        if r.canonical {
            assert(at0.span(*r) =~= at0.span(at1));
            assert(at0.span(*r) =~= ser_payload(pool@, a));
        }
    }
    Ok(a)
}

/// Writes the payload of a `Signature` attribute.
fn write_signature(pool: &Vec<Constant>, out: &mut Vec<u8>, a: &Attribute) -> (res: Result<(), JavaError>)
    requires
        a is Signature,
    ensures
        res is Ok <==> payload_writable(pool@, *a),
        res is Ok ==> final(out)@ == old(out)@ + ser_payload(pool@, *a),
{
    let ghost start = out@;
    match a {
        Attribute::Signature { signature_index } => {
            push_u16(out, *signature_index);
        },
        _ => {},
    }
    assert(out@ =~= start + ser_payload(pool@, *a));
    Ok(())
}

/// Reads the payload of a `SourceDebugExtension` attribute.
fn parse_source_debug_extension(pool: &Vec<Constant>, r: &mut ByteReader, depth: u32, t: Ghost<Attribute>) -> (res: Result<Attribute, JavaError>)
    requires
        old(r).wf(),
    ensures
        old(r).moved_to(*final(r)),
        final(r).canonical ==> old(r).canonical,
        res matches Ok(a) ==> a is SourceDebugExtension && (final(r).canonical ==> old(r).span(*final(r)) == ser_payload(pool@, a)),
        old(r).offers(ser_payload(pool@, t@)) && old(r).remaining() == ser_payload(pool@, t@).len() && t@ is SourceDebugExtension
            && readable_payload(pool@, t@, depth as nat) ==> (res is Ok && old(r).took(*final(r), ser_payload(pool@, t@))),
{
    let ghost at0 = *r;
    let ghost pre = r.offers(ser_payload(pool@, t@)) && r.remaining() == ser_payload(pool@, t@).len() && t@ is SourceDebugExtension && readable_payload(pool@, t@, depth as nat);
    proof { if pre { lemma_source_debug_extension_pieces(r.data@, r.pos as int, pool@, t@); } }
    let debug_extension_len = r.data.len() - r.pos;
    let debug_extension = r.read_bytes(debug_extension_len)?;
    let ghost at1 = *r;
    let a = Attribute::SourceDebugExtension { debug_extension };
    proof {
        if r.canonical {
            assert(at0.span(*r) =~= at0.span(at1));
            assert(at0.span(*r) =~= ser_payload(pool@, a));
        }
    }
    Ok(a)
}

/// Writes the payload of a `SourceDebugExtension` attribute.
fn write_source_debug_extension(pool: &Vec<Constant>, out: &mut Vec<u8>, a: &Attribute) -> (res: Result<(), JavaError>)
    requires
        a is SourceDebugExtension,
    ensures
        res is Ok <==> payload_writable(pool@, *a),
        res is Ok ==> final(out)@ == old(out)@ + ser_payload(pool@, *a),
{
    let ghost start = out@;
    match a {
        Attribute::SourceDebugExtension { debug_extension } => {
            push_bytes(out, debug_extension.as_slice());
        },
        _ => {},
    }
    assert(out@ =~= start + ser_payload(pool@, *a));
    Ok(())
}

/// Reads the payload of a `SourceFile` attribute.
fn parse_source_file(pool: &Vec<Constant>, r: &mut ByteReader, depth: u32, t: Ghost<Attribute>) -> (res: Result<Attribute, JavaError>)
    requires
        old(r).wf(),
    ensures
        old(r).moved_to(*final(r)),
        final(r).canonical ==> old(r).canonical,
        res matches Ok(a) ==> a is SourceFile && (final(r).canonical ==> old(r).span(*final(r)) == ser_payload(pool@, a)),
        old(r).offers(ser_payload(pool@, t@)) && old(r).remaining() == ser_payload(pool@, t@).len() && t@ is SourceFile
            && readable_payload(pool@, t@, depth as nat) ==> (res is Ok && old(r).took(*final(r), ser_payload(pool@, t@))),
{
    let ghost at0 = *r;
    let ghost pre = r.offers(ser_payload(pool@, t@)) && r.remaining() == ser_payload(pool@, t@).len() && t@ is SourceFile && readable_payload(pool@, t@, depth as nat);
    proof { if pre { lemma_source_file_pieces(r.data@, r.pos as int, pool@, t@); } }
    let sourcefile_index = r.read_u16()?;
    let ghost at1 = *r;
    let a = Attribute::SourceFile { sourcefile_index };
    proof {
        if r.canonical {
            assert(at0.span(*r) =~= at0.span(at1));
            assert(at0.span(*r) =~= ser_payload(pool@, a));
        }
    }
    Ok(a)
}

/// Writes the payload of a `SourceFile` attribute.
fn write_source_file(pool: &Vec<Constant>, out: &mut Vec<u8>, a: &Attribute) -> (res: Result<(), JavaError>)
    requires
        a is SourceFile,
    ensures
        res is Ok <==> payload_writable(pool@, *a),
        res is Ok ==> final(out)@ == old(out)@ + ser_payload(pool@, *a),
{
    let ghost start = out@;
    match a {
        Attribute::SourceFile { sourcefile_index } => {
            push_u16(out, *sourcefile_index);
        },
        _ => {},
    }
    assert(out@ =~= start + ser_payload(pool@, *a));
    Ok(())
}

/// Reads the payload of a `StackMapTable` attribute.
fn parse_stack_map_table(pool: &Vec<Constant>, r: &mut ByteReader, depth: u32, t: Ghost<Attribute>) -> (res: Result<Attribute, JavaError>)
    requires
        old(r).wf(),
    ensures
        old(r).moved_to(*final(r)),
        final(r).canonical ==> old(r).canonical,
        res matches Ok(a) ==> a is StackMapTable && (final(r).canonical ==> old(r).span(*final(r)) == ser_payload(pool@, a)),
        old(r).offers(ser_payload(pool@, t@)) && old(r).remaining() == ser_payload(pool@, t@).len() && t@ is StackMapTable
            && readable_payload(pool@, t@, depth as nat) ==> (res is Ok && old(r).took(*final(r), ser_payload(pool@, t@))),
{
    let ghost at0 = *r;
    let ghost pre = r.offers(ser_payload(pool@, t@)) && r.remaining() == ser_payload(pool@, t@).len() && t@ is StackMapTable && readable_payload(pool@, t@, depth as nat);
    proof { if pre { lemma_stack_map_table_pieces(r.data@, r.pos as int, pool@, t@); } }
    let v_count = r.read_u16()?;
    proof { if pre { assert(at0.span(*r) =~= r.data@.subrange(at0.pos as int, at0.pos + 2)); lemma_be_u16_injective(v_count, #[verifier::truncate] (t@->StackMapTable_0@.len() as u16)); } }
    let ghost at1 = *r;
    let v = read_stack_map_frame_list(r, v_count as usize, Ghost(t@->StackMapTable_0@))?;
    let ghost at2 = *r;
    let a = Attribute::StackMapTable(v);
    proof {
        lemma_span_split(r.data@, at0.pos as int, at1.pos as int, r.pos as int);
        if r.canonical {
            assert(at0.span(*r) =~= at0.span(at1) + at1.span(at2));
            assert(at0.span(*r) =~= ser_payload(pool@, a));
        }
    }
    Ok(a)
}

/// Writes the payload of a `StackMapTable` attribute.
fn write_stack_map_table(pool: &Vec<Constant>, out: &mut Vec<u8>, a: &Attribute) -> (res: Result<(), JavaError>)
    requires
        a is StackMapTable,
    ensures
        res is Ok <==> payload_writable(pool@, *a),
        res is Ok ==> final(out)@ == old(out)@ + ser_payload(pool@, *a),
{
    let ghost start = out@;
    match a {
        Attribute::StackMapTable(v) => {
            push_u16(out, #[verifier::truncate] (v.len() as u16));
            write_stack_map_frame_list(out, v);
        },
        _ => {},
    }
    assert(out@ =~= start + ser_payload(pool@, *a));
    Ok(())
}

/// Reads the payload of a `Synthetic` attribute.
fn parse_synthetic(pool: &Vec<Constant>, r: &mut ByteReader, depth: u32, t: Ghost<Attribute>) -> (res: Result<Attribute, JavaError>)
    requires
        old(r).wf(),
    ensures
        old(r).moved_to(*final(r)),
        final(r).canonical ==> old(r).canonical,
        res matches Ok(a) ==> a is Synthetic && (final(r).canonical ==> old(r).span(*final(r)) == ser_payload(pool@, a)),
        old(r).offers(ser_payload(pool@, t@)) && old(r).remaining() == ser_payload(pool@, t@).len() && t@ is Synthetic
            && readable_payload(pool@, t@, depth as nat) ==> (res is Ok && old(r).took(*final(r), ser_payload(pool@, t@))),
{
    let ghost at0 = *r;
    let ghost pre = r.offers(ser_payload(pool@, t@)) && r.remaining() == ser_payload(pool@, t@).len() && t@ is Synthetic && readable_payload(pool@, t@, depth as nat);
    let a = Attribute::Synthetic;
    proof {
        assert(at0.span(*r) =~= Seq::<u8>::empty());
    }
    Ok(a)
}

/// Writes the payload of a `Synthetic` attribute.
fn write_synthetic(pool: &Vec<Constant>, out: &mut Vec<u8>, a: &Attribute) -> (res: Result<(), JavaError>)
    requires
        a is Synthetic,
    ensures
        res is Ok <==> payload_writable(pool@, *a),
        res is Ok ==> final(out)@ == old(out)@ + ser_payload(pool@, *a),
{
    let ghost start = out@;
    match a {
        Attribute::Synthetic => {

        },
        _ => {},
    }
    assert(out@ =~= start + ser_payload(pool@, *a));
    Ok(())
}

/// Reads the payload of a `Unknown` attribute.
fn parse_unknown(pool: &Vec<Constant>, r: &mut ByteReader, name: &Vec<u8>, depth: u32, t: Ghost<Attribute>) -> (res: Result<Attribute, JavaError>)
    requires
        old(r).wf(),
    ensures
        old(r).moved_to(*final(r)),
        final(r).canonical ==> old(r).canonical,
        res matches Ok(a) ==> a is Unknown && attribute_name(a) == name@ && (final(r).canonical ==> old(r).span(*final(r)) == ser_payload(pool@, a)),
        old(r).offers(ser_payload(pool@, t@)) && old(r).remaining() == ser_payload(pool@, t@).len() && t@ is Unknown
            && readable_payload(pool@, t@, depth as nat) ==> (res is Ok && old(r).took(*final(r), ser_payload(pool@, t@))),
{
    let ghost at0 = *r;
    let ghost pre = r.offers(ser_payload(pool@, t@)) && r.remaining() == ser_payload(pool@, t@).len() && t@ is Unknown && readable_payload(pool@, t@, depth as nat);
    proof { if pre { lemma_unknown_pieces(r.data@, r.pos as int, pool@, t@); } }
    let data_len = r.data.len() - r.pos;
    let data = r.read_bytes(data_len)?;
    let ghost at1 = *r;
    let a = Attribute::Unknown { name: copy_bytes(name.as_slice()), data };
    proof {
        if r.canonical {
            assert(at0.span(*r) =~= at0.span(at1));
            assert(at0.span(*r) =~= ser_payload(pool@, a));
        }
    }
    Ok(a)
}

/// Writes the payload of a `Unknown` attribute.
fn write_unknown(pool: &Vec<Constant>, out: &mut Vec<u8>, a: &Attribute) -> (res: Result<(), JavaError>)
    requires
        a is Unknown,
    ensures
        res is Ok <==> payload_writable(pool@, *a),
        res is Ok ==> final(out)@ == old(out)@ + ser_payload(pool@, *a),
{
    let ghost start = out@;
    match a {
        Attribute::Unknown { name, data } => {
            push_bytes(out, data.as_slice());
        },
        _ => {},
    }
    assert(out@ =~= start + ser_payload(pool@, *a));
    Ok(())
}


/// The position of the attribute's variant among those with a name of their
/// own, or their number for `Unknown`.
pub open spec fn kind_of(a: Attribute) -> u8 {
    match a {
        Attribute::AnnotationDefault(..) => 0,
        Attribute::BootstrapMethods(..) => 1,
        Attribute::Code { .. } => 2,
        Attribute::ConstantValue { .. } => 3,
        Attribute::Deprecated => 4,
        Attribute::EnclosingMethod { .. } => 5,
        Attribute::Exceptions(..) => 6,
        Attribute::InnerClasses(..) => 7,
        Attribute::LineNumberTable(..) => 8,
        Attribute::LocalVariableTable(..) => 9,
        Attribute::LocalVariableTypeTable(..) => 10,
        Attribute::MethodParameters(..) => 11,
        Attribute::Module { .. } => 12,
        Attribute::ModuleMainClass(..) => 13,
        Attribute::ModulePackages(..) => 14,
        Attribute::NestHost(..) => 15,
        Attribute::NestMembers(..) => 16,
        Attribute::PermittedSubclasses(..) => 17,
        Attribute::Record(..) => 18,
        Attribute::RuntimeInvisibleAnnotations(..) => 19,
        Attribute::RuntimeInvisibleParameterAnnotations(..) => 20,
        Attribute::RuntimeInvisibleTypeAnnotations(..) => 21,
        Attribute::RuntimeVisibleAnnotations(..) => 22,
        Attribute::RuntimeVisibleParameterAnnotations(..) => 23,
        Attribute::RuntimeVisibleTypeAnnotations(..) => 24,
        Attribute::Signature { .. } => 25,
        Attribute::SourceDebugExtension { .. } => 26,
        Attribute::SourceFile { .. } => 27,
        Attribute::StackMapTable(..) => 28,
        Attribute::Synthetic => 29,
        Attribute::Unknown { .. } => 30,
    }
}

#[verifier::rlimit(100)]
proof fn lemma_kind_of_name(t: Attribute, name: Seq<u8>, k: u8)
    requires
        attribute_name(t) == name,
        t is Unknown ==> unknown_name(name),
        k <= 30,
        k == 0 ==> name == seq![65u8, 110u8, 110u8, 111u8, 116u8, 97u8, 116u8, 105u8, 111u8, 110u8, 68u8, 101u8, 102u8, 97u8, 117u8, 108u8, 116u8],
        k == 1 ==> name == seq![66u8, 111u8, 111u8, 116u8, 115u8, 116u8, 114u8, 97u8, 112u8, 77u8, 101u8, 116u8, 104u8, 111u8, 100u8, 115u8],
        k == 2 ==> name == seq![67u8, 111u8, 100u8, 101u8],
        k == 3 ==> name == seq![67u8, 111u8, 110u8, 115u8, 116u8, 97u8, 110u8, 116u8, 86u8, 97u8, 108u8, 117u8, 101u8],
        k == 4 ==> name == seq![68u8, 101u8, 112u8, 114u8, 101u8, 99u8, 97u8, 116u8, 101u8, 100u8],
        k == 5 ==> name == seq![69u8, 110u8, 99u8, 108u8, 111u8, 115u8, 105u8, 110u8, 103u8, 77u8, 101u8, 116u8, 104u8, 111u8, 100u8],
        k == 6 ==> name == seq![69u8, 120u8, 99u8, 101u8, 112u8, 116u8, 105u8, 111u8, 110u8, 115u8],
        k == 7 ==> name == seq![73u8, 110u8, 110u8, 101u8, 114u8, 67u8, 108u8, 97u8, 115u8, 115u8, 101u8, 115u8],
        k == 8 ==> name == seq![76u8, 105u8, 110u8, 101u8, 78u8, 117u8, 109u8, 98u8, 101u8, 114u8, 84u8, 97u8, 98u8, 108u8, 101u8],
        k == 9 ==> name == seq![76u8, 111u8, 99u8, 97u8, 108u8, 86u8, 97u8, 114u8, 105u8, 97u8, 98u8, 108u8, 101u8, 84u8, 97u8, 98u8, 108u8, 101u8],
        k == 10 ==> name == seq![76u8, 111u8, 99u8, 97u8, 108u8, 86u8, 97u8, 114u8, 105u8, 97u8, 98u8, 108u8, 101u8, 84u8, 121u8, 112u8, 101u8, 84u8, 97u8, 98u8, 108u8, 101u8],
        k == 11 ==> name == seq![77u8, 101u8, 116u8, 104u8, 111u8, 100u8, 80u8, 97u8, 114u8, 97u8, 109u8, 101u8, 116u8, 101u8, 114u8, 115u8],
        k == 12 ==> name == seq![77u8, 111u8, 100u8, 117u8, 108u8, 101u8],
        k == 13 ==> name == seq![77u8, 111u8, 100u8, 117u8, 108u8, 101u8, 77u8, 97u8, 105u8, 110u8, 67u8, 108u8, 97u8, 115u8, 115u8],
        k == 14 ==> name == seq![77u8, 111u8, 100u8, 117u8, 108u8, 101u8, 80u8, 97u8, 99u8, 107u8, 97u8, 103u8, 101u8, 115u8],
        k == 15 ==> name == seq![78u8, 101u8, 115u8, 116u8, 72u8, 111u8, 115u8, 116u8],
        k == 16 ==> name == seq![78u8, 101u8, 115u8, 116u8, 77u8, 101u8, 109u8, 98u8, 101u8, 114u8, 115u8],
        k == 17 ==> name == seq![80u8, 101u8, 114u8, 109u8, 105u8, 116u8, 116u8, 101u8, 100u8, 83u8, 117u8, 98u8, 99u8, 108u8, 97u8, 115u8, 115u8, 101u8, 115u8],
        k == 18 ==> name == seq![82u8, 101u8, 99u8, 111u8, 114u8, 100u8],
        k == 19 ==> name == seq![82u8, 117u8, 110u8, 116u8, 105u8, 109u8, 101u8, 73u8, 110u8, 118u8, 105u8, 115u8, 105u8, 98u8, 108u8, 101u8, 65u8, 110u8, 110u8, 111u8, 116u8, 97u8, 116u8, 105u8, 111u8, 110u8, 115u8],
        k == 20 ==> name == seq![82u8, 117u8, 110u8, 116u8, 105u8, 109u8, 101u8, 73u8, 110u8, 118u8, 105u8, 115u8, 105u8, 98u8, 108u8, 101u8, 80u8, 97u8, 114u8, 97u8, 109u8, 101u8, 116u8, 101u8, 114u8, 65u8, 110u8, 110u8, 111u8, 116u8, 97u8, 116u8, 105u8, 111u8, 110u8, 115u8],
        k == 21 ==> name == seq![82u8, 117u8, 110u8, 116u8, 105u8, 109u8, 101u8, 73u8, 110u8, 118u8, 105u8, 115u8, 105u8, 98u8, 108u8, 101u8, 84u8, 121u8, 112u8, 101u8, 65u8, 110u8, 110u8, 111u8, 116u8, 97u8, 116u8, 105u8, 111u8, 110u8, 115u8],
        k == 22 ==> name == seq![82u8, 117u8, 110u8, 116u8, 105u8, 109u8, 101u8, 86u8, 105u8, 115u8, 105u8, 98u8, 108u8, 101u8, 65u8, 110u8, 110u8, 111u8, 116u8, 97u8, 116u8, 105u8, 111u8, 110u8, 115u8],
        k == 23 ==> name == seq![82u8, 117u8, 110u8, 116u8, 105u8, 109u8, 101u8, 86u8, 105u8, 115u8, 105u8, 98u8, 108u8, 101u8, 80u8, 97u8, 114u8, 97u8, 109u8, 101u8, 116u8, 101u8, 114u8, 65u8, 110u8, 110u8, 111u8, 116u8, 97u8, 116u8, 105u8, 111u8, 110u8, 115u8],
        k == 24 ==> name == seq![82u8, 117u8, 110u8, 116u8, 105u8, 109u8, 101u8, 86u8, 105u8, 115u8, 105u8, 98u8, 108u8, 101u8, 84u8, 121u8, 112u8, 101u8, 65u8, 110u8, 110u8, 111u8, 116u8, 97u8, 116u8, 105u8, 111u8, 110u8, 115u8],
        k == 25 ==> name == seq![83u8, 105u8, 103u8, 110u8, 97u8, 116u8, 117u8, 114u8, 101u8],
        k == 26 ==> name == seq![83u8, 111u8, 117u8, 114u8, 99u8, 101u8, 68u8, 101u8, 98u8, 117u8, 103u8, 69u8, 120u8, 116u8, 101u8, 110u8, 115u8, 105u8, 111u8, 110u8],
        k == 27 ==> name == seq![83u8, 111u8, 117u8, 114u8, 99u8, 101u8, 70u8, 105u8, 108u8, 101u8],
        k == 28 ==> name == seq![83u8, 116u8, 97u8, 99u8, 107u8, 77u8, 97u8, 112u8, 84u8, 97u8, 98u8, 108u8, 101u8],
        k == 29 ==> name == seq![83u8, 121u8, 110u8, 116u8, 104u8, 101u8, 116u8, 105u8, 99u8],
        k == 30 ==> unknown_name(name),
    ensures
        kind_of(t) == k,
{
    assert(seq![65u8, 110u8, 110u8, 111u8, 116u8, 97u8, 116u8, 105u8, 111u8, 110u8, 68u8, 101u8, 102u8, 97u8, 117u8, 108u8, 116u8].len() == 17);
    assert(seq![66u8, 111u8, 111u8, 116u8, 115u8, 116u8, 114u8, 97u8, 112u8, 77u8, 101u8, 116u8, 104u8, 111u8, 100u8, 115u8].len() == 16);
    assert(seq![67u8, 111u8, 100u8, 101u8].len() == 4);
    assert(seq![67u8, 111u8, 110u8, 115u8, 116u8, 97u8, 110u8, 116u8, 86u8, 97u8, 108u8, 117u8, 101u8].len() == 13);
    assert(seq![68u8, 101u8, 112u8, 114u8, 101u8, 99u8, 97u8, 116u8, 101u8, 100u8].len() == 10);
    assert(seq![69u8, 110u8, 99u8, 108u8, 111u8, 115u8, 105u8, 110u8, 103u8, 77u8, 101u8, 116u8, 104u8, 111u8, 100u8].len() == 15);
    assert(seq![69u8, 120u8, 99u8, 101u8, 112u8, 116u8, 105u8, 111u8, 110u8, 115u8].len() == 10);
    assert(seq![73u8, 110u8, 110u8, 101u8, 114u8, 67u8, 108u8, 97u8, 115u8, 115u8, 101u8, 115u8].len() == 12);
    assert(seq![76u8, 105u8, 110u8, 101u8, 78u8, 117u8, 109u8, 98u8, 101u8, 114u8, 84u8, 97u8, 98u8, 108u8, 101u8].len() == 15);
    assert(seq![76u8, 111u8, 99u8, 97u8, 108u8, 86u8, 97u8, 114u8, 105u8, 97u8, 98u8, 108u8, 101u8, 84u8, 97u8, 98u8, 108u8, 101u8].len() == 18);
    assert(seq![76u8, 111u8, 99u8, 97u8, 108u8, 86u8, 97u8, 114u8, 105u8, 97u8, 98u8, 108u8, 101u8, 84u8, 121u8, 112u8, 101u8, 84u8, 97u8, 98u8, 108u8, 101u8].len() == 22);
    assert(seq![77u8, 101u8, 116u8, 104u8, 111u8, 100u8, 80u8, 97u8, 114u8, 97u8, 109u8, 101u8, 116u8, 101u8, 114u8, 115u8].len() == 16);
    assert(seq![77u8, 111u8, 100u8, 117u8, 108u8, 101u8].len() == 6);
    assert(seq![77u8, 111u8, 100u8, 117u8, 108u8, 101u8, 77u8, 97u8, 105u8, 110u8, 67u8, 108u8, 97u8, 115u8, 115u8].len() == 15);
    assert(seq![77u8, 111u8, 100u8, 117u8, 108u8, 101u8, 80u8, 97u8, 99u8, 107u8, 97u8, 103u8, 101u8, 115u8].len() == 14);
    assert(seq![78u8, 101u8, 115u8, 116u8, 72u8, 111u8, 115u8, 116u8].len() == 8);
    assert(seq![78u8, 101u8, 115u8, 116u8, 77u8, 101u8, 109u8, 98u8, 101u8, 114u8, 115u8].len() == 11);
    assert(seq![80u8, 101u8, 114u8, 109u8, 105u8, 116u8, 116u8, 101u8, 100u8, 83u8, 117u8, 98u8, 99u8, 108u8, 97u8, 115u8, 115u8, 101u8, 115u8].len() == 19);
    assert(seq![82u8, 101u8, 99u8, 111u8, 114u8, 100u8].len() == 6);
    assert(seq![82u8, 117u8, 110u8, 116u8, 105u8, 109u8, 101u8, 73u8, 110u8, 118u8, 105u8, 115u8, 105u8, 98u8, 108u8, 101u8, 65u8, 110u8, 110u8, 111u8, 116u8, 97u8, 116u8, 105u8, 111u8, 110u8, 115u8].len() == 27);
    assert(seq![82u8, 117u8, 110u8, 116u8, 105u8, 109u8, 101u8, 73u8, 110u8, 118u8, 105u8, 115u8, 105u8, 98u8, 108u8, 101u8, 80u8, 97u8, 114u8, 97u8, 109u8, 101u8, 116u8, 101u8, 114u8, 65u8, 110u8, 110u8, 111u8, 116u8, 97u8, 116u8, 105u8, 111u8, 110u8, 115u8].len() == 36);
    assert(seq![82u8, 117u8, 110u8, 116u8, 105u8, 109u8, 101u8, 73u8, 110u8, 118u8, 105u8, 115u8, 105u8, 98u8, 108u8, 101u8, 84u8, 121u8, 112u8, 101u8, 65u8, 110u8, 110u8, 111u8, 116u8, 97u8, 116u8, 105u8, 111u8, 110u8, 115u8].len() == 31);
    assert(seq![82u8, 117u8, 110u8, 116u8, 105u8, 109u8, 101u8, 86u8, 105u8, 115u8, 105u8, 98u8, 108u8, 101u8, 65u8, 110u8, 110u8, 111u8, 116u8, 97u8, 116u8, 105u8, 111u8, 110u8, 115u8].len() == 25);
    assert(seq![82u8, 117u8, 110u8, 116u8, 105u8, 109u8, 101u8, 86u8, 105u8, 115u8, 105u8, 98u8, 108u8, 101u8, 80u8, 97u8, 114u8, 97u8, 109u8, 101u8, 116u8, 101u8, 114u8, 65u8, 110u8, 110u8, 111u8, 116u8, 97u8, 116u8, 105u8, 111u8, 110u8, 115u8].len() == 34);
    assert(seq![82u8, 117u8, 110u8, 116u8, 105u8, 109u8, 101u8, 86u8, 105u8, 115u8, 105u8, 98u8, 108u8, 101u8, 84u8, 121u8, 112u8, 101u8, 65u8, 110u8, 110u8, 111u8, 116u8, 97u8, 116u8, 105u8, 111u8, 110u8, 115u8].len() == 29);
    assert(seq![83u8, 105u8, 103u8, 110u8, 97u8, 116u8, 117u8, 114u8, 101u8].len() == 9);
    assert(seq![83u8, 111u8, 117u8, 114u8, 99u8, 101u8, 68u8, 101u8, 98u8, 117u8, 103u8, 69u8, 120u8, 116u8, 101u8, 110u8, 115u8, 105u8, 111u8, 110u8].len() == 20);
    assert(seq![83u8, 111u8, 117u8, 114u8, 99u8, 101u8, 70u8, 105u8, 108u8, 101u8].len() == 10);
    assert(seq![83u8, 116u8, 97u8, 99u8, 107u8, 77u8, 97u8, 112u8, 84u8, 97u8, 98u8, 108u8, 101u8].len() == 13);
    assert(seq![83u8, 121u8, 110u8, 116u8, 104u8, 101u8, 116u8, 105u8, 99u8].len() == 9);
    assert(seq![66u8, 111u8, 111u8, 116u8, 115u8, 116u8, 114u8, 97u8, 112u8, 77u8, 101u8, 116u8, 104u8, 111u8, 100u8, 115u8][0] == 66u8 && seq![77u8, 101u8, 116u8, 104u8, 111u8, 100u8, 80u8, 97u8, 114u8, 97u8, 109u8, 101u8, 116u8, 101u8, 114u8, 115u8][0] == 77u8);
    assert(seq![67u8, 111u8, 110u8, 115u8, 116u8, 97u8, 110u8, 116u8, 86u8, 97u8, 108u8, 117u8, 101u8][0] == 67u8 && seq![83u8, 116u8, 97u8, 99u8, 107u8, 77u8, 97u8, 112u8, 84u8, 97u8, 98u8, 108u8, 101u8][0] == 83u8);
    assert(seq![68u8, 101u8, 112u8, 114u8, 101u8, 99u8, 97u8, 116u8, 101u8, 100u8][0] == 68u8 && seq![69u8, 120u8, 99u8, 101u8, 112u8, 116u8, 105u8, 111u8, 110u8, 115u8][0] == 69u8);
    assert(seq![68u8, 101u8, 112u8, 114u8, 101u8, 99u8, 97u8, 116u8, 101u8, 100u8][0] == 68u8 && seq![83u8, 111u8, 117u8, 114u8, 99u8, 101u8, 70u8, 105u8, 108u8, 101u8][0] == 83u8);
    assert(seq![69u8, 110u8, 99u8, 108u8, 111u8, 115u8, 105u8, 110u8, 103u8, 77u8, 101u8, 116u8, 104u8, 111u8, 100u8][0] == 69u8 && seq![76u8, 105u8, 110u8, 101u8, 78u8, 117u8, 109u8, 98u8, 101u8, 114u8, 84u8, 97u8, 98u8, 108u8, 101u8][0] == 76u8);
    assert(seq![69u8, 110u8, 99u8, 108u8, 111u8, 115u8, 105u8, 110u8, 103u8, 77u8, 101u8, 116u8, 104u8, 111u8, 100u8][0] == 69u8 && seq![77u8, 111u8, 100u8, 117u8, 108u8, 101u8, 77u8, 97u8, 105u8, 110u8, 67u8, 108u8, 97u8, 115u8, 115u8][0] == 77u8);
    assert(seq![69u8, 120u8, 99u8, 101u8, 112u8, 116u8, 105u8, 111u8, 110u8, 115u8][0] == 69u8 && seq![83u8, 111u8, 117u8, 114u8, 99u8, 101u8, 70u8, 105u8, 108u8, 101u8][0] == 83u8);
    assert(seq![76u8, 105u8, 110u8, 101u8, 78u8, 117u8, 109u8, 98u8, 101u8, 114u8, 84u8, 97u8, 98u8, 108u8, 101u8][0] == 76u8 && seq![77u8, 111u8, 100u8, 117u8, 108u8, 101u8, 77u8, 97u8, 105u8, 110u8, 67u8, 108u8, 97u8, 115u8, 115u8][0] == 77u8);
    assert(seq![77u8, 111u8, 100u8, 117u8, 108u8, 101u8][0] == 77u8 && seq![82u8, 101u8, 99u8, 111u8, 114u8, 100u8][0] == 82u8);
    assert(seq![83u8, 105u8, 103u8, 110u8, 97u8, 116u8, 117u8, 114u8, 101u8][1] == 105u8 && seq![83u8, 121u8, 110u8, 116u8, 104u8, 101u8, 116u8, 105u8, 99u8][1] == 121u8);
}

/// The position of `name` among the names that have a variant of their own,
/// or their number where it has none.
fn attribute_kind(name: &[u8]) -> (k: u8)
    ensures
        k <= 30,
        k == 0 ==> name@ == seq![65u8, 110u8, 110u8, 111u8, 116u8, 97u8, 116u8, 105u8, 111u8, 110u8, 68u8, 101u8, 102u8, 97u8, 117u8, 108u8, 116u8],
        k == 1 ==> name@ == seq![66u8, 111u8, 111u8, 116u8, 115u8, 116u8, 114u8, 97u8, 112u8, 77u8, 101u8, 116u8, 104u8, 111u8, 100u8, 115u8],
        k == 2 ==> name@ == seq![67u8, 111u8, 100u8, 101u8],
        k == 3 ==> name@ == seq![67u8, 111u8, 110u8, 115u8, 116u8, 97u8, 110u8, 116u8, 86u8, 97u8, 108u8, 117u8, 101u8],
        k == 4 ==> name@ == seq![68u8, 101u8, 112u8, 114u8, 101u8, 99u8, 97u8, 116u8, 101u8, 100u8],
        k == 5 ==> name@ == seq![69u8, 110u8, 99u8, 108u8, 111u8, 115u8, 105u8, 110u8, 103u8, 77u8, 101u8, 116u8, 104u8, 111u8, 100u8],
        k == 6 ==> name@ == seq![69u8, 120u8, 99u8, 101u8, 112u8, 116u8, 105u8, 111u8, 110u8, 115u8],
        k == 7 ==> name@ == seq![73u8, 110u8, 110u8, 101u8, 114u8, 67u8, 108u8, 97u8, 115u8, 115u8, 101u8, 115u8],
        k == 8 ==> name@ == seq![76u8, 105u8, 110u8, 101u8, 78u8, 117u8, 109u8, 98u8, 101u8, 114u8, 84u8, 97u8, 98u8, 108u8, 101u8],
        k == 9 ==> name@ == seq![76u8, 111u8, 99u8, 97u8, 108u8, 86u8, 97u8, 114u8, 105u8, 97u8, 98u8, 108u8, 101u8, 84u8, 97u8, 98u8, 108u8, 101u8],
        k == 10 ==> name@ == seq![76u8, 111u8, 99u8, 97u8, 108u8, 86u8, 97u8, 114u8, 105u8, 97u8, 98u8, 108u8, 101u8, 84u8, 121u8, 112u8, 101u8, 84u8, 97u8, 98u8, 108u8, 101u8],
        k == 11 ==> name@ == seq![77u8, 101u8, 116u8, 104u8, 111u8, 100u8, 80u8, 97u8, 114u8, 97u8, 109u8, 101u8, 116u8, 101u8, 114u8, 115u8],
        k == 12 ==> name@ == seq![77u8, 111u8, 100u8, 117u8, 108u8, 101u8],
        k == 13 ==> name@ == seq![77u8, 111u8, 100u8, 117u8, 108u8, 101u8, 77u8, 97u8, 105u8, 110u8, 67u8, 108u8, 97u8, 115u8, 115u8],
        k == 14 ==> name@ == seq![77u8, 111u8, 100u8, 117u8, 108u8, 101u8, 80u8, 97u8, 99u8, 107u8, 97u8, 103u8, 101u8, 115u8],
        k == 15 ==> name@ == seq![78u8, 101u8, 115u8, 116u8, 72u8, 111u8, 115u8, 116u8],
        k == 16 ==> name@ == seq![78u8, 101u8, 115u8, 116u8, 77u8, 101u8, 109u8, 98u8, 101u8, 114u8, 115u8],
        k == 17 ==> name@ == seq![80u8, 101u8, 114u8, 109u8, 105u8, 116u8, 116u8, 101u8, 100u8, 83u8, 117u8, 98u8, 99u8, 108u8, 97u8, 115u8, 115u8, 101u8, 115u8],
        k == 18 ==> name@ == seq![82u8, 101u8, 99u8, 111u8, 114u8, 100u8],
        k == 19 ==> name@ == seq![82u8, 117u8, 110u8, 116u8, 105u8, 109u8, 101u8, 73u8, 110u8, 118u8, 105u8, 115u8, 105u8, 98u8, 108u8, 101u8, 65u8, 110u8, 110u8, 111u8, 116u8, 97u8, 116u8, 105u8, 111u8, 110u8, 115u8],
        k == 20 ==> name@ == seq![82u8, 117u8, 110u8, 116u8, 105u8, 109u8, 101u8, 73u8, 110u8, 118u8, 105u8, 115u8, 105u8, 98u8, 108u8, 101u8, 80u8, 97u8, 114u8, 97u8, 109u8, 101u8, 116u8, 101u8, 114u8, 65u8, 110u8, 110u8, 111u8, 116u8, 97u8, 116u8, 105u8, 111u8, 110u8, 115u8],
        k == 21 ==> name@ == seq![82u8, 117u8, 110u8, 116u8, 105u8, 109u8, 101u8, 73u8, 110u8, 118u8, 105u8, 115u8, 105u8, 98u8, 108u8, 101u8, 84u8, 121u8, 112u8, 101u8, 65u8, 110u8, 110u8, 111u8, 116u8, 97u8, 116u8, 105u8, 111u8, 110u8, 115u8],
        k == 22 ==> name@ == seq![82u8, 117u8, 110u8, 116u8, 105u8, 109u8, 101u8, 86u8, 105u8, 115u8, 105u8, 98u8, 108u8, 101u8, 65u8, 110u8, 110u8, 111u8, 116u8, 97u8, 116u8, 105u8, 111u8, 110u8, 115u8],
        k == 23 ==> name@ == seq![82u8, 117u8, 110u8, 116u8, 105u8, 109u8, 101u8, 86u8, 105u8, 115u8, 105u8, 98u8, 108u8, 101u8, 80u8, 97u8, 114u8, 97u8, 109u8, 101u8, 116u8, 101u8, 114u8, 65u8, 110u8, 110u8, 111u8, 116u8, 97u8, 116u8, 105u8, 111u8, 110u8, 115u8],
        k == 24 ==> name@ == seq![82u8, 117u8, 110u8, 116u8, 105u8, 109u8, 101u8, 86u8, 105u8, 115u8, 105u8, 98u8, 108u8, 101u8, 84u8, 121u8, 112u8, 101u8, 65u8, 110u8, 110u8, 111u8, 116u8, 97u8, 116u8, 105u8, 111u8, 110u8, 115u8],
        k == 25 ==> name@ == seq![83u8, 105u8, 103u8, 110u8, 97u8, 116u8, 117u8, 114u8, 101u8],
        k == 26 ==> name@ == seq![83u8, 111u8, 117u8, 114u8, 99u8, 101u8, 68u8, 101u8, 98u8, 117u8, 103u8, 69u8, 120u8, 116u8, 101u8, 110u8, 115u8, 105u8, 111u8, 110u8],
        k == 27 ==> name@ == seq![83u8, 111u8, 117u8, 114u8, 99u8, 101u8, 70u8, 105u8, 108u8, 101u8],
        k == 28 ==> name@ == seq![83u8, 116u8, 97u8, 99u8, 107u8, 77u8, 97u8, 112u8, 84u8, 97u8, 98u8, 108u8, 101u8],
        k == 29 ==> name@ == seq![83u8, 121u8, 110u8, 116u8, 104u8, 101u8, 116u8, 105u8, 99u8],
        k == 30 ==> unknown_name(name@),
{
    if bytes_eq(name, vec![65u8, 110u8, 110u8, 111u8, 116u8, 97u8, 116u8, 105u8, 111u8, 110u8, 68u8, 101u8, 102u8, 97u8, 117u8, 108u8, 116u8].as_slice()) {
        return 0;
    }
    if bytes_eq(name, vec![66u8, 111u8, 111u8, 116u8, 115u8, 116u8, 114u8, 97u8, 112u8, 77u8, 101u8, 116u8, 104u8, 111u8, 100u8, 115u8].as_slice()) {
        return 1;
    }
    if bytes_eq(name, vec![67u8, 111u8, 100u8, 101u8].as_slice()) {
        return 2;
    }
    if bytes_eq(name, vec![67u8, 111u8, 110u8, 115u8, 116u8, 97u8, 110u8, 116u8, 86u8, 97u8, 108u8, 117u8, 101u8].as_slice()) {
        return 3;
    }
    if bytes_eq(name, vec![68u8, 101u8, 112u8, 114u8, 101u8, 99u8, 97u8, 116u8, 101u8, 100u8].as_slice()) {
        return 4;
    }
    if bytes_eq(name, vec![69u8, 110u8, 99u8, 108u8, 111u8, 115u8, 105u8, 110u8, 103u8, 77u8, 101u8, 116u8, 104u8, 111u8, 100u8].as_slice()) {
        return 5;
    }
    if bytes_eq(name, vec![69u8, 120u8, 99u8, 101u8, 112u8, 116u8, 105u8, 111u8, 110u8, 115u8].as_slice()) {
        return 6;
    }
    if bytes_eq(name, vec![73u8, 110u8, 110u8, 101u8, 114u8, 67u8, 108u8, 97u8, 115u8, 115u8, 101u8, 115u8].as_slice()) {
        return 7;
    }
    if bytes_eq(name, vec![76u8, 105u8, 110u8, 101u8, 78u8, 117u8, 109u8, 98u8, 101u8, 114u8, 84u8, 97u8, 98u8, 108u8, 101u8].as_slice()) {
        return 8;
    }
    if bytes_eq(name, vec![76u8, 111u8, 99u8, 97u8, 108u8, 86u8, 97u8, 114u8, 105u8, 97u8, 98u8, 108u8, 101u8, 84u8, 97u8, 98u8, 108u8, 101u8].as_slice()) {
        return 9;
    }
    if bytes_eq(name, vec![76u8, 111u8, 99u8, 97u8, 108u8, 86u8, 97u8, 114u8, 105u8, 97u8, 98u8, 108u8, 101u8, 84u8, 121u8, 112u8, 101u8, 84u8, 97u8, 98u8, 108u8, 101u8].as_slice()) {
        return 10;
    }
    if bytes_eq(name, vec![77u8, 101u8, 116u8, 104u8, 111u8, 100u8, 80u8, 97u8, 114u8, 97u8, 109u8, 101u8, 116u8, 101u8, 114u8, 115u8].as_slice()) {
        return 11;
    }
    if bytes_eq(name, vec![77u8, 111u8, 100u8, 117u8, 108u8, 101u8].as_slice()) {
        return 12;
    }
    if bytes_eq(name, vec![77u8, 111u8, 100u8, 117u8, 108u8, 101u8, 77u8, 97u8, 105u8, 110u8, 67u8, 108u8, 97u8, 115u8, 115u8].as_slice()) {
        return 13;
    }
    if bytes_eq(name, vec![77u8, 111u8, 100u8, 117u8, 108u8, 101u8, 80u8, 97u8, 99u8, 107u8, 97u8, 103u8, 101u8, 115u8].as_slice()) {
        return 14;
    }
    if bytes_eq(name, vec![78u8, 101u8, 115u8, 116u8, 72u8, 111u8, 115u8, 116u8].as_slice()) {
        return 15;
    }
    if bytes_eq(name, vec![78u8, 101u8, 115u8, 116u8, 77u8, 101u8, 109u8, 98u8, 101u8, 114u8, 115u8].as_slice()) {
        return 16;
    }
    if bytes_eq(name, vec![80u8, 101u8, 114u8, 109u8, 105u8, 116u8, 116u8, 101u8, 100u8, 83u8, 117u8, 98u8, 99u8, 108u8, 97u8, 115u8, 115u8, 101u8, 115u8].as_slice()) {
        return 17;
    }
    if bytes_eq(name, vec![82u8, 101u8, 99u8, 111u8, 114u8, 100u8].as_slice()) {
        return 18;
    }
    if bytes_eq(name, vec![82u8, 117u8, 110u8, 116u8, 105u8, 109u8, 101u8, 73u8, 110u8, 118u8, 105u8, 115u8, 105u8, 98u8, 108u8, 101u8, 65u8, 110u8, 110u8, 111u8, 116u8, 97u8, 116u8, 105u8, 111u8, 110u8, 115u8].as_slice()) {
        return 19;
    }
    if bytes_eq(name, vec![82u8, 117u8, 110u8, 116u8, 105u8, 109u8, 101u8, 73u8, 110u8, 118u8, 105u8, 115u8, 105u8, 98u8, 108u8, 101u8, 80u8, 97u8, 114u8, 97u8, 109u8, 101u8, 116u8, 101u8, 114u8, 65u8, 110u8, 110u8, 111u8, 116u8, 97u8, 116u8, 105u8, 111u8, 110u8, 115u8].as_slice()) {
        return 20;
    }
    if bytes_eq(name, vec![82u8, 117u8, 110u8, 116u8, 105u8, 109u8, 101u8, 73u8, 110u8, 118u8, 105u8, 115u8, 105u8, 98u8, 108u8, 101u8, 84u8, 121u8, 112u8, 101u8, 65u8, 110u8, 110u8, 111u8, 116u8, 97u8, 116u8, 105u8, 111u8, 110u8, 115u8].as_slice()) {
        return 21;
    }
    if bytes_eq(name, vec![82u8, 117u8, 110u8, 116u8, 105u8, 109u8, 101u8, 86u8, 105u8, 115u8, 105u8, 98u8, 108u8, 101u8, 65u8, 110u8, 110u8, 111u8, 116u8, 97u8, 116u8, 105u8, 111u8, 110u8, 115u8].as_slice()) {
        return 22;
    }
    if bytes_eq(name, vec![82u8, 117u8, 110u8, 116u8, 105u8, 109u8, 101u8, 86u8, 105u8, 115u8, 105u8, 98u8, 108u8, 101u8, 80u8, 97u8, 114u8, 97u8, 109u8, 101u8, 116u8, 101u8, 114u8, 65u8, 110u8, 110u8, 111u8, 116u8, 97u8, 116u8, 105u8, 111u8, 110u8, 115u8].as_slice()) {
        return 23;
    }
    if bytes_eq(name, vec![82u8, 117u8, 110u8, 116u8, 105u8, 109u8, 101u8, 86u8, 105u8, 115u8, 105u8, 98u8, 108u8, 101u8, 84u8, 121u8, 112u8, 101u8, 65u8, 110u8, 110u8, 111u8, 116u8, 97u8, 116u8, 105u8, 111u8, 110u8, 115u8].as_slice()) {
        return 24;
    }
    if bytes_eq(name, vec![83u8, 105u8, 103u8, 110u8, 97u8, 116u8, 117u8, 114u8, 101u8].as_slice()) {
        return 25;
    }
    if bytes_eq(name, vec![83u8, 111u8, 117u8, 114u8, 99u8, 101u8, 68u8, 101u8, 98u8, 117u8, 103u8, 69u8, 120u8, 116u8, 101u8, 110u8, 115u8, 105u8, 111u8, 110u8].as_slice()) {
        return 26;
    }
    if bytes_eq(name, vec![83u8, 111u8, 117u8, 114u8, 99u8, 101u8, 70u8, 105u8, 108u8, 101u8].as_slice()) {
        return 27;
    }
    if bytes_eq(name, vec![83u8, 116u8, 97u8, 99u8, 107u8, 77u8, 97u8, 112u8, 84u8, 97u8, 98u8, 108u8, 101u8].as_slice()) {
        return 28;
    }
    if bytes_eq(name, vec![83u8, 121u8, 110u8, 116u8, 104u8, 101u8, 116u8, 105u8, 99u8].as_slice()) {
        return 29;
    }
    30
}

/// Reads the payload of the attribute called `name` from a cursor over
/// exactly that payload.
#[verifier::rlimit(100)]
#[verifier::spinoff_prover]
fn parse_payload(pool: &Vec<Constant>, r: &mut ByteReader, name: &Vec<u8>, depth: u32, t: Ghost<Attribute>) -> (res: Result<Attribute, JavaError>)
    requires
        old(r).wf(),
    ensures
        old(r).moved_to(*final(r)),
        final(r).canonical ==> old(r).canonical,
        res matches Ok(a) ==> attribute_name(a) == name@ && (final(r).canonical ==> old(r).span(*final(r)) == ser_payload(pool@, a)),
        res matches Ok(a) ==> (final(r).canonical ==> payload_writable(pool@, a)),
        old(r).offers(ser_payload(pool@, t@)) && old(r).remaining() == ser_payload(pool@, t@).len() && attribute_name(t@) == name@
            && readable_payload(pool@, t@, depth as nat) ==> (res is Ok && old(r).took(*final(r), ser_payload(pool@, t@))),
    decreases old(r).remaining(), 4int,
{
    let kind = attribute_kind(name.as_slice());
    proof {
        if old(r).offers(ser_payload(pool@, t@)) && attribute_name(t@) == name@ && readable_payload(pool@, t@, depth as nat) {
            lemma_kind_of_name(t@, name@, kind);
        }
    }
    let a = match kind {
        0 => parse_annotation_default(pool, r, depth, t)?,
        1 => parse_bootstrap_methods(pool, r, depth, t)?,
        2 => parse_code(pool, r, depth, t)?,
        3 => parse_constant_value(pool, r, depth, t)?,
        4 => parse_deprecated(pool, r, depth, t)?,
        5 => parse_enclosing_method(pool, r, depth, t)?,
        6 => parse_exceptions(pool, r, depth, t)?,
        7 => parse_inner_classes(pool, r, depth, t)?,
        8 => parse_line_number_table(pool, r, depth, t)?,
        9 => parse_local_variable_table(pool, r, depth, t)?,
        10 => parse_local_variable_type_table(pool, r, depth, t)?,
        11 => parse_method_parameters(pool, r, depth, t)?,
        12 => parse_module(pool, r, depth, t)?,
        13 => parse_module_main_class(pool, r, depth, t)?,
        14 => parse_module_packages(pool, r, depth, t)?,
        15 => parse_nest_host(pool, r, depth, t)?,
        16 => parse_nest_members(pool, r, depth, t)?,
        17 => parse_permitted_subclasses(pool, r, depth, t)?,
        18 => parse_record(pool, r, depth, t)?,
        19 => parse_runtime_invisible_annotations(pool, r, depth, t)?,
        20 => parse_runtime_invisible_parameter_annotations(pool, r, depth, t)?,
        21 => parse_runtime_invisible_type_annotations(pool, r, depth, t)?,
        22 => parse_runtime_visible_annotations(pool, r, depth, t)?,
        23 => parse_runtime_visible_parameter_annotations(pool, r, depth, t)?,
        24 => parse_runtime_visible_type_annotations(pool, r, depth, t)?,
        25 => parse_signature(pool, r, depth, t)?,
        26 => parse_source_debug_extension(pool, r, depth, t)?,
        27 => parse_source_file(pool, r, depth, t)?,
        28 => parse_stack_map_table(pool, r, depth, t)?,
        29 => parse_synthetic(pool, r, depth, t)?,
        _ => parse_unknown(pool, r, name, depth, t)?,
    };
    Ok(a)
}

/// Reads one attribute: its name index, its length, and a payload of that
/// length, which must be used up exactly. Attributes may nest `depth` levels
/// deeper. `canonical` stays set only where
/// the name index is the pool's first entry with that name.
pub fn read_attribute(pool: &Vec<Constant>, r: &mut ByteReader, depth: u32, t: Ghost<Attribute>) -> (res: Result<Attribute, JavaError>)
    requires
        old(r).wf(),
    ensures
        old(r).moved_to(*final(r)),
        final(r).canonical ==> old(r).canonical,
        res matches Ok(a) ==> (final(r).canonical ==> old(r).span(*final(r)) == ser_attribute(pool@, a)),
        res matches Ok(a) ==> (final(r).canonical ==> attribute_writable(pool@, a)),
        old(r).offers(ser_attribute(pool@, t@)) && readable_attribute(pool@, t@, depth as nat) ==> (res is Ok && old(r).took(
            *final(r),
            ser_attribute(pool@, t@),
        )),
    decreases old(r).remaining(), 0int,
{
    let ghost r0 = *r;
    let ghost tt = t@;
    let ghost nm = attribute_name(tt);
    let ghost pl = ser_payload(pool@, tt);
    let ghost idx = first_utf8(pool@, nm);
    let ghost pre = r0.offers(ser_attribute(pool@, tt)) && readable_attribute(pool@, tt, depth as nat);
    proof {
        if pre {
            lemma_first_utf8_bounds(pool@, nm);
            let h1 = be_u16(#[verifier::truncate] (idx as u16));
            let h2 = be_u32(#[verifier::truncate] (pl.len() as u32));
            lemma_starts_concat(r0.data@, r0.pos as int, h1 + h2, pl);
            lemma_starts_concat(r0.data@, r0.pos as int, h1, h2);
        }
    }
    let name_index = r.read_u16()?;
    let ghost r1 = *r;
    let length = r.read_u32()?;
    let ghost r2 = *r;
    proof {
        if pre {
            assert(r0.span(r1) =~= r0.data@.subrange(r0.pos as int, r0.pos + 2));
            assert(r1.span(r2) =~= r0.data@.subrange(r1.pos as int, r1.pos + 4));
            lemma_be_u16_injective(name_index, #[verifier::truncate] (idx as u16));
            lemma_be_u32_injective(length, #[verifier::truncate] (pl.len() as u32));
            assert(name_index == idx);
            assert(length == pl.len());
        }
    }
    let payload = r.read_bytes(length as usize)?;
    let name = pool_string(pool, name_index)?;
    let mut sub = ByteReader::new(payload);
    proof {
        if pre {
            assert(name@ == nm);
            assert(sub.data@.subrange(0, pl.len() as int) =~= sub.data@);
        }
    }
    let a = parse_payload(pool, &mut sub, &name, depth, t)?;
    if !sub.at_end() {
        return Err(JavaError::Malformed);
    }
    let canonical_name = match pool_string_index(pool, name.as_slice()) {
        Ok(i) => i == name_index,
        Err(_) => false,
    };
    if !sub.canonical || !canonical_name {
        r.canonical = false;
    }
    proof {
        lemma_span_split(r.data@, r0.pos as int, r1.pos as int, r.pos as int);
        lemma_span_split(r.data@, r1.pos as int, r2.pos as int, r.pos as int);
        if r.canonical {
            assert(sub.data@.subrange(0, sub.pos as int) =~= sub.data@);
            assert(r0.span(*r) =~= ser_attribute(pool@, a));
        }
    }
    Ok(a)
}

/// Reads `n` attributes.
pub fn read_attribute_list(pool: &Vec<Constant>, r: &mut ByteReader, n: usize, depth: u32, ts: Ghost<Seq<Attribute>>) -> (res: Result<Vec<Attribute>, JavaError>)
    requires
        old(r).wf(),
    ensures
        old(r).moved_to(*final(r)),
        final(r).canonical ==> old(r).canonical,
        res matches Ok(v) ==> v@.len() == n && (final(r).canonical ==> old(r).span(*final(r)) == ser_attribute_list(pool@, v@)),
        res matches Ok(v) ==> (final(r).canonical ==> attributes_writable(pool@, v@)),
        old(r).offers(ser_attribute_list(pool@, ts@)) && n == ts@.len() && readable_list(pool@, ts@, depth as nat) ==> (res is Ok
            && old(r).took(*final(r), ser_attribute_list(pool@, ts@))),
    decreases old(r).remaining(), 1int,
{
    let ghost pre = r.offers(ser_attribute_list(pool@, ts@)) && n == ts@.len() && readable_list(pool@, ts@, depth as nat);
    assert(ts@.take(0) =~= Seq::<Attribute>::empty());
    let mut v: Vec<Attribute> = Vec::new();
    let mut k: usize = 0;
    assert(old(r).span(*r) =~= Seq::<u8>::empty());
    assert(attributes_writable(pool@, v@));
    while k < n
        invariant
            r.wf(),
            old(r).moved_to(*r),
            r.canonical ==> old(r).canonical,
            k <= n,
            v@.len() == k,
            r.canonical ==> old(r).span(*r) == ser_attribute_list(pool@, v@),
            r.canonical ==> attributes_writable(pool@, v@),
            pre == (old(r).offers(ser_attribute_list(pool@, ts@)) && n == ts@.len() && readable_list(pool@, ts@, depth as nat)),
            pre ==> r.canonical && r.pos == old(r).pos + ser_attribute_list(pool@, ts@.take(k as int)).len(),
        decreases n - k,
    {
        let ghost before = *r;
        proof {
            if pre {
                lemma_attribute_list_step(old(r).data@, old(r).pos as int, pool@, ts@, k as int);
                lemma_readable_list_at(pool@, ts@, k as int, depth as nat);
            }
        }
        let x = read_attribute(pool, r, depth, Ghost(ts@[k as int]))?;
        proof {
            lemma_span_split(r.data@, old(r).pos as int, before.pos as int, r.pos as int);
            lemma_attribute_list_push(pool@, v@, x);
        }
        v.push(x);
        k = k + 1;
    }
    proof {
        if pre {
            assert(ts@.take(n as int) =~= ts@);
        }
    }
    Ok(v)
}

/// Reads `n` record components.
fn read_record_components(pool: &Vec<Constant>, r: &mut ByteReader, n: usize, depth: u32, ts: Ghost<Seq<RecordComponent>>) -> (res: Result<Vec<RecordComponent>, JavaError>)
    requires
        old(r).wf(),
    ensures
        old(r).moved_to(*final(r)),
        final(r).canonical ==> old(r).canonical,
        res matches Ok(v) ==> v@.len() == n && (final(r).canonical ==> old(r).span(*final(r)) == ser_record_components(pool@, v@)),
        res matches Ok(v) ==> (final(r).canonical ==> components_writable(pool@, v@)),
        old(r).offers(ser_record_components(pool@, ts@)) && n == ts@.len() && readable_components(pool@, ts@, depth as nat) ==> (
        res is Ok && old(r).took(*final(r), ser_record_components(pool@, ts@))),
    decreases old(r).remaining(), 2int,
{
    let ghost pre = r.offers(ser_record_components(pool@, ts@)) && n == ts@.len() && readable_components(pool@, ts@, depth as nat);
    assert(ts@.take(0) =~= Seq::<RecordComponent>::empty());
    let mut v: Vec<RecordComponent> = Vec::new();
    let mut k: usize = 0;
    assert(old(r).span(*r) =~= Seq::<u8>::empty());
    assert(components_writable(pool@, v@));
    while k < n
        invariant
            r.wf(),
            old(r).moved_to(*r),
            r.canonical ==> old(r).canonical,
            k <= n,
            v@.len() == k,
            r.canonical ==> old(r).span(*r) == ser_record_components(pool@, v@),
            r.canonical ==> components_writable(pool@, v@),
            pre == (old(r).offers(ser_record_components(pool@, ts@)) && n == ts@.len() && readable_components(pool@, ts@, depth as nat)),
            pre ==> r.canonical && r.pos == old(r).pos + ser_record_components(pool@, ts@.take(k as int)).len(),
        decreases n - k,
    {
        let ghost at0 = *r;
        let ghost tc = ts@[k as int];
        proof {
            if pre {
                lemma_components_step(old(r).data@, old(r).pos as int, pool@, ts@, k as int);
                lemma_readable_components_at(pool@, ts@, k as int, depth as nat);
            }
        }
        let name_index = r.read_u16()?;
        let ghost at1 = *r;
        let descriptor_index = r.read_u16()?;
        let ghost at2 = *r;
        let count = r.read_u16()?;
        let ghost at3 = *r;
        proof {
            if pre {
                assert(at2.span(at3) =~= r.data@.subrange(at2.pos as int, at2.pos + 2));
                lemma_be_u16_injective(count, #[verifier::truncate] (tc.attributes@.len() as u16));
            }
        }
        let attributes = read_attribute_list(pool, r, count as usize, depth, Ghost(tc.attributes@))?;
        let c = RecordComponent { name_index, descriptor_index, attributes };
        proof {
            lemma_span_split(r.data@, at2.pos as int, at3.pos as int, r.pos as int);
            lemma_span_split(r.data@, at1.pos as int, at2.pos as int, r.pos as int);
            lemma_span_split(r.data@, at0.pos as int, at1.pos as int, r.pos as int);
            lemma_span_split(r.data@, old(r).pos as int, at0.pos as int, r.pos as int);
            lemma_components_push(pool@, v@, c);
            if r.canonical {
                assert(at0.span(*r) =~= at0.span(at1) + at1.span(at2) + at2.span(at3) + at3.span(*r));
            }
        }
        v.push(c);
        k = k + 1;
    }
    proof {
        if pre {
            assert(ts@.take(n as int) =~= ts@);
        }
    }
    Ok(v)
}

/// The cursor offers an attribute table that decoding reads back.
pub open spec fn table_offered(r: ByteReader, pool: Seq<Constant>, v: Seq<Attribute>) -> bool {
    &&& r.offers(ser_attributes(pool, v))
    &&& v.len() <= 0xFFFF
    &&& readable_list(pool, v, MAX_NESTING as nat)
}

/// Reads an attribute table: a count, then that many attributes. Where the
/// input offers a readable table, it is read.
pub fn read_attribute_table(pool: &Vec<Constant>, r: &mut ByteReader) -> (res: Result<Vec<Attribute>, JavaError>)
    requires
        old(r).wf(),
    ensures
        old(r).moved_to(*final(r)),
        final(r).canonical ==> old(r).canonical,
        res matches Ok(v) ==> (final(r).canonical ==> old(r).span(*final(r)) == ser_attributes(pool@, v@)),
        res matches Ok(v) ==> (final(r).canonical ==> attributes_writable(pool@, v@)),
        (exists|v: Seq<Attribute>| table_offered(*old(r), pool@, v)) ==> (res is Ok && final(r).canonical),
{
    let ghost t = choose|v: Seq<Attribute>| table_offered(*r, pool@, v);
    read_attribute_table_as(pool, r, Ghost(t))
}

/// Reads an attribute table; where the input offers the readable table `t`,
/// it reads exactly its bytes.
pub fn read_attribute_table_as(pool: &Vec<Constant>, r: &mut ByteReader, t: Ghost<Seq<Attribute>>) -> (res: Result<Vec<Attribute>, JavaError>)
    requires
        old(r).wf(),
    ensures
        old(r).moved_to(*final(r)),
        final(r).canonical ==> old(r).canonical,
        res matches Ok(v) ==> (final(r).canonical ==> old(r).span(*final(r)) == ser_attributes(pool@, v@)),
        res matches Ok(v) ==> (final(r).canonical ==> attributes_writable(pool@, v@)),
        table_offered(*old(r), pool@, t@) ==> (res is Ok && old(r).took(*final(r), ser_attributes(pool@, t@))),
{
    let ghost r0 = *r;
    let ghost pre = table_offered(*r, pool@, t@);
    proof {
        if pre {
            lemma_starts_concat(r.data@, r.pos as int, be_u16(#[verifier::truncate] (t@.len() as u16)), ser_attribute_list(pool@, t@));
        }
    }
    let n = r.read_u16()?;
    let ghost r1 = *r;
    proof {
        if pre {
            assert(r0.span(r1) =~= r.data@.subrange(r0.pos as int, r0.pos + 2));
            lemma_be_u16_injective(n, #[verifier::truncate] (t@.len() as u16));
        }
    }
    let v = read_attribute_list(pool, r, n as usize, MAX_NESTING, t)?;
    proof { lemma_span_split(r.data@, r0.pos as int, r1.pos as int, r.pos as int); }
    Ok(v)
}

/// Writes the payload of an attribute.
fn write_payload(pool: &Vec<Constant>, out: &mut Vec<u8>, a: &Attribute) -> (res: Result<(), JavaError>)
    ensures
        res is Ok <==> payload_writable(pool@, *a),
        res is Ok ==> final(out)@ == old(out)@ + ser_payload(pool@, *a),
    decreases a, 1int,
{
    match a {
        Attribute::AnnotationDefault(..) => write_annotation_default(pool, out, a),
        Attribute::BootstrapMethods(..) => write_bootstrap_methods(pool, out, a),
        Attribute::Code { .. } => write_code(pool, out, a),
        Attribute::ConstantValue { .. } => write_constant_value(pool, out, a),
        Attribute::Deprecated => write_deprecated(pool, out, a),
        Attribute::EnclosingMethod { .. } => write_enclosing_method(pool, out, a),
        Attribute::Exceptions(..) => write_exceptions(pool, out, a),
        Attribute::InnerClasses(..) => write_inner_classes(pool, out, a),
        Attribute::LineNumberTable(..) => write_line_number_table(pool, out, a),
        Attribute::LocalVariableTable(..) => write_local_variable_table(pool, out, a),
        Attribute::LocalVariableTypeTable(..) => write_local_variable_type_table(pool, out, a),
        Attribute::MethodParameters(..) => write_method_parameters(pool, out, a),
        Attribute::Module { .. } => write_module(pool, out, a),
        Attribute::ModuleMainClass(..) => write_module_main_class(pool, out, a),
        Attribute::ModulePackages(..) => write_module_packages(pool, out, a),
        Attribute::NestHost(..) => write_nest_host(pool, out, a),
        Attribute::NestMembers(..) => write_nest_members(pool, out, a),
        Attribute::PermittedSubclasses(..) => write_permitted_subclasses(pool, out, a),
        Attribute::Record(..) => write_record(pool, out, a),
        Attribute::RuntimeInvisibleAnnotations(..) => write_runtime_invisible_annotations(pool, out, a),
        Attribute::RuntimeInvisibleParameterAnnotations(..) => write_runtime_invisible_parameter_annotations(pool, out, a),
        Attribute::RuntimeInvisibleTypeAnnotations(..) => write_runtime_invisible_type_annotations(pool, out, a),
        Attribute::RuntimeVisibleAnnotations(..) => write_runtime_visible_annotations(pool, out, a),
        Attribute::RuntimeVisibleParameterAnnotations(..) => write_runtime_visible_parameter_annotations(pool, out, a),
        Attribute::RuntimeVisibleTypeAnnotations(..) => write_runtime_visible_type_annotations(pool, out, a),
        Attribute::Signature { .. } => write_signature(pool, out, a),
        Attribute::SourceDebugExtension { .. } => write_source_debug_extension(pool, out, a),
        Attribute::SourceFile { .. } => write_source_file(pool, out, a),
        Attribute::StackMapTable(..) => write_stack_map_table(pool, out, a),
        Attribute::Synthetic => write_synthetic(pool, out, a),
        Attribute::Unknown { .. } => write_unknown(pool, out, a),
    }
}

/// Writes one attribute: the pool index of its name, the payload's length,
/// the payload. It fails, writing nothing, where the name is not in the pool,
/// the payload cannot be written or it is too long.
pub fn write_attribute(pool: &Vec<Constant>, out: &mut Vec<u8>, a: &Attribute) -> (res: Result<(), JavaError>)
    ensures
        res is Ok <==> attribute_writable(pool@, *a),
        res is Ok ==> final(out)@ == old(out)@ + ser_attribute(pool@, *a),
        res is Err ==> final(out)@ == old(out)@,
    decreases a, 2int,
{
    let name = name_of(a);
    let index = pool_string_index(pool, name.as_slice())?;
    let mut payload: Vec<u8> = Vec::new();
    write_payload(pool, &mut payload, a)?;
    if payload.len() > 0xFFFF_FFFF {
        return Err(JavaError::Malformed);
    }
    let ghost start = out@;
    push_u16(out, index);
    push_u32(out, payload.len() as u32);
    push_bytes(out, payload.as_slice());
    assert(payload@ =~= ser_payload(pool@, *a));
    assert(out@ =~= start + ser_attribute(pool@, *a));
    Ok(())
}

/// Writes each attribute, in order.
pub fn write_attribute_list(pool: &Vec<Constant>, out: &mut Vec<u8>, v: &Vec<Attribute>) -> (res: Result<(), JavaError>)
    ensures
        res is Ok <==> attributes_writable(pool@, v@),
        res is Ok ==> final(out)@ == old(out)@ + ser_attribute_list(pool@, v@),
        res is Err ==> final(out)@ == old(out)@,
    decreases v, 0int,
{
    let mut buf: Vec<u8> = Vec::new();
    let mut i: usize = 0;
    assert(v@.take(0) =~= Seq::<Attribute>::empty());
    assert(buf@ =~= ser_attribute_list(pool@, v@.take(0)));
    while i < v.len()
        invariant
            i <= v@.len(),
            buf@ == ser_attribute_list(pool@, v@.take(i as int)),
            attributes_writable(pool@, v@.take(i as int)),
        decreases v@.len() - i,
    {
        proof {
            assert(v@.take(i + 1) =~= v@.take(i as int).push(v@[i as int]));
            lemma_attribute_list_push(pool@, v@.take(i as int), v@[i as int]);
        }
        let res = write_attribute(pool, &mut buf, &v[i]);
        if res.is_err() {
            proof {
                if attributes_writable(pool@, v@) {
                    lemma_attributes_writable_prefix(pool@, v@, i + 1);
                }
            }
            return res;
        }
        i = i + 1;
    }
    assert(v@.take(v@.len() as int) =~= v@);
    push_bytes(out, buf.as_slice());
    Ok(())
}

/// Writes each record component, in order.
fn write_record_components(pool: &Vec<Constant>, out: &mut Vec<u8>, v: &Vec<RecordComponent>) -> (res: Result<(), JavaError>)
    ensures
        res is Ok <==> components_writable(pool@, v@),
        res is Ok ==> final(out)@ == old(out)@ + ser_record_components(pool@, v@),
    decreases v, 0int,
{
    let mut i: usize = 0;
    assert(v@.take(0) =~= Seq::<RecordComponent>::empty());
    while i < v.len()
        invariant
            i <= v@.len(),
            out@ == old(out)@ + ser_record_components(pool@, v@.take(i as int)),
            components_writable(pool@, v@.take(i as int)),
        decreases v@.len() - i,
    {
        proof {
            assert(v@.take(i + 1) =~= v@.take(i as int).push(v@[i as int]));
            lemma_components_push(pool@, v@.take(i as int), v@[i as int]);
        }
        let c = &v[i];
        let ghost before = out@;
        push_u16(out, c.name_index);
        push_u16(out, c.descriptor_index);
        push_u16(out, #[verifier::truncate] (c.attributes.len() as u16));
        let res = write_attribute_list(pool, out, &c.attributes);
        if res.is_err() {
            proof {
                if components_writable(pool@, v@) {
                    lemma_components_writable_prefix(pool@, v@, i + 1);
                }
            }
            return res;
        }
        i = i + 1;
    }
    assert(v@.take(v@.len() as int) =~= v@);
    Ok(())
}

/// Writes an attribute table: its count, then each attribute.
pub fn write_attribute_table(pool: &Vec<Constant>, out: &mut Vec<u8>, attributes: &Vec<Attribute>) -> (res: Result<(), JavaError>)
    ensures
        res is Ok <==> attributes_writable(pool@, attributes@),
        res is Ok ==> final(out)@ == old(out)@ + ser_attributes(pool@, attributes@),
        res is Err ==> final(out)@ == old(out)@,
{
    let mut buf: Vec<u8> = Vec::new();
    push_u16(&mut buf, #[verifier::truncate] (attributes.len() as u16));
    write_attribute_list(pool, &mut buf, attributes)?;
    assert(buf@ =~= ser_attributes(pool@, attributes@));
    push_bytes(out, buf.as_slice());
    Ok(())
}

/// An attribute of a name that no variant has is written as the index of the
/// pool's first entry with that name, the length of its data, and the data
/// as it is; it can be written exactly where the name is in the pool and the
/// data's length fits 32 bits.
pub proof fn lemma_unknown_attribute(pool: Seq<Constant>, name: Vec<u8>, data: Vec<u8>)
    ensures
        ({
            let a = Attribute::Unknown { name, data };
            &&& ser_attribute(pool, a) == be_u16(#[verifier::truncate] (first_utf8(pool, name@) as u16))
                + be_u32(#[verifier::truncate] (data@.len() as u32)) + data@
            &&& attribute_writable(pool, a) <==> (has_utf8(pool, name@) && data@.len() <= u32::MAX)
        }),
{
}

/// Reads an attribute table of `jvm`'s class; names resolve through its pool.
pub fn read_attributes(jvm: &JVMClass, r: &mut ByteReader) -> (res: Result<Vec<Attribute>, JavaError>)
    requires
        old(r).wf(),
    ensures
        old(r).moved_to(*final(r)),
        final(r).canonical ==> old(r).canonical,
        res matches Ok(v) ==> (final(r).canonical ==> old(r).span(*final(r)) == ser_attributes(jvm.constants@, v@)),
        res matches Ok(v) ==> (final(r).canonical ==> attributes_writable(jvm.constants@, v@)),
        (exists|v: Seq<Attribute>| table_offered(*old(r), jvm.constants@, v)) ==> (res is Ok && final(r).canonical),
{
    read_attribute_table(&jvm.constants, r)
}

/// Writes an attribute table; names are looked up in `jvm`'s pool.
pub fn write_attributes(out: &mut Vec<u8>, attributes: &Vec<Attribute>, jvm: &JVMClass) -> (res: Result<(), JavaError>)
    ensures
        res is Ok <==> attributes_writable(jvm.constants@, attributes@),
        res is Ok ==> final(out)@ == old(out)@ + ser_attributes(jvm.constants@, attributes@),
        res is Err ==> final(out)@ == old(out)@,
{
    write_attribute_table(&jvm.constants, out, attributes)
}

} // verus!
