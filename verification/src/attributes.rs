//! Parser and writer implementation for a subset of attributes.

mod annotation;
mod array;
mod class;
mod code;
mod debug;
mod element;
mod module;
mod stack_map;

pub use annotation::{
    AnnotationTarget, EmptyAnnotationKind, LocalVarKind, LocalVarTableEntry,
    OffsetAnnotationKind, ParamAnnotations, RuntimeInvisibleParamAnnotationsReader,
    RuntimeInvisibleParamAnnotationsWriter, RuntimeInvisibleTypeAnnotationsReader,
    RuntimeInvisibleTypeAnnotationsWriter, RuntimeVisibleParamAnnotationsReader,
    RuntimeVisibleParamAnnotationsWriter, RuntimeVisibleTypeAnnotationsReader,
    RuntimeVisibleTypeAnnotationsWriter, SpecAnnotationTarget, SpecTypedAnnotation,
    TypeArgumentKind, TypeParameterKind, TypePathEntry, TypedAnnotation,
    NAME_RUNTIME_INVISIBLE_PARAM_ANNOTATIONS, NAME_RUNTIME_INVISIBLE_TYPE_ANNOTATIONS,
    NAME_RUNTIME_VISIBLE_PARAM_ANNOTATIONS, NAME_RUNTIME_VISIBLE_TYPE_ANNOTATIONS, range_fits,
    target_fits,
};
pub use array::{ArrayReader, ArrayReaderU16, ArrayReaderU8, ArrayWriter, ArrayWriterU16, ArrayWriterU8};
pub use class::{
    ConstantPoolIndex, EnclosingMethod, ExceptionsReader, ExceptionsWriter, InnerClass,
    InnerClassAccessFlags, InnerClassesReader, InnerClassesWriter, ModulePackagesReader,
    ModulePackagesWriter, NestMembersReader, NestMembersWriter, PermittedSubclassesReader,
    PermittedSubclassesWriter, NAME_DEPRECATED, NAME_ENCLOSING_METHOD, NAME_EXCEPTIONS,
    NAME_INNER_CLASSES, NAME_MODULE_MAIN_CLASS, NAME_MODULE_PACKAGES, NAME_NEST_HOST,
    NAME_NEST_MEMBERS, NAME_PERMITTED_SUBCLASSES, NAME_SIGNATURE, NAME_SOURCE_DEBUG_EXTENSION,
    NAME_SOURCE_FILE, NAME_SYNTHETIC,
};
pub use code::{
    code_wf, lemma_code_back, lemma_code_codec, spec_decode_code, spec_encode_code, CodeBody,
    ConstantValue, ExceptionTableEntry, SpecCode, SpecCodeBody, NAME_CODE, NAME_CONSTANT_VALUE,
};
pub use debug::{
    LineNumber, LineNumberTableReader, LineNumberTableWriter, LocalVariable,
    LocalVariableTableReader, LocalVariableTableWriter, LocalVariableTypeTableReader,
    LocalVariableTypeTableWriter, MethodParam, MethodParamAccessFlags, MethodParamsReader,
    MethodParamsWriter, TypedLocalVariable, NAME_LINE_NUMBER_TABLE, NAME_LOCAL_VARIABLE_TABLE,
    NAME_LOCAL_VARIABLE_TYPE_TABLE, NAME_METHOD_PARAMS,
};
pub use element::{
    Annotation, ElementConstValueType, ElementValue, RuntimeInvisibleAnnotationsReader,
    RuntimeInvisibleAnnotationsWriter, SpecAnnotation, SpecElementValue,
    NAME_ANNOTATION_DEFAULT, NAME_RUNTIME_INVISIBLE_ANNOTATIONS, lemma_annotation_back,
    lemma_pairs_back, lemma_value_back, lemma_values_back, spec_encode_values,
};
pub use module::{
    BootstrapMethod, BootstrapMethodsReader, BootstrapMethodsWriter, ComponentInfo, Module,
    ModuleFlags, ModuleProvided, ModuleRequired, ModuleRequiredFlags, PackageFlags,
    PackageRelation, RecordReader, RecordWriter, SpecBootstrapMethod, SpecComponentInfo,
    SpecModule, SpecModuleProvided, SpecPackageRelation, NAME_BOOTSTRAP_METHODS, NAME_MODULE,
    NAME_RECORD, spec_decode_module_deps, spec_decode_module_services, spec_encode_module_deps,
    spec_encode_module_services,
};
pub use stack_map::{
    frame_locals, SpecStackMapFrame, StackMapFrame, StackMapTableReader, StackMapTableWriter,
    VerificationType, NAME_STACK_MAP_TABLE,
};

pub use crate::reader::CodeReader;
pub use crate::writer::CodeWriter;
