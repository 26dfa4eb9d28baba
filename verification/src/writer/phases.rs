//! States of a classfile writer.
use vstd::prelude::*;

use crate::util::VecChunk;

verus! {

/// Writing the header.
#[derive(Debug)]
pub struct Header;

/// Writing the body of an attribute.
#[derive(Debug)]
pub struct Body;

/// Writing attributes: how many were written, and where their count goes.
#[derive(Debug)]
pub struct Attributes {
    pub(crate) count: u16,
    pub(crate) chunk: VecChunk,
}

/// Writing the constant pool: how much index space was taken, and where the count goes.
#[derive(Debug)]
pub struct ConstantPool {
    pub(crate) count: u16,
    pub(crate) chunk: VecChunk,
}

/// Writing the class metadata.
#[derive(Debug)]
pub struct Metadata;

/// Writing the interfaces: how many were written, and where their count goes.
#[derive(Debug)]
pub struct Interfaces {
    pub(crate) count: u16,
    pub(crate) chunk: VecChunk,
}

/// Writing an exception table: how many entries were written, and where their count goes.
#[derive(Debug)]
pub struct ExceptionTable {
    pub(crate) count: u16,
    pub(crate) chunk: VecChunk,
}

/// Writing the fields: how many were written, where their count goes, and the
/// state within the current field.
#[derive(Debug)]
pub struct Fields<Phase> {
    pub(crate) count: u16,
    pub(crate) chunk: VecChunk,
    pub(crate) phase: Phase,
}

/// Writing the methods: how many were written, where their count goes, and the
/// state within the current method.
#[derive(Debug)]
pub struct Methods<Phase> {
    pub(crate) count: u16,
    pub(crate) chunk: VecChunk,
    pub(crate) phase: Phase,
}

} // verus!
