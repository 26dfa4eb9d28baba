//! States of a classfile reader.
use vstd::prelude::*;

use crate::{Error, NonZeroU16};

verus! {

/// Count of a list and how many of its items were read.
#[derive(Debug, Clone, Copy)]
pub struct RawList {
    pub(crate) len: u16,
    pub(crate) read: u16,
}

/// Reading the header.
#[derive(Debug)]
pub struct Header;

/// Reading the body of an attribute.
#[derive(Debug)]
pub struct Body;

/// Reading the constant pool.
#[derive(Debug, Clone, Copy)]
pub struct ConstantPool {
    pub(crate) len: NonZeroU16,
    pub(crate) idx: NonZeroU16,
}

/// Reading the class metadata.
#[derive(Debug)]
pub struct Metadata;

/// Reading the interfaces.
#[derive(Debug)]
pub struct Interfaces(pub(crate) RawList);

/// Reading the fields: their count, and the error met walking over the
/// attributes of the field handed out last.
#[derive(Debug)]
pub struct Fields(pub(crate) RawList, pub(crate) Option<Error>);

/// Reading the methods: their count, and the error met walking over the
/// attributes of the method handed out last.
#[derive(Debug)]
pub struct Methods(pub(crate) RawList, pub(crate) Option<Error>);

/// Reading attributes.
#[derive(Debug)]
pub struct Attributes(pub(crate) RawList);

/// Reading an exception table.
#[derive(Debug)]
pub struct ExceptionTable(pub(crate) RawList);

} // verus!
