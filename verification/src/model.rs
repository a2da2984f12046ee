use vstd::prelude::*;

verus! {

broadcast use vstd::layout::layout_of_primitives;

/// The scalar type of a variable of the model.
#[derive(Clone, Copy, Debug, PartialEq, Eq, Structural)]
pub enum Type {
    I8,
    U8,
    I16,
    U16,
    I32,
    U32,
    I64,
    U64,
    F32,
    F64,
    Pointer,
    String,
    Isize,
    Usize,
}

/// The device on which an operation runs.
#[derive(Clone, Copy, Debug, PartialEq, Eq, Structural)]
pub enum Device {
    Host,
    Cuda,
}

/// A variable of the model: the operations that produce and consume it, and its type.
pub struct Variable {
    pub producers: Vec<u32>,
    pub consumers: Vec<u32>,
    pub ty: Type,
}

/// An operation of the model: the variables it reads and writes, and its device.
pub struct Operation {
    pub inputs: Vec<u32>,
    pub outputs: Vec<u32>,
    pub device: Device,
}

/// A dataflow model: its variables and operations, indexed by id, and the ids
/// of the variables that the program takes as input and gives as output.
pub struct Model {
    pub variables: Vec<Variable>,
    pub operations: Vec<Operation>,
    pub inputs: Vec<u32>,
    pub outputs: Vec<u32>,
}

/// The number of bytes that a value of type `ty` occupies.
pub open spec fn type_size(ty: Type) -> nat {
    match ty {
        Type::I8 | Type::U8 => 1,
        Type::I16 | Type::U16 => 2,
        Type::I32 | Type::U32 | Type::F32 => 4,
        Type::I64 | Type::U64 | Type::F64 | Type::Pointer => 8,
        Type::Isize | Type::Usize => vstd::layout::size_of::<usize>(),
        Type::String => 8,
    }
}

/// The number of bytes that a value of type `ty` occupies.
pub fn get_type_size(ty: &Type) -> (size: usize)
    ensures
        size == type_size(*ty),
{
    match ty {
        Type::I8 | Type::U8 => 1,
        Type::I16 | Type::U16 => 2,
        Type::I32 | Type::U32 | Type::F32 => 4,
        Type::I64 | Type::U64 | Type::F64 | Type::Pointer => 8,
        Type::Isize | Type::Usize => std::mem::size_of::<usize>(),
        Type::String => 8,
    }
}

impl Operation {
    /// Every input of this operation is among `computed`.
    pub open spec fn inputs_within(&self, computed: Set<u32>) -> bool {
        forall|j: int| 0 <= j < self.inputs@.len() ==> computed.contains(#[trigger] self.inputs@[j])
    }
}

impl Model {
    /// Operation ids are `u32`, so the model has no more operations than a `u32` can count.
    pub open spec fn wf(&self) -> bool {
        self.operations@.len() <= u32::MAX
    }

    /// The device of operation `op`.
    pub open spec fn device_of(&self, op: u32) -> Device {
        self.operations@[op as int].device
    }

    /// Operation `op` exists and all its inputs are among `computed`.
    pub open spec fn runnable(&self, op: u32, computed: Set<u32>) -> bool {
        &&& (op as int) < self.operations@.len()
        &&& self.operations@[op as int].inputs_within(computed)
    }
}

} // verus!
