use vstd::prelude::*;
use crate::name::{Name, NameModel};

verus! {

/// The types the analysis looks at.
#[derive(Debug)]
pub enum Type {
    PointerType { pointee_type: Box<Type> },
    FuncType,
    NamedStructType { name: String },
    Other,
}

/// A constant operand.
#[derive(Debug)]
pub enum Constant {
    /// A reference to a global symbol, with the symbol's demangled form.
    GlobalReference { name: String, demangled: String },
    Other,
}

/// An instruction operand.
#[derive(Debug)]
pub enum Operand {
    /// An SSA value of the function.
    LocalOperand { name: Name, ty: Type },
    ConstantOperand(Constant),
    MetadataOperand,
}

/// What a call calls: inline assembly or an operand.
#[derive(Debug)]
pub enum Callee {
    InlineAssembly,
    Operand(Operand),
}

/// The instructions the analysis distinguishes.
#[derive(Debug)]
#[allow(inconsistent_fields)]
pub enum Instruction {
    Load { address: Operand, dest: Name },
    Store { address: Operand, value: Operand },
    BitCast { operand: Operand, dest: Name },
    Trunc { operand: Operand, dest: Name },
    ZExt { operand: Operand, dest: Name },
    SExt { operand: Operand, dest: Name },
    PtrToInt { operand: Operand, dest: Name },
    IntToPtr { operand: Operand, dest: Name },
    AddrSpaceCast { operand: Operand, dest: Name },
    GetElementPtr { address: Operand, dest: Name },
    ExtractElement { vector: Operand, dest: Name },
    ExtractValue { aggregate: Operand, dest: Name },
    InsertElement { element: Operand, dest: Name },
    InsertValue { element: Operand, dest: Name },
    ShuffleVector { operand0: Operand, operand1: Operand, dest: Name },
    Phi { incoming_values: Vec<Operand>, dest: Name },
    Alloca { allocated_type: Type, dest: Name },
    Call { function: Callee, arguments: Vec<Operand>, dest: Option<Name> },
    /// Integer and bitwise arithmetic: `add`, `sub`, `mul`, `udiv`, `sdiv`,
    /// `urem`, `srem`, `and`, `or`, `xor`, `shl`, `lshr`, `ashr`.
    Arithmetic { operand0: Operand, operand1: Operand, dest: Name },
    Other,
}

/// The terminators the analysis distinguishes.
#[derive(Debug)]
pub enum Terminator {
    Ret { return_operand: Option<Operand> },
    Invoke { function: Callee, arguments: Vec<Operand>, result: Name },
    CallBr,
    Other,
}

/// A basic block, with the blocks that control may pass to after it.
#[derive(Debug)]
pub struct BasicBlock {
    pub name: Name,
    pub instrs: Vec<Instruction>,
    pub term: Terminator,
    pub successors: Vec<Name>,
}

/// A function: its symbol, the symbol's demangled form, its formal
/// parameters and its blocks, the entry block first.
#[derive(Debug)]
pub struct Function {
    pub name: String,
    pub demangled_name: String,
    pub parameters: Vec<Name>,
    pub basic_blocks: Vec<BasicBlock>,
}

/// The SSA value an operand names, if it is one.
pub open spec fn local_of(op: Operand) -> Option<NameModel> {
    match op {
        Operand::LocalOperand { name, .. } => Some(name@),
        _ => None,
    }
}

/// The SSA value an operand names, if it is one.
pub fn local_name(op: &Operand) -> (r: Option<&Name>)
    ensures
        match r {
            Some(n) => local_of(*op) == Some(n@),
            None => local_of(*op) is None,
        },
{
    match op {
        Operand::LocalOperand { name, .. } => Some(name),
        _ => None,
    }
}

/// The symbol a call names directly, with its demangled form, if it does.
pub open spec fn direct_callee(c: Callee) -> Option<(Seq<char>, Seq<char>)> {
    match c {
        Callee::Operand(Operand::ConstantOperand(Constant::GlobalReference { name, demangled })) => Some(
            (name@, demangled@),
        ),
        _ => None,
    }
}

/// A call through an operand of pointer-to-function type.
pub open spec fn is_function_pointer(c: Callee) -> bool {
    match c {
        Callee::Operand(Operand::LocalOperand { ty: Type::PointerType { pointee_type }, .. }) => match *pointee_type {
            Type::FuncType => true,
            _ => false,
        },
        _ => false,
    }
}

/// Whether the callee is reached through a function pointer.
pub fn calls_function_pointer(c: &Callee) -> (r: bool)
    ensures
        r == is_function_pointer(*c),
{
    match c {
        Callee::Operand(Operand::LocalOperand { ty: Type::PointerType { pointee_type }, .. }) => match &**pointee_type {
            Type::FuncType => true,
            _ => false,
        },
        _ => false,
    }
}

} // verus!
