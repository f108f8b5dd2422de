//! Plain-value descriptions of what the host's reflection registry holds.
use vstd::prelude::*;
use crate::names::HostName;

verus! {

/// A host package: an identity (its slot in the host's package table) and
/// the short name that names its module.
pub struct PackageRef {
    pub id: usize,
    pub short_name: String,
}

/// A type that a property refers to by name: where it lives and whether the
/// host generated it from a blueprint.
pub struct TypeRef {
    pub package: String,
    pub name: String,
    pub blueprint: bool,
}

/// The scalar types of the host.
pub enum Primitive {
    Bool,
    I8,
    I16,
    I32,
    I64,
    U8,
    U16,
    U32,
    U64,
    Single,
    Double,
}

/// The type of a property, as its class-cast flags tell it.
pub enum PropertyType {
    Primitive(Primitive),
    Str,
    Name,
    Text,
    Object(TypeRef),
    Class(TypeRef),
    Struct(TypeRef),
    Enum(TypeRef),
    Array(Box<PropertyType>),
    SetOf(Box<PropertyType>),
    MapOf(Box<PropertyType>, Box<PropertyType>),
    Delegate,
    MulticastDelegate,
}

/// What a bool property that lives in a bitfield adds: the byte width of
/// its storage word, the byte within that word, and the mask within that byte.
#[derive(Clone, Copy)]
pub struct BitfieldDesc {
    pub field_size: u8,
    pub byte_offset: u8,
    pub byte_mask: u8,
}

/// A property of a struct or a parameter of a function.
pub struct PropertyDesc {
    pub name: HostName,
    pub element_size: u32,
    pub array_dim: u32,
    pub offset: u32,
    pub flags: u64,
    pub typ: PropertyType,
    pub bitfield: Option<BitfieldDesc>,
}

/// The super-struct of a struct.
pub struct BaseDesc {
    pub name: String,
    pub package: String,
    pub size: u32,
    pub blueprint: bool,
}

/// A reflected function: its name, its fully qualified name, its parameters.
pub struct FunctionDesc {
    pub name: HostName,
    pub full_name: String,
    pub params: Vec<PropertyDesc>,
}

/// A class or script-struct.
pub struct StructDesc {
    pub name: String,
    pub full_name: String,
    pub package: PackageRef,
    pub size: u32,
    pub min_alignment: u32,
    pub blueprint: bool,
    pub base: Option<BaseDesc>,
    pub properties: Vec<PropertyDesc>,
    pub functions: Vec<FunctionDesc>,
}

/// One named value of an enumeration.
pub struct EnumVariant {
    pub name: HostName,
    pub value: i64,
}

/// A reflected enumeration.
pub struct EnumDesc {
    pub name: String,
    pub full_name: String,
    pub package: PackageRef,
    pub variants: Vec<EnumVariant>,
}

/// An entry of the host's global object array.
pub enum HostObject {
    Struct(StructDesc),
    Enum(EnumDesc),
    Other,
}

} // verus!
