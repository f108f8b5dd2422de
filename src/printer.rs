//! Rendering the type of a property, qualified by module where it lives
//! elsewhere.
use vstd::prelude::*;
use crate::host::{Primitive, PropertyDesc, PropertyType, TypeRef};
use crate::text::{decimal, push_decimal, push_str, text_eq};

verus! {

/// The module that holds the declarations of a package: blueprint-generated
/// types all share one.
pub open spec fn location(package: Seq<char>, blueprint: bool) -> Seq<char> {
    if blueprint {
        "blueprint_generated"@
    } else {
        package
    }
}

/// A type's name as seen from the module `here`: bare in its own module,
/// else through its module's path.
pub open spec fn qualified(t: TypeRef, here: Seq<char>) -> Seq<char> {
    let loc = location(t.package@, t.blueprint);
    if loc == here {
        t.name@
    } else {
        "crate::"@ + loc + "::"@ + t.name@
    }
}

pub open spec fn primitive_text(p: Primitive) -> Seq<char> {
    match p {
        Primitive::Bool => "bool"@,
        Primitive::I8 => "i8"@,
        Primitive::I16 => "i16"@,
        Primitive::I32 => "i32"@,
        Primitive::I64 => "i64"@,
        Primitive::U8 => "u8"@,
        Primitive::U16 => "u16"@,
        Primitive::U32 => "u32"@,
        Primitive::U64 => "u64"@,
        Primitive::Single => "f32"@,
        Primitive::Double => "f64"@,
    }
}

/// The text of a property type.
pub open spec fn type_text(t: PropertyType, here: Seq<char>) -> Seq<char>
    decreases t,
{
    match t {
        PropertyType::Primitive(p) => primitive_text(p),
        PropertyType::Str => "FString"@,
        PropertyType::Name => "FName"@,
        PropertyType::Text => "FText"@,
        PropertyType::Object(r) => "*mut "@ + qualified(r, here),
        PropertyType::Class(r) => "TSubclassOf<"@ + qualified(r, here) + ">"@,
        PropertyType::Struct(r) => qualified(r, here),
        PropertyType::Enum(r) => qualified(r, here),
        PropertyType::Array(e) => "TArray<"@ + type_text(*e, here) + ">"@,
        PropertyType::SetOf(e) => "TSet<"@ + type_text(*e, here) + ">"@,
        PropertyType::MapOf(k, v) => "TMap<"@ + type_text(*k, here) + ", "@ + type_text(*v, here) + ">"@,
        PropertyType::Delegate => "FScriptDelegate"@,
        PropertyType::MulticastDelegate => "FMulticastScriptDelegate"@,
    }
}

/// The text of a property's type: a fixed-size array where the host gives
/// more than one element.
pub open spec fn property_type_text(p: PropertyDesc, here: Seq<char>) -> Seq<char> {
    if p.array_dim > 1 {
        "["@ + type_text(p.typ, here) + "; "@ + decimal(p.array_dim as nat) + "]"@
    } else {
        type_text(p.typ, here)
    }
}

/// Appends a type's name as seen from the module `here`.
pub fn push_qualified(out: &mut String, t: &TypeRef, here: &str)
    ensures
        final(out)@ == old(out)@ + qualified(*t, here@),
{
    let mut loc = String::new();
    if t.blueprint {
        push_str(&mut loc, "blueprint_generated");
    } else {
        push_str(&mut loc, t.package.as_str());
    }
    if text_eq(loc.as_str(), here) {
        push_str(out, t.name.as_str());
    } else {
        push_str(out, "crate::");
        push_str(out, loc.as_str());
        push_str(out, "::");
        push_str(out, t.name.as_str());
        assert(out@ =~= old(out)@ + qualified(*t, here@));
    }
}

fn primitive_name(p: &Primitive) -> (r: &'static str)
    ensures
        r@ == primitive_text(*p),
{
    match p {
        Primitive::Bool => "bool",
        Primitive::I8 => "i8",
        Primitive::I16 => "i16",
        Primitive::I32 => "i32",
        Primitive::I64 => "i64",
        Primitive::U8 => "u8",
        Primitive::U16 => "u16",
        Primitive::U32 => "u32",
        Primitive::U64 => "u64",
        Primitive::Single => "f32",
        Primitive::Double => "f64",
    }
}

/// Appends the text of a property type.
pub fn push_type(out: &mut String, t: &PropertyType, here: &str)
    ensures
        final(out)@ == old(out)@ + type_text(*t, here@),
    decreases t,
{
    match t {
        PropertyType::Primitive(p) => push_str(out, primitive_name(p)),
        PropertyType::Str => push_str(out, "FString"),
        PropertyType::Name => push_str(out, "FName"),
        PropertyType::Text => push_str(out, "FText"),
        PropertyType::Object(r) => {
            push_str(out, "*mut ");
            push_qualified(out, r, here);
            assert(out@ =~= old(out)@ + type_text(*t, here@));
        },
        PropertyType::Class(r) => {
            push_str(out, "TSubclassOf<");
            push_qualified(out, r, here);
            push_str(out, ">");
            assert(out@ =~= old(out)@ + type_text(*t, here@));
        },
        PropertyType::Struct(r) => push_qualified(out, r, here),
        PropertyType::Enum(r) => push_qualified(out, r, here),
        PropertyType::Array(e) => {
            push_str(out, "TArray<");
            push_type(out, e, here);
            push_str(out, ">");
            assert(out@ =~= old(out)@ + type_text(*t, here@));
        },
        PropertyType::SetOf(e) => {
            push_str(out, "TSet<");
            push_type(out, e, here);
            push_str(out, ">");
            assert(out@ =~= old(out)@ + type_text(*t, here@));
        },
        PropertyType::MapOf(k, v) => {
            push_str(out, "TMap<");
            push_type(out, k, here);
            push_str(out, ", ");
            push_type(out, v, here);
            push_str(out, ">");
            assert(out@ =~= old(out)@ + type_text(*t, here@));
        },
        PropertyType::Delegate => push_str(out, "FScriptDelegate"),
        PropertyType::MulticastDelegate => push_str(out, "FMulticastScriptDelegate"),
    }
}

/// Appends the text of a property's type.
pub fn push_property_type(out: &mut String, p: &PropertyDesc, here: &str)
    ensures
        final(out)@ == old(out)@ + property_type_text(*p, here@),
{
    if p.array_dim > 1 {
        push_str(out, "[");
        push_type(out, &p.typ, here);
        push_str(out, "; ");
        push_decimal(out, p.array_dim as u64);
        push_str(out, "]");
        assert(out@ =~= old(out)@ + property_type_text(*p, here@));
    } else {
        push_type(out, &p.typ, here);
    }
}

/// Renders the type text of a property as seen from the module `here`.
pub fn render_property_type(p: &PropertyDesc, here: &str) -> (r: String)
    ensures
        r@ == property_type_text(*p, here@),
{
    let mut out = String::new();
    push_property_type(&mut out, p, here);
    out
}

} // verus!
