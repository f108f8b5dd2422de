use sdk_gen::enums::{enum_storage_width, generate_enum, get_enum_representation, is_max_variant, IntWidth};
use sdk_gen::functions::{classify, render_function, ParamKind, CPF_CONST_PARM, CPF_OUT_PARM, CPF_PARM, CPF_RETURN_PARM};
use sdk_gen::error::Error;
use sdk_gen::host::{EnumDesc, EnumVariant, FunctionDesc, PackageRef, Primitive, PropertyDesc, PropertyType, TypeRef};
use sdk_gen::names::{clean_name, variant_name, HostName};
use sdk_gen::printer::render_property_type;
use sdk_gen::text::{push_decimal, push_signed, text_eq};

fn name(text: &str, number: u32) -> HostName {
    HostName { text: text.to_string(), number }
}

fn variant(text: &str, value: i64) -> EnumVariant {
    EnumVariant { name: name(text, 0), value }
}

fn pkg(id: usize, short: &str) -> PackageRef {
    PackageRef { id, short_name: short.to_string() }
}

fn enum_desc(n: &str, vs: Vec<EnumVariant>) -> EnumDesc {
    EnumDesc { name: n.to_string(), full_name: format!("Enum /Script/Pkg.{}", n), package: pkg(0, "Pkg"), variants: vs }
}

fn prop(n: &str, typ: PropertyType, flags: u64) -> PropertyDesc {
    PropertyDesc { name: name(n, 0), element_size: 4, array_dim: 1, offset: 0, flags, typ, bitfield: None }
}

#[test]
fn clean_name_prefixes_leading_digit() {
    let c = clean_name(&name("2nd", 0));
    assert_eq!(c.text, "Func_2nd");
    assert_eq!(c.replaced, 0);
}

#[test]
fn clean_name_joins_pieces_with_one_underscore() {
    let c = clean_name(&name("a b--c", 0));
    assert_eq!(c.text, "a_b_c");
    assert_eq!(c.replaced, 2);
}

#[test]
fn clean_name_drops_separators_at_the_ends() {
    let c = clean_name(&name("--x?!", 0));
    assert_eq!(c.text, "x");
    assert_eq!(c.replaced, 0);
}

#[test]
fn clean_name_of_empty_and_separator_only_text() {
    let c = clean_name(&name("", 0));
    assert_eq!(c.text, "");
    assert_eq!(c.replaced, 0);
    let d = clean_name(&name("- -", 0));
    assert_eq!(d.text, "");
    assert_eq!(d.replaced, 0);
}

#[test]
fn clean_name_appends_number_less_one() {
    assert_eq!(clean_name(&name("Mesh", 1)).text, "Mesh_0");
    assert_eq!(clean_name(&name("Mesh", 13)).text, "Mesh_12");
}

#[test]
fn clean_name_keeps_clean_identifier() {
    for t in ["abc", "A_b9", "_x", "Self"] {
        let once = clean_name(&name(t, 0));
        assert_eq!(once.text, t);
        let twice = clean_name(&name(&once.text, 0));
        assert_eq!(twice.text, once.text);
    }
}

#[test]
fn variant_names_scenario_two() {
    assert_eq!(variant_name(&name("Self", 0)), "SelfVariant");
    assert_eq!(variant_name(&name("Up::North", 0)), "North");
    assert_eq!(variant_name(&name("2nd", 0)), "Func_2nd");
}

#[test]
fn variant_name_strips_qualifier_before_reserved_word() {
    assert_eq!(variant_name(&name("Dir::Self", 0)), "SelfVariant");
    assert_eq!(variant_name(&name("A::B::C", 2)), "C_1");
    assert_eq!(variant_name(&name("E::", 0)), "");
    assert_eq!(variant_name(&name("Plain", 0)), "Plain");
}

#[test]
fn decimal_rendering() {
    let mut s = String::new();
    push_decimal(&mut s, 0);
    s.push(' ');
    push_decimal(&mut s, 1234567890);
    s.push(' ');
    push_signed(&mut s, -42);
    s.push(' ');
    push_signed(&mut s, i64::MIN);
    s.push(' ');
    push_decimal(&mut s, u64::MAX);
    assert_eq!(s, "0 1234567890 -42 -9223372036854775808 18446744073709551615");
}

#[test]
fn text_equality() {
    assert!(text_eq("abc", "abc"));
    assert!(!text_eq("abc", "abd"));
    assert!(!text_eq("abc", "ab"));
}

#[test]
fn enum_width_is_smallest_that_fits() {
    assert_eq!(get_enum_representation(&[variant("A", 0), variant("B", 255)]), IntWidth::U8);
    assert_eq!(get_enum_representation(&[variant("A", 0), variant("B", 256)]), IntWidth::U32);
    assert_eq!(get_enum_representation(&[variant("A", 4294967295)]), IntWidth::U32);
    assert_eq!(get_enum_representation(&[variant("A", 4294967296)]), IntWidth::U64);
    assert_eq!(get_enum_representation(&[variant("A", -5)]), IntWidth::U8);
    assert_eq!(get_enum_representation(&[]), IntWidth::U8);
    assert_eq!(IntWidth::U32.name(), "u32");
}

#[test]
fn enum_width_ignores_trailing_sentinel() {
    let vs = vec![variant("A", 0), variant("B", 300), variant("E_MAX", 5_000_000_000)];
    assert_eq!(enum_storage_width(&vs), IntWidth::U32);
    let vs = vec![variant("A", 0), variant("B", 3), variant("E_Max", 256)];
    assert_eq!(enum_storage_width(&vs), IntWidth::U8);
    // a sentinel that is not last counts
    let vs = vec![variant("E_MAX", 256), variant("B", 3)];
    assert_eq!(enum_storage_width(&vs), IntWidth::U32);
    assert!(is_max_variant("X_MAX"));
    assert!(is_max_variant("_Max"));
    assert!(!is_max_variant("MAX"));
    assert!(!is_max_variant("X_max"));
}

#[test]
fn enum_scenario_one() {
    let e = enum_desc("E", vec![variant("A", 0), variant("B", 1), variant("C_MAX", 2)]);
    let t = generate_enum(&e);
    assert_eq!(
        t,
        "// Enum /Script/Pkg.E\n#[repr(transparent)]\npub struct E(u8);\n\nimpl E {\n    pub const A: Self = Self(0);\n    pub const B: Self = Self(1);\n    pub const C_MAX: Self = Self(2);\n}\n\n"
    );
}

#[test]
fn enum_scenario_two() {
    let e = enum_desc("Dir", vec![variant("Self", 0), variant("Up::North", 1), variant("2nd", 2)]);
    let t = generate_enum(&e);
    assert!(t.contains("    pub const SelfVariant: Self = Self(0);\n"));
    assert!(t.contains("    pub const North: Self = Self(1);\n"));
    assert!(t.contains("    pub const Func_2nd: Self = Self(2);\n"));
}

#[test]
fn empty_enum_emits_nothing() {
    assert_eq!(generate_enum(&enum_desc("Empty", vec![])), "");
}

#[test]
fn enum_with_negative_and_large_values() {
    let e = enum_desc("W", vec![variant("Neg", -1), variant("Big", 1 << 40)]);
    let t = generate_enum(&e);
    assert!(t.contains("pub struct W(u64);"));
    assert!(t.contains("    pub const Neg: Self = Self(-1);\n"));
    assert!(t.contains("    pub const Big: Self = Self(1099511627776);\n"));
}

#[test]
fn property_types_are_qualified_by_module() {
    let local = TypeRef { package: "Pkg".to_string(), name: "Vec3".to_string(), blueprint: false };
    let other = TypeRef { package: "Core".to_string(), name: "Actor".to_string(), blueprint: false };
    let bp = TypeRef { package: "Pkg".to_string(), name: "BP_Gun_C".to_string(), blueprint: true };
    assert_eq!(render_property_type(&prop("v", PropertyType::Struct(local), 0), "Pkg"), "Vec3");
    assert_eq!(render_property_type(&prop("a", PropertyType::Object(other), 0), "Pkg"), "*mut crate::Core::Actor");
    assert_eq!(
        render_property_type(&prop("b", PropertyType::Object(bp), 0), "Pkg"),
        "*mut crate::blueprint_generated::BP_Gun_C"
    );
    let bp2 = TypeRef { package: "Pkg".to_string(), name: "BP_Gun_C".to_string(), blueprint: true };
    assert_eq!(render_property_type(&prop("b", PropertyType::Struct(bp2), 0), "blueprint_generated"), "BP_Gun_C");
}

#[test]
fn property_types_of_composites_and_arrays() {
    let map = PropertyType::MapOf(Box::new(PropertyType::Name), Box::new(PropertyType::Array(Box::new(PropertyType::Primitive(Primitive::I32)))));
    assert_eq!(render_property_type(&prop("m", map, 0), "Pkg"), "TMap<FName, TArray<i32>>");
    let mut p = prop("f", PropertyType::Primitive(Primitive::Single), 0);
    p.array_dim = 3;
    assert_eq!(render_property_type(&p, "Pkg"), "[f32; 3]");
    assert_eq!(render_property_type(&prop("d", PropertyType::MulticastDelegate, 0), "Pkg"), "FMulticastScriptDelegate");
    assert_eq!(render_property_type(&prop("s", PropertyType::SetOf(Box::new(PropertyType::Str)), 0), "Pkg"), "TSet<FString>");
}

#[test]
fn parameters_are_classified_by_flags() {
    assert_eq!(classify(CPF_PARM), ParamKind::Input);
    assert_eq!(classify(CPF_PARM | CPF_RETURN_PARM), ParamKind::Output);
    assert_eq!(classify(CPF_PARM | CPF_OUT_PARM), ParamKind::Output);
    assert_eq!(classify(CPF_PARM | CPF_OUT_PARM | CPF_CONST_PARM), ParamKind::Input);
    assert_eq!(classify(0), ParamKind::Ignored);
}

#[test]
fn trampoline_with_one_input_and_one_output() {
    let f = FunctionDesc {
        name: name("SetAmount", 0),
        full_name: "Function /Script/Pkg.Item.SetAmount".to_string(),
        params: vec![
            prop("New Amount", PropertyType::Primitive(Primitive::I32), CPF_PARM),
            prop("ReturnValue", PropertyType::Primitive(Primitive::Bool), CPF_PARM | CPF_RETURN_PARM),
            prop("Local", PropertyType::Primitive(Primitive::I32), 0),
        ],
    };
    let t = render_function(&f, "Pkg").unwrap();
    assert_eq!(
        t,
        "    pub unsafe fn SetAmount(&mut self, New_Amount: i32, ) -> bool {\n        #[repr(C)]\n        struct Parameters {\n            New_Amount: i32, \n            ReturnValue: core::mem::MaybeUninit<bool>, \n        }\n\n        let mut parameters = Parameters {\n            New_Amount, \n            ReturnValue: core::mem::MaybeUninit::uninit(), \n        };\n\n        crate::process_event(self as *mut Self as *mut _, \"Function /Script/Pkg.Item.SetAmount\", &mut parameters as *mut Parameters as *mut _);\n        parameters.ReturnValue.assume_init()\n    }\n\n"
    );
}

#[test]
fn trampoline_outputs_zero_and_many() {
    let none = FunctionDesc { name: name("Fire", 0), full_name: "F".to_string(), params: vec![] };
    let t = render_function(&none, "Pkg").unwrap();
    assert!(t.starts_with("    pub unsafe fn Fire(&mut self, ) {\n"));
    assert!(t.ends_with("as *mut _);\n    }\n\n"));
    let two = FunctionDesc {
        name: name("Get", 0),
        full_name: "G".to_string(),
        params: vec![
            prop("A", PropertyType::Primitive(Primitive::I32), CPF_PARM | CPF_OUT_PARM),
            prop("B", PropertyType::Primitive(Primitive::U8), CPF_PARM | CPF_RETURN_PARM),
        ],
    };
    let t = render_function(&two, "Pkg").unwrap();
    assert!(t.starts_with("    pub unsafe fn Get(&mut self, ) -> (i32, u8, ) {"));
    assert!(t.contains("\n        (parameters.A.assume_init(), parameters.B.assume_init(), )\n    }"));
}

#[test]
fn too_many_parameters_is_an_error() {
    let params: Vec<PropertyDesc> = (0..33).map(|i| prop(&format!("p{}", i), PropertyType::Primitive(Primitive::I32), CPF_PARM)).collect();
    let f = FunctionDesc { name: name("Many", 0), full_name: "M".to_string(), params };
    assert_eq!(render_function(&f, "Pkg").unwrap_err(), Error::MaxParameters);
    let params: Vec<PropertyDesc> = (0..32).map(|i| prop(&format!("p{}", i), PropertyType::Primitive(Primitive::I32), CPF_PARM)).collect();
    let f = FunctionDesc { name: name("Enough", 0), full_name: "M".to_string(), params };
    assert!(render_function(&f, "Pkg").is_ok());
}
