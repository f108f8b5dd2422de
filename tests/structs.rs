use sdk_gen::error::Error;
use sdk_gen::generator::{generate_struct, Generator, StructGenerator, UNREGISTERED};
use sdk_gen::host::{
    BaseDesc, BitfieldDesc, EnumDesc, EnumVariant, FunctionDesc, HostObject, PackageRef, Primitive, PropertyDesc,
    PropertyType, StructDesc,
};
use sdk_gen::emit::render_accessors;
use sdk_gen::layout::{plan_layout, Layout, Slot};
use sdk_gen::names::HostName;

fn name(text: &str) -> HostName {
    HostName { text: text.to_string(), number: 0 }
}

fn pkg(id: usize, short: &str) -> PackageRef {
    PackageRef { id, short_name: short.to_string() }
}

fn field(n: &str, prim: Primitive, size: u32, offset: u32) -> PropertyDesc {
    PropertyDesc {
        name: name(n),
        element_size: size,
        array_dim: 1,
        offset,
        flags: 0,
        typ: PropertyType::Primitive(prim),
        bitfield: None,
    }
}

fn bit(n: &str, offset: u32, field_size: u8, byte_offset: u8, byte_mask: u8) -> PropertyDesc {
    PropertyDesc {
        name: name(n),
        element_size: 1,
        array_dim: 1,
        offset,
        flags: 0,
        typ: PropertyType::Primitive(Primitive::Bool),
        bitfield: Some(BitfieldDesc { field_size, byte_offset, byte_mask }),
    }
}

fn strukt(n: &str, package: PackageRef, size: u32, align: u32, base: Option<BaseDesc>, properties: Vec<PropertyDesc>) -> StructDesc {
    StructDesc {
        name: n.to_string(),
        full_name: format!("/Script/{}.{}", package.short_name, n),
        package,
        size,
        min_alignment: align,
        blueprint: false,
        base,
        properties,
        functions: vec![],
    }
}

fn slot_size(s: &Slot) -> u64 {
    match s {
        Slot::Base { size } => *size,
        Slot::Pad { size, .. } => *size,
        Slot::Field { size, .. } => *size,
        Slot::Bitfield { width, .. } => *width as u64,
        _ => 0,
    }
}

fn slot_offset(s: &Slot) -> Option<u64> {
    match s {
        Slot::Base { .. } => Some(0),
        Slot::Pad { offset, .. } => Some(*offset),
        Slot::Field { offset, .. } => Some(*offset),
        Slot::Bitfield { offset, .. } => Some(*offset),
        _ => None,
    }
}

#[test]
fn struct_scenario_three() {
    let sd = strukt("A", pkg(0, "Pkg"), 8, 8, None, vec![field("x", Primitive::Single, 4, 0)]);
    let t = generate_struct(&sd).unwrap();
    assert_eq!(
        t,
        "// /Script/Pkg.A is 8 bytes.\n#[repr(C, align(8))]\npub struct A {\n    // offset: 0, size: 4\n    pub x: f32,\n\n    // offset: 4, size: 4\n    pad_at_4: [u8; 4],\n\n}\n\n"
    );
}

#[test]
fn struct_scenario_four() {
    let base = BaseDesc { name: "A".to_string(), package: "Pkg".to_string(), size: 8, blueprint: false };
    let sd = strukt("B", pkg(0, "Pkg"), 16, 8, Some(base), vec![field("y", Primitive::I32, 4, 8)]);
    let t = StructGenerator::new(&sd).generate().unwrap();
    assert_eq!(
        t,
        "// /Script/Pkg.B is 16 bytes (8 inherited).\n#[repr(C, align(8))]\npub struct B {\n    // offset: 0, size: 8\n    base: A,\n\n    // offset: 8, size: 4\n    pub y: i32,\n\n    // offset: 12, size: 4\n    pad_at_12: [u8; 4],\n\n}\n\nimpl core::ops::Deref for B {\n    type Target = A;\n\n    fn deref(&self) -> &Self::Target {\n        &self.base\n    }\n}\n\nimpl core::ops::DerefMut for B {\n    fn deref_mut(&mut self) -> &mut Self::Target {\n        &mut self.base\n    }\n}\n\n"
    );
}

#[test]
fn base_in_other_package_is_qualified() {
    let base = BaseDesc { name: "Object".to_string(), package: "CoreUObject".to_string(), size: 8, blueprint: false };
    let sd = strukt("Actor", pkg(1, "Engine"), 8, 8, Some(base), vec![]);
    let t = generate_struct(&sd).unwrap();
    assert!(t.contains("    base: crate::CoreUObject::Object,\n"));
    assert!(t.contains("    type Target = crate::CoreUObject::Object;\n"));
}

#[test]
fn struct_scenario_five() {
    let sd = strukt("Flags", pkg(0, "Pkg"), 8, 4, None, vec![bit("bA", 4, 1, 0, 0x01), bit("bB", 4, 1, 0, 0x02)]);
    let l = plan_layout(&sd).unwrap();
    let words: Vec<&Slot> = l.slots.iter().filter(|s| matches!(s, Slot::Bitfield { .. })).collect();
    assert_eq!(words, vec![&Slot::Bitfield { offset: 4, width: 1 }]);
    assert_eq!(l.bags.len(), 1);
    assert_eq!(l.bags[0].members, vec![0, 1]);
    let t = generate_struct(&sd).unwrap();
    assert_eq!(t.matches("pub bitfield_at_4: u8,").count(), 1);
    assert!(t.contains("    pub fn bA(&self) -> bool {\n        self.bitfield_at_4 & 0x01 != 0\n    }\n"));
    assert!(t.contains("    pub fn set_bA(&mut self, value: bool) {\n        if value {\n            self.bitfield_at_4 |= 0x01;\n        } else {\n            self.bitfield_at_4 &= !0x01;\n        }\n    }\n"));
    assert!(t.contains("    pub fn bB(&self) -> bool {\n        self.bitfield_at_4 & 0x02 != 0\n    }\n"));
    assert!(t.contains("self.bitfield_at_4 &= !0x02;"));
    assert!(t.contains("    // offset: 0, size: 4\n    pad_at_0: [u8; 4],\n"));
    assert!(t.contains("    // offset: 5, size: 3\n    pad_at_5: [u8; 3],\n"));
}

#[test]
fn bitfield_mask_is_shifted_to_its_byte() {
    let sd = strukt("Wide", pkg(0, "Pkg"), 4, 4, None, vec![bit("bHigh", 0, 4, 1, 0x80)]);
    let t = generate_struct(&sd).unwrap();
    assert!(t.contains("pub bitfield_at_0: u32,"));
    assert!(t.contains("self.bitfield_at_0 & (0x80 << 8) != 0"));
}

#[test]
fn struct_scenario_six() {
    let sd = strukt(
        "Lagged",
        pkg(0, "Pkg"),
        32,
        4,
        None,
        vec![field("a", Primitive::U64, 24, 0), field("late", Primitive::I32, 4, 20), field("c", Primitive::I32, 4, 24)],
    );
    let l = plan_layout(&sd).unwrap();
    assert_eq!(l.slots[1], Slot::Misplaced { prop: 1, claimed: 20, running: 24 });
    assert_eq!(l.slots[2], Slot::Field { prop: 2, offset: 24, size: 4 });
    let t = generate_struct(&sd).unwrap();
    assert!(t.contains("    // WARNING: Property \"late\" thinks its offset is 20. We think its offset is 24.\n"));
    assert!(!t.contains("pub late"));
    assert!(t.contains("    // offset: 24, size: 4\n    pub c: i32,\n"));
}

#[test]
fn layout_sizes_add_up_and_fields_follow_each_other() {
    let base = BaseDesc { name: "A".to_string(), package: "Pkg".to_string(), size: 8, blueprint: false };
    let sd = strukt(
        "Mixed",
        pkg(0, "Pkg"),
        40,
        8,
        Some(base),
        vec![
            field("a", Primitive::U8, 1, 9),
            bit("b0", 12, 2, 0, 1),
            bit("b1", 12, 2, 1, 4),
            field("lag", Primitive::U8, 1, 10),
            field("d", Primitive::Double, 8, 16),
        ],
    );
    let l = plan_layout(&sd).unwrap();
    let total: u64 = l.slots.iter().map(slot_size).sum();
    assert_eq!(total, 40);
    assert_eq!(l.end, 40);
    let mut next = 0;
    for s in &l.slots {
        if let Some(o) = slot_offset(s) {
            assert_eq!(o, next);
            next = o + slot_size(s);
        }
    }
    assert_eq!(next, 40);
    assert_eq!(l.bags.len(), 1);
    assert_eq!(l.bags[0].members, vec![1, 2]);
}

#[test]
fn fields_past_the_size_give_a_warning() {
    let sd = strukt("Over", pkg(0, "Pkg"), 4, 4, None, vec![field("a", Primitive::U64, 8, 0)]);
    let l = plan_layout(&sd).unwrap();
    assert_eq!(l.slots.last(), Some(&Slot::Oversized { declared: 4, running: 8 }));
    let t = generate_struct(&sd).unwrap();
    assert!(t.contains("    // WARNING: This structure thinks its size is 4. We think its size is 8.\n"));
}

#[test]
fn zero_sized_struct_emits_nothing() {
    let sd = strukt("Empty", pkg(0, "Pkg"), 0, 1, None, vec![field("a", Primitive::U8, 0, 0)]);
    assert_eq!(generate_struct(&sd).unwrap(), "");
}

#[test]
fn zero_sized_field_is_an_error() {
    let sd = strukt("Z", pkg(0, "Pkg"), 4, 4, None, vec![field("a", Primitive::U8, 0, 0)]);
    assert_eq!(plan_layout(&sd).err(), Some(Error::ZeroSizedField));
    let mut p = field("arr", Primitive::U8, 4, 0);
    p.array_dim = 0;
    let sd = strukt("Z", pkg(0, "Pkg"), 4, 4, None, vec![p]);
    assert_eq!(generate_struct(&sd).err(), Some(Error::ZeroSizedField));
}

#[test]
fn bad_bitfield_size_is_an_error() {
    let sd = strukt("Bad", pkg(0, "Pkg"), 4, 4, None, vec![bit("b", 0, 3, 0, 1)]);
    assert_eq!(plan_layout(&sd).err(), Some(Error::BadBitfieldSize(3)));
}

#[test]
fn full_bitfield_is_an_error() {
    let members: Vec<PropertyDesc> = (0..65).map(|i| bit(&format!("b{}", i), 0, 8, (i / 8) as u8, 1 << (i % 8))).collect();
    let sd = strukt("Full", pkg(0, "Pkg"), 8, 8, None, members);
    assert_eq!(plan_layout(&sd).err(), Some(Error::BitfieldFull));
    let members: Vec<PropertyDesc> = (0..64).map(|i| bit(&format!("b{}", i), 0, 8, (i / 8) as u8, 1 << (i % 8))).collect();
    let sd = strukt("Full", pkg(0, "Pkg"), 8, 8, None, members);
    assert_eq!(plan_layout(&sd).unwrap().bags[0].members.len(), 64);
}

#[test]
fn too_many_bitfields_is_an_error() {
    let words: Vec<PropertyDesc> = (0..65).map(|i| bit(&format!("b{}", i), i, 1, 0, 1)).collect();
    let sd = strukt("Many", pkg(0, "Pkg"), 65, 1, None, words);
    assert_eq!(plan_layout(&sd).err(), Some(Error::MaxBitfields));
    let words: Vec<PropertyDesc> = (0..64).map(|i| bit(&format!("b{}", i), i, 1, 0, 1)).collect();
    let sd = strukt("Many", pkg(0, "Pkg"), 64, 1, None, words);
    assert_eq!(plan_layout(&sd).unwrap().bags.len(), 64);
}

#[test]
fn field_names_are_cleaned_with_a_note() {
    let sd = strukt("N", pkg(0, "Pkg"), 4, 4, None, vec![field("Max Speed (cm/s)", Primitive::Single, 4, 0)]);
    let t = generate_struct(&sd).unwrap();
    assert!(t.contains("    pub Max_Speed_cm_s: f32,\n    // NOTE: Property's original name is \"Max Speed (cm/s)\". Replaced 3 invalid characters.\n\n"));
}

#[test]
fn methods_block_follows_the_struct() {
    let mut sd = strukt("Gun", pkg(0, "Pkg"), 4, 4, None, vec![field("ammo", Primitive::I32, 4, 0)]);
    sd.functions = vec![FunctionDesc { name: name("Reload"), full_name: "Function /Script/Pkg.Gun.Reload".to_string(), params: vec![] }];
    let t = generate_struct(&sd).unwrap();
    assert!(t.contains("}\n\nimpl Gun {\n    pub unsafe fn Reload(&mut self, ) {"));
    assert!(t.ends_with("    }\n\n}\n\n"));
}

fn enum_obj(n: &str, p: PackageRef) -> HostObject {
    HostObject::Enum(EnumDesc {
        name: n.to_string(),
        full_name: n.to_string(),
        package: p,
        variants: vec![EnumVariant { name: name("A"), value: 0 }],
    })
}

#[test]
fn packages_are_registered_once_and_released() {
    let mut g = Generator::new();
    let mut scratch = vec![UNREGISTERED; 4];
    let objects = vec![
        enum_obj("E1", pkg(2, "Engine")),
        HostObject::Struct(strukt("S", pkg(0, "Core"), 4, 4, None, vec![field("a", Primitive::I32, 4, 0)])),
        HostObject::Other,
        enum_obj("E2", pkg(2, "Engine")),
        enum_obj("Empty", pkg(3, "Unused")),
    ];
    let mut objects = objects;
    if let HostObject::Enum(e) = &mut objects[4] {
        e.variants.clear();
    }
    g.generate_sdk(&objects, &mut scratch).unwrap();
    assert_eq!(scratch, vec![1, UNREGISTERED, 0, UNREGISTERED]);
    assert_eq!(g.package_count(), 2);
    assert_eq!(g.package_name(0), "Engine");
    assert_eq!(g.package_name(1), "Core");
    assert!(g.package_text(0).contains("pub struct E1(u8);"));
    assert!(g.package_text(0).contains("pub struct E2(u8);"));
    assert!(g.package_text(1).contains("pub struct S {"));
    assert_eq!(g.root_index().matches("pub mod Engine;\n").count(), 1);
    assert!(g.root_index().starts_with("#![no_std]\n"));
    assert!(g.root_index().ends_with("pub mod blueprint_generated;\npub mod Engine;\npub mod Core;\n"));
    let more = vec![enum_obj("E3", pkg(0, "Core")), enum_obj("E4", pkg(1, "Input"))];
    g.generate_sdk(&more, &mut scratch).unwrap();
    assert_eq!(scratch, vec![1, 2, 0, UNREGISTERED]);
    assert_eq!(g.package_name(2), "Input");
    g.release(&mut scratch);
    assert_eq!(scratch, vec![UNREGISTERED; 4]);
}

#[test]
fn blueprint_classes_share_one_module() {
    let mut g = Generator::new();
    let mut scratch = vec![UNREGISTERED; 2];
    let mut sd = strukt("BP_Door_C", pkg(1, "BP_Door"), 4, 4, None, vec![field("open", Primitive::I32, 4, 0)]);
    sd.blueprint = true;
    g.generate_sdk(&vec![HostObject::Struct(sd)], &mut scratch).unwrap();
    assert_eq!(g.package_count(), 0);
    assert!(g.blueprint_text().contains("pub struct BP_Door_C {"));
    assert_eq!(scratch, vec![UNREGISTERED; 2]);
}

#[test]
fn too_many_packages_is_an_error() {
    let mut g = Generator::new();
    let mut scratch = vec![UNREGISTERED; 161];
    let objects: Vec<HostObject> = (0..161).map(|i| enum_obj("E", pkg(i, &format!("P{}", i)))).collect();
    assert_eq!(g.generate_sdk(&objects, &mut scratch), Err(Error::MaxPackages));
    assert_eq!(g.package_count(), 160);
    assert_eq!(scratch[160], UNREGISTERED);
    g.release(&mut scratch);
    assert!(scratch.iter().all(|s| *s == UNREGISTERED));
}

#[test]
fn error_stops_the_run_but_keeps_earlier_output() {
    let mut g = Generator::new();
    let mut scratch = vec![UNREGISTERED; 2];
    let bad = strukt("Bad", pkg(1, "B"), 4, 4, None, vec![field("z", Primitive::U8, 0, 0)]);
    let objects = vec![enum_obj("E", pkg(0, "A")), HostObject::Struct(bad), enum_obj("Never", pkg(0, "A"))];
    assert_eq!(g.generate_sdk(&objects, &mut scratch), Err(Error::ZeroSizedField));
    assert!(g.package_text(0).contains("pub struct E(u8);"));
    assert!(!g.package_text(0).contains("Never"));
    g.release(&mut scratch);
    assert_eq!(scratch, vec![UNREGISTERED; 2]);
}

#[test]
fn bad_bitfield_size_behind_the_running_offset_is_an_error() {
    let base = BaseDesc { name: "A".to_string(), package: "Pkg".to_string(), size: 8, blueprint: false };
    let sd = strukt("Lag", pkg(0, "Pkg"), 16, 8, Some(base), vec![bit("b", 4, 3, 0, 1)]);
    assert_eq!(plan_layout(&sd).err(), Some(Error::BadBitfieldSize(3)));
    let base = BaseDesc { name: "A".to_string(), package: "Pkg".to_string(), size: 8, blueprint: false };
    let sd = strukt("Lag", pkg(0, "Pkg"), 16, 8, Some(base), vec![bit("b", 4, 2, 0, 1)]);
    assert_eq!(plan_layout(&sd).unwrap().slots[1], Slot::Misplaced { prop: 0, claimed: 4, running: 8 });
}

#[test]
fn accessor_block_and_single_placement() {
    let sd = strukt("Flags", pkg(0, "Pkg"), 8, 4, None, vec![bit("bA", 4, 1, 0, 0x01), bit("bB", 4, 1, 0, 0x02)]);
    let mut l = Layout { slots: vec![], bags: vec![], end: 0, last_bitfield: None };
    l.place_property(&sd.properties, 0).unwrap();
    assert_eq!(l.slots, vec![Slot::Pad { offset: 0, size: 4 }, Slot::Bitfield { offset: 4, width: 1 }]);
    assert_eq!(l.end, 5);
    l.place_property(&sd.properties, 1).unwrap();
    assert_eq!(l.slots.len(), 2);
    assert_eq!(l.end, 5);
    assert_eq!(l.bags[0].members, vec![0, 1]);
    let t = render_accessors(&sd, &l.bags);
    assert!(t.starts_with("impl Flags {\n    pub fn bA(&self) -> bool {\n"));
    assert!(t.ends_with("self.bitfield_at_4 &= !0x02;\n        }\n    }\n\n}\n\n"));
    assert_eq!(render_accessors(&sd, &vec![]), "");
}
