//! The text of a struct's declaration: header, fields in layout order,
//! bitfield accessors and the relation to its super-struct.
use vstd::prelude::*;
use crate::host::{BitfieldDesc, PropertyDesc, StructDesc, TypeRef};
use crate::layout::{bags_view, BagView, BitfieldBag, Layout, LayoutView, Slot};
use crate::layout_laws::names_placed_property;
use crate::names::{clean_name, cleaned, replaced_count};
use crate::printer::{location, property_type_text, push_property_type, push_qualified, qualified};
use crate::text::{
    concat_map, decimal, hex_byte, lemma_concat_map_step, lemma_concat_map_whole, push_decimal,
    push_hex_byte, push_str,
};

verus! {

/// The module a struct's declaration goes to.
pub open spec fn struct_location(sd: StructDesc) -> Seq<char> {
    location(sd.package.short_name@, sd.blueprint)
}

/// The super-struct's name as seen from the struct's module.
pub open spec fn parent_text(sd: StructDesc) -> Seq<char> {
    match sd.base {
        Some(b) => qualified(TypeRef { package: b.package, name: b.name, blueprint: b.blueprint }, struct_location(sd)),
        None => Seq::empty(),
    }
}

/// The opening of a struct's declaration, with its size and alignment.
pub open spec fn header_text(sd: StructDesc) -> Seq<char> {
    match sd.base {
        None => "// "@ + sd.full_name@ + " is "@ + decimal(sd.size as nat) + " bytes.\n#[repr(C, align("@
            + decimal(sd.min_alignment as nat) + "))]\npub struct "@ + sd.name@ + " {\n"@,
        Some(b) => "// "@ + sd.full_name@ + " is "@ + decimal(sd.size as nat) + " bytes ("@ + decimal(
            b.size as nat,
        ) + " inherited).\n#[repr(C, align("@ + decimal(sd.min_alignment as nat) + "))]\npub struct "@
            + sd.name@ + " {\n"@,
    }
}

/// The note on a property whose name lost more than one run of invalid characters.
pub open spec fn name_note(p: PropertyDesc) -> Seq<char> {
    if replaced_count(p.name.text@) > 1 {
        "    // NOTE: Property's original name is \""@ + p.name.text@ + "\". Replaced "@ + decimal(
            replaced_count(p.name.text@),
        ) + " invalid characters.\n"@
    } else {
        Seq::empty()
    }
}

/// The unsigned type of a bitfield storage word of `w` bytes.
pub open spec fn word_type(w: u8) -> Seq<char> {
    if w == 1 {
        "u8"@
    } else if w == 2 {
        "u16"@
    } else if w == 4 {
        "u32"@
    } else {
        "u64"@
    }
}

/// The text of one slot of the body.
pub open spec fn slot_text(sd: StructDesc, x: Slot) -> Seq<char> {
    match x {
        Slot::Base { size } => "    // offset: 0, size: "@ + decimal(size as nat) + "\n    base: "@ + parent_text(sd)
            + ",\n\n"@,
        Slot::Pad { offset, size } => "    // offset: "@ + decimal(offset as nat) + ", size: "@ + decimal(size as nat)
            + "\n    pad_at_"@ + decimal(offset as nat) + ": [u8; "@ + decimal(size as nat) + "],\n\n"@,
        Slot::Field { prop, offset, size } => {
            let p = sd.properties@[prop as int];
            "    // offset: "@ + decimal(offset as nat) + ", size: "@ + decimal(size as nat) + "\n    pub "@
                + cleaned(p.name.text@, p.name.number as nat) + ": "@ + property_type_text(p, struct_location(sd))
                + ",\n"@ + name_note(p) + "\n"@
        },
        Slot::Bitfield { offset, width } => "    // offset: "@ + decimal(offset as nat) + ", size: "@ + decimal(
            width as nat,
        ) + "\n    pub bitfield_at_"@ + decimal(offset as nat) + ": "@ + word_type(width) + ",\n\n"@,
        Slot::Misplaced { prop, claimed, running } => "    // WARNING: Property \""@
            + sd.properties@[prop as int].name.text@ + "\" thinks its offset is "@ + decimal(claimed as nat)
            + ". We think its offset is "@ + decimal(running as nat) + ".\n"@,
        Slot::Oversized { declared, running } => "    // WARNING: This structure thinks its size is "@ + decimal(
            declared as nat,
        ) + ". We think its size is "@ + decimal(running as nat) + ".\n"@,
    }
}

pub open spec fn slot_text_fn(sd: StructDesc) -> spec_fn(Slot) -> Seq<char> {
    |x: Slot| slot_text(sd, x)
}

/// The mask of a bitfield member within its storage word: the byte mask
/// shifted to the member's byte.
pub open spec fn mask_text(b: BitfieldDesc) -> Seq<char> {
    if b.byte_offset == 0 {
        hex_byte(b.byte_mask)
    } else {
        "("@ + hex_byte(b.byte_mask) + " << "@ + decimal(8 * b.byte_offset as nat) + ")"@
    }
}

/// The getter and setter of one bitfield member.
pub open spec fn accessor_text(sd: StructDesc, q: int) -> Seq<char> {
    let p = sd.properties@[q];
    match p.bitfield {
        Some(b) => {
            let ident = cleaned(p.name.text@, p.name.number as nat);
            let word = "self.bitfield_at_"@ + decimal(p.offset as nat);
            let mask = mask_text(b);
            "    pub fn "@ + ident + "(&self) -> bool {\n        "@ + word + " & "@ + mask
                + " != 0\n    }\n\n    pub fn set_"@ + ident + "(&mut self, value: bool) {\n        if value {\n            "@
                + word + " |= "@ + mask + ";\n        } else {\n            "@ + word + " &= !"@ + mask
                + ";\n        }\n    }\n\n"@
        },
        None => Seq::empty(),
    }
}

pub open spec fn accessor_fn(sd: StructDesc) -> spec_fn(usize) -> Seq<char> {
    |q: usize| accessor_text(sd, q as int)
}

pub open spec fn bag_fn(sd: StructDesc) -> spec_fn(BagView) -> Seq<char> {
    |b: BagView| concat_map(b.members, accessor_fn(sd))
}

/// The accessor block: one getter and setter per bitfield member, word by
/// word, in declaration order; nothing when there are no bitfields.
pub open spec fn accessors_text(sd: StructDesc, bags: Seq<BagView>) -> Seq<char> {
    if bags.len() == 0 {
        Seq::empty()
    } else {
        "impl "@ + sd.name@ + " {\n"@ + concat_map(bags, bag_fn(sd)) + "}\n\n"@
    }
}

/// The relation to the super-struct: the struct dereferences to it, shared
/// and mutable; nothing without a super-struct.
pub open spec fn deref_text(sd: StructDesc) -> Seq<char> {
    if sd.base is Some {
        "impl core::ops::Deref for "@ + sd.name@ + " {\n    type Target = "@ + parent_text(sd)
            + ";\n\n    fn deref(&self) -> &Self::Target {\n        &self.base\n    }\n}\n\nimpl core::ops::DerefMut for "@
            + sd.name@
            + " {\n    fn deref_mut(&mut self) -> &mut Self::Target {\n        &mut self.base\n    }\n}\n\n"@
    } else {
        Seq::empty()
    }
}

/// A struct's declaration for a planned layout, without its methods.
pub open spec fn body_text(sd: StructDesc, l: LayoutView) -> Seq<char> {
    header_text(sd) + concat_map(l.slots, slot_text_fn(sd)) + "}\n\n"@ + accessors_text(sd, l.bags)
        + deref_text(sd)
}

fn push_location(out: &mut String, sd: &StructDesc)
    ensures
        final(out)@ == old(out)@ + struct_location(*sd),
{
    if sd.blueprint {
        push_str(out, "blueprint_generated");
    } else {
        push_str(out, sd.package.short_name.as_str());
    }
}

fn push_parent(out: &mut String, sd: &StructDesc, here: &str)
    requires
        here@ == struct_location(*sd),
    ensures
        final(out)@ == old(out)@ + parent_text(*sd),
{
    match &sd.base {
        Some(b) => {
            let t = TypeRef { package: b.package.clone(), name: b.name.clone(), blueprint: b.blueprint };
            push_qualified(out, &t, here);
        },
        None => {
            assert(out@ =~= old(out)@ + parent_text(*sd));
        },
    }
}

fn push_header(out: &mut String, sd: &StructDesc)
    ensures
        final(out)@ == old(out)@ + header_text(*sd),
{
    push_str(out, "// ");
    push_str(out, sd.full_name.as_str());
    push_str(out, " is ");
    push_decimal(out, sd.size as u64);
    match &sd.base {
        None => {
            push_str(out, " bytes.\n#[repr(C, align(");
        },
        Some(b) => {
            push_str(out, " bytes (");
            push_decimal(out, b.size as u64);
            push_str(out, " inherited).\n#[repr(C, align(");
        },
    }
    push_decimal(out, sd.min_alignment as u64);
    push_str(out, "))]\npub struct ");
    push_str(out, sd.name.as_str());
    push_str(out, " {\n");
    assert(out@ =~= old(out)@ + header_text(*sd));
}

fn push_offset_comment(out: &mut String, offset: u64, size: u64)
    ensures
        final(out)@ == old(out)@ + "    // offset: "@ + decimal(offset as nat) + ", size: "@ + decimal(size as nat),
{
    push_str(out, "    // offset: ");
    push_decimal(out, offset);
    push_str(out, ", size: ");
    push_decimal(out, size);
    assert(out@ =~= old(out)@ + "    // offset: "@ + decimal(offset as nat) + ", size: "@ + decimal(size as nat));
}

#[verifier::rlimit(40)]
fn push_slot(out: &mut String, sd: &StructDesc, x: Slot, here: &str)
    requires
        here@ == struct_location(*sd),
        names_placed_property(x, sd.properties@.len() as int),
    ensures
        final(out)@ == old(out)@ + slot_text(*sd, x),
{
    match x {
        Slot::Base { size } => {
            push_str(out, "    // offset: 0, size: ");
            push_decimal(out, size);
            push_str(out, "\n    base: ");
            push_parent(out, sd, here);
            push_str(out, ",\n\n");
            assert(out@ =~= old(out)@ + slot_text(*sd, x));
        },
        Slot::Pad { offset, size } => {
            push_offset_comment(out, offset, size);
            push_str(out, "\n    pad_at_");
            push_decimal(out, offset);
            push_str(out, ": [u8; ");
            push_decimal(out, size);
            push_str(out, "],\n\n");
            assert(out@ =~= old(out)@ + slot_text(*sd, x));
        },
        Slot::Field { prop, offset, size } => {
            let p = &sd.properties[prop];
            push_offset_comment(out, offset, size);
            push_str(out, "\n    pub ");
            let c = clean_name(&p.name);
            push_str(out, c.text.as_str());
            push_str(out, ": ");
            push_property_type(out, p, here);
            push_str(out, ",\n");
            if c.replaced > 1 {
                push_str(out, "    // NOTE: Property's original name is \"");
                push_str(out, p.name.text.as_str());
                push_str(out, "\". Replaced ");
                push_decimal(out, c.replaced as u64);
                push_str(out, " invalid characters.\n");
            }
            push_str(out, "\n");
            assert(out@ =~= old(out)@ + slot_text(*sd, x));
        },
        Slot::Bitfield { offset, width } => {
            push_offset_comment(out, offset, width as u64);
            push_str(out, "\n    pub bitfield_at_");
            push_decimal(out, offset);
            push_str(out, ": ");
            if width == 1 {
                push_str(out, "u8");
            } else if width == 2 {
                push_str(out, "u16");
            } else if width == 4 {
                push_str(out, "u32");
            } else {
                push_str(out, "u64");
            }
            push_str(out, ",\n\n");
            assert(out@ =~= old(out)@ + slot_text(*sd, x));
        },
        Slot::Misplaced { prop, claimed, running } => {
            push_str(out, "    // WARNING: Property \"");
            push_str(out, sd.properties[prop].name.text.as_str());
            push_str(out, "\" thinks its offset is ");
            push_decimal(out, claimed as u64);
            push_str(out, ". We think its offset is ");
            push_decimal(out, running);
            push_str(out, ".\n");
            assert(out@ =~= old(out)@ + slot_text(*sd, x));
        },
        Slot::Oversized { declared, running } => {
            push_str(out, "    // WARNING: This structure thinks its size is ");
            push_decimal(out, declared as u64);
            push_str(out, ". We think its size is ");
            push_decimal(out, running);
            push_str(out, ".\n");
            assert(out@ =~= old(out)@ + slot_text(*sd, x));
        },
    }
}

fn push_mask(out: &mut String, b: &BitfieldDesc)
    ensures
        final(out)@ == old(out)@ + mask_text(*b),
{
    if b.byte_offset == 0 {
        push_hex_byte(out, b.byte_mask);
    } else {
        push_str(out, "(");
        push_hex_byte(out, b.byte_mask);
        push_str(out, " << ");
        push_decimal(out, 8 * b.byte_offset as u64);
        push_str(out, ")");
        assert(out@ =~= old(out)@ + mask_text(*b));
    }
}

fn push_accessor(out: &mut String, sd: &StructDesc, q: usize)
    requires
        q < sd.properties@.len(),
    ensures
        final(out)@ == old(out)@ + accessor_text(*sd, q as int),
{
    let p = &sd.properties[q];
    match &p.bitfield {
        Some(b) => {
            let c = clean_name(&p.name);
            let ident = c.text.as_str();
            let mut word = String::new();
            push_str(&mut word, "self.bitfield_at_");
            push_decimal(&mut word, p.offset as u64);
            let mut mask = String::new();
            push_mask(&mut mask, b);
            let w = word.as_str();
            let m = mask.as_str();
            push_str(out, "    pub fn ");
            push_str(out, ident);
            push_str(out, "(&self) -> bool {\n        ");
            push_str(out, w);
            push_str(out, " & ");
            push_str(out, m);
            push_str(out, " != 0\n    }\n\n    pub fn set_");
            push_str(out, ident);
            push_str(out, "(&mut self, value: bool) {\n        if value {\n            ");
            push_str(out, w);
            push_str(out, " |= ");
            push_str(out, m);
            push_str(out, ";\n        } else {\n            ");
            push_str(out, w);
            push_str(out, " &= !");
            push_str(out, m);
            push_str(out, ";\n        }\n    }\n\n");
            assert(out@ =~= old(out)@ + accessor_text(*sd, q as int));
        },
        None => {
            assert(out@ =~= old(out)@ + accessor_text(*sd, q as int));
        },
    }
}

/// Renders the accessor block: `impl <name> {`, then a getter and a setter
/// for every member of every bitfield word, words in order and members in
/// declaration order, then `}`; nothing when there are no words.
pub fn render_accessors(sd: &StructDesc, bags: &Vec<BitfieldBag>) -> (r: String)
    requires
        forall|a: int, m: int|
            0 <= a < bags_view(bags@).len() && 0 <= m < bags_view(bags@)[a].members.len() ==> (#[trigger] bags_view(bags@)[a].members[m])
                < sd.properties@.len(),
    ensures
        r@ == accessors_text(*sd, bags_view(bags@)),
{
    let mut out = String::new();
    let nb = bags.len();
    if nb > 0 {
        push_str(&mut out, "impl ");
        push_str(&mut out, sd.name.as_str());
        push_str(&mut out, " {\n");
        let ghost bhead = out@;
        let ghost g = bag_fn(*sd);
        let ghost h = accessor_fn(*sd);
        proof {
            lemma_concat_map_whole(bags_view(bags@), g);
        }
        let mut a: usize = 0;
        while a < nb
            invariant
                nb == bags@.len(),
                a <= nb,
                g == bag_fn(*sd),
                h == accessor_fn(*sd),
                forall|a: int, m: int|
                    0 <= a < bags_view(bags@).len() && 0 <= m < bags_view(bags@)[a].members.len() ==> (#[trigger] bags_view(bags@)[a].members[m])
                        < sd.properties@.len(),
                out@ == bhead + concat_map(bags_view(bags@).take(a as int), g),
            decreases nb - a,
        {
            proof {
                lemma_concat_map_step(bags_view(bags@), a as int, g);
            }
            let bag = &bags[a];
            let ghost bv = bags_view(bags@)[a as int];
            assert(bv.members == bag.members@);
            let ghost before = out@;
            proof {
                lemma_concat_map_whole(bv.members, h);
            }
            let nm = bag.members.len();
            let mut m: usize = 0;
            while m < nm
                invariant
                    nm == bag.members@.len(),
                    bv.members == bag.members@,
                    bv == bags_view(bags@)[a as int],
                    a < bags_view(bags@).len(),
                    m <= nm,
                    h == accessor_fn(*sd),
                    forall|a: int, m: int|
                        0 <= a < bags_view(bags@).len() && 0 <= m < bags_view(bags@)[a].members.len() ==> (#[trigger] bags_view(bags@)[a].members[m])
                            < sd.properties@.len(),
                    out@ == before + concat_map(bv.members.take(m as int), h),
                decreases nm - m,
            {
                proof {
                    lemma_concat_map_step(bv.members, m as int, h);
                }
                assert(bags_view(bags@)[a as int].members[m as int] < sd.properties@.len());
                push_accessor(&mut out, sd, bag.members[m]);
                assert(out@ =~= before + concat_map(bv.members.take(m + 1), h));
                m = m + 1;
            }
            assert(g(bv) == concat_map(bv.members, h));
            assert(out@ =~= bhead + concat_map(bags_view(bags@).take(a + 1), g));
            a = a + 1;
        }
        push_str(&mut out, "}\n\n");
        assert(out@ =~= accessors_text(*sd, bags_view(bags@)));
    } else {
        assert(out@ =~= accessors_text(*sd, bags_view(bags@)));
    }
    out
}

/// Renders a struct's declaration, without its methods, for a layout planned
/// from it.
pub fn render_body(sd: &StructDesc, l: &Layout) -> (r: String)
    requires
        forall|j: int|
            0 <= j < l@.slots.len() ==> names_placed_property(#[trigger] l@.slots[j], sd.properties@.len() as int),
        forall|a: int, m: int|
            0 <= a < l@.bags.len() && 0 <= m < l@.bags[a].members.len() ==> (#[trigger] l@.bags[a].members[m])
                < sd.properties@.len(),
    ensures
        r@ == body_text(*sd, l@),
{
    let mut out = String::new();
    let mut here = String::new();
    push_location(&mut here, sd);
    push_header(&mut out, sd);
    let ghost f = slot_text_fn(*sd);
    let ghost head = out@;
    proof {
        lemma_concat_map_whole(l@.slots, f);
    }
    let n = l.slots.len();
    let mut i: usize = 0;
    while i < n
        invariant
            n == l.slots@.len(),
            i <= n,
            here@ == struct_location(*sd),
            f == slot_text_fn(*sd),
            forall|j: int|
                0 <= j < l@.slots.len() ==> names_placed_property(#[trigger] l@.slots[j], sd.properties@.len() as int),
            out@ == head + concat_map(l@.slots.take(i as int), f),
        decreases n - i,
    {
        proof {
            lemma_concat_map_step(l@.slots, i as int, f);
        }
        push_slot(&mut out, sd, l.slots[i], here.as_str());
        assert(out@ =~= head + concat_map(l@.slots.take(i + 1), f));
        i = i + 1;
    }
    push_str(&mut out, "}\n\n");
    let ghost mid = out@;
    assert(l@.bags == bags_view(l.bags@));
    let acc = render_accessors(sd, &l.bags);
    push_str(&mut out, acc.as_str());
    let ghost mid2 = out@;
    if sd.base.is_some() {
        push_str(&mut out, "impl core::ops::Deref for ");
        push_str(&mut out, sd.name.as_str());
        push_str(&mut out, " {\n    type Target = ");
        push_parent(&mut out, sd, here.as_str());
        push_str(&mut out, ";\n\n    fn deref(&self) -> &Self::Target {\n        &self.base\n    }\n}\n\nimpl core::ops::DerefMut for ");
        push_str(&mut out, sd.name.as_str());
        push_str(&mut out, " {\n    fn deref_mut(&mut self) -> &mut Self::Target {\n        &mut self.base\n    }\n}\n\n");
        assert(out@ =~= mid2 + deref_text(*sd));
    } else {
        assert(out@ =~= mid2 + deref_text(*sd));
    }
    assert(out@ =~= body_text(*sd, l@));
    out
}

} // verus!
