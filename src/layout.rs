//! Planning the fields of a struct so that every field sits at the host's
//! offset: padding, bitfield storage words, misplaced properties, and the
//! tail up to the host's size.
use vstd::prelude::*;
use crate::error::Error;
use crate::host::{PropertyDesc, StructDesc};

verus! {

/// The most bitfield storage words in one struct.
pub const MAX_BITFIELDS: usize = 64;

/// The most members in one bitfield storage word.
pub const MAX_BITFIELD_MEMBERS: usize = 64;

/// The largest running offset that a layout can reach: a 32-bit offset plus
/// a 32-bit element size times a 32-bit array dimension.
pub const MAX_END: u64 = 0xFFFF_FFFF_0000_0000;

/// One entry of a struct's body, in order.
#[derive(PartialEq, Eq, Structural, Clone, Copy, Debug)]
pub enum Slot {
    /// The super-struct, at offset 0.
    Base { size: u64 },
    /// Anonymous padding.
    Pad { offset: u64, size: u64 },
    /// The property with this index.
    Field { prop: usize, offset: u64, size: u64 },
    /// The storage word of a bitfield.
    Bitfield { offset: u64, width: u8 },
    /// A warning: the property claims an offset behind the running offset;
    /// it is left out.
    Misplaced { prop: usize, claimed: u32, running: u64 },
    /// A warning: the fields run past the host's size.
    Oversized { declared: u32, running: u64 },
}

/// The bool properties that share one bitfield storage word.
pub struct BitfieldBag {
    pub offset: u32,
    pub width: u8,
    pub members: Vec<usize>,
}

pub struct BagView {
    pub offset: u32,
    pub width: u8,
    pub members: Seq<usize>,
}

impl View for BitfieldBag {
    type V = BagView;

    open spec fn view(&self) -> BagView {
        BagView { offset: self.offset, width: self.width, members: self.members@ }
    }
}

/// A struct's planned body: its slots, its bitfield words, the running
/// offset where it ends, and the storage offset of the open bitfield word.
pub struct Layout {
    pub slots: Vec<Slot>,
    pub bags: Vec<BitfieldBag>,
    pub end: u64,
    pub last_bitfield: Option<u32>,
}

pub struct LayoutView {
    pub slots: Seq<Slot>,
    pub bags: Seq<BagView>,
    pub end: int,
    pub last_bitfield: Option<u32>,
}

pub open spec fn bags_view(bags: Seq<BitfieldBag>) -> Seq<BagView> {
    bags.map_values(|b: BitfieldBag| b@)
}

impl View for Layout {
    type V = LayoutView;

    open spec fn view(&self) -> LayoutView {
        LayoutView {
            slots: self.slots@,
            bags: bags_view(self.bags@),
            end: self.end as int,
            last_bitfield: self.last_bitfield,
        }
    }
}

/// Bytes a property takes: element size times array dimension.
pub open spec fn prop_size(p: PropertyDesc) -> int {
    p.element_size as int * p.array_dim as int
}

/// The storage widths a bitfield may have, in bytes.
pub open spec fn is_bitfield_width(w: u8) -> bool {
    w == 1 || w == 2 || w == 4 || w == 8
}

/// Padding up to `target`, where the layout ends before it.
pub open spec fn pad_to(l: LayoutView, target: int) -> LayoutView {
    if l.end < target {
        LayoutView {
            slots: l.slots.push(Slot::Pad { offset: l.end as u64, size: (target - l.end) as u64 }),
            end: target,
            ..l
        }
    } else {
        l
    }
}

/// The warning for property `i`, which claims an offset behind the layout's end.
pub open spec fn misplaced(l: LayoutView, i: int, p: PropertyDesc) -> LayoutView {
    LayoutView {
        slots: l.slots.push(Slot::Misplaced { prop: i as usize, claimed: p.offset, running: l.end as u64 }),
        ..l
    }
}

/// Placing property `i` of `props` after the layout `l`.
pub open spec fn place_step(l: LayoutView, props: Seq<PropertyDesc>, i: int) -> Result<LayoutView, Error> {
    let p = props[i];
    if prop_size(p) == 0 {
        Err(Error::ZeroSizedField)
    } else {
        match p.bitfield {
            Some(b) => {
                if l.last_bitfield == Some(p.offset) {
                    if l.bags.len() == 0 {
                        Err(Error::LastBitfield)
                    } else if l.bags.last().members.len() >= MAX_BITFIELD_MEMBERS {
                        Err(Error::BitfieldFull)
                    } else {
                        let last = l.bags.last();
                        Ok(
                            LayoutView {
                                bags: l.bags.update(
                                    l.bags.len() - 1,
                                    BagView { members: last.members.push(i as usize), ..last },
                                ),
                                ..l
                            },
                        )
                    }
                } else if !is_bitfield_width(b.field_size) {
                    Err(Error::BadBitfieldSize(b.field_size))
                } else if l.end > p.offset {
                    Ok(misplaced(l, i, p))
                } else if l.bags.len() >= MAX_BITFIELDS {
                    Err(Error::MaxBitfields)
                } else {
                    let m = pad_to(l, p.offset as int);
                    Ok(
                        LayoutView {
                            slots: m.slots.push(Slot::Bitfield { offset: p.offset as u64, width: b.field_size }),
                            bags: m.bags.push(
                                BagView { offset: p.offset, width: b.field_size, members: seq![i as usize] },
                            ),
                            end: p.offset + b.field_size,
                            last_bitfield: Some(p.offset),
                        },
                    )
                }
            },
            None => {
                if l.end > p.offset {
                    Ok(misplaced(l, i, p))
                } else {
                    let m = pad_to(l, p.offset as int);
                    Ok(
                        LayoutView {
                            slots: m.slots.push(
                                Slot::Field { prop: i as usize, offset: p.offset as u64, size: prop_size(p) as u64 },
                            ),
                            end: p.offset + prop_size(p),
                            ..m
                        },
                    )
                }
            },
        }
    }
}

/// Placing the first `k` properties, in declaration order, after `l`.
pub open spec fn place_all(l: LayoutView, props: Seq<PropertyDesc>, k: nat) -> Result<LayoutView, Error>
    decreases k,
{
    if k == 0 {
        Ok(l)
    } else {
        match place_all(l, props, (k - 1) as nat) {
            Ok(m) => place_step(m, props, k - 1),
            Err(e) => Err(e),
        }
    }
}

/// The layout before any property: empty, or the super-struct at offset 0.
pub open spec fn initial_layout(s: StructDesc) -> LayoutView {
    match s.base {
        Some(b) => LayoutView {
            slots: seq![Slot::Base { size: b.size as u64 }],
            bags: Seq::empty(),
            end: b.size as int,
            last_bitfield: None,
        },
        None => LayoutView { slots: Seq::empty(), bags: Seq::empty(), end: 0, last_bitfield: None },
    }
}

/// Padding up to the host's size, or a warning where the fields run past it.
pub open spec fn finish(l: LayoutView, size: u32) -> LayoutView {
    if l.end > size {
        LayoutView {
            slots: l.slots.push(Slot::Oversized { declared: size, running: l.end as u64 }),
            ..l
        }
    } else {
        pad_to(l, size as int)
    }
}

/// The planned body of a struct.
pub open spec fn plan(s: StructDesc) -> Result<LayoutView, Error> {
    match place_all(initial_layout(s), s.properties@, s.properties@.len()) {
        Ok(l) => Ok(finish(l, s.size)),
        Err(e) => Err(e),
    }
}

/// A failed placement stays failed.
proof fn lemma_place_all_err(l: LayoutView, props: Seq<PropertyDesc>, k: nat, n: nat, e: Error)
    requires
        k <= n,
        place_all(l, props, k) == Err::<LayoutView, Error>(e),
    ensures
        place_all(l, props, n) == Err::<LayoutView, Error>(e),
    decreases n - k,
{
    if k < n {
        lemma_place_all_err(l, props, k + 1, n, e);
    }
}

impl Layout {
    /// Pads up to `target` where the layout ends before it.
    pub fn pad_to(&mut self, target: u64)
        requires
            old(self).end <= MAX_END,
            target <= MAX_END,
        ensures
            final(self)@ == pad_to(old(self)@, target as int),
            final(self).end <= MAX_END,
    {
        if self.end < target {
            self.slots.push(Slot::Pad { offset: self.end, size: target - self.end });
            self.end = target;
        }
    }

    /// Places property `i`: see `place_step`.
    pub fn place_property(&mut self, props: &Vec<PropertyDesc>, i: usize) -> (r: Result<(), Error>)
        requires
            i < props@.len(),
            old(self).end <= MAX_END,
        ensures
            match r {
                Ok(()) => place_step(old(self)@, props@, i as int) == Ok::<LayoutView, Error>(final(self)@) && final(self).end <= MAX_END,
                Err(e) => place_step(old(self)@, props@, i as int) == Err::<LayoutView, Error>(e),
            },
    {
        let p = &props[i];
        let e = p.element_size as u64;
        let d = p.array_dim as u64;
        assert(e * d <= 0xFFFF_FFFFu64 * 0xFFFF_FFFFu64) by (nonlinear_arith)
            requires e <= 0xFFFF_FFFFu64, d <= 0xFFFF_FFFFu64;
        let size: u64 = e * d;
        if size == 0 {
            return Err(Error::ZeroSizedField);
        }
        let offset = p.offset as u64;
        match p.bitfield {
            Some(b) => {
                if self.last_bitfield == Some(p.offset) {
                    if self.bags.len() == 0 {
                        return Err(Error::LastBitfield);
                    }
                    let n = self.bags.len();
                    if self.bags[n - 1].members.len() >= MAX_BITFIELD_MEMBERS {
                        return Err(Error::BitfieldFull);
                    }
                    let ghost old_bags = self.bags@;
                    let mut bag = self.bags.pop().unwrap();
                    bag.members.push(i);
                    self.bags.push(bag);
                    proof {
                        let target = old(self)@.bags.update(
                            n - 1,
                            BagView { members: old(self)@.bags.last().members.push(i), ..old(self)@.bags.last() },
                        );
                        assert(old_bags.drop_last() =~= self.bags@.drop_last());
                        assert(bags_view(self.bags@) =~= target);
                    }
                    Ok(())
                } else if !(b.field_size == 1 || b.field_size == 2 || b.field_size == 4 || b.field_size == 8) {
                    Err(Error::BadBitfieldSize(b.field_size))
                } else if self.end > offset {
                    self.slots.push(Slot::Misplaced { prop: i, claimed: p.offset, running: self.end });
                    Ok(())
                } else if self.bags.len() >= MAX_BITFIELDS {
                    Err(Error::MaxBitfields)
                } else {
                    self.pad_to(offset);
                    self.slots.push(Slot::Bitfield { offset, width: b.field_size });
                    let mut members: Vec<usize> = Vec::new();
                    members.push(i);
                    let ghost old_bags = self.bags@;
                    self.bags.push(BitfieldBag { offset: p.offset, width: b.field_size, members });
                    assert(bags_view(self.bags@) =~= bags_view(old_bags).push(
                        BagView { offset: p.offset, width: b.field_size, members: seq![i] },
                    ));
                    self.end = offset + b.field_size as u64;
                    self.last_bitfield = Some(p.offset);
                    Ok(())
                }
            },
            None => {
                if self.end > offset {
                    self.slots.push(Slot::Misplaced { prop: i, claimed: p.offset, running: self.end });
                    Ok(())
                } else {
                    self.pad_to(offset);
                    self.slots.push(Slot::Field { prop: i, offset, size });
                    self.end = offset + size;
                    Ok(())
                }
            },
        }
    }
}

/// Plans the body of a struct: the super-struct first, then each property at
/// its host offset, with padding before it where the running offset is
/// behind, a warning in its place where the running offset is past it, and
/// bool bitfields at one storage offset sharing one storage word; then
/// padding up to the host's size, or a warning where the fields run past it.
pub fn plan_layout(s: &StructDesc) -> (r: Result<Layout, Error>)
    ensures
        match r {
            Ok(l) => plan(*s) == Ok::<LayoutView, Error>(l@),
            Err(e) => plan(*s) == Err::<LayoutView, Error>(e),
        },
{
    let mut l = Layout { slots: Vec::new(), bags: Vec::new(), end: 0, last_bitfield: None };
    match &s.base {
        Some(b) => {
            l.slots.push(Slot::Base { size: b.size as u64 });
            l.end = b.size as u64;
        },
        None => {},
    }
    assert(bags_view(l.bags@) =~= Seq::<BagView>::empty());
    assert(l@ == initial_layout(*s));
    let n = s.properties.len();
    let mut i: usize = 0;
    while i < n
        invariant
            n == s.properties@.len(),
            i <= n,
            l.end <= MAX_END,
            place_all(initial_layout(*s), s.properties@, i as nat) == Ok::<LayoutView, Error>(l@),
        decreases n - i,
    {
        match l.place_property(&s.properties, i) {
            Ok(()) => {},
            Err(e) => {
                proof {
                    lemma_place_all_err(initial_layout(*s), s.properties@, (i + 1) as nat, n as nat, e);
                }
                return Err(e);
            },
        }
        i = i + 1;
    }
    if l.end > s.size as u64 {
        l.slots.push(Slot::Oversized { declared: s.size, running: l.end });
    } else {
        l.pad_to(s.size as u64);
    }
    Ok(l)
}

} // verus!
