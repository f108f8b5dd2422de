//! What every planned layout satisfies: its storage fields follow each other
//! without gap or overlap, they add up to the host's size unless the host's
//! properties overrun it, and bitfield members sharing a storage offset share
//! one storage word.
use vstd::prelude::*;
use crate::error::Error;
use crate::host::{PropertyDesc, StructDesc};
use crate::layout::{
    finish, initial_layout, misplaced, pad_to, place_all, place_step, plan, prop_size, BagView,
    LayoutView, Slot, MAX_END,
};

verus! {

/// A slot that takes bytes in the emitted struct.
pub open spec fn is_storage(s: Slot) -> bool {
    match s {
        Slot::Base { .. } | Slot::Pad { .. } | Slot::Field { .. } | Slot::Bitfield { .. } => true,
        _ => false,
    }
}

/// Where a storage slot starts.
pub open spec fn slot_offset(s: Slot) -> int {
    match s {
        Slot::Pad { offset, .. } => offset as int,
        Slot::Field { offset, .. } => offset as int,
        Slot::Bitfield { offset, .. } => offset as int,
        _ => 0,
    }
}

/// How many bytes a slot takes; warnings take none.
pub open spec fn slot_size(s: Slot) -> int {
    match s {
        Slot::Base { size } => size as int,
        Slot::Pad { size, .. } => size as int,
        Slot::Field { size, .. } => size as int,
        Slot::Bitfield { width, .. } => width as int,
        _ => 0,
    }
}

/// The bytes the slots take together.
pub open spec fn span(slots: Seq<Slot>) -> int
    decreases slots.len(),
{
    if slots.len() == 0 {
        0
    } else {
        span(slots.drop_last()) + slot_size(slots.last())
    }
}

/// Every storage slot starts where the slots before it end.
pub open spec fn contiguous(slots: Seq<Slot>) -> bool {
    forall|i: int|
        0 <= i < slots.len() && is_storage(#[trigger] slots[i]) ==> slot_offset(slots[i]) == span(
            slots.take(i),
        )
}

/// The warning that leaves property `q` out.
pub open spec fn warns_about(s: Slot, q: int) -> bool {
    match s {
        Slot::Misplaced { prop, .. } => prop == q,
        _ => false,
    }
}

/// Property `q` was left out with a warning.
pub open spec fn is_warned(slots: Seq<Slot>, q: int) -> bool {
    exists|j: int| 0 <= j < slots.len() && warns_about(#[trigger] slots[j], q)
}

/// Some bitfield word at storage offset `o` holds property `q`.
pub open spec fn in_bags(bags: Seq<BagView>, o: int, q: int) -> bool {
    exists|a: int| 0 <= a < bags.len() && (#[trigger] bags[a]).offset == o && bags[a].members.contains(q as usize)
}

/// A storage word for a bitfield at `o` of `w` bytes is among the slots.
pub open spec fn has_storage_word(slots: Seq<Slot>, o: int, w: u8) -> bool {
    exists|j: int| 0 <= j < slots.len() && #[trigger] slots[j] == (Slot::Bitfield { offset: o as u64, width: w })
}

pub open spec fn is_bitfield_slot(s: Slot) -> bool {
    s is Bitfield
}

/// The property a slot names is one of the first `k`.
pub open spec fn names_placed_property(s: Slot, k: int) -> bool {
    match s {
        Slot::Field { prop, .. } => prop < k,
        Slot::Misplaced { prop, .. } => prop < k,
        _ => true,
    }
}

/// What holds after the first `k` properties were placed.
pub open spec fn plan_inv(l: LayoutView, props: Seq<PropertyDesc>, k: int) -> bool {
    &&& 0 <= l.end <= MAX_END
    &&& span(l.slots) == l.end
    &&& contiguous(l.slots)
    &&& forall|j: int| 0 <= j < l.slots.len() ==> names_placed_property(#[trigger] l.slots[j], props.len() as int)
    &&& forall|j: int| 0 <= j < l.slots.len() && is_bitfield_slot(#[trigger] l.slots[j]) ==> slot_offset(l.slots[j]) < l.end
    &&& forall|j1: int, j2: int|
        0 <= j1 < j2 < l.slots.len() && is_bitfield_slot(#[trigger] l.slots[j1]) && is_bitfield_slot(#[trigger] l.slots[j2])
            ==> slot_offset(l.slots[j1]) < slot_offset(l.slots[j2])
    &&& forall|a: int| 0 <= a < l.bags.len() ==> (#[trigger] l.bags[a]).offset < l.end
    &&& forall|a: int, b: int| 0 <= a < b < l.bags.len() ==> (#[trigger] l.bags[a]).offset < (#[trigger] l.bags[b]).offset
    &&& forall|a: int| 0 <= a < l.bags.len() ==> has_storage_word(l.slots, (#[trigger] l.bags[a]).offset as int, l.bags[a].width)
    &&& (l.last_bitfield is Some ==> l.bags.len() > 0 && l.bags.last().offset == l.last_bitfield->0)
    &&& forall|q: int| 0 <= q < k && (#[trigger] props[q]).bitfield is Some ==> is_warned(l.slots, q) || in_bags(l.bags, props[q].offset as int, q)
    &&& forall|a: int, m: int| 0 <= a < l.bags.len() && 0 <= m < l.bags[a].members.len() ==> {
        let q = (#[trigger] l.bags[a].members[m]) as int;
        &&& 0 <= q < k
        &&& props[q].bitfield is Some
        &&& props[q].offset == l.bags[a].offset
    }
}

proof fn lemma_push_slot(s: Seq<Slot>, x: Slot)
    requires
        contiguous(s),
        is_storage(x) ==> slot_offset(x) == span(s),
    ensures
        contiguous(s.push(x)),
        span(s.push(x)) == span(s) + slot_size(x),
{
    let t = s.push(x);
    assert(t.drop_last() =~= s);
    assert forall|i: int| 0 <= i < t.len() && is_storage(#[trigger] t[i]) implies slot_offset(t[i]) == span(t.take(i)) by {
        assert(t.take(i) =~= s.take(i));
        if i == s.len() {
            assert(s.take(i) =~= s);
        }
    }
}

/// Padding keeps the invariant and never moves the end backwards.
proof fn lemma_pad_to(l: LayoutView, props: Seq<PropertyDesc>, k: int, target: int)
    requires
        plan_inv(l, props, k),
        0 <= target <= u32::MAX,
    ensures
        plan_inv(pad_to(l, target), props, k),
        pad_to(l, target).end == if l.end < target { target } else { l.end },
        pad_to(l, target).bags == l.bags,
        pad_to(l, target).last_bitfield == l.last_bitfield,
        pad_to(l, target).slots.len() >= l.slots.len(),
        forall|j: int| 0 <= j < l.slots.len() ==> pad_to(l, target).slots[j] == l.slots[j],
{
    if l.end < target {
        let x = Slot::Pad { offset: l.end as u64, size: (target - l.end) as u64 };
        lemma_push_slot(l.slots, x);
        let m = pad_to(l, target);
        assert(m.slots == l.slots.push(x));
        assert forall|a: int| 0 <= a < m.bags.len() implies has_storage_word(m.slots, (#[trigger] m.bags[a]).offset as int, m.bags[a].width) by {
            let j = choose|j: int| 0 <= j < l.slots.len() && #[trigger] l.slots[j] == (Slot::Bitfield { offset: l.bags[a].offset as u64, width: l.bags[a].width });
            assert(m.slots[j] == l.slots[j]);
        }
        assert forall|q: int| 0 <= q < k && (#[trigger] props[q]).bitfield is Some implies is_warned(m.slots, q) || in_bags(m.bags, props[q].offset as int, q) by {
            if is_warned(l.slots, q) {
                let j = choose|j: int| 0 <= j < l.slots.len() && warns_about(#[trigger] l.slots[j], q);
                assert(m.slots[j] == l.slots[j]);
            }
        }
        assert forall|j1: int, j2: int|
            0 <= j1 < j2 < m.slots.len() && is_bitfield_slot(#[trigger] m.slots[j1]) && is_bitfield_slot(#[trigger] m.slots[j2])
            implies slot_offset(m.slots[j1]) < slot_offset(m.slots[j2]) by {
            assert(j2 < l.slots.len());
        }
    }
}

/// Adding a slot that is no storage (a warning) keeps the invariant.
proof fn lemma_push_note(l: LayoutView, props: Seq<PropertyDesc>, k: int, x: Slot)
    requires
        plan_inv(l, props, k),
        !is_storage(x),
        names_placed_property(x, props.len() as int),
    ensures
        plan_inv(LayoutView { slots: l.slots.push(x), ..l }, props, k),
        forall|q: int| #![auto] is_warned(l.slots, q) ==> is_warned(l.slots.push(x), q),
{
    lemma_push_slot(l.slots, x);
    let m = LayoutView { slots: l.slots.push(x), ..l };
    assert forall|a: int| 0 <= a < m.bags.len() implies has_storage_word(m.slots, (#[trigger] m.bags[a]).offset as int, m.bags[a].width) by {
        let j = choose|j: int| 0 <= j < l.slots.len() && #[trigger] l.slots[j] == (Slot::Bitfield { offset: l.bags[a].offset as u64, width: l.bags[a].width });
        assert(m.slots[j] == l.slots[j]);
    }
    assert forall|q: int| is_warned(l.slots, q) implies is_warned(m.slots, q) by {
        let j = choose|j: int| 0 <= j < l.slots.len() && warns_about(#[trigger] l.slots[j], q);
        assert(m.slots[j] == l.slots[j]);
    }
    assert forall|j1: int, j2: int|
        0 <= j1 < j2 < m.slots.len() && is_bitfield_slot(#[trigger] m.slots[j1]) && is_bitfield_slot(#[trigger] m.slots[j2])
        implies slot_offset(m.slots[j1]) < slot_offset(m.slots[j2]) by {
        assert(j2 < l.slots.len());
    }
}

/// Adding a storage slot at the end keeps the invariant.
proof fn lemma_push_storage(l: LayoutView, props: Seq<PropertyDesc>, k: int, x: Slot)
    requires
        plan_inv(l, props, k),
        is_storage(x),
        slot_offset(x) == l.end,
        slot_size(x) > 0,
        l.end + slot_size(x) <= MAX_END,
        names_placed_property(x, props.len() as int),
    ensures
        plan_inv(LayoutView { slots: l.slots.push(x), end: l.end + slot_size(x), ..l }, props, k),
        forall|q: int| #![auto] is_warned(l.slots, q) ==> is_warned(l.slots.push(x), q),
        l.slots.push(x)[l.slots.len() as int] == x,
{
    lemma_push_slot(l.slots, x);
    let m = LayoutView { slots: l.slots.push(x), end: l.end + slot_size(x), ..l };
    assert forall|a: int| 0 <= a < m.bags.len() implies has_storage_word(m.slots, (#[trigger] m.bags[a]).offset as int, m.bags[a].width) by {
        let j = choose|j: int| 0 <= j < l.slots.len() && #[trigger] l.slots[j] == (Slot::Bitfield { offset: l.bags[a].offset as u64, width: l.bags[a].width });
        assert(m.slots[j] == l.slots[j]);
    }
    assert forall|q: int| is_warned(l.slots, q) implies is_warned(m.slots, q) by {
        let j = choose|j: int| 0 <= j < l.slots.len() && warns_about(#[trigger] l.slots[j], q);
        assert(m.slots[j] == l.slots[j]);
    }
    assert forall|j1: int, j2: int|
        0 <= j1 < j2 < m.slots.len() && is_bitfield_slot(#[trigger] m.slots[j1]) && is_bitfield_slot(#[trigger] m.slots[j2])
        implies slot_offset(m.slots[j1]) < slot_offset(m.slots[j2]) by {
        if j2 == l.slots.len() {
            assert(m.slots[j1] == l.slots[j1]);
        }
    }
    assert forall|q: int| 0 <= q < k && (#[trigger] props[q]).bitfield is Some implies is_warned(m.slots, q) || in_bags(m.bags, props[q].offset as int, q) by {
        if is_warned(l.slots, q) {
            let j = choose|j: int| 0 <= j < l.slots.len() && warns_about(#[trigger] l.slots[j], q);
            assert(m.slots[j] == l.slots[j]);
        }
    }
}

/// One placement step keeps the invariant, one property further.
proof fn lemma_place_step(l: LayoutView, props: Seq<PropertyDesc>, k: int)
    requires
        plan_inv(l, props, k),
        0 <= k < props.len() <= usize::MAX,
        place_step(l, props, k) is Ok,
    ensures
        plan_inv(place_step(l, props, k)->Ok_0, props, k + 1),
{
    let p = props[k];
    let r = place_step(l, props, k)->Ok_0;
    assert(prop_size(p) <= 0xFFFF_FFFF * 0xFFFF_FFFF) by (nonlinear_arith)
        requires p.element_size <= 0xFFFF_FFFF, p.array_dim <= 0xFFFF_FFFF, prop_size(p) == p.element_size as int * p.array_dim as int;
    assert(prop_size(p) >= 0) by (nonlinear_arith)
        requires prop_size(p) == p.element_size as int * p.array_dim as int;
    match p.bitfield {
        Some(b) => {
            if l.last_bitfield == Some(p.offset) {
                let n = l.bags.len() as int;
                let last = l.bags.last();
                let pushed = last.members.push(k as usize);
                assert(r.bags == l.bags.update(n - 1, BagView { members: pushed, ..last }));
                assert(r.slots == l.slots);
                assert forall|a: int| 0 <= a < r.bags.len() implies has_storage_word(r.slots, (#[trigger] r.bags[a]).offset as int, r.bags[a].width) by {
                    assert(r.bags[a].offset == l.bags[a].offset && r.bags[a].width == l.bags[a].width);
                }
                assert forall|a: int, c: int| 0 <= a < c < r.bags.len() implies (#[trigger] r.bags[a]).offset < (#[trigger] r.bags[c]).offset by {
                    assert(l.bags[a].offset < l.bags[c].offset);
                }
                assert forall|a: int| 0 <= a < r.bags.len() implies (#[trigger] r.bags[a]).offset < r.end by {
                    assert(l.bags[a].offset < l.end);
                }
                assert forall|q: int| 0 <= q < k + 1 && (#[trigger] props[q]).bitfield is Some implies is_warned(r.slots, q) || in_bags(r.bags, props[q].offset as int, q) by {
                    if q == k {
                        assert(pushed[pushed.len() - 1] == k as usize);
                        assert(r.bags[n - 1].members.contains(k as usize));
                    } else if !is_warned(l.slots, q) {
                        let a = choose|a: int| 0 <= a < l.bags.len() && (#[trigger] l.bags[a]).offset == props[q].offset as int && l.bags[a].members.contains(q as usize);
                        let idx = choose|idx: int| 0 <= idx < l.bags[a].members.len() && l.bags[a].members[idx] == q as usize;
                        assert(r.bags[a].members[idx] == q as usize);
                        assert(r.bags[a].members.contains(q as usize));
                    }
                }
                assert forall|a: int, m: int| 0 <= a < r.bags.len() && 0 <= m < r.bags[a].members.len() implies {
                    let q = (#[trigger] r.bags[a].members[m]) as int;
                    &&& 0 <= q < k + 1
                    &&& props[q].bitfield is Some
                    &&& props[q].offset == r.bags[a].offset
                } by {
                    if a != n - 1 || m < last.members.len() {
                        assert(r.bags[a].members[m] == l.bags[a].members[m]);
                    }
                }
            } else if l.end > p.offset {
                let x = Slot::Misplaced { prop: k as usize, claimed: p.offset, running: l.end as u64 };
                lemma_push_note(l, props, k, x);
                assert(r.slots[l.slots.len() as int] == x);
                assert(warns_about(r.slots[l.slots.len() as int], k));
            } else {
                let m = pad_to(l, p.offset as int);
                lemma_pad_to(l, props, k, p.offset as int);
                let x = Slot::Bitfield { offset: p.offset as u64, width: b.field_size };
                lemma_push_storage(m, props, k, x);
                let m2 = LayoutView { slots: m.slots.push(x), end: m.end + slot_size(x), ..m };
                let nb = BagView { offset: p.offset, width: b.field_size, members: seq![k as usize] };
                assert(r == LayoutView { bags: m2.bags.push(nb), last_bitfield: Some(p.offset), ..m2 });
                let ls = l.slots.len();
                assert(has_storage_word(r.slots, p.offset as int, b.field_size)) by {
                    assert(r.slots[m.slots.len() as int] == x);
                }
                assert forall|a: int| 0 <= a < r.bags.len() implies has_storage_word(r.slots, (#[trigger] r.bags[a]).offset as int, r.bags[a].width) by {
                    if a < l.bags.len() {
                        assert(r.bags[a] == m2.bags[a]);
                    }
                }
                assert forall|q: int| 0 <= q < k + 1 && (#[trigger] props[q]).bitfield is Some implies is_warned(r.slots, q) || in_bags(r.bags, props[q].offset as int, q) by {
                    if q == k {
                        assert(r.bags[l.bags.len() as int] == nb);
                        assert(nb.members[0] == k as usize);
                        assert(nb.members.contains(k as usize));
                    } else if !is_warned(m2.slots, q) {
                        let a = choose|a: int| 0 <= a < m2.bags.len() && (#[trigger] m2.bags[a]).offset == props[q].offset as int && m2.bags[a].members.contains(q as usize);
                        assert(r.bags[a] == m2.bags[a]);
                    }
                }
                assert forall|a: int, mm: int| 0 <= a < r.bags.len() && 0 <= mm < r.bags[a].members.len() implies {
                    let q = (#[trigger] r.bags[a].members[mm]) as int;
                    &&& 0 <= q < k + 1
                    &&& props[q].bitfield is Some
                    &&& props[q].offset == r.bags[a].offset
                } by {
                    if a < l.bags.len() {
                        assert(r.bags[a] == m2.bags[a]);
                    }
                }
                assert forall|a: int, c: int| 0 <= a < c < r.bags.len() implies (#[trigger] r.bags[a]).offset < (#[trigger] r.bags[c]).offset by {
                    if c == l.bags.len() {
                        assert(r.bags[a] == m2.bags[a]);
                    } else {
                        assert(r.bags[a] == m2.bags[a]);
                        assert(r.bags[c] == m2.bags[c]);
                    }
                }
                assert forall|a: int| 0 <= a < r.bags.len() implies (#[trigger] r.bags[a]).offset < r.end by {
                    if a < l.bags.len() {
                        assert(r.bags[a] == m2.bags[a]);
                    }
                }
            }
        },
        None => {
            if l.end > p.offset {
                let x = Slot::Misplaced { prop: k as usize, claimed: p.offset, running: l.end as u64 };
                lemma_push_note(l, props, k, x);
            } else {
                let m = pad_to(l, p.offset as int);
                lemma_pad_to(l, props, k, p.offset as int);
                let x = Slot::Field { prop: k as usize, offset: p.offset as u64, size: prop_size(p) as u64 };
                lemma_push_storage(m, props, k, x);
            }
        },
    }
}

/// Every successful placement of the first `k` properties satisfies the invariant.
proof fn lemma_place_all(l: LayoutView, props: Seq<PropertyDesc>, k: nat)
    requires
        plan_inv(l, props, 0),
        k <= props.len() <= usize::MAX,
        place_all(l, props, k) is Ok,
    ensures
        plan_inv(place_all(l, props, k)->Ok_0, props, k as int),
    decreases k,
{
    if k > 0 {
        let prev = place_all(l, props, (k - 1) as nat);
        if prev is Err {
            assert(place_all(l, props, k) is Err);
        }
        lemma_place_all(l, props, (k - 1) as nat);
        lemma_place_step(prev->Ok_0, props, k - 1);
    }
}

proof fn lemma_initial_inv(s: StructDesc)
    ensures
        plan_inv(initial_layout(s), s.properties@, 0),
{
    let l0 = initial_layout(s);
    lemma_push_slot(Seq::<Slot>::empty(), Slot::Base { size: 0 });
    if let Some(b) = s.base {
        assert(l0.slots.drop_last() =~= Seq::<Slot>::empty());
        assert(l0.slots.take(0) =~= Seq::<Slot>::empty());
    }
}

/// Every planned layout satisfies the invariant, for all its properties.
proof fn lemma_plan_inv(s: StructDesc)
    requires
        plan(s) is Ok,
        s.properties@.len() <= usize::MAX,
    ensures
        plan_inv(plan(s)->Ok_0, s.properties@, s.properties@.len() as int),
{
    let props = s.properties@;
    let l0 = initial_layout(s);
    lemma_initial_inv(s);
    assert(plan_inv(l0, props, 0));
    let placed = place_all(l0, props, props.len());
    lemma_place_all(l0, props, props.len());
    let l = placed->Ok_0;
    if l.end > s.size {
        lemma_push_note(l, props, props.len() as int, Slot::Oversized { declared: s.size, running: l.end as u64 });
    } else {
        lemma_pad_to(l, props, props.len() as int, s.size as int);
    }
}

proof fn lemma_span_take(slots: Seq<Slot>, m: int)
    requires
        0 <= m < slots.len(),
    ensures
        span(slots.take(m + 1)) == span(slots.take(m)) + slot_size(slots[m]),
{
    assert(slots.take(m + 1).drop_last() =~= slots.take(m));
}

/// Size law: the storage slots of a planned struct (the super-struct,
/// padding, fields and bitfield words) add up to where the layout ends, and
/// that is the host's size, unless the host's properties run past it, in
/// which case the layout ends on a warning saying so.
pub proof fn lemma_layout_fills_struct(s: StructDesc)
    requires
        plan(s) is Ok,
        s.properties@.len() <= usize::MAX,
    ensures
        span(plan(s)->Ok_0.slots) == plan(s)->Ok_0.end,
        plan(s)->Ok_0.end == s.size as int || (plan(s)->Ok_0.end > s.size as int
            && plan(s)->Ok_0.slots.last() == (Slot::Oversized { declared: s.size, running: plan(s)->Ok_0.end as u64 })),
{
    lemma_plan_inv(s);
}

/// Adjacency law: of two storage slots with only warnings between them, the
/// second starts where the first ends.
pub proof fn lemma_fields_adjacent(s: StructDesc, i: int, j: int)
    requires
        plan(s) is Ok,
        s.properties@.len() <= usize::MAX,
        0 <= i < j < plan(s)->Ok_0.slots.len(),
        is_storage(plan(s)->Ok_0.slots[i]),
        is_storage(plan(s)->Ok_0.slots[j]),
        forall|m: int| i < m < j ==> !is_storage(#[trigger] plan(s)->Ok_0.slots[m]),
    ensures
        slot_offset(plan(s)->Ok_0.slots[j]) == slot_offset(plan(s)->Ok_0.slots[i]) + slot_size(plan(s)->Ok_0.slots[i]),
{
    lemma_plan_inv(s);
    let slots = plan(s)->Ok_0.slots;
    lemma_span_over_notes(slots, i, j);
}

proof fn lemma_span_over_notes(slots: Seq<Slot>, i: int, m: int)
    requires
        0 <= i < m <= slots.len(),
        forall|t: int| i < t < m ==> !is_storage(#[trigger] slots[t]),
    ensures
        span(slots.take(m)) == span(slots.take(i)) + slot_size(slots[i]),
    decreases m - i,
{
    if m == i + 1 {
        lemma_span_take(slots, i);
    } else {
        lemma_span_over_notes(slots, i, m - 1);
        lemma_span_take(slots, m - 1);
        assert(!is_storage(slots[m - 1]));
    }
}

proof fn lemma_span_of_notes(slots: Seq<Slot>, m: int)
    requires
        0 <= m <= slots.len(),
        forall|t: int| 0 <= t < m ==> !is_storage(#[trigger] slots[t]),
    ensures
        span(slots.take(m)) == 0,
    decreases m,
{
    if m == 0 {
        assert(slots.take(0) =~= Seq::<Slot>::empty());
    } else {
        lemma_span_of_notes(slots, m - 1);
        lemma_span_take(slots, m - 1);
        assert(!is_storage(slots[m - 1]));
    }
}

/// The first storage slot of a planned struct, with only warnings before it,
/// starts at offset 0.
pub proof fn lemma_first_field_at_zero(s: StructDesc, i: int)
    requires
        plan(s) is Ok,
        s.properties@.len() <= usize::MAX,
        0 <= i < plan(s)->Ok_0.slots.len(),
        is_storage(plan(s)->Ok_0.slots[i]),
        forall|m: int| 0 <= m < i ==> !is_storage(#[trigger] plan(s)->Ok_0.slots[m]),
    ensures
        slot_offset(plan(s)->Ok_0.slots[i]) == 0,
{
    lemma_plan_inv(s);
    lemma_span_of_notes(plan(s)->Ok_0.slots, i);
}

/// Size law without overrun: where the planned layout ends at or before the
/// host's size, the sizes of all storage slots (super-struct, padding, fields,
/// bitfield words) add up to exactly that size.
pub proof fn lemma_fields_sum_to_size(s: StructDesc)
    requires
        plan(s) is Ok,
        s.properties@.len() <= usize::MAX,
        plan(s)->Ok_0.end <= s.size as int,
    ensures
        span(plan(s)->Ok_0.slots) == s.size as int,
{
    lemma_layout_fills_struct(s);
}

/// Coalescing law: two bitfield members at one storage offset that were not
/// left out with a warning sit in the one bitfield word at that offset, and
/// exactly one storage slot is emitted for that word.
pub proof fn lemma_bitfields_coalesce(s: StructDesc, q1: int, q2: int)
    requires
        plan(s) is Ok,
        s.properties@.len() <= usize::MAX,
        0 <= q1 < s.properties@.len(),
        0 <= q2 < s.properties@.len(),
        s.properties@[q1].bitfield is Some,
        s.properties@[q2].bitfield is Some,
        s.properties@[q1].offset == s.properties@[q2].offset,
        !is_warned(plan(s)->Ok_0.slots, q1),
        !is_warned(plan(s)->Ok_0.slots, q2),
    ensures
        ({
            let l = plan(s)->Ok_0;
            let o = s.properties@[q1].offset;
            &&& exists|a: int|
                0 <= a < l.bags.len() && (#[trigger] l.bags[a]).offset == o && l.bags[a].members.contains(q1 as usize)
                    && l.bags[a].members.contains(q2 as usize)
            &&& forall|a: int, c: int|
                0 <= a < l.bags.len() && 0 <= c < l.bags.len() && (#[trigger] l.bags[a]).offset == o && (#[trigger] l.bags[c]).offset == o ==> a == c
            &&& exists|j: int| 0 <= j < l.slots.len() && (#[trigger] l.slots[j]) is Bitfield && slot_offset(l.slots[j]) == o
            &&& forall|j1: int, j2: int|
                0 <= j1 < l.slots.len() && 0 <= j2 < l.slots.len() && (#[trigger] l.slots[j1]) is Bitfield
                    && (#[trigger] l.slots[j2]) is Bitfield && slot_offset(l.slots[j1]) == o && slot_offset(l.slots[j2]) == o ==> j1 == j2
        }),
{
    lemma_plan_inv(s);
    let props = s.properties@;
    let l = plan(s)->Ok_0;
    let o = props[q1].offset;
    assert(is_warned(l.slots, q1) || in_bags(l.bags, props[q1].offset as int, q1));
    assert(is_warned(l.slots, q2) || in_bags(l.bags, props[q2].offset as int, q2));
    let a = choose|a: int| 0 <= a < l.bags.len() && (#[trigger] l.bags[a]).offset == o && l.bags[a].members.contains(q1 as usize);
    let c = choose|c: int| 0 <= c < l.bags.len() && (#[trigger] l.bags[c]).offset == o && l.bags[c].members.contains(q2 as usize);
    assert forall|a1: int, c1: int|
        0 <= a1 < l.bags.len() && 0 <= c1 < l.bags.len() && (#[trigger] l.bags[a1]).offset == o && (#[trigger] l.bags[c1]).offset == o implies a1 == c1 by {
        if a1 < c1 {
            assert(l.bags[a1].offset < l.bags[c1].offset);
        } else if c1 < a1 {
            assert(l.bags[c1].offset < l.bags[a1].offset);
        }
    }
    assert(a == c);
    assert(has_storage_word(l.slots, l.bags[a].offset as int, l.bags[a].width));
    let j = choose|j: int| 0 <= j < l.slots.len() && #[trigger] l.slots[j] == (Slot::Bitfield { offset: l.bags[a].offset as u64, width: l.bags[a].width });
    assert(is_bitfield_slot(l.slots[j]));
    assert forall|j1: int, j2: int|
        0 <= j1 < l.slots.len() && 0 <= j2 < l.slots.len() && (#[trigger] l.slots[j1]) is Bitfield
            && (#[trigger] l.slots[j2]) is Bitfield && slot_offset(l.slots[j1]) == o && slot_offset(l.slots[j2]) == o implies j1 == j2 by {
        assert(is_bitfield_slot(l.slots[j1]) && is_bitfield_slot(l.slots[j2]));
    }
}

/// Every slot of a planned layout names a property of the struct, and every
/// bitfield word holds bitfield properties of the struct at its offset.
pub proof fn lemma_plan_references(s: StructDesc)
    requires
        plan(s) is Ok,
        s.properties@.len() <= usize::MAX,
    ensures
        forall|j: int|
            0 <= j < plan(s)->Ok_0.slots.len() ==> names_placed_property(#[trigger] plan(s)->Ok_0.slots[j], s.properties@.len() as int),
        forall|a: int, m: int|
            0 <= a < plan(s)->Ok_0.bags.len() && 0 <= m < plan(s)->Ok_0.bags[a].members.len() ==> {
                let q = (#[trigger] plan(s)->Ok_0.bags[a].members[m]) as int;
                &&& 0 <= q < s.properties@.len()
                &&& s.properties@[q].bitfield is Some
            },
{
    lemma_plan_inv(s);
}

proof fn lemma_place_all_never_lacks_bag(l: LayoutView, props: Seq<PropertyDesc>, k: nat)
    requires
        plan_inv(l, props, 0),
        k <= props.len() <= usize::MAX,
    ensures
        place_all(l, props, k) != Err::<LayoutView, Error>(Error::LastBitfield),
    decreases k,
{
    if k > 0 {
        lemma_place_all_never_lacks_bag(l, props, (k - 1) as nat);
        let prev = place_all(l, props, (k - 1) as nat);
        if prev is Ok {
            lemma_place_all(l, props, (k - 1) as nat);
        }
    }
}

/// A bitfield member only ever joins an open bitfield word: planning never
/// fails for want of one.
pub proof fn lemma_plan_never_lacks_bag(s: StructDesc)
    requires
        s.properties@.len() <= usize::MAX,
    ensures
        plan(s) != Err::<LayoutView, Error>(Error::LastBitfield),
{
    let l0 = initial_layout(s);
    lemma_initial_inv(s);
    assert(plan_inv(l0, s.properties@, 0));
    lemma_place_all_never_lacks_bag(l0, s.properties@, s.properties@.len());
}

} // verus!
