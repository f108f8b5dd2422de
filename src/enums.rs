//! Emitting an enumeration as a numeric wrapper type with one constant per
//! variant.
use vstd::prelude::*;
use crate::host::{EnumDesc, EnumVariant};
use crate::names::variant_name;
use crate::names::variant_ident;
use crate::text::{chars_of, push_signed, push_str, signed_decimal};

verus! {

/// The unsigned storage widths an enumeration can have.
#[derive(PartialEq, Eq, Structural, Clone, Copy, Debug)]
pub enum IntWidth {
    U8,
    U32,
    U64,
}

/// The largest value of the width.
pub open spec fn width_max(w: IntWidth) -> int {
    match w {
        IntWidth::U8 => u8::MAX as int,
        IntWidth::U32 => u32::MAX as int,
        IntWidth::U64 => u64::MAX as int,
    }
}

/// Position of the width in increasing order of size.
pub open spec fn width_rank(w: IntWidth) -> nat {
    match w {
        IntWidth::U8 => 0,
        IntWidth::U32 => 1,
        IntWidth::U64 => 2,
    }
}

/// The type name of the width.
pub open spec fn width_name(w: IntWidth) -> Seq<char> {
    match w {
        IntWidth::U8 => "u8"@,
        IntWidth::U32 => "u32"@,
        IntWidth::U64 => "u64"@,
    }
}

/// The largest discriminant of the variants; 0 when there are none.
pub open spec fn max_discriminant(vs: Seq<EnumVariant>) -> int
    decreases vs.len(),
{
    if vs.len() == 0 {
        0
    } else if vs.len() == 1 {
        vs[0].value as int
    } else {
        let m = max_discriminant(vs.drop_last());
        if vs.last().value > m {
            vs.last().value as int
        } else {
            m
        }
    }
}

/// The smallest width that holds `m`.
pub open spec fn width_for(m: int) -> IntWidth {
    if m <= u8::MAX {
        IntWidth::U8
    } else if m <= u32::MAX {
        IntWidth::U32
    } else {
        IntWidth::U64
    }
}

/// A variant text that ends in `_MAX` or `_Max`: the host's generated
/// count sentinel.
pub open spec fn is_max_sentinel(s: Seq<char>) -> bool {
    s.len() >= 4 && (s.subrange(s.len() - 4, s.len() as int) == "_MAX"@ || s.subrange(
        s.len() - 4,
        s.len() as int,
    ) == "_Max"@)
}

/// The variants whose discriminants decide the width: all of them, but a
/// trailing sentinel.
pub open spec fn width_variants(vs: Seq<EnumVariant>) -> Seq<EnumVariant> {
    if vs.len() > 0 && is_max_sentinel(vs.last().name.text@) {
        vs.drop_last()
    } else {
        vs
    }
}

/// The storage width of an enumeration.
pub open spec fn enum_width(vs: Seq<EnumVariant>) -> IntWidth {
    width_for(max_discriminant(width_variants(vs)))
}

/// The constant line of one variant.
pub open spec fn variant_line(v: EnumVariant) -> Seq<char> {
    "    pub const "@ + variant_ident(v.name.text@, v.name.number as nat) + ": Self = Self("@
        + signed_decimal(v.value as int) + ");\n"@
}

/// The constant lines of the variants, in order.
pub open spec fn variant_lines(vs: Seq<EnumVariant>) -> Seq<char>
    decreases vs.len(),
{
    if vs.len() == 0 {
        Seq::empty()
    } else {
        variant_lines(vs.drop_last()) + variant_line(vs.last())
    }
}

/// The whole emission for an enumeration; nothing for one without variants.
pub open spec fn enum_text(e: EnumDesc) -> Seq<char> {
    let vs = e.variants@;
    if vs.len() == 0 {
        Seq::empty()
    } else {
        "// "@ + e.full_name@ + "\n#[repr(transparent)]\npub struct "@ + e.name@ + "("@
            + width_name(enum_width(vs)) + ");\n\nimpl "@ + e.name@ + " {\n"@ + variant_lines(vs)
            + "}\n\n"@
    }
}

impl IntWidth {
    /// The type name of the width.
    pub fn name(&self) -> (r: &'static str)
        ensures
            r@ == width_name(*self),
    {
        match self {
            IntWidth::U8 => "u8",
            IntWidth::U32 => "u32",
            IntWidth::U64 => "u64",
        }
    }
}

/// The smallest of `u8`, `u32`, `u64` that holds the largest discriminant of
/// the variants (0 when there are none).
pub fn get_enum_representation(vs: &[EnumVariant]) -> (r: IntWidth)
    ensures
        r == width_for(max_discriminant(vs@)),
        max_discriminant(vs@) <= width_max(r),
        forall|w: IntWidth|
            max_discriminant(vs@) <= width_max(w) ==> width_rank(r) <= #[trigger] width_rank(w),
{
    let n = vs.len();
    let mut m: i64 = 0;
    let mut i: usize = 0;
    while i < n
        invariant
            n == vs@.len(),
            i <= n,
            m == max_discriminant(vs@.subrange(0, i as int)),
        decreases n - i,
    {
        let v = vs[i].value;
        assert(vs@.subrange(0, i + 1).drop_last() =~= vs@.subrange(0, i as int));
        if i == 0 || v > m {
            m = v;
        }
        i = i + 1;
    }
    assert(vs@.subrange(0, n as int) =~= vs@);
    if m <= 255 {
        IntWidth::U8
    } else if m <= 4294967295 {
        IntWidth::U32
    } else {
        IntWidth::U64
    }
}

/// Whether the text ends in `_MAX` or `_Max`.
pub fn is_max_variant(t: &str) -> (r: bool)
    ensures
        r == is_max_sentinel(t@),
{
    let v = chars_of(t);
    let n = v.len();
    proof {
        reveal_strlit("_MAX");
        reveal_strlit("_Max");
    }
    if n < 4 {
        return false;
    }
    let ghost tail = v@.subrange(n - 4, n as int);
    let r = v[n - 4] == '_' && (v[n - 3] == 'M' && ((v[n - 2] == 'A' && v[n - 1] == 'X') || (v[n
        - 2] == 'a' && v[n - 1] == 'x')));
    proof {
        if r {
            if v[n - 2] == 'A' {
                assert(tail =~= "_MAX"@);
            } else {
                assert(tail =~= "_Max"@);
            }
        } else {
            assert(tail[0] != '_' || tail[1] != 'M' || (tail[2] != 'A' || tail[3] != 'X') && (tail[2]
                != 'a' || tail[3] != 'x'));
            assert(tail != "_MAX"@ && tail != "_Max"@);
        }
    }
    r
}

/// The storage width of an enumeration: the discriminant of a trailing
/// `_MAX`/`_Max` sentinel does not count.
pub fn enum_storage_width(vs: &Vec<EnumVariant>) -> (r: IntWidth)
    ensures
        r == enum_width(vs@),
        max_discriminant(width_variants(vs@)) <= width_max(r),
        forall|w: IntWidth|
            max_discriminant(width_variants(vs@)) <= width_max(w) ==> width_rank(r)
                <= #[trigger] width_rank(w),
{
    let n = vs.len();
    if n > 0 && is_max_variant(vs[n - 1].name.text.as_str()) {
        let s = vs.as_slice();
        let rest = slice_prefix(s, n - 1);
        assert(rest@ =~= vs@.drop_last());
        get_enum_representation(rest)
    } else {
        get_enum_representation(vs.as_slice())
    }
}

/// The first `k` items of a slice.
fn slice_prefix(s: &[EnumVariant], k: usize) -> (r: &[EnumVariant])
    requires
        k <= s@.len(),
    ensures
        r@ == s@.subrange(0, k as int),
{
    let (a, _b) = s.split_at(k);
    a
}

/// Emits an enumeration: nothing when it has no variants; else a transparent
/// wrapper of the storage width and one constant per variant, in order, with
/// the host's own discriminant.
pub fn generate_enum(e: &EnumDesc) -> (r: String)
    ensures
        r@ == enum_text(*e),
{
    let mut out = String::new();
    let n = e.variants.len();
    if n == 0 {
        return out;
    }
    let width = enum_storage_width(&e.variants);
    push_str(&mut out, "// ");
    push_str(&mut out, e.full_name.as_str());
    push_str(&mut out, "\n#[repr(transparent)]\npub struct ");
    push_str(&mut out, e.name.as_str());
    push_str(&mut out, "(");
    push_str(&mut out, width.name());
    push_str(&mut out, ");\n\nimpl ");
    push_str(&mut out, e.name.as_str());
    push_str(&mut out, " {\n");
    let ghost head = out@;
    let mut i: usize = 0;
    while i < n
        invariant
            n == e.variants@.len(),
            i <= n,
            out@ == head + variant_lines(e.variants@.subrange(0, i as int)),
        decreases n - i,
    {
        let v = &e.variants[i];
        let ghost before = out@;
        push_str(&mut out, "    pub const ");
        let ident = variant_name(&v.name);
        push_str(&mut out, ident.as_str());
        push_str(&mut out, ": Self = Self(");
        push_signed(&mut out, v.value);
        push_str(&mut out, ");\n");
        assert(e.variants@.subrange(0, i + 1).drop_last() =~= e.variants@.subrange(0, i as int));
        assert(out@ =~= before + variant_line(*v));
        i = i + 1;
    }
    assert(e.variants@.subrange(0, n as int) =~= e.variants@);
    push_str(&mut out, "}\n\n");
    assert(out@ =~= enum_text(*e));
    out
}

} // verus!
