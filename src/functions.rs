//! Method trampolines: one method per reflected function, packing its inputs
//! into a parameter block, calling the host by the function's full name, and
//! returning its outputs.
use vstd::prelude::*;
use crate::error::Error;
use crate::host::{FunctionDesc, PropertyDesc, StructDesc};
use crate::names::{clean_name, cleaned};
use crate::printer::{property_type_text, push_property_type};
use crate::text::{concat_map, lemma_concat_map_step, lemma_concat_map_whole, push_str};

verus! {

/// A parameter that is declared const.
pub const CPF_CONST_PARM: u64 = 0x2;

/// A property that is a parameter of a function.
pub const CPF_PARM: u64 = 0x80;

/// A parameter passed by reference for the function to fill.
pub const CPF_OUT_PARM: u64 = 0x100;

/// The return value of a function.
pub const CPF_RETURN_PARM: u64 = 0x400;

/// The most parameters of one function.
pub const MAX_PARAMETERS: usize = 32;

/// What a function's property is to its trampoline.
#[derive(PartialEq, Eq, Structural, Clone, Copy, Debug)]
pub enum ParamKind {
    Input,
    Output,
    Ignored,
}

pub open spec fn has_flag(flags: u64, f: u64) -> bool {
    flags & f != 0
}

/// The return value and non-const out-parameters are outputs; other
/// parameters are inputs; the rest is ignored.
pub open spec fn param_kind(flags: u64) -> ParamKind {
    if has_flag(flags, CPF_RETURN_PARM) || (has_flag(flags, CPF_OUT_PARM) && !has_flag(flags, CPF_CONST_PARM)) {
        ParamKind::Output
    } else if has_flag(flags, CPF_PARM) {
        ParamKind::Input
    } else {
        ParamKind::Ignored
    }
}

/// Classifies a function's property by its flags.
pub fn classify(flags: u64) -> (r: ParamKind)
    ensures
        r == param_kind(flags),
{
    if flags & CPF_RETURN_PARM != 0 || (flags & CPF_OUT_PARM != 0 && flags & CPF_CONST_PARM == 0) {
        ParamKind::Output
    } else if flags & CPF_PARM != 0 {
        ParamKind::Input
    } else {
        ParamKind::Ignored
    }
}

/// How many of the properties are of the given kind.
pub open spec fn count_kind(ps: Seq<PropertyDesc>, k: ParamKind) -> nat
    decreases ps.len(),
{
    if ps.len() == 0 {
        0
    } else {
        count_kind(ps.drop_last(), k) + if param_kind(ps.last().flags) == k {
            1nat
        } else {
            0nat
        }
    }
}

/// How many of the properties are parameters the trampoline passes.
pub open spec fn count_params(ps: Seq<PropertyDesc>) -> nat {
    count_kind(ps, ParamKind::Input) + count_kind(ps, ParamKind::Output)
}

pub open spec fn ident(p: PropertyDesc) -> Seq<char> {
    cleaned(p.name.text@, p.name.number as nat)
}

pub open spec fn input_text(p: PropertyDesc, here: Seq<char>) -> Seq<char> {
    if param_kind(p.flags) == ParamKind::Input {
        ident(p) + ": "@ + property_type_text(p, here) + ", "@
    } else {
        Seq::empty()
    }
}

pub open spec fn output_one_text(p: PropertyDesc, here: Seq<char>) -> Seq<char> {
    if param_kind(p.flags) == ParamKind::Output {
        property_type_text(p, here) + " "@
    } else {
        Seq::empty()
    }
}

pub open spec fn output_many_text(p: PropertyDesc, here: Seq<char>) -> Seq<char> {
    if param_kind(p.flags) == ParamKind::Output {
        property_type_text(p, here) + ", "@
    } else {
        Seq::empty()
    }
}

pub open spec fn declare_text(p: PropertyDesc, here: Seq<char>) -> Seq<char> {
    match param_kind(p.flags) {
        ParamKind::Input => "\n            "@ + ident(p) + ": "@ + property_type_text(p, here) + ", "@,
        ParamKind::Output => "\n            "@ + ident(p) + ": core::mem::MaybeUninit<"@ + property_type_text(p, here)
            + ">, "@,
        ParamKind::Ignored => Seq::empty(),
    }
}

pub open spec fn init_text(p: PropertyDesc) -> Seq<char> {
    match param_kind(p.flags) {
        ParamKind::Input => "\n            "@ + ident(p) + ", "@,
        ParamKind::Output => "\n            "@ + ident(p) + ": core::mem::MaybeUninit::uninit(), "@,
        ParamKind::Ignored => Seq::empty(),
    }
}

pub open spec fn return_one_text(p: PropertyDesc) -> Seq<char> {
    if param_kind(p.flags) == ParamKind::Output {
        "parameters."@ + ident(p) + ".assume_init()"@
    } else {
        Seq::empty()
    }
}

pub open spec fn return_many_text(p: PropertyDesc) -> Seq<char> {
    if param_kind(p.flags) == ParamKind::Output {
        "parameters."@ + ident(p) + ".assume_init(), "@
    } else {
        Seq::empty()
    }
}

pub open spec fn inputs_fn(here: Seq<char>) -> spec_fn(PropertyDesc) -> Seq<char> {
    |p: PropertyDesc| input_text(p, here)
}

pub open spec fn output_one_fn(here: Seq<char>) -> spec_fn(PropertyDesc) -> Seq<char> {
    |p: PropertyDesc| output_one_text(p, here)
}

pub open spec fn output_many_fn(here: Seq<char>) -> spec_fn(PropertyDesc) -> Seq<char> {
    |p: PropertyDesc| output_many_text(p, here)
}

pub open spec fn declare_fn(here: Seq<char>) -> spec_fn(PropertyDesc) -> Seq<char> {
    |p: PropertyDesc| declare_text(p, here)
}

pub open spec fn init_fn() -> spec_fn(PropertyDesc) -> Seq<char> {
    |p: PropertyDesc| init_text(p)
}

pub open spec fn return_one_fn() -> spec_fn(PropertyDesc) -> Seq<char> {
    |p: PropertyDesc| return_one_text(p)
}

pub open spec fn return_many_fn() -> spec_fn(PropertyDesc) -> Seq<char> {
    |p: PropertyDesc| return_many_text(p)
}

/// The return signature: none, one bare type, or a tuple.
pub open spec fn outputs_text(ps: Seq<PropertyDesc>, here: Seq<char>) -> Seq<char> {
    let n = count_kind(ps, ParamKind::Output);
    if n == 0 {
        Seq::empty()
    } else if n == 1 {
        "-> "@ + concat_map(ps, output_one_fn(here))
    } else {
        "-> ("@ + concat_map(ps, output_many_fn(here)) + ") "@
    }
}

/// The returned value, in the same shape as the return signature.
pub open spec fn returns_text(ps: Seq<PropertyDesc>) -> Seq<char> {
    let n = count_kind(ps, ParamKind::Output);
    if n == 0 {
        Seq::empty()
    } else if n == 1 {
        "\n        "@ + concat_map(ps, return_one_fn())
    } else {
        "\n        ("@ + concat_map(ps, return_many_fn()) + ")"@
    }
}

/// The trampoline of one function.
pub open spec fn function_text(f: FunctionDesc, here: Seq<char>) -> Seq<char> {
    let ps = f.params@;
    "    pub unsafe fn "@ + cleaned(f.name.text@, f.name.number as nat) + "(&mut self, "@ + concat_map(ps, inputs_fn(here))
        + ") "@ + outputs_text(ps, here) + "{\n        #[repr(C)]\n        struct Parameters {"@ + concat_map(
        ps,
        declare_fn(here),
    ) + "\n        }\n\n        let mut parameters = Parameters {"@ + concat_map(ps, init_fn())
        + "\n        };\n\n        crate::process_event(self as *mut Self as *mut _, \""@ + f.full_name@
        + "\", &mut parameters as *mut Parameters as *mut _);"@ + returns_text(ps) + "\n    }\n\n"@
}

pub open spec fn function_fn(here: Seq<char>) -> spec_fn(FunctionDesc) -> Seq<char> {
    |f: FunctionDesc| function_text(f, here)
}

/// The methods block of a struct: nothing without functions; an error where
/// one function passes more parameters than allowed.
pub open spec fn methods_text(fs: Seq<FunctionDesc>, name: Seq<char>, here: Seq<char>) -> Result<Seq<char>, Error> {
    if exists|i: int| 0 <= i < fs.len() && count_params((#[trigger] fs[i]).params@) > MAX_PARAMETERS {
        Err(Error::MaxParameters)
    } else if fs.len() == 0 {
        Ok(Seq::empty())
    } else {
        Ok("impl "@ + name + " {\n"@ + concat_map(fs, function_fn(here)) + "}\n\n"@)
    }
}

fn push_ident(out: &mut String, p: &PropertyDesc)
    ensures
        final(out)@ == old(out)@ + ident(*p),
{
    let c = clean_name(&p.name);
    push_str(out, c.text.as_str());
}

/// Renders the trampoline of one function; fails where it passes more
/// parameters than allowed.
pub fn render_function(f: &FunctionDesc, here: &str) -> (r: Result<String, Error>)
    ensures
        match r {
            Ok(t) => count_params(f.params@) <= MAX_PARAMETERS && t@ == function_text(*f, here@),
            Err(e) => count_params(f.params@) > MAX_PARAMETERS && e == Error::MaxParameters,
        },
{
    let ps = &f.params;
    let n = ps.len();
    let ghost h = here@;
    let mut inputs = String::new();
    let mut one = String::new();
    let mut many = String::new();
    let mut declare = String::new();
    let mut init = String::new();
    let mut ret_one = String::new();
    let mut ret_many = String::new();
    let mut n_in: usize = 0;
    let mut n_out: usize = 0;
    proof {
        lemma_concat_map_whole(ps@, inputs_fn(h));
        lemma_concat_map_whole(ps@, output_one_fn(h));
        lemma_concat_map_whole(ps@, output_many_fn(h));
        lemma_concat_map_whole(ps@, declare_fn(h));
        lemma_concat_map_whole(ps@, init_fn());
        lemma_concat_map_whole(ps@, return_one_fn());
        lemma_concat_map_whole(ps@, return_many_fn());
    }
    let mut i: usize = 0;
    while i < n
        invariant
            n == ps@.len(),
            i <= n,
            h == here@,
            n_in + n_out <= i,
            n_in == count_kind(ps@.take(i as int), ParamKind::Input),
            n_out == count_kind(ps@.take(i as int), ParamKind::Output),
            inputs@ == concat_map(ps@.take(i as int), inputs_fn(h)),
            one@ == concat_map(ps@.take(i as int), output_one_fn(h)),
            many@ == concat_map(ps@.take(i as int), output_many_fn(h)),
            declare@ == concat_map(ps@.take(i as int), declare_fn(h)),
            init@ == concat_map(ps@.take(i as int), init_fn()),
            ret_one@ == concat_map(ps@.take(i as int), return_one_fn()),
            ret_many@ == concat_map(ps@.take(i as int), return_many_fn()),
        decreases n - i,
    {
        let p = &ps[i];
        proof {
            lemma_concat_map_step(ps@, i as int, inputs_fn(h));
            lemma_concat_map_step(ps@, i as int, output_one_fn(h));
            lemma_concat_map_step(ps@, i as int, output_many_fn(h));
            lemma_concat_map_step(ps@, i as int, declare_fn(h));
            lemma_concat_map_step(ps@, i as int, init_fn());
            lemma_concat_map_step(ps@, i as int, return_one_fn());
            lemma_concat_map_step(ps@, i as int, return_many_fn());
            assert(ps@.take(i + 1).drop_last() =~= ps@.take(i as int));
        }
        let ghost (i0, o0, m0, d0, n0, r0, s0) = (inputs@, one@, many@, declare@, init@, ret_one@, ret_many@);
        match classify(p.flags) {
            ParamKind::Input => {
                push_ident(&mut inputs, p);
                push_str(&mut inputs, ": ");
                push_property_type(&mut inputs, p, here);
                push_str(&mut inputs, ", ");
                push_str(&mut declare, "\n            ");
                push_ident(&mut declare, p);
                push_str(&mut declare, ": ");
                push_property_type(&mut declare, p, here);
                push_str(&mut declare, ", ");
                push_str(&mut init, "\n            ");
                push_ident(&mut init, p);
                push_str(&mut init, ", ");
                n_in = n_in + 1;
                assert(inputs@ =~= i0 + input_text(*p, h));
                assert(declare@ =~= d0 + declare_text(*p, h));
                assert(init@ =~= n0 + init_text(*p));
                assert(one@ =~= o0 + output_one_text(*p, h));
                assert(many@ =~= m0 + output_many_text(*p, h));
                assert(ret_one@ =~= r0 + return_one_text(*p));
                assert(ret_many@ =~= s0 + return_many_text(*p));
            },
            ParamKind::Output => {
                push_property_type(&mut one, p, here);
                push_str(&mut one, " ");
                push_property_type(&mut many, p, here);
                push_str(&mut many, ", ");
                push_str(&mut declare, "\n            ");
                push_ident(&mut declare, p);
                push_str(&mut declare, ": core::mem::MaybeUninit<");
                push_property_type(&mut declare, p, here);
                push_str(&mut declare, ">, ");
                push_str(&mut init, "\n            ");
                push_ident(&mut init, p);
                push_str(&mut init, ": core::mem::MaybeUninit::uninit(), ");
                push_str(&mut ret_one, "parameters.");
                push_ident(&mut ret_one, p);
                push_str(&mut ret_one, ".assume_init()");
                push_str(&mut ret_many, "parameters.");
                push_ident(&mut ret_many, p);
                push_str(&mut ret_many, ".assume_init(), ");
                n_out = n_out + 1;
                assert(inputs@ =~= i0 + input_text(*p, h));
                assert(declare@ =~= d0 + declare_text(*p, h));
                assert(init@ =~= n0 + init_text(*p));
                assert(one@ =~= o0 + output_one_text(*p, h));
                assert(many@ =~= m0 + output_many_text(*p, h));
                assert(ret_one@ =~= r0 + return_one_text(*p));
                assert(ret_many@ =~= s0 + return_many_text(*p));
            },
            ParamKind::Ignored => {
                assert(inputs@ =~= i0 + input_text(*p, h));
                assert(declare@ =~= d0 + declare_text(*p, h));
                assert(init@ =~= n0 + init_text(*p));
                assert(one@ =~= o0 + output_one_text(*p, h));
                assert(many@ =~= m0 + output_many_text(*p, h));
                assert(ret_one@ =~= r0 + return_one_text(*p));
                assert(ret_many@ =~= s0 + return_many_text(*p));
            },
        }
        i = i + 1;
    }
    assert(ps@.take(n as int) =~= ps@);
    if n_in + n_out > MAX_PARAMETERS {
        return Err(Error::MaxParameters);
    }
    let mut out = String::new();
    push_str(&mut out, "    pub unsafe fn ");
    let c = clean_name(&f.name);
    push_str(&mut out, c.text.as_str());
    push_str(&mut out, "(&mut self, ");
    push_str(&mut out, inputs.as_str());
    push_str(&mut out, ") ");
    let ghost before_out = out@;
    if n_out == 1 {
        push_str(&mut out, "-> ");
        push_str(&mut out, one.as_str());
    } else if n_out > 1 {
        push_str(&mut out, "-> (");
        push_str(&mut out, many.as_str());
        push_str(&mut out, ") ");
    }
    assert(out@ =~= before_out + outputs_text(ps@, h));
    push_str(&mut out, "{\n        #[repr(C)]\n        struct Parameters {");
    push_str(&mut out, declare.as_str());
    push_str(&mut out, "\n        }\n\n        let mut parameters = Parameters {");
    push_str(&mut out, init.as_str());
    push_str(&mut out, "\n        };\n\n        crate::process_event(self as *mut Self as *mut _, \"");
    push_str(&mut out, f.full_name.as_str());
    push_str(&mut out, "\", &mut parameters as *mut Parameters as *mut _);");
    let ghost before_ret = out@;
    if n_out == 1 {
        push_str(&mut out, "\n        ");
        push_str(&mut out, ret_one.as_str());
    } else if n_out > 1 {
        push_str(&mut out, "\n        (");
        push_str(&mut out, ret_many.as_str());
        push_str(&mut out, ")");
    }
    assert(out@ =~= before_ret + returns_text(ps@));
    push_str(&mut out, "\n    }\n\n");
    assert(out@ =~= function_text(*f, here@));
    Ok(out)
}

/// Renders the methods block of a struct: one trampoline per function, in
/// order; nothing without functions; fails where a function passes more
/// parameters than allowed.
pub fn render_methods(fs: &Vec<FunctionDesc>, name: &str, here: &str) -> (r: Result<String, Error>)
    ensures
        match r {
            Ok(t) => methods_text(fs@, name@, here@) == Ok::<Seq<char>, Error>(t@),
            Err(e) => methods_text(fs@, name@, here@) == Err::<Seq<char>, Error>(e),
        },
{
    let n = fs.len();
    let mut out = String::new();
    if n == 0 {
        return Ok(out);
    }
    push_str(&mut out, "impl ");
    push_str(&mut out, name);
    push_str(&mut out, " {\n");
    let ghost head = out@;
    let ghost g = function_fn(here@);
    proof {
        lemma_concat_map_whole(fs@, g);
    }
    let mut i: usize = 0;
    while i < n
        invariant
            n == fs@.len(),
            i <= n,
            g == function_fn(here@),
            forall|j: int| 0 <= j < i ==> count_params((#[trigger] fs@[j]).params@) <= MAX_PARAMETERS,
            out@ == head + concat_map(fs@.take(i as int), g),
        decreases n - i,
    {
        proof {
            lemma_concat_map_step(fs@, i as int, g);
        }
        match render_function(&fs[i], here) {
            Ok(t) => {
                push_str(&mut out, t.as_str());
            },
            Err(e) => {
                return Err(e);
            },
        }
        i = i + 1;
    }
    push_str(&mut out, "}\n\n");
    assert(out@ =~= "impl "@ + name@ + " {\n"@ + concat_map(fs@, g) + "}\n\n"@);
    Ok(out)
}

} // verus!
