//! The driver: walks the host's objects, registers each package once, and
//! collects the emitted text of every enum and struct in its package's
//! module, or in the one shared module of blueprint-generated classes.
use vstd::prelude::*;
use crate::emit::{body_text, render_body, struct_location};
use crate::enums::{enum_text, generate_enum};
use crate::error::Error;
use crate::functions::{methods_text, render_methods};
use crate::host::{EnumDesc, HostObject, PackageRef, StructDesc};
use crate::layout::{plan, plan_layout};
use crate::layout_laws::lemma_plan_references;
use crate::text::{concat_map, push_str};

verus! {

/// The most packages one run registers.
pub const MAX_PACKAGES: usize = 160;

/// The host's scratch value of a package that no registry holds.
pub const UNREGISTERED: i32 = -1;

/// The opening of the root index: the crate is freestanding, and the shared
/// module of blueprint-generated classes is declared.
pub open spec fn root_prelude() -> Seq<char> {
    "#![no_std]\n#![allow(dead_code, non_camel_case_types, non_snake_case, non_upper_case_globals)]\n#![allow(clippy::missing_safety_doc, clippy::too_many_arguments, clippy::type_complexity)]\npub mod blueprint_generated;\n"@
}

/// The whole emission for a struct; nothing for one of size 0.
pub open spec fn struct_text(sd: StructDesc) -> Result<Seq<char>, Error> {
    if sd.size == 0 {
        Ok(Seq::empty())
    } else {
        match plan(sd) {
            Err(e) => Err(e),
            Ok(l) => match methods_text(sd.functions@, sd.name@, struct_location(sd)) {
                Err(e) => Err(e),
                Ok(m) => Ok(body_text(sd, l) + m),
            },
        }
    }
}

/// A generator: the registered packages in order of first sight, with their
/// short names and emitted text, the root index, and the shared module of
/// blueprint-generated classes.
pub struct Generator {
    packages: Vec<usize>,
    names: Vec<String>,
    files: Vec<String>,
    lib_rs: String,
    blueprint_generated: String,
}

pub struct GenView {
    pub packages: Seq<usize>,
    pub names: Seq<Seq<char>>,
    pub files: Seq<Seq<char>>,
    pub index: Seq<char>,
    pub blueprint: Seq<char>,
}

pub open spec fn texts(v: Seq<String>) -> Seq<Seq<char>> {
    v.map_values(|s: String| s@)
}

impl View for Generator {
    type V = GenView;

    closed spec fn view(&self) -> GenView {
        GenView {
            packages: self.packages@,
            names: texts(self.names@),
            files: texts(self.files@),
            index: self.lib_rs@,
            blueprint: self.blueprint_generated@,
        }
    }
}

/// The generator's packages and the host's scratch slots agree: each
/// registered package's slot holds its position, and every other slot holds
/// the sentinel.
pub open spec fn registry_wf(g: GenView, scratch: Seq<i32>) -> bool {
    &&& g.names.len() == g.packages.len()
    &&& g.files.len() == g.packages.len()
    &&& g.packages.len() <= MAX_PACKAGES
    &&& forall|k: int|
        0 <= k < g.packages.len() ==> (#[trigger] g.packages[k]) < scratch.len() && scratch[g.packages[k] as int] == k
    &&& forall|p: int|
        0 <= p < scratch.len() ==> (#[trigger] scratch[p]) == UNREGISTERED || (0 <= scratch[p] < g.packages.len()
            && g.packages[scratch[p] as int] == p)
}

/// Looking a package up, and registering it on first sight: its slot gets
/// its position, its module is declared in the root index, and its text
/// starts empty.
pub open spec fn lookup(g: GenView, scratch: Seq<i32>, pkg: PackageRef) -> Result<(GenView, Seq<i32>, int), Error> {
    if scratch[pkg.id as int] != UNREGISTERED {
        Ok((g, scratch, scratch[pkg.id as int] as int))
    } else if g.packages.len() >= MAX_PACKAGES {
        Err(Error::MaxPackages)
    } else {
        let k = g.packages.len() as int;
        Ok(
            (
                GenView {
                    packages: g.packages.push(pkg.id),
                    names: g.names.push(pkg.short_name@),
                    files: g.files.push(Seq::empty()),
                    index: g.index + "pub mod "@ + pkg.short_name@ + ";\n"@,
                    blueprint: g.blueprint,
                },
                scratch.update(pkg.id as int, k as i32),
                k,
            ),
        )
    }
}

/// Appending text to the package at position `k`.
pub open spec fn append_file(g: GenView, k: int, t: Seq<char>) -> GenView {
    GenView { files: g.files.update(k, g.files[k] + t), ..g }
}

/// Appending an emission to a package's module, registering it first.
pub open spec fn emit_into(g: GenView, scratch: Seq<i32>, pkg: PackageRef, t: Result<Seq<char>, Error>) -> Result<(GenView, Seq<i32>), Error> {
    match lookup(g, scratch, pkg) {
        Err(e) => Err(e),
        Ok((g2, s2, k)) => match t {
            Err(e) => Err(e),
            Ok(text) => Ok((append_file(g2, k, text), s2)),
        },
    }
}

/// What one host object adds: a blueprint-generated class goes to the shared
/// module; another struct, or an enum with variants, to its package's module.
pub open spec fn object_step(g: GenView, scratch: Seq<i32>, obj: HostObject) -> Result<(GenView, Seq<i32>), Error> {
    match obj {
        HostObject::Struct(sd) => if sd.blueprint {
            match struct_text(sd) {
                Err(e) => Err(e),
                Ok(t) => Ok((GenView { blueprint: g.blueprint + t, ..g }, scratch)),
            }
        } else {
            emit_into(g, scratch, sd.package, struct_text(sd))
        },
        HostObject::Enum(ed) => if ed.variants@.len() == 0 {
            Ok((g, scratch))
        } else {
            emit_into(g, scratch, ed.package, Ok(enum_text(ed)))
        },
        HostObject::Other => Ok((g, scratch)),
    }
}

/// The package whose module an object's emission goes to: none for a
/// blueprint-generated class, an enum without variants, or another object.
pub open spec fn emission_package(obj: HostObject) -> Option<PackageRef> {
    match obj {
        HostObject::Struct(sd) => if sd.blueprint {
            None
        } else {
            Some(sd.package)
        },
        HostObject::Enum(ed) => if ed.variants@.len() == 0 {
            None
        } else {
            Some(ed.package)
        },
        HostObject::Other => None,
    }
}

/// What a generator and the host's slots hold after an object's emission
/// failed: the registration of its package, where that came before the
/// failure; else they are as they were.
pub open spec fn failed_state(g: GenView, scratch: Seq<i32>, obj: HostObject) -> (GenView, Seq<i32>) {
    match emission_package(obj) {
        Some(pkg) => match lookup(g, scratch, pkg) {
            Ok((g2, s2, _k)) => (g2, s2),
            Err(_e) => (g, scratch),
        },
        None => (g, scratch),
    }
}

/// Everything `g` emitted is still in `g2`: each package text, the shared
/// module, and the root index as a prefix.
pub open spec fn output_kept(g: GenView, g2: GenView) -> bool {
    &&& keeps_packages(g.packages, g2.packages)
    &&& g.files.len() <= g2.files.len()
    &&& forall|k: int| 0 <= k < g.files.len() ==> #[trigger] g2.files[k] == g.files[k]
    &&& g2.blueprint == g.blueprint
    &&& g.index.len() <= g2.index.len()
    &&& g2.index.subrange(0, g.index.len() as int) == g.index
}

/// The run stopped at object `i` with error `e`: the objects before it
/// were emitted, object `i` failed, and the generator and slots hold what
/// the failure left, keeping all earlier output.
pub open spec fn stopped_at(
    g: GenView,
    scratch: Seq<i32>,
    objs: Seq<HostObject>,
    i: int,
    e: Error,
    g_end: GenView,
    s_end: Seq<i32>,
) -> bool {
    &&& 0 <= i < objs.len()
    &&& sdk_run(g, scratch, objs, i as nat) is Ok
    &&& {
        let (gi, si) = sdk_run(g, scratch, objs, i as nat)->Ok_0;
        &&& object_step(gi, si, objs[i]) == Err::<(GenView, Seq<i32>), Error>(e)
        &&& (g_end, s_end) == failed_state(gi, si, objs[i])
        &&& output_kept(gi, g_end)
    }
}

proof fn lemma_failed_state_keeps_output(g: GenView, scratch: Seq<i32>, obj: HostObject)
    requires
        registry_wf(g, scratch),
        package_in_table(obj, scratch.len() as int),
    ensures
        output_kept(g, failed_state(g, scratch, obj).0),
{
    assert(g.index.subrange(0, g.index.len() as int) =~= g.index);
    if let Some(pkg) = emission_package(obj) {
        if let Ok((g2, s2, k)) = lookup(g, scratch, pkg) {
            if scratch[pkg.id as int] == UNREGISTERED {
                assert(g2.index.subrange(0, g.index.len() as int) =~= g.index);
                assert forall|k: int| 0 <= k < g.files.len() implies #[trigger] g2.files[k] == g.files[k] by {}
            }
        }
    }
}

/// A run over the first `k` objects, in order; it stops at the first error.
pub open spec fn sdk_run(g: GenView, scratch: Seq<i32>, objs: Seq<HostObject>, k: nat) -> Result<(GenView, Seq<i32>), Error>
    decreases k,
{
    if k == 0 {
        Ok((g, scratch))
    } else {
        match sdk_run(g, scratch, objs, (k - 1) as nat) {
            Err(e) => Err(e),
            Ok((g2, s2)) => object_step(g2, s2, objs[k - 1]),
        }
    }
}

/// The packages of `new` start with those of `old`, at the same positions.
pub open spec fn keeps_packages(old: Seq<usize>, new: Seq<usize>) -> bool {
    old.len() <= new.len() && forall|j: int| 0 <= j < old.len() ==> #[trigger] new[j] == old[j]
}

proof fn lemma_keeps_packages_trans(a: Seq<usize>, b: Seq<usize>, c: Seq<usize>)
    requires
        keeps_packages(a, b),
        keeps_packages(b, c),
    ensures
        keeps_packages(a, c),
{
    assert forall|j: int| 0 <= j < a.len() implies #[trigger] c[j] == a[j] by {
        assert(c[j] == b[j]);
    }
}

/// The package a host object belongs to has a slot in the host's table.
pub open spec fn package_in_table(obj: HostObject, n: int) -> bool {
    match obj {
        HostObject::Struct(sd) => sd.package.id < n,
        HostObject::Enum(ed) => ed.package.id < n,
        HostObject::Other => true,
    }
}

proof fn lemma_sdk_run_err(g: GenView, scratch: Seq<i32>, objs: Seq<HostObject>, k: nat, n: nat, e: Error)
    requires
        k <= n,
        sdk_run(g, scratch, objs, k) == Err::<(GenView, Seq<i32>), Error>(e),
    ensures
        sdk_run(g, scratch, objs, n) == Err::<(GenView, Seq<i32>), Error>(e),
    decreases n - k,
{
    if k < n {
        lemma_sdk_run_err(g, scratch, objs, k + 1, n, e);
    }
}

/// The line that declares a package's module in the root index.
pub open spec fn module_line(name: Seq<char>) -> Seq<char> {
    "pub mod "@ + name + ";\n"@
}

pub open spec fn module_line_fn() -> spec_fn(Seq<char>) -> Seq<char> {
    |n: Seq<char>| module_line(n)
}

/// The root index is the prelude followed by one module line per
/// registered package, in order of registration.
pub open spec fn index_lists_packages(g: GenView) -> bool {
    g.index == root_prelude() + concat_map(g.names, module_line_fn())
}

/// A package whose slot holds something other than the sentinel.
pub open spec fn is_registered(scratch: Seq<i32>, id: int) -> bool {
    scratch[id] != UNREGISTERED
}

/// In a registry in step with the slots, no package is held twice.
pub proof fn lemma_packages_distinct(g: GenView, scratch: Seq<i32>, j: int, k: int)
    requires
        registry_wf(g, scratch),
        0 <= j < g.packages.len(),
        0 <= k < g.packages.len(),
        j != k,
    ensures
        g.packages[j] != g.packages[k],
{
    assert(scratch[g.packages[j] as int] == j);
    assert(scratch[g.packages[k] as int] == k);
}

proof fn lemma_object_step(g: GenView, scratch: Seq<i32>, obj: HostObject)
    requires
        registry_wf(g, scratch),
        index_lists_packages(g),
        package_in_table(obj, scratch.len() as int),
        object_step(g, scratch, obj) is Ok,
    ensures
        ({
            let (g2, s2) = object_step(g, scratch, obj)->Ok_0;
            &&& registry_wf(g2, s2)
            &&& index_lists_packages(g2)
            &&& s2.len() == scratch.len()
            &&& forall|p: int| 0 <= p < scratch.len() && is_registered(scratch, p) ==> #[trigger] s2[p] == scratch[p]
            &&& (emission_package(obj) matches Some(pkg) ==> is_registered(s2, pkg.id as int))
        }),
{
    let (g2, s2) = object_step(g, scratch, obj)->Ok_0;
    if let Some(pkg) = emission_package(obj) {
        lemma_registration_keeps_positions(g, scratch, pkg);
        let (g1, s1, k) = lookup(g, scratch, pkg)->Ok_0;
        if scratch[pkg.id as int] == UNREGISTERED {
            assert(g1.names.drop_last() =~= g.names);
            assert(g1.index =~= root_prelude() + concat_map(g1.names, module_line_fn()));
        }
        assert(g2.packages == g1.packages && g2.names == g1.names && g2.index == g1.index);
        assert(g2.files.len() == g1.files.len());
    }
}

proof fn lemma_run_registers(g: GenView, scratch: Seq<i32>, objs: Seq<HostObject>, k: nat)
    requires
        registry_wf(g, scratch),
        index_lists_packages(g),
        k <= objs.len(),
        forall|i: int| 0 <= i < objs.len() ==> package_in_table(#[trigger] objs[i], scratch.len() as int),
        sdk_run(g, scratch, objs, k) is Ok,
    ensures
        ({
            let (g2, s2) = sdk_run(g, scratch, objs, k)->Ok_0;
            &&& registry_wf(g2, s2)
            &&& index_lists_packages(g2)
            &&& s2.len() == scratch.len()
            &&& forall|p: int| 0 <= p < scratch.len() && is_registered(scratch, p) ==> #[trigger] s2[p] == scratch[p]
            &&& forall|i: int|
                0 <= i < k && (#[trigger] emission_package(objs[i])) is Some ==> is_registered(
                    s2,
                    emission_package(objs[i])->Some_0.id as int,
                )
        }),
    decreases k,
{
    if k > 0 {
        let prev = sdk_run(g, scratch, objs, (k - 1) as nat);
        if prev is Err {
            assert(sdk_run(g, scratch, objs, k) is Err);
        }
        lemma_run_registers(g, scratch, objs, (k - 1) as nat);
        let (g1, s1) = prev->Ok_0;
        assert(package_in_table(objs[k - 1], scratch.len() as int));
        lemma_object_step(g1, s1, objs[k - 1]);
        let (g2, s2) = sdk_run(g, scratch, objs, k)->Ok_0;
        assert forall|i: int|
            0 <= i < k && (#[trigger] emission_package(objs[i])) is Some implies is_registered(
                s2,
                emission_package(objs[i])->Some_0.id as int,
            ) by {
            if i < k - 1 {
                let id = emission_package(objs[i])->Some_0.id as int;
                assert(package_in_table(objs[i], scratch.len() as int));
                assert(is_registered(s1, id));
                assert(s2[id] == s1[id]);
            }
        }
    }
}

/// Registration law over a run: after a run that succeeds, the package of
/// every emitted struct (not blueprint-generated) and of every enum with
/// variants is registered, at the position its slot holds; packages
/// registered before keep their slot; the registry holds at most the cap,
/// no package twice, and the root index is the prelude and one module line
/// per registered package.
pub proof fn lemma_run_registers_packages(g: GenView, scratch: Seq<i32>, objs: Seq<HostObject>)
    requires
        registry_wf(g, scratch),
        index_lists_packages(g),
        forall|i: int| 0 <= i < objs.len() ==> package_in_table(#[trigger] objs[i], scratch.len() as int),
        sdk_run(g, scratch, objs, objs.len()) is Ok,
    ensures
        ({
            let (g2, s2) = sdk_run(g, scratch, objs, objs.len())->Ok_0;
            &&& registry_wf(g2, s2)
            &&& g2.packages.len() <= MAX_PACKAGES
            &&& index_lists_packages(g2)
            &&& forall|j: int, k: int| 0 <= j < k < g2.packages.len() ==> #[trigger] g2.packages[j] != #[trigger] g2.packages[k]
            &&& forall|p: int| 0 <= p < scratch.len() && is_registered(scratch, p) ==> #[trigger] s2[p] == scratch[p]
            &&& forall|i: int|
                0 <= i < objs.len() && (#[trigger] emission_package(objs[i])) is Some ==> {
                    let id = emission_package(objs[i])->Some_0.id as int;
                    &&& 0 <= s2[id] < g2.packages.len()
                    &&& g2.packages[s2[id] as int] == id
                }
        }),
{
    lemma_run_registers(g, scratch, objs, objs.len());
    let (g2, s2) = sdk_run(g, scratch, objs, objs.len())->Ok_0;
    assert forall|j: int, k: int| 0 <= j < k < g2.packages.len() implies #[trigger] g2.packages[j] != #[trigger] g2.packages[k] by {
        lemma_packages_distinct(g2, s2, j, k);
    }
    assert forall|i: int| 0 <= i < objs.len() && (#[trigger] emission_package(objs[i])) is Some implies {
        let id = emission_package(objs[i])->Some_0.id as int;
        &&& 0 <= s2[id] < g2.packages.len()
        &&& g2.packages[s2[id] as int] == id
    } by {
        assert(package_in_table(objs[i], scratch.len() as int));
    }
}

/// Emits a struct: nothing for one of size 0; else its planned declaration
/// followed by its methods block.
pub fn generate_struct(sd: &StructDesc) -> (r: Result<String, Error>)
    ensures
        match r {
            Ok(t) => struct_text(*sd) == Ok::<Seq<char>, Error>(t@),
            Err(e) => struct_text(*sd) == Err::<Seq<char>, Error>(e),
        },
{
    if sd.size == 0 {
        return Ok(String::new());
    }
    let l = match plan_layout(sd) {
        Ok(l) => l,
        Err(e) => {
            return Err(e);
        },
    };
    // The length of a `Vec` fits a `usize`; asking for it tells the prover so.
    let _count = sd.properties.len();
    proof {
        lemma_plan_references(*sd);
    }
    let mut out = render_body(sd, &l);
    let mut here = String::new();
    if sd.blueprint {
        push_str(&mut here, "blueprint_generated");
    } else {
        push_str(&mut here, sd.package.short_name.as_str());
    }
    match render_methods(&sd.functions, sd.name.as_str(), here.as_str()) {
        Ok(m) => {
            push_str(&mut out, m.as_str());
            Ok(out)
        },
        Err(e) => Err(e),
    }
}

/// Emits one struct from its host description.
pub struct StructGenerator<'a> {
    pub structure: &'a StructDesc,
}

impl<'a> StructGenerator<'a> {
    pub fn new(structure: &'a StructDesc) -> (r: StructGenerator<'a>)
        ensures
            r.structure == structure,
    {
        StructGenerator { structure }
    }

    /// The struct's whole emission: nothing for size 0; else its planned
    /// declaration, bitfield accessors, relation to its super-struct, and
    /// methods block.
    pub fn generate(&self) -> (r: Result<String, Error>)
        ensures
            match r {
                Ok(t) => struct_text(*self.structure) == Ok::<Seq<char>, Error>(t@),
                Err(e) => struct_text(*self.structure) == Err::<Seq<char>, Error>(e),
            },
    {
        generate_struct(self.structure)
    }
}

/// A registry with no package, beside a host table whose slots all hold the
/// sentinel, is in step with it.
pub proof fn lemma_fresh_registry(g: GenView, scratch: Seq<i32>)
    requires
        g.packages.len() == 0,
        g.names.len() == 0,
        g.files.len() == 0,
        forall|p: int| 0 <= p < scratch.len() ==> #[trigger] scratch[p] == UNREGISTERED,
    ensures
        registry_wf(g, scratch),
{
}

/// Registration law: looking a package up keeps every package registered
/// before at its position, with its slot still holding that position; a
/// package seen again gets the position it was given first.
pub proof fn lemma_registration_keeps_positions(g: GenView, scratch: Seq<i32>, pkg: PackageRef)
    requires
        registry_wf(g, scratch),
        pkg.id < scratch.len(),
        lookup(g, scratch, pkg) is Ok,
    ensures
        ({
            let (g2, s2, k) = lookup(g, scratch, pkg)->Ok_0;
            &&& registry_wf(g2, s2)
            &&& keeps_packages(g.packages, g2.packages)
            &&& forall|j: int| 0 <= j < g.packages.len() ==> s2[#[trigger] g.packages[j] as int] == j
            &&& g2.packages[k] == pkg.id
            &&& (scratch[pkg.id as int] != UNREGISTERED ==> k == scratch[pkg.id as int])
        }),
{
    let (g2, s2, k) = lookup(g, scratch, pkg)->Ok_0;
    if scratch[pkg.id as int] == UNREGISTERED {
        assert forall|j: int| 0 <= j < g.packages.len() implies s2[#[trigger] g.packages[j] as int] == j by {
            assert(g.packages[j] != pkg.id);
        }
        assert forall|j: int| 0 <= j < g2.packages.len() implies (#[trigger] g2.packages[j]) < s2.len()
            && s2[g2.packages[j] as int] == j by {
            if j < g.packages.len() {
                assert(g.packages[j] != pkg.id);
            }
        }
    }
}

fn append_text(files: &mut Vec<String>, k: usize, t: &str)
    requires
        k < old(files)@.len(),
    ensures
        texts(final(files)@) == texts(old(files)@).update(k as int, old(files)@[k as int]@ + t@),
{
    push_str(&mut files[k], t);
    assert(texts(files@) =~= texts(old(files)@).update(k as int, old(files)@[k as int]@ + t@));
}

impl Generator {
    /// A generator with no package, a root index holding its prelude, and
    /// an empty shared module.
    pub fn new() -> (g: Generator)
        ensures
            g@.packages.len() == 0,
            g@.names.len() == 0,
            g@.files.len() == 0,
            g@.index == root_prelude(),
            g@.blueprint.len() == 0,
            index_lists_packages(g@),
    {
        let mut lib_rs = String::new();
        push_str(
            &mut lib_rs,
            "#![no_std]\n#![allow(dead_code, non_camel_case_types, non_snake_case, non_upper_case_globals)]\n#![allow(clippy::missing_safety_doc, clippy::too_many_arguments, clippy::type_complexity)]\npub mod blueprint_generated;\n",
        );
        let g = Generator {
            packages: Vec::new(),
            names: Vec::new(),
            files: Vec::new(),
            lib_rs,
            blueprint_generated: String::new(),
        };
        assert(texts(g.names@) =~= Seq::<Seq<char>>::empty());
        assert(texts(g.files@) =~= Seq::<Seq<char>>::empty());
        assert(g@.index =~= root_prelude() + concat_map(g@.names, module_line_fn()));
        g
    }

    /// The position of a package, registering it on first sight. Registered
    /// packages keep their position and their slot.
    pub fn get_package(&mut self, scratch: &mut Vec<i32>, pkg: &PackageRef) -> (r: Result<usize, Error>)
        requires
            registry_wf(old(self)@, old(scratch)@),
            pkg.id < old(scratch)@.len(),
        ensures
            registry_wf(final(self)@, final(scratch)@),
            match r {
                Ok(k) => lookup(old(self)@, old(scratch)@, *pkg) == Ok::<(GenView, Seq<i32>, int), Error>(
                    (final(self)@, final(scratch)@, k as int),
                ),
                Err(e) => lookup(old(self)@, old(scratch)@, *pkg) == Err::<(GenView, Seq<i32>, int), Error>(e)
                    && final(self)@ == old(self)@ && final(scratch)@ == old(scratch)@,
            },
    {
        let slot = scratch[pkg.id];
        if slot != UNREGISTERED {
            return Ok(slot as usize);
        }
        let k = self.packages.len();
        if k >= MAX_PACKAGES {
            return Err(Error::MaxPackages);
        }
        let ghost g0 = self@;
        scratch.set(pkg.id, k as i32);
        self.packages.push(pkg.id);
        let ghost n0 = self.names@;
        self.names.push(pkg.short_name.clone());
        assert(texts(self.names@) =~= texts(n0).push(pkg.short_name@));
        let ghost f0 = self.files@;
        self.files.push(String::new());
        assert(texts(self.files@) =~= texts(f0).push(Seq::<char>::empty()));
        push_str(&mut self.lib_rs, "pub mod ");
        push_str(&mut self.lib_rs, pkg.short_name.as_str());
        push_str(&mut self.lib_rs, ";\n");
        assert(self.lib_rs@ =~= g0.index + "pub mod "@ + pkg.short_name@ + ";\n"@);
        assert forall|j: int| 0 <= j < self.packages@.len() implies (#[trigger] self.packages@[j]) < scratch@.len()
            && scratch@[self.packages@[j] as int] == j by {
            if j < k {
                assert(g0.packages[j] != pkg.id);
            }
        }
        Ok(k)
    }

    fn emit_into(&mut self, scratch: &mut Vec<i32>, pkg: &PackageRef, t: Result<String, Error>) -> (r: Result<(), Error>)
        requires
            registry_wf(old(self)@, old(scratch)@),
            pkg.id < old(scratch)@.len(),
        ensures
            registry_wf(final(self)@, final(scratch)@),
            final(scratch)@.len() == old(scratch)@.len(),
            keeps_packages(old(self)@.packages, final(self)@.packages),
            match r {
                Ok(()) => emit_into(old(self)@, old(scratch)@, *pkg, match t { Ok(s) => Ok(s@), Err(e) => Err(e) })
                    == Ok::<(GenView, Seq<i32>), Error>((final(self)@, final(scratch)@)),
                Err(e) => emit_into(old(self)@, old(scratch)@, *pkg, match t { Ok(s) => Ok(s@), Err(e) => Err(e) })
                    == Err::<(GenView, Seq<i32>), Error>(e) && (final(self)@, final(scratch)@) == match lookup(
                    old(self)@,
                    old(scratch)@,
                    *pkg,
                ) {
                    Ok((g2, s2, _k)) => (g2, s2),
                    Err(_e) => (old(self)@, old(scratch)@),
                },
            },
    {
        let k = match self.get_package(scratch, pkg) {
            Ok(k) => k,
            Err(e) => {
                return Err(e);
            },
        };
        match t {
            Ok(s) => {
                let ghost g1 = self@;
                append_text(&mut self.files, k, s.as_str());
                assert(self@ == append_file(g1, k as int, s@));
                Ok(())
            },
            Err(e) => Err(e),
        }
    }

    fn generate_object(&mut self, scratch: &mut Vec<i32>, obj: &HostObject) -> (r: Result<(), Error>)
        requires
            registry_wf(old(self)@, old(scratch)@),
            package_in_table(*obj, old(scratch)@.len() as int),
        ensures
            registry_wf(final(self)@, final(scratch)@),
            final(scratch)@.len() == old(scratch)@.len(),
            keeps_packages(old(self)@.packages, final(self)@.packages),
            match r {
                Ok(()) => object_step(old(self)@, old(scratch)@, *obj) == Ok::<(GenView, Seq<i32>), Error>(
                    (final(self)@, final(scratch)@),
                ),
                Err(e) => object_step(old(self)@, old(scratch)@, *obj) == Err::<(GenView, Seq<i32>), Error>(e)
                    && (final(self)@, final(scratch)@) == failed_state(old(self)@, old(scratch)@, *obj),
            },
    {
        match obj {
            HostObject::Struct(sd) => {
                if sd.blueprint {
                    match generate_struct(sd) {
                        Ok(t) => {
                            push_str(&mut self.blueprint_generated, t.as_str());
                            Ok(())
                        },
                        Err(e) => Err(e),
                    }
                } else {
                    let t = generate_struct(sd);
                    self.emit_into(scratch, &sd.package, t)
                }
            },
            HostObject::Enum(ed) => {
                if ed.variants.len() == 0 {
                    Ok(())
                } else {
                    let t = generate_enum(ed);
                    self.emit_into(scratch, &ed.package, Ok(t))
                }
            },
            HostObject::Other => Ok(()),
        }
    }

    /// Runs the generator over the host's objects, in order, and stops at the
    /// first error. Whatever happens, the packages registered before keep
    /// their position, and the generator and the host's slots stay in step.
    #[verifier::rlimit(50)]
    pub fn generate_sdk(&mut self, objects: &Vec<HostObject>, scratch: &mut Vec<i32>) -> (r: Result<(), Error>)
        requires
            registry_wf(old(self)@, old(scratch)@),
            forall|i: int| 0 <= i < objects@.len() ==> package_in_table(#[trigger] objects@[i], old(scratch)@.len() as int),
        ensures
            registry_wf(final(self)@, final(scratch)@),
            final(scratch)@.len() == old(scratch)@.len(),
            keeps_packages(old(self)@.packages, final(self)@.packages),
            match r {
                Ok(()) => sdk_run(old(self)@, old(scratch)@, objects@, objects@.len()) == Ok::<(GenView, Seq<i32>), Error>(
                    (final(self)@, final(scratch)@),
                ),
                Err(e) => sdk_run(old(self)@, old(scratch)@, objects@, objects@.len()) == Err::<(GenView, Seq<i32>), Error>(e)
                    && exists|i: int| #[trigger] stopped_at(old(self)@, old(scratch)@, objects@, i, e, final(self)@, final(scratch)@),
            },
    {
        let n = objects.len();
        let ghost g0 = self@;
        let ghost s0 = scratch@;
        let mut i: usize = 0;
        while i < n
            invariant
                n == objects@.len(),
                i <= n,
                registry_wf(self@, scratch@),
                g0 == old(self)@,
                s0 == old(scratch)@,
                scratch@.len() == s0.len(),
                keeps_packages(g0.packages, self@.packages),
                forall|j: int| 0 <= j < objects@.len() ==> package_in_table(#[trigger] objects@[j], s0.len() as int),
                sdk_run(g0, s0, objects@, i as nat) == Ok::<(GenView, Seq<i32>), Error>((self@, scratch@)),
            decreases n - i,
        {
            let ghost g1 = self@;
            let ghost s1 = scratch@;
            assert(package_in_table(objects@[i as int], s0.len() as int));
            let step = self.generate_object(scratch, &objects[i]);
            proof {
                lemma_keeps_packages_trans(g0.packages, g1.packages, self@.packages);
            }
            match step {
                Ok(()) => {},
                Err(e) => {
                    proof {
                        lemma_sdk_run_err(g0, s0, objects@, (i + 1) as nat, n as nat, e);
                        lemma_failed_state_keeps_output(g1, s1, objects@[i as int]);
                        assert(stopped_at(g0, s0, objects@, i as int, e, self@, scratch@));
                    }
                    return Err(e);
                },
            }
            i = i + 1;
        }
        Ok(())
    }

    /// Ends the run: every registered package's slot returns to the
    /// sentinel, so every slot of the host's table holds it.
    pub fn release(self, scratch: &mut Vec<i32>)
        requires
            registry_wf(self@, old(scratch)@),
        ensures
            final(scratch)@.len() == old(scratch)@.len(),
            forall|k: int| 0 <= k < self@.packages.len() ==> final(scratch)@[#[trigger] self@.packages[k] as int] == UNREGISTERED,
            forall|p: int| 0 <= p < final(scratch)@.len() ==> #[trigger] final(scratch)@[p] == UNREGISTERED,
    {
        let n = self.packages.len();
        let mut i: usize = 0;
        while i < n
            invariant
                n == self.packages@.len(),
                i <= n,
                scratch@.len() == old(scratch)@.len(),
                registry_wf(self@, old(scratch)@),
                forall|k: int| 0 <= k < i ==> scratch@[#[trigger] self.packages@[k] as int] == UNREGISTERED,
                forall|p: int|
                    0 <= p < scratch@.len() ==> #[trigger] scratch@[p] == UNREGISTERED || (old(scratch)@[p] >= i
                        && scratch@[p] == old(scratch)@[p]),
            decreases n - i,
        {
            let id = self.packages[i];
            scratch.set(id, UNREGISTERED);
            i = i + 1;
        }
        assert forall|p: int| 0 <= p < scratch@.len() implies #[trigger] scratch@[p] == UNREGISTERED by {
            if scratch@[p] != UNREGISTERED {
                assert(old(scratch)@[p] >= n);
            }
        }
    }

    /// How many packages were registered.
    pub fn package_count(&self) -> (r: usize)
        ensures
            r == self@.packages.len(),
    {
        self.packages.len()
    }

    /// The short name of the package at position `k`.
    pub fn package_name(&self, k: usize) -> (r: &str)
        requires
            k < self@.names.len(),
        ensures
            r@ == self@.names[k as int],
    {
        self.names[k].as_str()
    }

    /// The emitted text of the package at position `k`.
    pub fn package_text(&self, k: usize) -> (r: &str)
        requires
            k < self@.files.len(),
        ensures
            r@ == self@.files[k as int],
    {
        self.files[k].as_str()
    }

    /// The root index.
    pub fn root_index(&self) -> (r: &str)
        ensures
            r@ == self@.index,
    {
        self.lib_rs.as_str()
    }

    /// The shared module of blueprint-generated classes.
    pub fn blueprint_text(&self) -> (r: &str)
        ensures
            r@ == self@.blueprint,
    {
        self.blueprint_generated.as_str()
    }
}

} // verus!
