//! Detection of the packages that run code at build time: proc-macro
//! crates, crates with a build script, and crates with build
//! dependencies, all judged by name.

use vstd::hash_map::StringHashMap;
use vstd::prelude::*;

use crate::cargo_lock::{package_views, views_of, Package, PackageModel};
use crate::text::{
    chars_of, has_infix, occurs_at, has_suffix, window_eq, window_has_infix, window_has_suffix,
};

verus! {

/// Analysis result for a package with native build surface.
#[derive(Debug, Clone, PartialEq)]
pub struct NativeSurface {
    pub package: Package,
    pub has_proc_macro: bool,
    pub has_build_script: bool,
    pub has_build_dependencies: bool,
}

/// The mathematical value of a [`NativeSurface`].
pub struct SurfaceModel {
    pub package: PackageModel,
    pub has_proc_macro: bool,
    pub has_build_script: bool,
    pub has_build_dependencies: bool,
}

impl View for NativeSurface {
    type V = SurfaceModel;

    open spec fn view(&self) -> SurfaceModel {
        SurfaceModel {
            package: self.package@,
            has_proc_macro: self.has_proc_macro,
            has_build_script: self.has_build_script,
            has_build_dependencies: self.has_build_dependencies,
        }
    }
}

/// The value of each surface of `v`.
pub open spec fn surface_views(v: Seq<NativeSurface>) -> Seq<SurfaceModel> {
    v.map_values(|s: NativeSurface| s@)
}

/// The known proc-macro crates, each with a short description.
pub open spec fn known_proc_macro_table() -> Map<Seq<char>, Seq<char>> {
    Map::empty().insert("serde_derive"@, "proc-macro for serde"@).insert(
        "tokio-macros"@,
        "proc-macro for tokio"@,
    ).insert("async-trait"@, "proc-macro for async-trait"@).insert(
        "thiserror-impl"@,
        "proc-macro for thiserror"@,
    ).insert("proc-macro2"@, "foundational proc-macro crate"@).insert(
        "syn"@,
        "parsing foundation for proc-macros"@,
    ).insert("quote"@, "quoting foundation for proc-macros"@).insert(
        "futures-macro"@,
        "proc-macro for futures"@,
    ).insert("tracing-attributes"@, "proc-macro for tracing"@).insert(
        "pin-project-internal"@,
        "proc-macro for pin-project"@,
    ).insert("zerocopy-derive"@, "proc-macro for zerocopy"@).insert(
        "strum_macros"@,
        "proc-macro for strum"@,
    ).insert("displaydoc"@, "proc-macro for displaydoc"@).insert(
        "validator-derive"@,
        "proc-macro for validator"@,
    )
}

/// The map `m` of strings holds exactly the entries of `t`.
pub open spec fn holds_table(m: Map<Seq<char>, String>, t: Map<Seq<char>, Seq<char>>) -> bool {
    &&& m.dom() == t.dom()
    &&& forall|k: Seq<char>| #[trigger] m.contains_key(k) ==> m[k]@ == t[k]
}

fn add_entry(
    m: &mut StringHashMap<String>,
    name: &str,
    desc: &str,
    Ghost(t): Ghost<Map<Seq<char>, Seq<char>>>,
)
    requires
        holds_table(old(m)@, t),
    ensures
        holds_table(final(m)@, t.insert(name@, desc@)),
{
    m.insert(name.to_owned(), desc.to_owned());
    assert(final(m)@.dom() =~= t.insert(name@, desc@).dom());
}

/// Builds the map of known proc-macro crate names, for heuristic
/// detection.
pub fn known_proc_macro_crates() -> (m: StringHashMap<String>)
    ensures
        holds_table(m@, known_proc_macro_table()),
{
    let mut m = StringHashMap::new();
    let ghost t = Map::<Seq<char>, Seq<char>>::empty();
    assert(m@.dom() =~= t.dom());
    add_entry(&mut m, "serde_derive", "proc-macro for serde", Ghost(t));
    let ghost t = t.insert("serde_derive"@, "proc-macro for serde"@);
    add_entry(&mut m, "tokio-macros", "proc-macro for tokio", Ghost(t));
    let ghost t = t.insert("tokio-macros"@, "proc-macro for tokio"@);
    add_entry(&mut m, "async-trait", "proc-macro for async-trait", Ghost(t));
    let ghost t = t.insert("async-trait"@, "proc-macro for async-trait"@);
    add_entry(&mut m, "thiserror-impl", "proc-macro for thiserror", Ghost(t));
    let ghost t = t.insert("thiserror-impl"@, "proc-macro for thiserror"@);
    add_entry(&mut m, "proc-macro2", "foundational proc-macro crate", Ghost(t));
    let ghost t = t.insert("proc-macro2"@, "foundational proc-macro crate"@);
    add_entry(&mut m, "syn", "parsing foundation for proc-macros", Ghost(t));
    let ghost t = t.insert("syn"@, "parsing foundation for proc-macros"@);
    add_entry(&mut m, "quote", "quoting foundation for proc-macros", Ghost(t));
    let ghost t = t.insert("quote"@, "quoting foundation for proc-macros"@);
    add_entry(&mut m, "futures-macro", "proc-macro for futures", Ghost(t));
    let ghost t = t.insert("futures-macro"@, "proc-macro for futures"@);
    add_entry(&mut m, "tracing-attributes", "proc-macro for tracing", Ghost(t));
    let ghost t = t.insert("tracing-attributes"@, "proc-macro for tracing"@);
    add_entry(&mut m, "pin-project-internal", "proc-macro for pin-project", Ghost(t));
    let ghost t = t.insert("pin-project-internal"@, "proc-macro for pin-project"@);
    add_entry(&mut m, "zerocopy-derive", "proc-macro for zerocopy", Ghost(t));
    let ghost t = t.insert("zerocopy-derive"@, "proc-macro for zerocopy"@);
    add_entry(&mut m, "strum_macros", "proc-macro for strum", Ghost(t));
    let ghost t = t.insert("strum_macros"@, "proc-macro for strum"@);
    add_entry(&mut m, "displaydoc", "proc-macro for displaydoc", Ghost(t));
    let ghost t = t.insert("displaydoc"@, "proc-macro for displaydoc"@);
    add_entry(&mut m, "validator-derive", "proc-macro for validator", Ghost(t));
    m
}


/// The name heuristic for proc-macro crates: the `proc-macro2` typosquats
/// `proc-macro1` and `proc-macro-en`; any name holding `macro` but not
/// `macos`; the derive/impl/macros suffixes; `syn` and `quote`.
pub open spec fn looks_like_proc_macro_name(name: Seq<char>) -> bool {
    ||| name == "proc-macro1"@
    ||| name == "proc-macro-en"@
    ||| has_infix(name, "macro"@) && !has_infix(name, "macos"@)
    ||| has_suffix(name, "_derive"@)
    ||| has_suffix(name, "-impl"@)
    ||| has_suffix(name, "_macros"@)
    ||| has_suffix(name, "-macros"@)
    ||| name == "syn"@
    ||| name == "quote"@
}

/// Heuristic: detect if a crate name looks like a proc-macro crate.
pub fn looks_like_proc_macro(name: &str) -> (b: bool)
    ensures
        b == looks_like_proc_macro_name(name@),
{
    let s = chars_of(name);
    let n = s.len();
    assert(s@.subrange(0, n as int) =~= s@);
    if window_eq(&s, 0, n, &chars_of("proc-macro1")) || window_eq(
        &s,
        0,
        n,
        &chars_of("proc-macro-en"),
    ) {
        return true;
    }
    if window_has_infix(&s, 0, n, &chars_of("macro")) && !window_has_infix(
        &s,
        0,
        n,
        &chars_of("macos"),
    ) {
        return true;
    }
    if window_has_suffix(&s, 0, n, &chars_of("_derive")) || window_has_suffix(
        &s,
        0,
        n,
        &chars_of("-impl"),
    ) || window_has_suffix(&s, 0, n, &chars_of("_macros")) || window_has_suffix(
        &s,
        0,
        n,
        &chars_of("-macros"),
    ) {
        return true;
    }
    if window_eq(&s, 0, n, &chars_of("syn")) || window_eq(&s, 0, n, &chars_of("quote")) {
        return true;
    }
    false
}

/// A build script is assumed for names holding `build`, and for `cc` and
/// `cmake`.
pub open spec fn has_build_script_name(name: Seq<char>) -> bool {
    has_infix(name, "build"@) || name == "cc"@ || name == "cmake"@
}

/// A dependency that signals build-time work: a name holding `build`, or
/// `cc`.
pub open spec fn is_build_dependency(d: Seq<char>) -> bool {
    has_infix(d, "build"@) || d == "cc"@
}

/// Some dependency in `deps` signals build-time work.
pub open spec fn has_build_dependency(deps: Seq<Seq<char>>) -> bool {
    exists|i: int| 0 <= i < deps.len() && #[trigger] is_build_dependency(deps[i])
}

/// The analysis of one package.
pub open spec fn surface_of(p: PackageModel) -> SurfaceModel {
    SurfaceModel {
        package: p,
        has_proc_macro: known_proc_macro_table().contains_key(p.name)
            || looks_like_proc_macro_name(p.name),
        has_build_script: has_build_script_name(p.name),
        has_build_dependencies: has_build_dependency(p.dependencies),
    }
}

/// At least one of the three findings holds.
pub open spec fn has_native_surface(s: SurfaceModel) -> bool {
    s.has_proc_macro || s.has_build_script || s.has_build_dependencies
}

/// The analyses of the packages of `ps` that have native build surface,
/// in the order of `ps`.
pub open spec fn native_surfaces(ps: Seq<PackageModel>) -> Seq<SurfaceModel>
    decreases ps.len(),
{
    if ps.len() == 0 {
        Seq::empty()
    } else if has_native_surface(surface_of(ps.last())) {
        native_surfaces(ps.drop_last()).push(surface_of(ps.last()))
    } else {
        native_surfaces(ps.drop_last())
    }
}

/// Law: every reported package has native build surface.
pub proof fn law_surfaces_are_flagged(ps: Seq<PackageModel>)
    ensures
        forall|i: int|
            0 <= i < native_surfaces(ps).len() ==> has_native_surface(
                #[trigger] native_surfaces(ps)[i],
            ),
    decreases ps.len(),
{
    if ps.len() > 0 {
        law_surfaces_are_flagged(ps.drop_last());
        let out = native_surfaces(ps);
        let out0 = native_surfaces(ps.drop_last());
        assert forall|i: int| 0 <= i < out.len() implies has_native_surface(#[trigger] out[i]) by {
            if i < out0.len() {
                assert(out[i] == out0[i]);
            }
        }
    }
}

/// Law: the analysis of a concatenation is the concatenation of the
/// analyses; the finding for a package depends on that package alone.
pub proof fn law_surfaces_of_concat(a: Seq<PackageModel>, b: Seq<PackageModel>)
    ensures
        native_surfaces(a + b) == native_surfaces(a) + native_surfaces(b),
    decreases b.len(),
{
    if b.len() == 0 {
        assert(a + b =~= a);
        assert(native_surfaces(a) + native_surfaces(b) =~= native_surfaces(a));
    } else {
        law_surfaces_of_concat(a, b.drop_last());
        assert((a + b).drop_last() =~= a + b.drop_last());
        assert((a + b).last() == b.last());
        if has_native_surface(surface_of(b.last())) {
            assert(native_surfaces(a) + native_surfaces(b.drop_last()).push(surface_of(b.last()))
                =~= (native_surfaces(a) + native_surfaces(b.drop_last())).push(
                surface_of(b.last()),
            ));
        }
    }
}

/// Law: each package of the input is reported exactly when it has native
/// build surface, with its findings; every report is about a package of
/// the input; there are no more reports than packages.
pub proof fn law_surfaces_sound_and_complete(ps: Seq<PackageModel>)
    ensures
        native_surfaces(ps).len() <= ps.len(),
        forall|i: int|
            0 <= i < native_surfaces(ps).len() ==> exists|j: int|
                0 <= j < ps.len() && #[trigger] native_surfaces(ps)[i] == surface_of(
                    #[trigger] ps[j],
                ),
        forall|j: int|
            0 <= j < ps.len() && has_native_surface(surface_of(#[trigger] ps[j])) ==> exists|
                i: int,
            |
                0 <= i < native_surfaces(ps).len() && #[trigger] native_surfaces(ps)[i]
                    == surface_of(ps[j]),
    decreases ps.len(),
{
    if ps.len() > 0 {
        let rest = ps.drop_last();
        law_surfaces_sound_and_complete(rest);
        let out = native_surfaces(ps);
        let out0 = native_surfaces(rest);
        assert forall|i: int| 0 <= i < out.len() implies exists|j: int|
            0 <= j < ps.len() && #[trigger] out[i] == surface_of(#[trigger] ps[j]) by {
            if i < out0.len() {
                assert(out[i] == out0[i]);
                let j = choose|j: int| 0 <= j < rest.len() && out0[i] == surface_of(rest[j]);
                assert(ps[j] == rest[j]);
            } else {
                assert(out[i] == surface_of(ps[ps.len() - 1]));
            }
        }
        assert forall|j: int|
            0 <= j < ps.len() && has_native_surface(surface_of(#[trigger] ps[j])) implies exists|
                i: int,
            | 0 <= i < out.len() && #[trigger] out[i] == surface_of(ps[j]) by {
            if j < rest.len() {
                assert(ps[j] == rest[j]);
                let i = choose|i: int| 0 <= i < out0.len() && out0[i] == surface_of(rest[j]);
                assert(out[i] == out0[i]);
            } else {
                assert(out[out.len() - 1] == surface_of(ps[j]));
            }
        }
    }
}

/// Law: analysing the reported packages again reports them all again,
/// unchanged.
pub proof fn law_surfaces_idempotent(ps: Seq<PackageModel>)
    ensures
        native_surfaces(native_surfaces(ps).map_values(|s: SurfaceModel| s.package))
            == native_surfaces(ps),
    decreases ps.len(),
{
    if ps.len() > 0 {
        let rest = ps.drop_last();
        law_surfaces_idempotent(rest);
        let q0 = native_surfaces(rest).map_values(|s: SurfaceModel| s.package);
        let q = native_surfaces(ps).map_values(|s: SurfaceModel| s.package);
        if has_native_surface(surface_of(ps.last())) {
            assert(q.drop_last() =~= q0);
            assert(q.last() == ps.last());
        } else {
            assert(q =~= q0);
        }
    } else {
        assert(native_surfaces(ps).map_values(|s: SurfaceModel| s.package) =~= ps);
    }
}

/// Law: a package whose name is a known proc-macro crate is always
/// reported, as a proc-macro.
pub proof fn law_known_proc_macros_reported(ps: Seq<PackageModel>, j: int)
    requires
        0 <= j < ps.len(),
        known_proc_macro_table().contains_key(ps[j].name),
    ensures
        exists|i: int|
            0 <= i < native_surfaces(ps).len() && #[trigger] native_surfaces(ps)[i].package
                == ps[j] && native_surfaces(ps)[i].has_proc_macro,
{
    law_surfaces_sound_and_complete(ps);
    assert(has_native_surface(surface_of(ps[j])));
    let i = choose|i: int|
        0 <= i < native_surfaces(ps).len() && #[trigger] native_surfaces(ps)[i] == surface_of(
            ps[j],
        );
    assert(native_surfaces(ps)[i].package == ps[j]);
}

/// Law: the flag for build dependencies looks at every position of the
/// list: it is set exactly when some dependency, wherever it stands,
/// holds `build` or is `cc`.
pub proof fn law_build_dependency_anywhere(p: PackageModel)
    ensures
        surface_of(p).has_build_dependencies <==> exists|i: int|
            0 <= i < p.dependencies.len() && (has_infix(#[trigger] p.dependencies[i], "build"@)
                || p.dependencies[i] == "cc"@),
{
    if surface_of(p).has_build_dependencies {
        let i = choose|i: int|
            0 <= i < p.dependencies.len() && #[trigger] is_build_dependency(p.dependencies[i]);
        assert(has_infix(p.dependencies[i], "build"@) || p.dependencies[i] == "cc"@);
    }
    if exists|i: int|
        0 <= i < p.dependencies.len() && (has_infix(#[trigger] p.dependencies[i], "build"@)
            || p.dependencies[i] == "cc"@) {
        let i = choose|i: int|
            0 <= i < p.dependencies.len() && (has_infix(#[trigger] p.dependencies[i], "build"@)
                || p.dependencies[i] == "cc"@);
        assert(is_build_dependency(p.dependencies[i]));
    }
}

/// Law: the flag for build dependencies does not depend on the order (or
/// the repetitions) of the dependency list: two packages whose lists hold
/// the same names get the same flag.
pub proof fn law_build_dependency_order_free(p: PackageModel, q: PackageModel)
    requires
        forall|d: Seq<char>| p.dependencies.contains(d) <==> q.dependencies.contains(d),
    ensures
        surface_of(p).has_build_dependencies == surface_of(q).has_build_dependencies,
{
    if surface_of(p).has_build_dependencies {
        let i = choose|i: int|
            0 <= i < p.dependencies.len() && #[trigger] is_build_dependency(p.dependencies[i]);
        assert(p.dependencies.contains(p.dependencies[i]));
        assert(q.dependencies.contains(p.dependencies[i]));
    }
    if surface_of(q).has_build_dependencies {
        let i = choose|i: int|
            0 <= i < q.dependencies.len() && #[trigger] is_build_dependency(q.dependencies[i]);
        assert(q.dependencies.contains(q.dependencies[i]));
        assert(p.dependencies.contains(q.dependencies[i]));
    }
}

/// Law: every name that holds `macro` anywhere, and nowhere `macos`, is
/// judged a proc-macro name (`proc-macro-error`, `proc-macro-hack`,
/// `proc-macro2`, `futures-macro`, ...).
pub proof fn law_macro_names_are_proc_macros(pre: Seq<char>, post: Seq<char>)
    requires
        !has_infix(pre + "macro"@ + post, "macos"@),
    ensures
        looks_like_proc_macro_name(pre + "macro"@ + post),
        surface_of(
            PackageModel {
                name: pre + "macro"@ + post,
                version: Seq::empty(),
                checksum: None,
                dependencies: Seq::empty(),
            },
        ).has_proc_macro,
{
    reveal_strlit("macro");
    let name = pre + "macro"@ + post;
    let i = pre.len() as int;
    assert(name.subrange(i, i + 5) =~= "macro"@);
    assert(occurs_at(name, "macro"@, i));
}

/// Law: names that end in `_derive`, `-impl`, `_macros` or `-macros` are
/// judged proc-macro names, whatever comes before.
pub proof fn law_derive_suffixes_are_proc_macros(pre: Seq<char>)
    ensures
        looks_like_proc_macro_name(pre + "_derive"@),
        looks_like_proc_macro_name(pre + "-impl"@),
        looks_like_proc_macro_name(pre + "_macros"@),
        looks_like_proc_macro_name(pre + "-macros"@),
{
    assert((pre + "_derive"@).subrange(pre.len() as int, (pre + "_derive"@).len() as int)
        =~= "_derive"@);
    assert((pre + "-impl"@).subrange(pre.len() as int, (pre + "-impl"@).len() as int)
        =~= "-impl"@);
    assert((pre + "_macros"@).subrange(pre.len() as int, (pre + "_macros"@).len() as int)
        =~= "_macros"@);
    assert((pre + "-macros"@).subrange(pre.len() as int, (pre + "-macros"@).len() as int)
        =~= "-macros"@);
}

/// Law: the known proc-macro table names exactly these 14 crates.
pub proof fn law_known_proc_macro_names(k: Seq<char>)
    ensures
        known_proc_macro_table().contains_key(k) <==> {
            ||| k == "serde_derive"@
            ||| k == "tokio-macros"@
            ||| k == "async-trait"@
            ||| k == "thiserror-impl"@
            ||| k == "proc-macro2"@
            ||| k == "syn"@
            ||| k == "quote"@
            ||| k == "futures-macro"@
            ||| k == "tracing-attributes"@
            ||| k == "pin-project-internal"@
            ||| k == "zerocopy-derive"@
            ||| k == "strum_macros"@
            ||| k == "displaydoc"@
            ||| k == "validator-derive"@
        },
{
}

/// A copy of `p`.
fn copy_package(p: &Package) -> (r: Package)
    ensures
        r@ == p@,
{
    let checksum = match &p.checksum {
        Some(c) => Some(c.clone()),
        None => None,
    };
    let mut deps: Vec<String> = Vec::new();
    let mut i: usize = 0;
    while i < p.dependencies.len()
        invariant
            i <= p.dependencies.len(),
            views_of(deps@) == views_of(p.dependencies@).take(i as int),
        decreases p.dependencies.len() - i,
    {
        let ghost before = views_of(deps@);
        deps.push(p.dependencies[i].clone());
        assert(views_of(deps@) =~= views_of(p.dependencies@).take(i + 1)) by {
            assert(views_of(deps@) =~= before.push(p.dependencies@[i as int]@));
        }
        i = i + 1;
    }
    assert(views_of(p.dependencies@).take(i as int) =~= views_of(p.dependencies@));
    Package { name: p.name.clone(), version: p.version.clone(), checksum, dependencies: deps }
}

/// Whether some dependency of `deps` signals build-time work.
fn any_build_dependency(deps: &Vec<String>) -> (b: bool)
    ensures
        b == has_build_dependency(views_of(deps@)),
{
    let build = chars_of("build");
    let cc = chars_of("cc");
    let mut i: usize = 0;
    while i < deps.len()
        invariant
            i <= deps.len(),
            build@ == "build"@,
            cc@ == "cc"@,
            forall|j: int| 0 <= j < i ==> !is_build_dependency(#[trigger] views_of(deps@)[j]),
        decreases deps.len() - i,
    {
        let d = chars_of(deps[i].as_str());
        let n = d.len();
        assert(d@.subrange(0, n as int) =~= d@);
        if window_has_infix(&d, 0, n, &build) || window_eq(&d, 0, n, &cc) {
            assert(is_build_dependency(views_of(deps@)[i as int]));
            return true;
        }
        i = i + 1;
    }
    false
}

/// Whether `name` is a build-script crate by name.
fn build_script_name(name: &str) -> (b: bool)
    ensures
        b == has_build_script_name(name@),
{
    let s = chars_of(name);
    let n = s.len();
    assert(s@.subrange(0, n as int) =~= s@);
    window_has_infix(&s, 0, n, &chars_of("build")) || window_eq(&s, 0, n, &chars_of("cc"))
        || window_eq(&s, 0, n, &chars_of("cmake"))
}

/// Analyzes packages and returns those with native build surface, in
/// order: a package has native surface when its name is a known or
/// likely proc-macro crate, when its name suggests a build script, or
/// when one of its dependencies suggests build-time work.
pub fn analyze_native_surface(packages: &[Package]) -> (r: Vec<NativeSurface>)
    ensures
        surface_views(r@) == native_surfaces(package_views(packages@)),
{
    let known = known_proc_macro_crates();
    let mut out: Vec<NativeSurface> = Vec::new();
    let mut i: usize = 0;
    assert(package_views(packages@).take(0) =~= Seq::<PackageModel>::empty());
    assert(surface_views(out@) =~= Seq::<SurfaceModel>::empty());
    while i < packages.len()
        invariant
            i <= packages.len(),
            holds_table(known@, known_proc_macro_table()),
            surface_views(out@) == native_surfaces(package_views(packages@).take(i as int)),
        decreases packages.len() - i,
    {
        let pkg = &packages[i];
        let has_proc_macro = known.contains_key(pkg.name.as_str()) || looks_like_proc_macro(
            pkg.name.as_str(),
        );
        let has_build_script = build_script_name(pkg.name.as_str());
        let has_build_dependencies = any_build_dependency(&pkg.dependencies);
        let ghost pv = package_views(packages@).take(i + 1);
        assert(pv.drop_last() =~= package_views(packages@).take(i as int));
        assert(pv.last() == pkg@);
        if has_proc_macro || has_build_script || has_build_dependencies {
            let ghost before = surface_views(out@);
            let s = NativeSurface {
                package: copy_package(pkg),
                has_proc_macro,
                has_build_script,
                has_build_dependencies,
            };
            assert(s@ == surface_of(pkg@));
            out.push(s);
            assert(surface_views(out@) =~= before.push(s@));
        }
        i = i + 1;
    }
    assert(package_views(packages@).take(i as int) =~= package_views(packages@));
    out
}


/// The names of known-malicious packages: the `proc-macro2` typosquats.
pub open spec fn is_known_malicious(name: Seq<char>) -> bool {
    name == "proc-macro1"@ || name == "proc-macro-en"@
}

/// The indices, in increasing order, of the packages of `ps` whose names
/// are known-malicious.
pub open spec fn malicious_indices(ps: Seq<PackageModel>) -> Seq<usize>
    decreases ps.len(),
{
    if ps.len() == 0 {
        Seq::empty()
    } else if is_known_malicious(ps.last().name) {
        malicious_indices(ps.drop_last()).push((ps.len() - 1) as usize)
    } else {
        malicious_indices(ps.drop_last())
    }
}

proof fn lemma_malicious_indices_valid(ps: Seq<PackageModel>)
    requires
        ps.len() <= usize::MAX,
    ensures
        forall|k: int|
            0 <= k < malicious_indices(ps).len() ==> {
                &&& 0 <= #[trigger] malicious_indices(ps)[k] < ps.len()
                &&& is_known_malicious(ps[malicious_indices(ps)[k] as int].name)
            },
    decreases ps.len(),
{
    if ps.len() > 0 {
        let rest = ps.drop_last();
        lemma_malicious_indices_valid(rest);
        let m = malicious_indices(ps);
        let m0 = malicious_indices(rest);
        assert forall|k: int| 0 <= k < m.len() implies {
            &&& 0 <= #[trigger] m[k] < ps.len()
            &&& is_known_malicious(ps[m[k] as int].name)
        } by {
            if is_known_malicious(ps.last().name) {
                if k < m0.len() {
                    assert(m[k] == m0[k]);
                    assert(ps[m0[k] as int] == rest[m0[k] as int]);
                } else {
                    assert(m[k] == ps.len() - 1);
                }
            } else {
                assert(m[k] == m0[k]);
                assert(ps[m0[k] as int] == rest[m0[k] as int]);
            }
        }
    }
}

/// Law: every package on the blocklist is also reported by the analysis,
/// as a proc-macro crate.
pub proof fn law_blocked_packages_reported(ps: Seq<PackageModel>, k: int)
    requires
        ps.len() <= usize::MAX,
        0 <= k < malicious_indices(ps).len(),
    ensures
        exists|i: int|
            0 <= i < native_surfaces(ps).len() && #[trigger] native_surfaces(ps)[i]
                == surface_of(ps[malicious_indices(ps)[k] as int])
                && native_surfaces(ps)[i].has_proc_macro,
{
    lemma_malicious_indices_valid(ps);
    let j = malicious_indices(ps)[k] as int;
    assert(0 <= j < ps.len());
    assert(looks_like_proc_macro_name(ps[j].name));
    law_surfaces_sound_and_complete(ps);
    assert(has_native_surface(surface_of(ps[j])));
}

/// The positions of the known-malicious packages, to be blocked.
pub fn known_malicious_packages(packages: &[Package]) -> (r: Vec<usize>)
    ensures
        r@ == malicious_indices(package_views(packages@)),
{
    let bad1 = chars_of("proc-macro1");
    let bad2 = chars_of("proc-macro-en");
    let mut out: Vec<usize> = Vec::new();
    let mut i: usize = 0;
    assert(package_views(packages@).take(0) =~= Seq::<PackageModel>::empty());
    while i < packages.len()
        invariant
            i <= packages.len(),
            bad1@ == "proc-macro1"@,
            bad2@ == "proc-macro-en"@,
            out@ == malicious_indices(package_views(packages@).take(i as int)),
        decreases packages.len() - i,
    {
        let name = chars_of(packages[i].name.as_str());
        let n = name.len();
        assert(name@.subrange(0, n as int) =~= name@);
        let ghost pv = package_views(packages@).take(i + 1);
        assert(pv.drop_last() =~= package_views(packages@).take(i as int));
        assert(pv.last() == packages@[i as int]@);
        if window_eq(&name, 0, n, &bad1) || window_eq(&name, 0, n, &bad2) {
            out.push(i);
        }
        i = i + 1;
    }
    assert(package_views(packages@).take(i as int) =~= package_views(packages@));
    out
}


/// The risk label of a finding.
pub open spec fn risk_label(s: SurfaceModel) -> Seq<char> {
    if s.has_proc_macro {
        "PROC-MACRO"@
    } else {
        "BUILD"@
    }
}

/// The description of a finding.
pub open spec fn risk_description(s: SurfaceModel) -> Seq<char> {
    if s.has_proc_macro {
        "proc-macro crate"@
    } else {
        "build script dep"@
    }
}

/// The report line of a finding: `  [LABEL] name@version — description`.
pub open spec fn report_text(s: SurfaceModel) -> Seq<char> {
    "  ["@ + risk_label(s) + "] "@ + s.package.name + "@"@ + s.package.version + " \u{2014} "@
        + risk_description(s)
}

/// The report line of a finding.
pub fn report_line(s: &NativeSurface) -> (r: String)
    ensures
        r@ == report_text(s@),
{
    let mut r = "  [".to_owned();
    if s.has_proc_macro {
        r.append("PROC-MACRO");
    } else {
        r.append("BUILD");
    }
    r.append("] ");
    r.append(s.package.name.as_str());
    r.append("@");
    r.append(s.package.version.as_str());
    r.append(" \u{2014} ");
    if s.has_proc_macro {
        r.append("proc-macro crate");
    } else {
        r.append("build script dep");
    }
    r
}

/// The line that reports a blocked package: `  BLOCKED: name@version`.
pub open spec fn blocked_text(p: PackageModel) -> Seq<char> {
    "  BLOCKED: "@ + p.name + "@"@ + p.version
}

/// The line that reports a blocked package.
pub fn blocked_line(p: &Package) -> (r: String)
    ensures
        r@ == blocked_text(p@),
{
    let mut r = "  BLOCKED: ".to_owned();
    r.append(p.name.as_str());
    r.append("@");
    r.append(p.version.as_str());
    r
}

/// The exit code owed after a check: 1 when known-malicious packages were
/// found and critical findings must fail the run, none otherwise.
pub fn exit_code(n_malicious: usize, fail_critical: bool) -> (c: Option<i32>)
    ensures
        c == (if n_malicious > 0 && fail_critical {
            Some(1i32)
        } else {
            None::<i32>
        }),
{
    if n_malicious > 0 && fail_critical {
        Some(1)
    } else {
        None
    }
}


/// Law: the report line of a finding is labelled `PROC-MACRO` and
/// described as a proc-macro crate exactly when its proc-macro flag is
/// set, and `BUILD` / build script dep otherwise, whatever its other
/// flags.
pub proof fn law_report_line_label(s: SurfaceModel)
    ensures
        s.has_proc_macro ==> report_text(s) == "  [PROC-MACRO] "@ + s.package.name + "@"@
            + s.package.version + " \u{2014} proc-macro crate"@,
        !s.has_proc_macro ==> report_text(s) == "  [BUILD] "@ + s.package.name + "@"@
            + s.package.version + " \u{2014} build script dep"@,
{
    reveal_strlit("  [");
    reveal_strlit("PROC-MACRO");
    reveal_strlit("BUILD");
    reveal_strlit("] ");
    reveal_strlit("  [PROC-MACRO] ");
    reveal_strlit("  [BUILD] ");
    reveal_strlit(" \u{2014} ");
    reveal_strlit("proc-macro crate");
    reveal_strlit("build script dep");
    reveal_strlit(" \u{2014} proc-macro crate");
    reveal_strlit(" \u{2014} build script dep");
    let n = s.package.name;
    let v = s.package.version;
    if s.has_proc_macro {
        assert("  ["@ + "PROC-MACRO"@ + "] "@ + n + "@"@ + v + " \u{2014} "@ + "proc-macro crate"@
            =~= "  [PROC-MACRO] "@ + n + "@"@ + v + " \u{2014} proc-macro crate"@);
    } else {
        assert("  ["@ + "BUILD"@ + "] "@ + n + "@"@ + v + " \u{2014} "@ + "build script dep"@
            =~= "  [BUILD] "@ + n + "@"@ + v + " \u{2014} build script dep"@);
    }
}

/// Law: the report line depends on the package and the proc-macro flag
/// alone: the build-script and build-dependency flags do not change it.
pub proof fn law_report_line_ignores_build_flags(s: SurfaceModel, t: SurfaceModel)
    requires
        s.package == t.package,
        s.has_proc_macro == t.has_proc_macro,
    ensures
        report_text(s) == report_text(t),
{
}

} // verus!
