//! The modules that an image was linked from, and where their sources lie.
use crate::bytes::{same_bytes, starts_with};
use crate::paths::{
    is_likely_primary_source, is_translation_unit, lib_name, lib_name_from_bytes, names_primary_source,
    names_translation_unit, normalise, normalised,
};
use crate::roots::{
    collapse_depth, common_project_root, path_chain_depth, project_root, PathSet,
};
use vstd::prelude::*;
use vstd::slice::{slice_subrange, slice_to_vec};

verus! {

/// A function of a module.
pub struct FunctionSymbol {
    pub name: Vec<u8>,
    /// Where it starts, counted from the start of the section of code.
    pub offset: u32,
    /// How many bytes it takes.
    pub len: u32,
    /// The raw path of the source file that its first line comes from.
    pub source: Option<Vec<u8>>,
}

/// A function of a module, in mathematical terms.
pub struct FunctionEntry {
    pub name: Seq<u8>,
    pub offset: u32,
    pub len: u32,
    pub source: Option<Seq<u8>>,
}

impl View for FunctionSymbol {
    type V = FunctionEntry;

    open spec fn view(&self) -> FunctionEntry {
        FunctionEntry {
            name: self.name@,
            offset: self.offset,
            len: self.len,
            source: match self.source {
                Some(path) => Some(path@),
                None => None,
            },
        }
    }
}

impl FunctionEntry {
    /// The normalised path of the function's source file.
    pub open spec fn source_path(self) -> Option<Seq<u8>> {
        match self.source {
            Some(path) => Some(normalised(path)),
            None => None,
        }
    }
}

/// A symbol of a module.
pub enum ModuleSymbol {
    /// A function.
    Procedure(FunctionSymbol),
    /// A stub that the linker or the compiler put in.
    Thunk(FunctionSymbol),
    /// Something that takes no code, or could not be read.
    Other,
}

impl View for ModuleSymbol {
    type V = Option<FunctionEntry>;

    open spec fn view(&self) -> Option<FunctionEntry> {
        match *self {
            ModuleSymbol::Procedure(function) => Some(function@),
            ModuleSymbol::Thunk(function) => Some(function@),
            ModuleSymbol::Other => None,
        }
    }
}

impl ModuleSymbol {
    /// Returns the function or stub that the symbol is.
    pub fn function(&self) -> (r: Option<&FunctionSymbol>)
        ensures
            match r {
                Some(function) => self@ == Some(function@),
                None => self@ is None,
            },
    {
        match self {
            ModuleSymbol::Procedure(function) => Some(function),
            ModuleSymbol::Thunk(function) => Some(function),
            ModuleSymbol::Other => None,
        }
    }
}

/// The symbols of a module.
pub enum ModuleSymbols {
    /// They could not be read.
    Unreadable,
    /// The debug information holds none.
    Missing,
    /// These.
    Present(Vec<ModuleSymbol>),
}

/// The symbols of a module, in mathematical terms.
pub enum ModuleContents {
    Unreadable,
    Missing,
    Present(Seq<Option<FunctionEntry>>),
}

impl View for ModuleSymbols {
    type V = ModuleContents;

    open spec fn view(&self) -> ModuleContents {
        match *self {
            ModuleSymbols::Unreadable => ModuleContents::Unreadable,
            ModuleSymbols::Missing => ModuleContents::Missing,
            ModuleSymbols::Present(symbols) => ModuleContents::Present(
                symbols@.map_values(|symbol: ModuleSymbol| symbol@),
            ),
        }
    }
}

/// A module that the image was linked from.
pub struct Module {
    /// The path of the object file or library that it came from.
    pub object_file_name: Vec<u8>,
    pub symbols: ModuleSymbols,
}

/// A module, in mathematical terms.
pub struct ModuleEntry {
    pub object_file_name: Seq<u8>,
    pub symbols: ModuleContents,
}

impl View for Module {
    type V = ModuleEntry;

    open spec fn view(&self) -> ModuleEntry {
        ModuleEntry { object_file_name: self.object_file_name@, symbols: self.symbols@ }
    }
}

/// What the modules of a sequence are.
pub open spec fn module_views(modules: Seq<Module>) -> Seq<ModuleEntry> {
    modules.map_values(|module: Module| module@)
}

impl ModuleEntry {
    /// The library that the module belongs to.
    pub open spec fn lib(self) -> Seq<u8> {
        lib_name(self.object_file_name)
    }

    /// Whether one of the module's functions comes from the source file `path`.
    pub open spec fn has_source(self, path: Seq<u8>) -> bool {
        match self.symbols {
            ModuleContents::Present(symbols) => is_source_of(symbols, path),
            _ => false,
        }
    }
}

/// Whether one of the functions comes from the source file `path`.
pub open spec fn is_source_of(symbols: Seq<Option<FunctionEntry>>, path: Seq<u8>) -> bool {
    exists|i: int|
        0 <= i < symbols.len() && ((#[trigger] symbols[i]) matches Some(function)
            && function.source_path() == Some(path))
}

/// Whether one of the functions of a library comes from the source file `path`.
pub open spec fn is_lib_source(modules: Seq<ModuleEntry>, lib: Seq<u8>, path: Seq<u8>) -> bool {
    exists|m: int|
        0 <= m < modules.len() && (#[trigger] modules[m]).lib() == lib && modules[m].has_source(
            path,
        )
}

/// The source files that the functions of a library come from.
pub open spec fn lib_sources(modules: Seq<ModuleEntry>, lib: Seq<u8>) -> Set<Seq<u8>> {
    Set::new(|path: Seq<u8>| is_lib_source(modules, lib, path))
}

/// Where the project lies that a library was built from.
pub open spec fn lib_root(modules: Seq<ModuleEntry>, lib: Seq<u8>) -> Seq<u8> {
    project_root(lib_sources(modules, lib))
}

/// Whether `rest` is where one of the sources stands below the root, as a
/// translation unit that is not the library's primary one.
pub open spec fn is_nested_source(
    sources: Set<Seq<u8>>,
    lib: Seq<u8>,
    root: Seq<u8>,
    rest: Seq<u8>,
) -> bool {
    &&& rest.len() > 0
    &&& sources.contains(root + rest)
    &&& names_translation_unit(root + rest)
    &&& !names_primary_source(root + rest, lib)
}

/// Where the sources of a library stand below its root.
pub open spec fn nested_sources(sources: Set<Seq<u8>>, lib: Seq<u8>, root: Seq<u8>) -> Set<
    Seq<u8>,
> {
    Set::new(|rest: Seq<u8>| is_nested_source(sources, lib, root, rest))
}

/// How many leading directories are dropped from the names of a library's
/// object files.
pub open spec fn lib_depth(modules: Seq<ModuleEntry>, lib: Seq<u8>) -> nat {
    collapse_depth(
        lib,
        nested_sources(lib_sources(modules, lib), lib, lib_root(modules, lib)),
    )
}

/// Puts the source files of a module into a set.
fn add_sources(symbols: &Vec<ModuleSymbol>, sources: &mut PathSet)
    requires
        old(sources).wf(),
    ensures
        final(sources).wf(),
        forall|path: Seq<u8>| #[trigger]
            final(sources)@.contains(path) <==> old(sources)@.contains(path) || is_source_of(
                ModuleSymbols::Present(*symbols)@->Present_0,
                path,
            ),
{
    let ghost all = symbols@.map_values(|symbol: ModuleSymbol| symbol@);
    let ghost before = sources@;
    let mut i: usize = 0;
    while i < symbols.len()
        invariant
            i <= symbols@.len(),
            all == symbols@.map_values(|symbol: ModuleSymbol| symbol@),
            sources.wf(),
            forall|path: Seq<u8>| #[trigger]
                sources@.contains(path) <==> before.contains(path) || is_source_of(
                    all.take(i as int),
                    path,
                ),
        decreases symbols@.len() - i,
    {
        let ghost now = all.take(i as int);
        let ghost next = all.take(i + 1);
        let ghost earlier = sources@;
        assert(next =~= now.push(all[i as int]));
        if let Some(function) = symbols[i].function() {
            if let Some(path) = &function.source {
                sources.insert(normalise(path.as_slice()));
            }
        }
        assert forall|path: Seq<u8>| #[trigger] sources@.contains(path) <==> before.contains(path)
            || is_source_of(next, path) by {
            let here = all[i as int] matches Some(function) && function.source_path() == Some(path);
            assert(sources@.contains(path) <==> earlier.contains(path) || here);
            if is_source_of(now, path) {
                let k = choose|k: int|
                    0 <= k < now.len() && ((#[trigger] now[k]) matches Some(function)
                        && function.source_path() == Some(path));
                assert(next[k] == now[k]);
            }
            if here {
                assert(next[i as int] == all[i as int]);
            }
            if is_source_of(next, path) {
                let k = choose|k: int|
                    0 <= k < next.len() && ((#[trigger] next[k]) matches Some(function)
                        && function.source_path() == Some(path));
                if k < i {
                    assert(now[k] == next[k]);
                }
            }
        }
        i = i + 1;
    }
    assert(all.take(i as int) =~= all);
}

/// Collects the source files that the functions of a library come from.
/// `libs` holds the library that each module belongs to.
pub fn collect_sources(modules: &Vec<Module>, libs: &Vec<Vec<u8>>, lib: &[u8]) -> (r: PathSet)
    requires
        libs@.len() == modules@.len(),
        forall|m: int| 0 <= m < libs@.len() ==> (#[trigger] libs@[m])@ == modules@[m]@.lib(),
    ensures
        r.wf(),
        r@ == lib_sources(module_views(modules@), lib@),
{
    let ghost all = module_views(modules@);
    let mut r = PathSet::new();
    let mut m: usize = 0;
    while m < modules.len()
        invariant
            m <= modules@.len(),
            all == module_views(modules@),
            libs@.len() == modules@.len(),
            forall|m: int| 0 <= m < libs@.len() ==> (#[trigger] libs@[m])@ == modules@[m]@.lib(),
            r.wf(),
            forall|path: Seq<u8>| #[trigger]
                r@.contains(path) <==> is_lib_source(all.take(m as int), lib@, path),
        decreases modules@.len() - m,
    {
        let ghost now = all.take(m as int);
        let ghost next = all.take(m + 1);
        let ghost earlier = r@;
        assert(next =~= now.push(all[m as int]));
        assert(libs@[m as int]@ == all[m as int].lib());
        if same_bytes(libs[m].as_slice(), lib) {
            if let ModuleSymbols::Present(symbols) = &modules[m].symbols {
                add_sources(symbols, &mut r);
            }
        }
        assert forall|path: Seq<u8>| #[trigger] r@.contains(path) <==> is_lib_source(
            next,
            lib@,
            path,
        ) by {
            let here = all[m as int].lib() == lib@ && all[m as int].has_source(path);
            assert(r@.contains(path) <==> earlier.contains(path) || here);
            if is_lib_source(now, lib@, path) {
                let k = choose|k: int|
                    0 <= k < now.len() && (#[trigger] now[k]).lib() == lib@ && now[k].has_source(
                        path,
                    );
                assert(next[k] == now[k]);
            }
            if here {
                assert(next[m as int] == all[m as int]);
            }
            if is_lib_source(next, lib@, path) {
                let k = choose|k: int|
                    0 <= k < next.len() && (#[trigger] next[k]).lib() == lib@
                        && next[k].has_source(path);
                if k < m {
                    assert(now[k] == next[k]);
                }
            }
        }
        m = m + 1;
    }
    assert(all.take(m as int) =~= all);
    assert(r@ =~= lib_sources(all, lib@));
    r
}

/// Lists where the sources of a library stand below its root, its primary
/// translation units left out.
pub fn sources_below_root(sources: &PathSet, lib: &[u8], root: &[u8]) -> (r: PathSet)
    requires
        sources.wf(),
    ensures
        r.wf(),
        r@ == nested_sources(sources@, lib@, root@),
{
    let ghost all = sources.elements();
    let mut r = PathSet::new();
    let mut i: usize = 0;
    let n: usize = sources.len();
    assert(all.take(0).to_set() =~= Set::empty());
    while i < n
        invariant
            i <= n == all.len(),
            all == sources.elements(),
            r.wf(),
            r@ == nested_sources(all.take(i as int).to_set(), lib@, root@),
        decreases n - i,
    {
        let path = sources.get(i);
        let ghost now = all.take(i as int);
        let ghost next = all.take(i + 1);
        let ghost earlier = r@;
        assert(next =~= now.push(path@));
        assert forall|p: Seq<u8>| next.to_set().contains(p) <==> now.to_set().contains(p) || p
            == path@ by {
            if now.contains(p) {
                let k = now.index_of(p);
                assert(next[k] == p);
            }
            if p == path@ {
                assert(next[i as int] == p);
            }
        }
        if is_translation_unit(path) && !is_likely_primary_source(path, lib) && starts_with(
            path,
            root,
        ) {
            let size: usize = path.len();
            let rest = slice_subrange(path, root.len(), size);
            assert(path@ =~= root@ + rest@);
            if rest.len() > 0 {
                r.insert(slice_to_vec(rest));
                assert(r@ =~= nested_sources(next.to_set(), lib@, root@)) by {
                    assert forall|x: Seq<u8>| root@ + x == path@ implies x == rest@ by {
                        assert(x =~= (root@ + x).skip(root@.len() as int));
                    }
                }
            } else {
                assert(r@ =~= nested_sources(next.to_set(), lib@, root@)) by {
                    assert forall|x: Seq<u8>| x.len() > 0 implies root@ + x != path@ by {
                        assert((root@ + x).len() > path@.len());
                    }
                }
            }
        } else {
            assert(r@ =~= nested_sources(next.to_set(), lib@, root@)) by {
                assert forall|x: Seq<u8>| root@ + x == path@ implies root@.is_prefix_of(path@) by {
                    assert((root@ + x).take(root@.len() as int) =~= root@);
                }
            }
        }
        i = i + 1;
    }
    proof {
        assert(all.take(i as int) =~= all);
        sources.lemma_elements();
    }
    r
}

/// Where the sources of a library lie.
pub struct LibLayout {
    /// The directory that they share.
    pub root: Vec<u8>,
    /// How many directories below it are left out of the names of object files.
    pub depth: usize,
}

impl LibLayout {
    /// Whether this is the layout of a library.
    pub open spec fn is_layout(&self, modules: Seq<ModuleEntry>, lib: Seq<u8>) -> bool {
        &&& self.root@ == lib_root(modules, lib)
        &&& self.depth == lib_depth(modules, lib)
    }
}

/// Finds where the sources of a library lie.
pub fn lib_layout(modules: &Vec<Module>, libs: &Vec<Vec<u8>>, lib: &[u8]) -> (r: LibLayout)
    requires
        libs@.len() == modules@.len(),
        forall|m: int| 0 <= m < libs@.len() ==> (#[trigger] libs@[m])@ == modules@[m]@.lib(),
    ensures
        r.is_layout(module_views(modules@), lib@),
{
    let sources = collect_sources(modules, libs, lib);
    let root = common_project_root(&sources);
    let nested = sources_below_root(&sources, lib, root.as_slice());
    let depth: usize = path_chain_depth(lib, &nested);
    LibLayout { root, depth }
}

/// Returns the library that each module belongs to.
pub fn module_libs(modules: &Vec<Module>) -> (r: Vec<Vec<u8>>)
    ensures
        r@.len() == modules@.len(),
        forall|m: int| 0 <= m < r@.len() ==> (#[trigger] r@[m])@ == modules@[m]@.lib(),
{
    let mut r: Vec<Vec<u8>> = Vec::with_capacity(modules.len());
    let mut m: usize = 0;
    while m < modules.len()
        invariant
            m <= modules@.len(),
            r@.len() == m,
            forall|k: int| 0 <= k < m ==> (#[trigger] r@[k])@ == modules@[k]@.lib(),
        decreases modules@.len() - m,
    {
        r.push(lib_name_from_bytes(modules[m].object_file_name.as_slice()));
        m = m + 1;
    }
    r
}

/// Finds, for each module, where the sources of its library lie.
pub fn module_layouts(modules: &Vec<Module>, libs: &Vec<Vec<u8>>) -> (r: Vec<LibLayout>)
    requires
        libs@.len() == modules@.len(),
        forall|m: int| 0 <= m < libs@.len() ==> (#[trigger] libs@[m])@ == modules@[m]@.lib(),
    ensures
        r@.len() == modules@.len(),
        forall|m: int|
            0 <= m < r@.len() ==> (#[trigger] r@[m]).is_layout(
                module_views(modules@),
                modules@[m]@.lib(),
            ),
{
    let mut r: Vec<LibLayout> = Vec::with_capacity(modules.len());
    let mut m: usize = 0;
    while m < modules.len()
        invariant
            m <= modules@.len(),
            libs@.len() == modules@.len(),
            forall|m: int| 0 <= m < libs@.len() ==> (#[trigger] libs@[m])@ == modules@[m]@.lib(),
            r@.len() == m,
            forall|k: int|
                0 <= k < m ==> (#[trigger] r@[k]).is_layout(
                    module_views(modules@),
                    modules@[k]@.lib(),
                ),
        decreases modules@.len() - m,
    {
        assert(libs@[m as int]@ == modules@[m as int]@.lib());
        // A library's modules share its layout.
        let mut earlier: usize = 0;
        while earlier < m && !same_bytes(libs[earlier].as_slice(), libs[m].as_slice())
            invariant
                earlier <= m < modules@.len(),
                libs@.len() == modules@.len(),
            decreases m - earlier,
        {
            earlier = earlier + 1;
        }
        let layout: LibLayout = if earlier < m {
            assert(libs@[earlier as int]@ == modules@[earlier as int]@.lib());
            assert(r@[earlier as int].is_layout(
                module_views(modules@),
                modules@[earlier as int]@.lib(),
            ));
            LibLayout { root: slice_to_vec(r[earlier].root.as_slice()), depth: r[earlier].depth }
        } else {
            lib_layout(modules, libs, libs[m].as_slice())
        };
        r.push(layout);
        m = m + 1;
    }
    r
}

} // verus!
