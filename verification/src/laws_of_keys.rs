//! What the rules on source paths come down to, component by component.
use crate::bytes::{lemma_last_position, BACKSLASH};
use crate::keys::{
    below_root, display_name, extension, key_of, lemma_joined_components, output_path, path_char,
    relative_path,
};
use crate::laws_of_names::{
    law_primary_sources_spell_the_library, law_release_name_lacks_the_last_d,
    law_same_but_case_is_spelling, law_stem_ends_at_the_last_dot, spells,
};
use crate::modules::{
    lib_depth, lib_root, lib_sources, module_views, nested_sources, FunctionEntry, FunctionSymbol,
    Module, ModuleEntry, ModuleSymbol, ModuleSymbols,
};
use crate::paths::{
    file_name, file_stem, lib_name, names_primary_source, names_translation_unit, normalised,
};
use crate::roots::{
    chain_depth, collapse_depth, components, deciding_paths, is_chain, is_common_directory,
    is_project_root, is_system_path, joined, law_chain_depth_exists, law_project_root_exists,
    law_root_leads_to_every_source, lemma_chain_depth_is_unique, project_root,
};
use vstd::prelude::*;

verus! {

/// Whether a path has a say in where its project lies: it lies outside the
/// system's directories, or all of the paths lie in them.
pub open spec fn has_a_say(paths: Set<Seq<u8>>, path: Seq<u8>) -> bool {
    &&& paths.contains(path)
    &&& !is_system_path(path) || forall|q: Seq<u8>| #[trigger]
        paths.contains(q) ==> is_system_path(q)
}

/// The paths that decide are those that have a say.
pub proof fn law_deciding_paths_have_a_say(paths: Set<Seq<u8>>, path: Seq<u8>)
    ensures
        deciding_paths(paths).contains(path) <==> has_a_say(paths, path),
{
    let project = paths.filter(|p: Seq<u8>| !is_system_path(p));
    if exists|q: Seq<u8>| #[trigger] paths.contains(q) && !is_system_path(q) {
        let q = choose|q: Seq<u8>| #[trigger] paths.contains(q) && !is_system_path(q);
        assert(project.contains(q));
    } else {
        assert(project =~= Set::<Seq<u8>>::empty());
    }
}

/// The project's root is a directory, or the top; all paths that have a say lie
/// below it, and it lies below every directory of which that is true.
pub proof fn law_root_is_the_deepest_shared_directory(
    paths: Set<Seq<u8>>,
    path: Seq<u8>,
    dir: Seq<u8>,
)
    requires
        has_a_say(paths, path),
        dir.len() == 0 || dir[dir.len() - 1] == 0x5c,
        forall|p: Seq<u8>| #[trigger] has_a_say(paths, p) ==> dir.is_prefix_of(p),
    ensures
        project_root(paths).len() == 0 || project_root(paths)[project_root(paths).len() - 1]
            == 0x5c,
        project_root(paths).is_prefix_of(path),
        dir.is_prefix_of(project_root(paths)),
{
    let root = project_root(paths);
    let deciding = deciding_paths(paths);
    law_project_root_exists(paths);
    law_deciding_paths_have_a_say(paths, path);
    law_root_leads_to_every_source(paths, root, path);
    assert forall|p: Seq<u8>| #[trigger] deciding.contains(p) implies dir.is_prefix_of(p) by {
        law_deciding_paths_have_a_say(paths, p);
        assert(has_a_say(paths, p));
    }
    assert(is_common_directory(deciding, dir));
    assert(dir.is_prefix_of(path)) by {
        assert(has_a_say(paths, path));
    }
    assert(dir =~= root.subrange(0, dir.len() as int)) by {
        assert forall|i: int| 0 <= i < dir.len() implies dir[i] == root[i] by {
            assert(dir[i] == path[i]);
            assert(root[i] == path[i]);
        }
    }
}

/// The root of no paths is the top.
pub proof fn law_root_of_nothing_is_the_top()
    ensures
        project_root(Set::<Seq<u8>>::empty()).len() == 0,
{
    let none = Set::<Seq<u8>>::empty();
    law_project_root_exists(none);
    assert(deciding_paths(none) =~= none);
}

/// Joining puts a `\\` between each two parts.
pub proof fn law_joining_puts_separators_between(parts: Seq<Seq<u8>>, part: Seq<u8>)
    requires
        parts.len() > 0,
    ensures
        joined(parts.push(part)) == joined(parts) + seq![0x5cu8] + part,
        joined(seq![part]) == part,
{
    assert(parts.push(part).drop_last() =~= parts);
}

/// What holds no separator is its own only component.
proof fn lemma_single_component(part: Seq<u8>)
    requires
        !part.contains(0x5cu8),
    ensures
        components(part) == seq![part],
    decreases part.len(),
{
    if part.len() > 0 {
        let before = part.drop_last();
        assert(forall|i: int| 0 <= i < before.len() ==> before[i] == part[i]);
        assert(part.last() != 0x5c) by {
            assert(part.contains(part.last()));
        }
        assert(!before.contains(0x5cu8)) by {
            if before.contains(0x5cu8) {
                let i = before.index_of(0x5cu8);
                assert(part[i] == 0x5c);
            }
        }
        lemma_single_component(before);
        assert(before.push(part.last()) =~= part);
        assert(components(part) =~= seq![part]);
    } else {
        assert(part =~= Seq::<u8>::empty());
    }
}

/// What is put behind a separator is one component more.
proof fn lemma_one_more_component(path: Seq<u8>, part: Seq<u8>)
    requires
        !part.contains(0x5cu8),
    ensures
        components(path + seq![0x5cu8] + part) == components(path).push(part),
    decreases part.len(),
{
    let all = path + seq![0x5cu8] + part;
    if part.len() == 0 {
        assert(all.drop_last() =~= path);
        assert(all.last() == 0x5c);
        assert(part =~= Seq::<u8>::empty());
    } else {
        let before = part.drop_last();
        assert(!before.contains(0x5cu8)) by {
            if before.contains(0x5cu8) {
                let i = before.index_of(0x5cu8);
                assert(part[i] == 0x5c);
            }
        }
        assert(part.last() != 0x5c) by {
            assert(part.contains(part.last()));
        }
        lemma_one_more_component(path, before);
        assert(all.drop_last() =~= path + seq![0x5cu8] + before);
        assert(before.push(part.last()) =~= part);
        assert(components(all) =~= components(path).push(part));
    }
}

/// The components of a path hold no `\\`, and the path is what joining them
/// gives.
pub proof fn law_components_are_split_at_separators(path: Seq<u8>, k: int)
    requires
        0 <= k < components(path).len(),
    ensures
        joined(components(path)) == path,
        !components(path)[k].contains(0x5cu8),
    decreases path.len(),
{
    lemma_joined_components(path);
    if path.len() > 0 {
        let before = path.drop_last();
        lemma_joined_components(before);
        let parts = components(before);
        if k < parts.len() {
            law_components_are_split_at_separators(before, k);
        }
        if path.last() != BACKSLASH && k == parts.len() - 1 {
            let longer = parts.last().push(path.last());
            assert forall|i: int| 0 <= i < longer.len() implies longer[i] != 0x5c by {
                if i < parts.last().len() {
                    assert(parts.last().contains(parts.last()[i]));
                }
            }
        }
    }
}

/// Parts that hold no `\\` are the components of what joining them gives.
pub proof fn law_joined_parts_are_the_components(parts: Seq<Seq<u8>>)
    requires
        parts.len() > 0,
        forall|k: int| 0 <= k < parts.len() ==> !(#[trigger] parts[k]).contains(0x5cu8),
    ensures
        components(joined(parts)) == parts,
    decreases parts.len(),
{
    if parts.len() == 1 {
        lemma_single_component(parts[0]);
        assert(parts =~= seq![parts[0]]);
    } else {
        let before = parts.drop_last();
        assert forall|k: int| 0 <= k < before.len() implies !(#[trigger] before[k]).contains(
            0x5cu8,
        ) by {
            assert(before[k] == parts[k]);
        }
        law_joined_parts_are_the_components(before);
        lemma_one_more_component(joined(before), parts.last());
        assert(before.push(parts.last()) =~= parts);
    }
}

/// Whether all paths go through the same first `d` components, and on.
pub open spec fn go_through(paths: Set<Seq<u8>>, d: int) -> bool {
    forall|p: Seq<u8>, q: Seq<u8>|
        #![trigger paths.contains(p), paths.contains(q)]
        paths.contains(p) && paths.contains(q) ==> {
            &&& components(p).len() > d
            &&& components(q).len() > d
            &&& components(p).subrange(0, d) == components(q).subrange(0, d)
        }
}

/// To go through the same first components is to be a chain.
proof fn lemma_chain_is_going_through(paths: Set<Seq<u8>>, d: nat)
    ensures
        go_through(paths, d as int) <==> is_chain(paths, d),
{
    if go_through(paths, d as int) {
        assert forall|p: Seq<u8>, q: Seq<u8>, k: int|
            #![trigger components(p)[k], components(q)[k]]
            paths.contains(p) && paths.contains(q) && 0 <= k < d implies components(p)[k]
            == components(q)[k] by {
            assert(components(p).subrange(0, d as int)[k] == components(q).subrange(
                0,
                d as int,
            )[k]);
        }
        assert forall|p: Seq<u8>| #[trigger] paths.contains(p) implies components(p).len() > d by {
            assert(paths.contains(p) && paths.contains(p));
        }
    }
    if is_chain(paths, d) {
        assert forall|p: Seq<u8>, q: Seq<u8>|
            #![trigger paths.contains(p), paths.contains(q)]
            paths.contains(p) && paths.contains(q) implies components(p).subrange(0, d as int)
            == components(q).subrange(0, d as int) by {
            assert forall|k: int| 0 <= k < d implies components(p)[k] == components(q)[k] by {}
            assert(components(p).subrange(0, d as int) =~= components(q).subrange(0, d as int));
        }
    }
}

/// Where paths go through `d` components together, and not through one more, all
/// `d` are dropped if they are three or more; one is dropped if there are fewer
/// and the first is the library's name; none otherwise.
pub proof fn law_chains_of_three_are_dropped(
    lib: Seq<u8>,
    paths: Set<Seq<u8>>,
    path: Seq<u8>,
    d: int,
)
    requires
        paths.contains(path),
        0 <= d,
        go_through(paths, d),
        !go_through(paths, d + 1),
    ensures
        d >= 3 ==> collapse_depth(lib, paths) == d,
        1 <= d < 3 && components(path)[0] == lib ==> collapse_depth(lib, paths) == 1,
        1 <= d < 3 && components(path)[0] != lib ==> collapse_depth(lib, paths) == 0,
        d == 0 ==> collapse_depth(lib, paths) == 0,
{
    lemma_chain_is_going_through(paths, d as nat);
    lemma_chain_is_going_through(paths, (d + 1) as nat);
    law_chain_depth_exists(paths, path);
    lemma_chain_depth_is_unique(paths, d as nat, chain_depth(paths));
    assert(chain_depth(paths) == d);
    assert(!(paths =~= Set::<Seq<u8>>::empty()));
    if 1 <= d < 3 {
        if components(path)[0] == lib {
            assert(paths.contains(path) && components(path)[0] == lib);
        } else if exists|p: Seq<u8>| #[trigger] paths.contains(p) && components(p)[0] == lib {
            let p = choose|p: Seq<u8>| #[trigger] paths.contains(p) && components(p)[0] == lib;
            assert(components(p)[0] == components(path)[0]);
        }
    }
}

/// Where there are no paths, nothing is dropped.
pub proof fn law_nothing_is_dropped_from_nothing(lib: Seq<u8>)
    ensures
        collapse_depth(lib, Set::<Seq<u8>>::empty()) == 0,
{
}

/// Below the root stands what follows the root; a path elsewhere stays whole.
pub proof fn law_below_root_is_what_follows(path: Seq<u8>, root: Seq<u8>)
    ensures
        root.is_prefix_of(path) ==> root + below_root(path, root) == path,
        !root.is_prefix_of(path) ==> below_root(path, root) == path,
{
    if root.is_prefix_of(path) {
        assert(root + below_root(path, root) =~= path);
    }
}

/// Where nothing is dropped, a source stands in its project under all that
/// follows the root.
pub proof fn law_all_that_follows_the_root_is_kept(root: Seq<u8>, rest: Seq<u8>)
    requires
        rest.len() > 0,
    ensures
        relative_path(root + rest, root, 0) == rest,
{
    let path = root + rest;
    assert(path.subrange(0, root.len() as int) =~= root);
    assert(path.skip(root.len() as int) =~= rest);
    lemma_joined_components(rest);
    assert(components(rest).skip(0) =~= components(rest));
}

/// Of a path's components below the root just the first `depth` are dropped, if
/// there are more than that, and none if there are not.
pub proof fn law_first_components_are_dropped(root: Seq<u8>, rest: Seq<u8>, depth: nat)
    requires
        rest.len() > 0,
    ensures
        depth < components(rest).len() ==> components(relative_path(root + rest, root, depth))
            == components(rest).subrange(depth as int, components(rest).len() as int),
        depth >= components(rest).len() ==> relative_path(root + rest, root, depth) == rest,
{
    let path = root + rest;
    assert(path.subrange(0, root.len() as int) =~= root);
    assert(path.skip(root.len() as int) =~= rest);
    let parts = components(rest);
    if depth < parts.len() {
        let kept = parts.skip(depth as int);
        assert(kept =~= parts.subrange(depth as int, parts.len() as int));
        assert forall|k: int| 0 <= k < kept.len() implies !(#[trigger] kept[k]).contains(
            0x5cu8,
        ) by {
            law_components_are_split_at_separators(rest, k + depth);
        }
        law_joined_parts_are_the_components(kept);
    }
}

/// A path that does not start with the root keeps all but the first `depth` of
/// its own components.
pub proof fn law_paths_elsewhere_drop_their_own(path: Seq<u8>, root: Seq<u8>, depth: nat)
    requires
        !root.is_prefix_of(path),
        path.len() > 0,
    ensures
        relative_path(path, root, depth) == relative_path(path, Seq::<u8>::empty(), depth),
{
    let top = Seq::<u8>::empty();
    assert(path.subrange(0, 0) =~= top);
    assert(path.skip(0) =~= path);
}

/// A path that is the root, or empty, is reduced to its file name.
pub proof fn law_root_itself_keeps_its_file_name(path: Seq<u8>, depth: nat)
    ensures
        relative_path(path, path, depth) == file_name(path),
{
    assert(path.subrange(0, path.len() as int) =~= path);
    assert(path.skip(path.len() as int).len() == 0);
}

/// A source that is not primary goes below its library's directory, to where it
/// stands in its project.
pub proof fn law_key_of_other_sources(path: Seq<u8>, lib: Seq<u8>, root: Seq<u8>, depth: nat)
    requires
        !names_primary_source(path, lib),
    ensures
        key_of(path, lib, root, depth) == lib + seq![0x5cu8] + relative_path(path, root, depth),
{
}

/// A source that is not primary, in a library of which nothing is dropped, goes
/// to the library's name, a `\\` and all that follows the root.
pub proof fn law_key_holds_all_that_follows_the_root(
    lib: Seq<u8>,
    root: Seq<u8>,
    rest: Seq<u8>,
)
    requires
        rest.len() > 0,
        !names_primary_source(root + rest, lib),
    ensures
        key_of(root + rest, lib, root, 0) == lib + seq![0x5cu8] + rest,
{
    law_all_that_follows_the_root_is_kept(root, rest);
}

/// A primary source goes to the top, under the library's name as far as the file
/// name spells it, and with the extension of the file name.
pub proof fn law_key_of_primary_sources(path: Seq<u8>, lib: Seq<u8>, root: Seq<u8>, depth: nat)
    requires
        names_primary_source(path, lib),
    ensures
        ({
            let name = file_name(path);
            let stem = file_stem(path);
            let ext = name.subrange(stem.len() as int, name.len() as int);
            &&& spells(stem, lib) ==> key_of(path, lib, root, depth) == lib + ext
            &&& !spells(stem, lib) ==> key_of(path, lib, root, depth) == lib.subrange(
                0,
                lib.len() - 1,
            ) + ext
        }),
{
    let name = file_name(path);
    let stem = file_stem(path);
    law_stem_ends_at_the_last_dot(path);
    law_primary_sources_spell_the_library(path, lib);
    law_release_name_lacks_the_last_d(lib);
    law_same_but_case_is_spelling(stem, lib);
    lemma_last_position(name, 0x2e);
    assert(extension(path) =~= name.subrange(stem.len() as int, name.len() as int));
    assert(display_name(path, lib) == if spells(stem, lib) {
        lib
    } else {
        lib.subrange(0, lib.len() - 1)
    });
}

/// Two different sources of a library, neither of them primary, go to two
/// different object files, if they stand below the root and share the
/// directories that are dropped.
pub proof fn law_keys_tell_sources_apart(
    lib: Seq<u8>,
    root: Seq<u8>,
    a: Seq<u8>,
    b: Seq<u8>,
    depth: nat,
)
    requires
        a.len() > 0,
        b.len() > 0,
        !names_primary_source(root + a, lib),
        !names_primary_source(root + b, lib),
        depth < components(a).len(),
        depth < components(b).len(),
        components(a).subrange(0, depth as int) == components(b).subrange(0, depth as int),
        key_of(root + a, lib, root, depth) == key_of(root + b, lib, root, depth),
    ensures
        a == b,
{
    let x = relative_path(root + a, root, depth);
    let y = relative_path(root + b, root, depth);
    let start = (lib + seq![0x5cu8]).len() as int;
    law_key_of_other_sources(root + a, lib, root, depth);
    law_key_of_other_sources(root + b, lib, root, depth);
    assert(key_of(root + a, lib, root, depth).skip(start) =~= x);
    assert(key_of(root + b, lib, root, depth).skip(start) =~= y);
    law_first_components_are_dropped(root, a, depth);
    law_first_components_are_dropped(root, b, depth);
    let p = components(a);
    let q = components(b);
    let d = depth as int;
    assert(p =~= p.subrange(0, d) + p.subrange(d, p.len() as int));
    assert(q =~= q.subrange(0, d) + q.subrange(d, q.len() as int));
    lemma_joined_components(a);
    lemma_joined_components(b);
}

/// An object file goes to its name, with `/` for `\\` and every other byte as the
/// character of that number, and `.obj` behind it.
pub proof fn law_output_path_is_the_name(key: Seq<u8>)
    ensures
        output_path(key).len() == key.len() + 4,
        forall|i: int|
            0 <= i < key.len() ==> #[trigger] output_path(key)[i] == if key[i] == 0x5c {
                '/'
            } else {
                key[i] as char
            },
        output_path(key).skip(key.len() as int) == seq!['.', 'o', 'b', 'j'],
{
    reveal_strlit(".obj");
    assert(output_path(key).skip(key.len() as int) =~= seq!['.', 'o', 'b', 'j']);
    assert forall|i: int| 0 <= i < key.len() implies #[trigger] output_path(key)[i] == path_char(
        key[i],
    ) by {}
}

/// A function keeps its name, offset, length and source, and is a function
/// whether it is a procedure or a thunk.
pub proof fn law_functions_are_taken_as_they_are(function: FunctionSymbol)
    ensures
        ModuleSymbol::Procedure(function)@ == Some(function@),
        ModuleSymbol::Thunk(function)@ == Some(function@),
        ModuleSymbol::Other@ is None,
        function@.name == function.name@,
        function@.offset == function.offset,
        function@.len == function.len,
        function.source is None ==> function@.source is None,
        function.source matches Some(path) ==> function@.source == Some(path@),
{
}

/// A module keeps its name and its symbols, each in its place.
pub proof fn law_modules_are_taken_as_they_are(module: Module, i: int)
    ensures
        module@.object_file_name == module.object_file_name@,
        module.symbols is Unreadable <==> module@.symbols is Unreadable,
        module.symbols is Missing <==> module@.symbols is Missing,
        module.symbols matches ModuleSymbols::Present(symbols) ==> {
            &&& module@.symbols is Present
            &&& module@.symbols->Present_0.len() == symbols@.len()
            &&& 0 <= i < symbols@.len() ==> module@.symbols->Present_0[i] == symbols@[i]@
        },
        module@.lib() == lib_name(module.object_file_name@),
{
}

/// Several modules are taken as they are, each in its place.
pub proof fn law_lists_of_modules_are_taken_as_they_are(modules: Seq<Module>, m: int)
    ensures
        module_views(modules).len() == modules.len(),
        0 <= m < modules.len() ==> module_views(modules)[m] == modules[m]@,
{
}

/// The sources of a library are the normalised paths of the sources of its
/// functions, in whichever of its modules, and no others.
pub proof fn law_lib_sources_are_those_of_its_functions(
    modules: Seq<ModuleEntry>,
    lib: Seq<u8>,
    path: Seq<u8>,
)
    ensures
        lib_sources(modules, lib).contains(path) <==> exists|m: int, i: int|
            is_source_at(modules, lib, path, m, i),
{
    if lib_sources(modules, lib).contains(path) {
        let m = choose|m: int|
            0 <= m < modules.len() && (#[trigger] modules[m]).lib() == lib
                && modules[m].has_source(path);
        let symbols = modules[m].symbols->Present_0;
        let i = choose|i: int|
            0 <= i < symbols.len() && ((#[trigger] symbols[i]) matches Some(function)
                && function.source_path() == Some(path));
        assert(is_source_at(modules, lib, path, m, i));
    }
    if exists|m: int, i: int| is_source_at(modules, lib, path, m, i) {
        let (m, i) = choose|m: int, i: int| is_source_at(modules, lib, path, m, i);
        let symbols = modules[m].symbols->Present_0;
        assert(symbols[i]->0.source_path() == Some(path));
        assert(modules[m].has_source(path));
        assert(modules[m].lib() == lib);
    }
}

/// Whether the symbol of number `i` in the module of number `m` is a function of
/// the library that comes from the source file `path`.
pub open spec fn is_source_at(
    modules: Seq<ModuleEntry>,
    lib: Seq<u8>,
    path: Seq<u8>,
    m: int,
    i: int,
) -> bool {
    &&& 0 <= m < modules.len()
    &&& lib_name(modules[m].object_file_name) == lib
    &&& modules[m].symbols is Present
    &&& 0 <= i < modules[m].symbols->Present_0.len()
    &&& modules[m].symbols->Present_0[i] is Some
    &&& modules[m].symbols->Present_0[i]->0.source is Some
    &&& normalised(modules[m].symbols->Present_0[i]->0.source->0) == path
}

/// A function's source file is where its raw path leads, normalised.
pub proof fn law_source_path_is_normalised(function: FunctionEntry)
    ensures
        function.source is None <==> function.source_path() is None,
        function.source is Some ==> function.source_path() == Some(
            normalised(function.source->0),
        ),
{
}

/// The directories that are dropped are counted over the translation units of a
/// library that stand below its root and are not primary.
pub proof fn law_nested_sources_are_other_units(
    sources: Set<Seq<u8>>,
    lib: Seq<u8>,
    root: Seq<u8>,
    rest: Seq<u8>,
)
    ensures
        nested_sources(sources, lib, root).contains(rest) <==> rest.len() > 0 && sources.contains(
            root + rest,
        ) && names_translation_unit(root + rest) && !names_primary_source(root + rest, lib),
{
}

/// The root of a library is that of its sources, and what is dropped is counted
/// below that root.
pub proof fn law_layout_comes_from_the_sources(modules: Seq<ModuleEntry>, lib: Seq<u8>)
    ensures
        is_project_root(lib_sources(modules, lib), lib_root(modules, lib)),
        lib_root(modules, lib) == project_root(lib_sources(modules, lib)),
        lib_depth(modules, lib) == collapse_depth(
            lib,
            nested_sources(lib_sources(modules, lib), lib, lib_root(modules, lib)),
        ),
{
    law_project_root_exists(lib_sources(modules, lib));
}

} // verus!
