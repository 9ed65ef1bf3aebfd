//! The names of object files: which of them a source file goes to.
use crate::bytes::{
    ascii, ends_with_but_case, find_last, join, last_position, lemma_last_position, lower,
    lowercase, same_but_case, same_ignoring_case, starts_with, tail_after_last, BACKSLASH, DOT, SLASH,
};
use crate::paths::{
    file_name, file_stem, is_translation_unit_match, names_primary_source,
    names_translation_unit, release_name, strip_debug_suffix,
};
use crate::roots::{components, join_components, joined, split_components};
use vstd::prelude::*;
use vstd::slice::{slice_subrange, slice_to_vec};

verus! {

/// The extension of a path's file name, with its dot: empty where it has none.
pub open spec fn extension(path: Seq<u8>) -> Seq<u8> {
    let name = file_name(path);
    if last_position(name, DOT) >= 0 {
        name.skip(last_position(name, DOT))
    } else {
        Seq::<u8>::empty()
    }
}

/// What is left of a path below the root of its project.
pub open spec fn below_root(path: Seq<u8>, root: Seq<u8>) -> Seq<u8> {
    if root.is_prefix_of(path) {
        path.skip(root.len() as int)
    } else {
        path
    }
}

/// A path as it stands within its project: below the root, without the first
/// `depth` directories where it has that many. A path that is the root itself
/// is reduced to its file name.
pub open spec fn relative_path(path: Seq<u8>, root: Seq<u8>, depth: nat) -> Seq<u8> {
    let rest = below_root(path, root);
    if rest.len() == 0 {
        file_name(path)
    } else if depth < components(rest).len() {
        joined(components(rest).skip(depth as int))
    } else {
        rest
    }
}

/// The name under which a library's primary translation unit goes: that of the
/// library, without the `d` of a debug build if the file lacks it.
pub open spec fn display_name(path: Seq<u8>, lib: Seq<u8>) -> Seq<u8> {
    if same_but_case(file_stem(path), lib) {
        lib
    } else {
        match release_name(lib) {
            Some(release) => release,
            None => lib,
        }
    }
}

/// The object file that the functions of a source file go to. The primary
/// translation unit of a library stands at the top; every other one stands in
/// the library's directory, where the source stands in its project.
pub open spec fn key_of(path: Seq<u8>, lib: Seq<u8>, root: Seq<u8>, depth: nat) -> Seq<u8> {
    if names_primary_source(path, lib) {
        display_name(path, lib) + extension(path)
    } else {
        lib + seq![BACKSLASH] + relative_path(path, root, depth)
    }
}

/// Dropping no component leaves a path as it is.
pub proof fn lemma_joined_components(path: Seq<u8>)
    ensures
        joined(components(path)) == path,
        components(path).len() >= 1,
    decreases path.len(),
{
    if path.len() > 0 {
        let before = path.drop_last();
        lemma_joined_components(before);
        let parts = components(before);
        assert(path =~= before.push(path.last()));
        if path.last() == BACKSLASH {
            let longer = parts.push(Seq::<u8>::empty());
            assert(longer.drop_last() =~= parts);
            assert(joined(longer) =~= path);
        } else {
            let longer = parts.drop_last().push(parts.last().push(path.last()));
            assert(longer.drop_last() =~= parts.drop_last());
            if parts.len() == 1 {
                assert(joined(parts) == parts[0]);
                assert(joined(longer) =~= path);
            } else {
                assert(joined(longer) =~= path);
            }
        }
    }
}

/// Returns a path as it stands within its project.
pub fn path_in_project(path: &[u8], root: &[u8], depth: usize) -> (r: Vec<u8>)
    ensures
        r@ == relative_path(path@, root@, depth as nat),
{
    let n: usize = path.len();
    let rest: &[u8] = if starts_with(path, root) {
        slice_subrange(path, root.len(), n)
    } else {
        path
    };
    assert(rest@ =~= below_root(path@, root@));
    if rest.len() == 0 {
        return slice_to_vec(tail_after_last(path, BACKSLASH));
    }
    if depth > 0 {
        let parts = split_components(rest);
        if depth < parts.len() {
            return join_components(&parts, depth);
        }
    } else {
        proof {
            lemma_joined_components(rest@);
            assert(components(rest@).skip(0) =~= components(rest@));
        }
    }
    slice_to_vec(rest)
}

/// Returns the object file that the functions of a source file go to.
pub fn object_key(path: &[u8], lib_name: &[u8], root: &[u8], depth: usize) -> (r: Vec<u8>)
    ensures
        r@ == key_of(path@, lib_name@, root@, depth as nat),
{
    if is_translation_unit_match(path, lib_name) {
        let name = tail_after_last(path, BACKSLASH);
        let n: usize = name.len();
        let dot: usize = match find_last(name, DOT) {
            Some(p) => p,
            None => n,
        };
        let stem = slice_subrange(name, 0, dot);
        let ext = slice_subrange(name, dot, n);
        assert(stem@ =~= file_stem(path@));
        assert(ext@ =~= extension(path@));
        let display: &[u8] = if same_ignoring_case(stem, lib_name) {
            lib_name
        } else {
            match strip_debug_suffix(lib_name) {
                Some(release) => release,
                None => lib_name,
            }
        };
        join(display, ext)
    } else {
        let mut key: Vec<u8> = slice_to_vec(lib_name);
        key.push(BACKSLASH);
        let relative = path_in_project(path, root, depth);
        key.extend_from_slice(relative.as_slice());
        assert(key@ =~= lib_name@ + seq![BACKSLASH] + relative@);
        key
    }
}

/// Adds a character at the end of a text.
///
/// Calls `String::push`, which is trusted to do that and nothing else.
#[verifier::external_body]
fn push_char(text: &mut String, c: char)
    ensures
        final(text)@ == old(text)@.push(c),
{
    text.push(c)
}

/// A byte of an object file's name, as a character of a path: a separator for
/// a separator, and otherwise the character of that number.
pub open spec fn path_char(b: u8) -> char {
    if b == BACKSLASH {
        '/'
    } else {
        b as char
    }
}

/// Where an object file goes in the output.
pub open spec fn output_path(key: Seq<u8>) -> Seq<char> {
    key.map_values(|b: u8| path_char(b)) + ".obj"@
}

/// Returns where an object file goes in the output.
pub fn path_of_output(key: &[u8]) -> (r: String)
    ensures
        r@ == output_path(key@),
{
    let mut r = String::new();
    let mut i: usize = 0;
    while i < key.len()
        invariant
            i <= key@.len(),
            r@ == key@.take(i as int).map_values(|b: u8| path_char(b)),
        decreases key@.len() - i,
    {
        push_char(
            &mut r,
            if key[i] == BACKSLASH {
                '/'
            } else {
                key[i] as char
            },
        );
        i = i + 1;
        assert(r@ =~= key@.take(i as int).map_values(|b: u8| path_char(b)));
    }
    assert(key@.take(i as int) =~= key@);
    r.append(".obj");
    r
}

/// What is left of a path when its first components are dropped is its end.
proof fn lemma_dropping_leaves_the_end(path: Seq<u8>, depth: int)
    requires
        0 <= depth < components(path).len(),
    ensures
        joined(components(path).skip(depth)).len() <= path.len(),
        joined(components(path).skip(depth)) == path.skip(
            path.len() - joined(components(path).skip(depth)).len(),
        ),
    decreases path.len(),
{
    let end = joined(components(path).skip(depth));
    if path.len() == 0 {
        assert(components(path).skip(depth) =~= components(path));
        assert(end =~= path.skip(0));
    } else {
        let before = path.drop_last();
        let parts = components(before);
        assert(path =~= before.push(path.last()));
        if path.last() == BACKSLASH {
            if depth == parts.len() {
                assert(components(path).skip(depth) =~= seq![Seq::<u8>::empty()]);
                assert(end =~= path.skip(path.len() as int));
            } else {
                lemma_dropping_leaves_the_end(before, depth);
                assert(components(path).skip(depth) =~= parts.skip(depth).push(Seq::empty()));
                assert(components(path).skip(depth).drop_last() =~= parts.skip(depth));
                assert(end =~= joined(parts.skip(depth)).push(BACKSLASH));
                assert(end =~= path.skip(path.len() - end.len()));
            }
        } else {
            lemma_dropping_leaves_the_end(before, depth);
            let kept = parts.skip(depth);
            let longer = kept.drop_last().push(kept.last().push(path.last()));
            assert(components(path).skip(depth) =~= longer);
            assert(longer.drop_last() =~= kept.drop_last());
            assert(end =~= joined(kept).push(path.last()));
            assert(end =~= path.skip(path.len() - end.len()));
        }
    }
}

/// Where a source stands in its project is told by the end of its path.
pub proof fn law_relative_path_is_an_end(path: Seq<u8>, root: Seq<u8>, depth: nat)
    ensures
        relative_path(path, root, depth).len() <= path.len(),
        relative_path(path, root, depth) == path.skip(
            path.len() - relative_path(path, root, depth).len(),
        ),
{
    let rest = below_root(path, root);
    let r = relative_path(path, root, depth);
    assert(rest =~= path.skip(path.len() - rest.len()));
    if rest.len() == 0 {
        lemma_last_position(path, BACKSLASH);
    } else if depth < components(rest).len() {
        lemma_dropping_leaves_the_end(rest, depth as int);
    }
    assert(r =~= path.skip(path.len() - r.len()));
}

/// An object file's name holds no other separator than the backslash.
pub proof fn law_key_has_no_slash(path: Seq<u8>, lib: Seq<u8>, root: Seq<u8>, depth: nat)
    requires
        !path.contains(SLASH),
        !lib.contains(SLASH),
    ensures
        !key_of(path, lib, root, depth).contains(SLASH),
{
    let key = key_of(path, lib, root, depth);
    lemma_last_position(path, BACKSLASH);
    lemma_last_position(file_name(path), DOT);
    law_relative_path_is_an_end(path, root, depth);
    assert forall|i: int| 0 <= i < key.len() implies key[i] != SLASH by {
        if names_primary_source(path, lib) {
            let name = display_name(path, lib);
            if i < name.len() {
                assert(name[i] == lib[i]);
            } else {
                let ext = extension(path);
                let k = i - name.len();
                assert(key[i] == ext[k]);
                let at = path.len() - ext.len() + k;
                assert(ext[k] == path[at]);
            }
        } else if i < lib.len() {
            assert(key[i] == lib[i]);
        } else if i > lib.len() {
            let rest = relative_path(path, root, depth);
            let k = i - lib.len() - 1;
            assert(key[i] == rest[k]);
            assert(rest[k] == path[path.len() - rest.len() + k]);
        }
    }
}

/// Whatever is no primary translation unit of a library goes below the
/// directory named like the library.
pub proof fn law_other_sources_go_below_the_library(
    path: Seq<u8>,
    lib: Seq<u8>,
    root: Seq<u8>,
    depth: nat,
)
    requires
        !names_primary_source(path, lib),
    ensures
        lib.push(BACKSLASH).is_prefix_of(key_of(path, lib, root, depth)),
{
    let key = key_of(path, lib, root, depth);
    assert(key.take((lib.len() + 1) as int) =~= lib.push(BACKSLASH));
}

/// The last component of a path is its file name.
proof fn lemma_last_component(path: Seq<u8>)
    ensures
        components(path).len() >= 1,
        components(path).last() == file_name(path),
    decreases path.len(),
{
    if path.len() == 0 {
        assert(file_name(path) =~= Seq::<u8>::empty());
    } else {
        let before = path.drop_last();
        lemma_last_component(before);
        lemma_last_position(before, BACKSLASH);
        if path.last() == BACKSLASH {
            assert(file_name(path) =~= Seq::<u8>::empty());
        } else {
            assert(file_name(path) =~= file_name(before).push(path.last()));
        }
    }
}

/// Where a source stands in its project takes in its file name, as long as the
/// project's root is a directory.
proof fn lemma_relative_path_takes_in_file_name(path: Seq<u8>, root: Seq<u8>, depth: nat)
    requires
        root.len() > 0 ==> root.last() == BACKSLASH,
    ensures
        file_name(path).len() <= relative_path(path, root, depth).len(),
{
    let rest = below_root(path, root);
    lemma_last_position(path, BACKSLASH);
    if root.is_prefix_of(path) {
        if root.len() > 0 {
            assert(path[root.len() - 1] == root.last());
        }
        assert(file_name(path).len() <= rest.len());
        lemma_last_position(rest, BACKSLASH);
        let at = last_position(path, BACKSLASH);
        let there = last_position(rest, BACKSLASH);
        assert(there >= 0 ==> path[root.len() + there] == rest[there]);
        assert(there >= 0 ==> at >= root.len() + there);
        assert(at >= root.len() ==> rest[at - root.len()] == path[at]);
        assert(file_name(path) =~= file_name(rest));
    }
    if rest.len() > 0 && depth < components(rest).len() {
        lemma_last_component(rest);
        let kept = components(rest).skip(depth as int);
        assert(kept.last() == components(rest).last());
    }
}

/// Whether `suffix` is an extension: a dot, and neither a dot nor a separator
/// behind it.
pub open spec fn is_extension(suffix: Seq<u8>) -> bool {
    &&& suffix.len() > 0
    &&& suffix[0] == DOT
    &&& forall|i: int| 1 <= i < suffix.len() ==> suffix[i] != DOT && suffix[i] != BACKSLASH
}

/// A path that ends in an extension has it at the end of its file name, and has
/// no other.
proof fn lemma_ends_in_its_extension(path: Seq<u8>, suffix: Seq<u8>)
    requires
        is_extension(suffix),
        ends_with_but_case(path, suffix),
    ensures
        suffix.len() <= file_name(path).len(),
        extension(path) == path.skip(path.len() - suffix.len()),
{
    let start = path.len() - suffix.len();
    let end = path.skip(start);
    assert forall|i: int| 0 <= i < suffix.len() implies lower(path[start + i]) == lower(
        suffix[i],
    ) by {
        assert(lowercase(end)[i] == lowercase(suffix)[i]);
        assert(end[i] == path[start + i]);
    }
    assert(path[start] == DOT);
    assert forall|i: int| start < i < path.len() implies path[i] != DOT && path[i]
        != BACKSLASH by {
        assert(lower(path[start + (i - start)]) == lower(suffix[i - start]));
    }
    lemma_last_position(path, BACKSLASH);
    let at = last_position(path, BACKSLASH);
    assert(at < start);
    let name = file_name(path);
    assert(name =~= path.skip(at + 1));
    lemma_last_position(name, DOT);
    let dot = last_position(name, DOT);
    assert(name[start - at - 1] == DOT);
    assert(path[at + 1 + dot] == name[dot]);
    assert(dot == start - at - 1);
    assert(extension(path) =~= path.skip(start));
}

/// What has the same end as a path ends as the path does.
proof fn lemma_same_end(path: Seq<u8>, key: Seq<u8>, n: int, suffix: Seq<u8>)
    requires
        0 <= n <= path.len(),
        n <= key.len(),
        key.skip(key.len() - n) == path.skip(path.len() - n),
        suffix.len() <= n,
        ends_with_but_case(path, suffix),
    ensures
        ends_with_but_case(key, suffix),
{
    let m = suffix.len() as int;
    assert(key.skip(key.len() - m) =~= key.skip(key.len() - n).skip(n - m));
    assert(path.skip(path.len() - m) =~= path.skip(path.len() - n).skip(n - m));
}

/// The name of an object file has the extension of its source.
proof fn lemma_key_ends_as_path(
    path: Seq<u8>,
    lib: Seq<u8>,
    root: Seq<u8>,
    depth: nat,
    suffix: Seq<u8>,
)
    requires
        root.len() > 0 ==> root.last() == BACKSLASH,
        is_extension(suffix),
        ends_with_but_case(path, suffix),
    ensures
        ends_with_but_case(key_of(path, lib, root, depth), suffix),
{
    let key = key_of(path, lib, root, depth);
    lemma_ends_in_its_extension(path, suffix);
    if names_primary_source(path, lib) {
        let ext = extension(path);
        assert(key.skip(key.len() - ext.len()) =~= ext);
        lemma_same_end(path, key, ext.len() as int, suffix);
    } else {
        let rest = relative_path(path, root, depth);
        law_relative_path_is_an_end(path, root, depth);
        lemma_relative_path_takes_in_file_name(path, root, depth);
        assert(key.skip(key.len() - rest.len()) =~= rest);
        lemma_same_end(path, key, rest.len() as int, suffix);
    }
}

/// The object file of a translation unit is named like one, as long as the
/// project's root is a directory.
pub proof fn law_key_names_a_translation_unit(
    path: Seq<u8>,
    lib: Seq<u8>,
    root: Seq<u8>,
    depth: nat,
)
    requires
        root.len() > 0 ==> root.last() == BACKSLASH,
        names_translation_unit(path),
    ensures
        names_translation_unit(key_of(path, lib, root, depth)),
{
    reveal_strlit(".c");
    reveal_strlit(".cpp");
    reveal_strlit(".cc");
    reveal_strlit(".cxx");
    reveal_strlit(".asm");
    reveal_strlit(".s");
    if ends_with_but_case(path, ascii(".c"@)) {
        lemma_key_ends_as_path(path, lib, root, depth, ascii(".c"@));
    } else if ends_with_but_case(path, ascii(".cpp"@)) {
        lemma_key_ends_as_path(path, lib, root, depth, ascii(".cpp"@));
    } else if ends_with_but_case(path, ascii(".cc"@)) {
        lemma_key_ends_as_path(path, lib, root, depth, ascii(".cc"@));
    } else if ends_with_but_case(path, ascii(".cxx"@)) {
        lemma_key_ends_as_path(path, lib, root, depth, ascii(".cxx"@));
    } else if ends_with_but_case(path, ascii(".asm"@)) {
        lemma_key_ends_as_path(path, lib, root, depth, ascii(".asm"@));
    } else {
        lemma_key_ends_as_path(path, lib, root, depth, ascii(".s"@));
    }
}

/// Whether an object file's name starts with that of a library, or with that
/// less the `d` of a debug build.
pub open spec fn starts_as_library(key: Seq<u8>, lib: Seq<u8>) -> bool {
    ||| lib.is_prefix_of(key)
    ||| (release_name(lib) matches Some(release) && release.is_prefix_of(key))
}

/// An object file's name starts with that of its library.
pub proof fn law_key_starts_as_library(path: Seq<u8>, lib: Seq<u8>, root: Seq<u8>, depth: nat)
    ensures
        starts_as_library(key_of(path, lib, root, depth), lib),
{
    let key = key_of(path, lib, root, depth);
    if names_primary_source(path, lib) {
        let name = display_name(path, lib);
        assert(key.take(name.len() as int) =~= name);
    } else {
        assert(key.take(lib.len() as int) =~= lib);
    }
}

} // verus!
