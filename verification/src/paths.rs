//! Source paths and library names: which object file a function belongs to.
use crate::bytes::{
    after_last, ascii, ends_with_but_case, ends_with_ignoring_case, find_last, last_position,
    lemma_last_position, lowercase, same_but_case, same_bytes, same_ignoring_case,
    tail_after_last, text_bytes, to_lowercase, BACKSLASH, DOT, SLASH,
};
use vstd::prelude::*;
use vstd::slice::{slice_subrange, slice_to_vec};

verus! {

/// A path with every separator written as a backslash.
pub open spec fn normalised(path: Seq<u8>) -> Seq<u8> {
    path.map_values(|b: u8| if b == SLASH { BACKSLASH } else { b })
}

/// Writes every separator of a path as a backslash.
pub fn normalise(path: &[u8]) -> (r: Vec<u8>)
    ensures
        r@ == normalised(path@),
{
    let mut r: Vec<u8> = Vec::with_capacity(path.len());
    let mut i: usize = 0;
    while i < path.len()
        invariant
            i <= path@.len(),
            r@ == normalised(path@.take(i as int)),
        decreases path@.len() - i,
    {
        let b: u8 = path[i];
        r.push(if b == SLASH { BACKSLASH } else { b });
        i = i + 1;
        assert(r@ =~= normalised(path@.take(i as int)));
    }
    assert(path@.take(i as int) =~= path@);
    r
}

/// Whether a library name is that of one of the system's own libraries.
pub open spec fn names_system_lib(name: Seq<u8>) -> bool {
    let l = lowercase(name);
    ||| l == ascii("kernel32"@)
    ||| l == ascii("libcmtd"@)
    ||| l == ascii("libcpmtd"@)
    ||| l == ascii("shell32"@)
    ||| l == ascii("user32"@)
    ||| l == ascii("gdi32"@)
    ||| l == ascii("advapi32"@)
    ||| l == ascii("msvcrt"@)
    ||| l == ascii("msvcrtd"@)
    ||| l == ascii("oldnames"@)
    ||| l == ascii("libcmt"@)
    ||| l == ascii("libcpmt"@)
    ||| l == ascii("msvcprt"@)
    ||| l == ascii("msvcprtd"@)
}

/// Tells whether a library name is that of one of the system's own libraries.
pub fn is_system_lib(name: &[u8]) -> (r: bool)
    ensures
        r == names_system_lib(name@),
{
    proof {
        reveal_strlit("kernel32");
        reveal_strlit("libcmtd");
        reveal_strlit("libcpmtd");
        reveal_strlit("shell32");
        reveal_strlit("user32");
        reveal_strlit("gdi32");
        reveal_strlit("advapi32");
        reveal_strlit("msvcrt");
        reveal_strlit("msvcrtd");
        reveal_strlit("oldnames");
        reveal_strlit("libcmt");
        reveal_strlit("libcpmt");
        reveal_strlit("msvcprt");
        reveal_strlit("msvcprtd");
    }
    let lower: Vec<u8> = to_lowercase(name);
    let l: &[u8] = lower.as_slice();
    same_bytes(l, text_bytes("kernel32"))
        || same_bytes(l, text_bytes("libcmtd"))
        || same_bytes(l, text_bytes("libcpmtd"))
        || same_bytes(l, text_bytes("shell32"))
        || same_bytes(l, text_bytes("user32"))
        || same_bytes(l, text_bytes("gdi32"))
        || same_bytes(l, text_bytes("advapi32"))
        || same_bytes(l, text_bytes("msvcrt"))
        || same_bytes(l, text_bytes("msvcrtd"))
        || same_bytes(l, text_bytes("oldnames"))
        || same_bytes(l, text_bytes("libcmt"))
        || same_bytes(l, text_bytes("libcpmt"))
        || same_bytes(l, text_bytes("msvcprt"))
        || same_bytes(l, text_bytes("msvcprtd"))
}

/// Whether a path is that of a translation unit, by its extension.
pub open spec fn names_translation_unit(path: Seq<u8>) -> bool {
    ||| ends_with_but_case(path, ascii(".c"@))
    ||| ends_with_but_case(path, ascii(".cpp"@))
    ||| ends_with_but_case(path, ascii(".cc"@))
    ||| ends_with_but_case(path, ascii(".cxx"@))
    ||| ends_with_but_case(path, ascii(".asm"@))
    ||| ends_with_but_case(path, ascii(".s"@))
}

/// Tells whether a path is that of a translation unit, by its extension.
pub fn is_translation_unit(path: &[u8]) -> (r: bool)
    ensures
        r == names_translation_unit(path@),
{
    proof {
        reveal_strlit(".c");
        reveal_strlit(".cpp");
        reveal_strlit(".cc");
        reveal_strlit(".cxx");
        reveal_strlit(".asm");
        reveal_strlit(".s");
    }
    ends_with_ignoring_case(path, text_bytes(".c"))
        || ends_with_ignoring_case(path, text_bytes(".cpp"))
        || ends_with_ignoring_case(path, text_bytes(".cc"))
        || ends_with_ignoring_case(path, text_bytes(".cxx"))
        || ends_with_ignoring_case(path, text_bytes(".asm"))
        || ends_with_ignoring_case(path, text_bytes(".s"))
}

/// The last component of a normalised path.
pub open spec fn file_name(path: Seq<u8>) -> Seq<u8> {
    after_last(path, BACKSLASH)
}

/// The file name of a path without its extension: all of it where it has none.
pub open spec fn file_stem(path: Seq<u8>) -> Seq<u8> {
    let name = file_name(path);
    if last_position(name, DOT) >= 0 {
        name.take(last_position(name, DOT))
    } else {
        name
    }
}

/// A library's name without the `d` that marks its debug build, where it has one.
pub open spec fn release_name(lib: Seq<u8>) -> Option<Seq<u8>> {
    if lib.len() > 0 && (lib.last() == 0x64 || lib.last() == 0x44) {
        Some(lib.drop_last())
    } else {
        None
    }
}

/// Whether a source file is named like the library it belongs to, or like the
/// release build of it.
pub open spec fn names_primary_source(path: Seq<u8>, lib: Seq<u8>) -> bool {
    ||| same_but_case(file_stem(path), lib)
    ||| (release_name(lib) matches Some(release) && same_but_case(file_stem(path), release))
}

/// Returns a library's name without the `d` that marks its debug build.
pub fn strip_debug_suffix(lib: &[u8]) -> (r: Option<&[u8]>)
    ensures
        match r {
            Some(s) => release_name(lib@) == Some(s@),
            None => release_name(lib@) is None,
        },
{
    if lib.len() > 0 && (lib[lib.len() - 1] == 0x64 || lib[lib.len() - 1] == 0x44) {
        let s = slice_subrange(lib, 0, lib.len() - 1);
        assert(s@ =~= lib@.drop_last());
        Some(s)
    } else {
        None
    }
}

/// Tells whether a source file is the primary translation unit of a library:
/// the one whose file name without extension is the library's name. Debug
/// builds end in a `d` that their primary translation unit lacks.
pub fn is_translation_unit_match(path: &[u8], lib_name: &[u8]) -> (r: bool)
    ensures
        r == names_primary_source(path@, lib_name@),
{
    let name = tail_after_last(path, BACKSLASH);
    let stem: &[u8] = match find_last(name, DOT) {
        Some(dot) => {
            let s = slice_subrange(name, 0, dot);
            assert(s@ =~= name@.take(dot as int));
            s
        },
        None => name,
    };
    assert(stem@ == file_stem(path@));
    if same_ignoring_case(stem, lib_name) {
        return true;
    }
    match strip_debug_suffix(lib_name) {
        Some(release) => same_ignoring_case(stem, release),
        None => false,
    }
}

/// Tells whether a path is left out when the depth of a library's directory
/// chain is counted: those of primary translation units are.
pub fn is_likely_primary_source(path: &[u8], lib_name: &[u8]) -> (r: bool)
    ensures
        r == names_primary_source(path@, lib_name@),
{
    is_translation_unit_match(path, lib_name)
}

/// An object file's or library's path without its `.obj` or `.lib`.
pub open spec fn without_object_extension(raw: Seq<u8>) -> Seq<u8> {
    if raw.len() > 4 && (ends_with_but_case(raw, ascii(".obj"@)) || ends_with_but_case(
        raw,
        ascii(".lib"@),
    )) {
        raw.take(raw.len() - 4)
    } else {
        raw
    }
}

/// The name of the library that a module came from, out of the path of its
/// object file: the last component, without the extension.
pub open spec fn lib_name(raw: Seq<u8>) -> Seq<u8> {
    let path = without_object_extension(raw);
    path.skip(last_position(normalised(path), BACKSLASH) + 1)
}

/// Returns the name of the library that a module came from.
pub fn lib_name_from_bytes(raw: &[u8]) -> (r: Vec<u8>)
    ensures
        r@ == lib_name(raw@),
{
    proof {
        reveal_strlit(".obj");
        reveal_strlit(".lib");
    }
    let n: usize = raw.len();
    let path: &[u8] = if n > 4 && (ends_with_ignoring_case(raw, text_bytes(".obj"))
        || ends_with_ignoring_case(raw, text_bytes(".lib"))) {
        slice_subrange(raw, 0, n - 4)
    } else {
        raw
    };
    assert(path@ =~= without_object_extension(raw@));
    let len: usize = path.len();
    let with_backslashes = normalise(path);
    let start: usize = match find_last(with_backslashes.as_slice(), BACKSLASH) {
        Some(p) => p + 1,
        None => 0,
    };
    let name = slice_subrange(path, start, len);
    assert(name@ =~= path@.skip(start as int));
    slice_to_vec(name)
}

/// A normalised path holds no other separator than the backslash, and is its
/// own normal form.
pub proof fn law_normalising_settles_separators(path: Seq<u8>)
    ensures
        normalised(path).len() == path.len(),
        !normalised(path).contains(SLASH),
        normalised(normalised(path)) == normalised(path),
{
    assert(normalised(normalised(path)) =~= normalised(path));
}

/// Ends that match but for case go on matching whatever the case of the path.
proof fn lemma_ends_ignore_case(a: Seq<u8>, b: Seq<u8>, suffix: Seq<u8>)
    requires
        same_but_case(a, b),
    ensures
        ends_with_but_case(a, suffix) == ends_with_but_case(b, suffix),
{
    assert(lowercase(a).len() == lowercase(b).len());
    if suffix.len() <= a.len() {
        let n = a.len() - suffix.len();
        assert(lowercase(a.skip(n)) =~= lowercase(a).skip(n));
        assert(lowercase(b.skip(n)) =~= lowercase(b).skip(n));
    }
}

/// Neither what is a system library nor what is a translation unit depends on
/// the case of letters.
pub proof fn law_case_does_not_matter(a: Seq<u8>, b: Seq<u8>)
    requires
        same_but_case(a, b),
    ensures
        names_system_lib(a) == names_system_lib(b),
        names_translation_unit(a) == names_translation_unit(b),
{
    lemma_ends_ignore_case(a, b, ascii(".c"@));
    lemma_ends_ignore_case(a, b, ascii(".cpp"@));
    lemma_ends_ignore_case(a, b, ascii(".cc"@));
    lemma_ends_ignore_case(a, b, ascii(".cxx"@));
    lemma_ends_ignore_case(a, b, ascii(".asm"@));
    lemma_ends_ignore_case(a, b, ascii(".s"@));
}

/// The name of a library is a single component of a path.
pub proof fn law_lib_name_has_no_separator(raw: Seq<u8>)
    ensures
        !lib_name(raw).contains(BACKSLASH),
        !lib_name(raw).contains(SLASH),
{
    let path = without_object_extension(raw);
    let start = last_position(normalised(path), BACKSLASH) + 1;
    lemma_last_position(normalised(path), BACKSLASH);
    assert forall|i: int| 0 <= i < lib_name(raw).len() implies lib_name(raw)[i] != BACKSLASH
        && lib_name(raw)[i] != SLASH by {
        assert(lib_name(raw)[i] == path[start + i]);
        assert(normalised(path)[start + i] != BACKSLASH);
    }
}

/// A debug library's primary translation units are those of its release build
/// and those that carry its own name.
pub proof fn law_debug_library_owns_release_sources(path: Seq<u8>, release: Seq<u8>)
    requires
        same_but_case(file_stem(path), release),
    ensures
        names_primary_source(path, release),
        names_primary_source(path, release.push(0x64)),
        names_primary_source(path, release.push(0x44)),
{
    assert(release.push(0x64).drop_last() =~= release);
    assert(release.push(0x44).drop_last() =~= release);
}

} // verus!
