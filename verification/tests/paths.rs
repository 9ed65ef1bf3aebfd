//! Paths, libraries and the names of object files.
use delinker::bytes::{ends_with_ignoring_case, find_last, same_ignoring_case, to_lowercase};
use delinker::keys::{object_key, path_in_project};
use delinker::paths::{
    is_likely_primary_source, is_system_lib, is_translation_unit, is_translation_unit_match,
    lib_name_from_bytes, normalise, strip_debug_suffix,
};
use delinker::roots::{
    common_project_root, join_components, path_chain_depth, split_components, PathSet,
};

fn set(paths: &[&[u8]]) -> PathSet {
    let mut r = PathSet::new();
    for p in paths {
        r.insert(p.to_vec());
    }
    r
}

#[test]
fn bytes_compare_without_case() {
    assert_eq!(to_lowercase(b"AbZ@[\xc9"), b"abz@[\xc9");
    assert!(same_ignoring_case(b"KERNEL32", b"kernel32"));
    assert!(!same_ignoring_case(b"\xc9", b"\xe9"));
    assert!(!same_ignoring_case(b"@", b"`"));
    assert!(ends_with_ignoring_case(b"a.CPP", b".cpp"));
    assert!(!ends_with_ignoring_case(b"pp", b".cpp"));
    assert_eq!(find_last(b"a.b.c", b'.'), Some(3));
    assert_eq!(find_last(b"abc", b'.'), None);
}

#[test]
fn normalising_turns_slashes() {
    assert_eq!(normalise(b"c:/a\\b/c.cpp"), b"c:\\a\\b\\c.cpp");
    assert_eq!(normalise(b""), b"");
    let once = normalise(b"x/y");
    assert_eq!(normalise(&once), once);
}

#[test]
fn system_libraries_are_known_in_any_case() {
    for lib in [
        &b"kernel32"[..], &b"libcmtd"[..], &b"libcpmtd"[..], &b"shell32"[..], &b"user32"[..],
        &b"gdi32"[..], &b"advapi32"[..], &b"msvcrt"[..], &b"msvcrtd"[..], &b"oldnames"[..],
        &b"libcmt"[..], &b"libcpmt"[..], &b"msvcprt"[..], &b"msvcprtd"[..],
    ] {
        assert!(is_system_lib(lib));
        assert!(is_system_lib(&lib.to_ascii_uppercase()));
    }
    assert!(!is_system_lib(b"kernel"));
    assert!(!is_system_lib(b"kernel32d"));
    assert!(!is_system_lib(b""));
}

#[test]
fn translation_units_are_known_by_extension() {
    for path in [&b"a.c"[..], &b"a.cpp"[..], &b"a.cc"[..], &b"a.CXX"[..], &b"a.Asm"[..], &b".s"[..]] {
        assert!(is_translation_unit(path));
    }
    for path in [&b"a.h"[..], &b"a.hpp"[..], &b"a.inl"[..], &b"c"[..], &b""[..], &b"a.c "[..]] {
        assert!(!is_translation_unit(path));
    }
}

#[test]
fn primary_sources_are_named_like_the_library() {
    assert!(is_translation_unit_match(b"c:\\src\\Game.cpp", b"game"));
    assert!(is_translation_unit_match(b"c:\\src\\gx2windows.cpp", b"gx2windowsd"));
    assert!(is_translation_unit_match(b"c:\\src\\gx2windows.cpp", b"gx2windowsD"));
    assert!(is_translation_unit_match(b"c:\\src\\gx2windowsd.cpp", b"gx2windowsd"));
    assert!(!is_translation_unit_match(b"c:\\src\\gx2windowsd.cpp", b"gx2windows"));
    assert!(!is_translation_unit_match(b"c:\\src\\other.cpp", b"game"));
    // Up to the last dot, and no further.
    assert!(is_translation_unit_match(b"c:\\src\\game.gen.cpp", b"game.gen"));
    assert!(!is_translation_unit_match(b"c:\\src\\game.gen.cpp", b"game"));
    // Without an extension the file name is compared.
    assert!(is_translation_unit_match(b"game", b"game"));
    assert!(is_translation_unit_match(b"src\\foo", b"foo"));
    assert!(is_likely_primary_source(b"src\\foo", b"food"));
    assert!(!is_translation_unit_match(b"src.d\\foo", b"src"));
    assert!(is_likely_primary_source(b"c:\\src\\game.cpp", b"GAME"));
    assert!(!is_likely_primary_source(b"c:\\game\\x.cpp", b"game"));
}

#[test]
fn debug_suffix_is_one_letter() {
    assert_eq!(strip_debug_suffix(b"libd"), Some(&b"lib"[..]));
    assert_eq!(strip_debug_suffix(b"libD"), Some(&b"lib"[..]));
    assert_eq!(strip_debug_suffix(b"lib"), None);
    assert_eq!(strip_debug_suffix(b"d"), Some(&b""[..]));
    assert_eq!(strip_debug_suffix(b""), None);
}

#[test]
fn library_name_is_the_last_component() {
    assert_eq!(lib_name_from_bytes(b"c:\\out/lib\\Game.LIB"), b"Game");
    assert_eq!(lib_name_from_bytes(b"c:\\out/main.obj"), b"main");
    assert_eq!(lib_name_from_bytes(b"a.obj"), b"a");
    assert_eq!(lib_name_from_bytes(b".obj"), b".obj");
    assert_eq!(lib_name_from_bytes(b"* Linker *"), b"* Linker *");
    assert_eq!(lib_name_from_bytes(b"x\\"), b"");
    assert_eq!(lib_name_from_bytes(b"a.lib.obj"), b"a.lib");
}

#[test]
fn path_sets_hold_nothing_twice() {
    let mut s = PathSet::new();
    assert!(s.insert(b"a".to_vec()));
    assert!(s.insert(b"b".to_vec()));
    assert!(!s.insert(b"a".to_vec()));
    assert_eq!(s.len(), 2);
    assert_eq!(s.get(1), b"b");
    assert!(s.contains(b"a"));
    assert!(!s.contains(b"c"));
}

#[test]
fn root_is_the_deepest_shared_directory() {
    let s = set(&[b"c:\\p\\a\\x.cpp", b"c:\\p\\ab\\y.cpp", b"c:\\p\\a\\z.cpp"]);
    assert_eq!(common_project_root(&s), b"c:\\p\\");
    let s = set(&[b"c:\\x.cpp", b"d:\\x.cpp"]);
    assert_eq!(common_project_root(&s), b"");
    let s = set(&[b"c:\\p\\x.cpp", b"c:\\p\\x.cpp2"]);
    assert_eq!(common_project_root(&s), b"c:\\p\\");
}

#[test]
fn root_of_one_path_is_its_directory() {
    assert_eq!(common_project_root(&set(&[])), b"");
    assert_eq!(common_project_root(&set(&[b"d:\\p\\a.c"])), b"d:\\p\\");
    assert_eq!(common_project_root(&set(&[b"a.c"])), b"");
    let s = set(&[b"d:\\p\\a.c", b"c:\\program files\\vc\\x.c"]);
    assert_eq!(common_project_root(&s), b"d:\\p\\");
    let s = set(&[b"c:\\program files\\vc\\x.c"]);
    assert_eq!(common_project_root(&s), b"c:\\program files\\vc\\");
}

#[test]
fn system_paths_have_no_say_in_the_root() {
    let s = set(&[
        b"C:\\Program Files (x86)\\vc\\include\\vector",
        b"c:\\p\\a.cpp",
        b"f:\\DD\\vctools\\crt\\x.c",
        b"c:\\dd\\vctools\\y.c",
        b"c:\\p\\b.cpp",
    ]);
    assert_eq!(common_project_root(&s), b"c:\\p\\");
    // Where there are no others, they have.
    let s = set(&[b"f:\\dd\\vctools\\crt\\x.c", b"f:\\dd\\vctools\\crt\\y.c"]);
    assert_eq!(common_project_root(&s), b"f:\\dd\\vctools\\crt\\");
}

#[test]
fn components_split_and_join() {
    let parts = split_components(b"a\\\\b");
    assert_eq!(parts, vec![b"a".to_vec(), b"".to_vec(), b"b".to_vec()]);
    assert_eq!(join_components(&parts, 0), b"a\\\\b");
    assert_eq!(join_components(&parts, 1), b"\\b");
    assert_eq!(join_components(&parts, 2), b"b");
    assert_eq!(split_components(b""), vec![b"".to_vec()]);
}

#[test]
fn chains_of_three_directories_collapse() {
    let s = set(&[b"a\\b\\c\\x.cpp", b"a\\b\\c\\d\\y.cpp"]);
    assert_eq!(path_chain_depth(b"lib", &s), 3);
    let s = set(&[b"a\\b\\c\\d\\x.cpp"]);
    assert_eq!(path_chain_depth(b"lib", &s), 4);
    let s = set(&[b"a\\b\\x.cpp", b"a\\b\\y.cpp"]);
    assert_eq!(path_chain_depth(b"lib", &s), 0);
    let s = set(&[b"x.cpp", b"a\\b\\c\\y.cpp"]);
    assert_eq!(path_chain_depth(b"lib", &s), 0);
    assert_eq!(path_chain_depth(b"lib", &set(&[])), 0);
}

#[test]
fn directory_that_repeats_the_library_collapses() {
    let s = set(&[b"lib\\x.cpp", b"lib\\y\\z.cpp"]);
    assert_eq!(path_chain_depth(b"lib", &s), 1);
    // The case of letters matters here.
    assert_eq!(path_chain_depth(b"LIB", &s), 0);
    let s = set(&[b"lib\\x.cpp", b"other\\z.cpp"]);
    assert_eq!(path_chain_depth(b"lib", &s), 0);
    let s = set(&[b"lib\\a\\b\\x.cpp"]);
    assert_eq!(path_chain_depth(b"lib", &s), 3);
}

#[test]
fn place_in_project_is_the_end_of_the_path() {
    assert_eq!(path_in_project(b"c:\\p\\a\\x.cpp", b"c:\\p\\", 0), b"a\\x.cpp");
    assert_eq!(path_in_project(b"c:\\p\\a\\x.cpp", b"c:\\p\\", 1), b"x.cpp");
    assert_eq!(path_in_project(b"c:\\p\\a\\x.cpp", b"c:\\p\\", 2), b"a\\x.cpp");
    assert_eq!(path_in_project(b"c:\\p\\x.cpp", b"c:\\p\\x.cpp", 0), b"x.cpp");
    assert_eq!(path_in_project(b"d:\\q\\x.cpp", b"c:\\p\\", 0), b"d:\\q\\x.cpp");
}

#[test]
fn primary_sources_go_to_the_top() {
    assert_eq!(object_key(b"c:\\p\\GAME.cpp", b"game", b"c:\\p\\", 0), b"game.cpp");
    assert_eq!(object_key(b"c:\\p\\game.cpp", b"gamed", b"c:\\p\\", 0), b"game.cpp");
    assert_eq!(object_key(b"c:\\p\\gamed.cpp", b"gamed", b"c:\\p\\", 0), b"gamed.cpp");
}

#[test]
fn other_sources_go_below_their_library() {
    assert_eq!(object_key(b"c:\\p\\a\\x.cpp", b"game", b"c:\\p\\", 0), b"game\\a\\x.cpp");
    assert_eq!(object_key(b"c:\\p\\a\\x.cpp", b"game", b"c:\\p\\", 1), b"game\\x.cpp");
    assert_eq!(object_key(b"c:\\p\\x.cpp", b"game", b"c:\\p\\x.cpp", 0), b"game\\x.cpp");
}
