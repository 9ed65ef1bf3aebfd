//! What the symbol table of a written object file holds.
use delinker::decoration::coff_decorate_function_name;
use delinker::object_file::{ObjectFile, ObjectLocation, ObjectOffset};
use object::read::{Object as _, ObjectSymbol as _};

/// Collects the names of the symbols of a written object file.
fn written_symbol_names(of: ObjectFile) -> Vec<Vec<u8>> {
    let bytes = of.to_bytes().expect("object write");
    let file = object::read::File::parse(&*bytes).expect("object parse");
    file.symbols()
        .filter_map(|s| s.name().ok().map(|n| n.as_bytes().to_vec()))
        .collect()
}

#[test]
fn cdecl_extern_c_gets_underscore_in_obj() {
    let mut of = ObjectFile::empty(false);
    of.add_function(b"foo", &[0xC3]);

    let names = written_symbol_names(of);
    assert!(
        names.iter().any(|n| n == b"_foo"),
        "expected `_foo` in symbol table, got: {:?}",
        names,
    );
    assert!(
        !names.iter().any(|n| n == b"foo"),
        "bare `foo` (without `_`) must NOT appear, got: {:?}",
        names,
    );
}

#[test]
fn stdcall_extern_c_gets_underscore_before_at_suffix_in_obj() {
    let mut of = ObjectFile::empty(false);
    of.add_function(b"foo@4", &[0xC3]);

    let names = written_symbol_names(of);
    assert!(
        names.iter().any(|n| n == b"_foo@4"),
        "expected `_foo@4` in symbol table, got: {:?}",
        names,
    );
    assert!(
        !names.iter().any(|n| n == b"foo@4"),
        "bare `foo@4` (without `_`) must NOT appear, got: {:?}",
        names,
    );
}

#[test]
fn intrinsic_starting_with_underscore_is_left_alone_in_obj() {
    // PDB `_chkstk` -> .obj `_chkstk`. The intrinsic already carries the
    // leading `_` the compiler would emit, so we do NOT double-decorate.
    let mut of = ObjectFile::empty(false);
    of.add_function(b"_chkstk", &[0xC3]);

    let names = written_symbol_names(of);
    assert!(
        names.iter().any(|n| n == b"_chkstk"),
        "expected `_chkstk` in symbol table, got: {:?}",
        names,
    );
    assert!(
        !names.iter().any(|n| n == b"__chkstk"),
        "`__chkstk` (double `_`) must NOT appear, got: {:?}",
        names,
    );
}

#[test]
fn dll_export_with_underscore_is_left_alone_in_obj() {
    // PDB `_GSH2Destroy` (DLL export whose
    // Public name kept its `_`) must stay `_GSH2Destroy` in the .obj,
    // NOT become `__GSH2Destroy`.
    let mut of = ObjectFile::empty(false);
    of.add_function(b"_GSH2Destroy", &[0xC3]);

    let names = written_symbol_names(of);
    assert!(
        names.iter().any(|n| n == b"_GSH2Destroy"),
        "expected `_GSH2Destroy` in symbol table, got: {:?}",
        names,
    );
    assert!(
        !names.iter().any(|n| n == b"__GSH2Destroy"),
        "`__GSH2Destroy` (double `_`) must NOT appear, got: {:?}",
        names,
    );
}

#[test]
fn stripped_and_unstripped_forms_of_same_name_produce_same_obj_symbol() {
    // The PDB can give us either
    // `GSH2Destroy` (Procedure symbol, no `_`) or `_GSH2Destroy`
    // (Public symbol, with `_`) for the *same* function. Whichever we
    // see, the .obj symbol must come out as `_GSH2Destroy` so it matches
    // the base compile.
    let mut of_a = ObjectFile::empty(false);
    of_a.add_function(b"GSH2Destroy", &[0xC3]);
    let mut of_b = ObjectFile::empty(false);
    of_b.add_function(b"_GSH2Destroy", &[0xC3]);

    let names_a = written_symbol_names(of_a);
    let names_b = written_symbol_names(of_b);

    assert!(names_a.iter().any(|n| n == b"_GSH2Destroy"),
        "stripped form `GSH2Destroy` should decorate to `_GSH2Destroy`, got: {:?}", names_a);
    assert!(names_b.iter().any(|n| n == b"_GSH2Destroy"),
        "un-stripped form `_GSH2Destroy` should stay `_GSH2Destroy`, got: {:?}", names_b);
    // And neither should produce the double-underscored form.
    assert!(!names_a.iter().any(|n| n == b"__GSH2Destroy"),
        "stripped form must NOT produce `__GSH2Destroy`, got: {:?}", names_a);
    assert!(!names_b.iter().any(|n| n == b"__GSH2Destroy"),
        "un-stripped form must NOT produce `__GSH2Destroy`, got: {:?}", names_b);
}

#[test]
fn mangled_cpp_survives_unchanged_in_obj() {
    let mut of = ObjectFile::empty(false);
    of.add_function(b"?foo@@YAXXZ", &[0xC3]);

    let names = written_symbol_names(of);
    assert!(
        names.iter().any(|n| n == b"?foo@@YAXXZ"),
        "expected `?foo@@YAXXZ` unchanged in symbol table, got: {:?}",
        names,
    );
    assert!(
        !names.iter().any(|n| n == b"_?foo@@YAXXZ"),
        "mangled name must NOT be prefixed with `_`, got: {:?}",
        names,
    );
}

#[test]
fn mangled_cpp_member_function_survives_unchanged_in_obj() {
    let mut of = ObjectFile::empty(false);
    of.add_function(b"?bar@Foo@@QAEXXZ", &[0xC3]);

    let names = written_symbol_names(of);
    assert!(
        names.iter().any(|n| n == b"?bar@Foo@@QAEXXZ"),
        "expected `?bar@Foo@@QAEXXZ` unchanged in symbol table, got: {:?}",
        names,
    );
}

#[test]
fn fastcall_survives_unchanged_in_obj() {
    let mut of = ObjectFile::empty(false);
    of.add_function(b"@foo@4", &[0xC3]);

    let names = written_symbol_names(of);
    assert!(
        names.iter().any(|n| n == b"@foo@4"),
        "expected `@foo@4` unchanged in symbol table, got: {:?}",
        names,
    );
    assert!(
        !names.iter().any(|n| n == b"_@foo@4"),
        "fastcall name must NOT be prefixed with `_`, got: {:?}",
        names,
    );
}

#[test]
fn mixed_object_decorates_only_extern_c() {
    // Object file containing all five cases at once - proves the rule
    // doesn't bleed across symbols.
    let mut of = ObjectFile::empty(false);
    of.add_function(b"cdecl_foo", &[0xC3]);
    of.add_function(b"stdcall_foo@4", &[0xC3]);
    of.add_function(b"?cpp_foo@@YAXXZ", &[0xC3]);
    of.add_function(b"@fastcall_foo@4", &[0xC3]);
    // DLL-export-style name that already has its `_`:
    of.add_function(b"_GSH2Destroy", &[0xC3]);

    let names = written_symbol_names(of);

    // extern "C" cdecl: decorated.
    assert!(names.iter().any(|n| n == b"_cdecl_foo"),
        "cdecl_foo should be decorated, got: {:?}", names);
    // extern "C" stdcall: decorated (underscore before `@4`).
    assert!(names.iter().any(|n| n == b"_stdcall_foo@4"),
        "stdcall_foo@4 should be decorated, got: {:?}", names);
    // mangled C++: unchanged.
    assert!(names.iter().any(|n| n == b"?cpp_foo@@YAXXZ"),
        "cpp_foo should be unchanged, got: {:?}", names);
    // fastcall: unchanged.
    assert!(names.iter().any(|n| n == b"@fastcall_foo@4"),
        "fastcall_foo@4 should be unchanged, got: {:?}", names);
    // DLL-export name: unchanged (NOT double-decorated).
    assert!(names.iter().any(|n| n == b"_GSH2Destroy"),
        "_GSH2Destroy should be unchanged, got: {:?}", names);

    // Negative: no bare extern "C" names leak through.
    assert!(!names.iter().any(|n| n == b"cdecl_foo"),
        "bare cdecl_foo must NOT appear, got: {:?}", names);
    assert!(!names.iter().any(|n| n == b"stdcall_foo@4"),
        "bare stdcall_foo@4 must NOT appear, got: {:?}", names);
    // Negative: no double-underscored DLL-export name.
    assert!(!names.iter().any(|n| n == b"__GSH2Destroy"),
        "__GSH2Destroy (double `_`) must NOT appear, got: {:?}", names);
}

#[test]
fn function_reference_in_reloc_uses_decorated_name() {
    // A function's *definition* and its *references* must use the same name. Build a
    // `caller` that calls `foo` via an extern reloc; both sites must end
    // up as `_foo`.
    let mut of = ObjectFile::empty(false);

    // Define `caller` whose body is `call rel32` (E8 + 4 bytes).
    let caller_offset = of.add_function(
        b"caller",
        &[0xE8, 0, 0, 0, 0],
    );
    // Add a relocation referencing `foo`. The decoration must match the
    // one `add_function` would apply, so the linker can pair them up.
    of.add_relocation(
        coff_decorate_function_name(b"foo"),
        ObjectLocation::Extern,
        ObjectOffset {
            offset: caller_offset.offset + 1, // displacement is at +1
            section_id: caller_offset.section_id,
        },
    )
    .expect("add_relocation");

    let names = written_symbol_names(of);

    // The `caller` definition was decorated to `_caller`.
    assert!(names.iter().any(|n| n == b"_caller"),
        "expected `_caller`, got: {:?}", names);
    // The relocation's extern reference to `foo` was decorated to `_foo`.
    // (The `object` crate writes external symbols as separate symbol
    // table entries, so `_foo` shows up alongside `_caller`.)
    assert!(names.iter().any(|n| n == b"_foo"),
        "expected reference `_foo`, got: {:?}", names);
    // And critically, the bare name must NOT appear anywhere - neither
    // as a definition nor as a reference.
    assert!(!names.iter().any(|n| n == b"foo"),
        "bare `foo` must NOT appear (would break linker resolution), got: {:?}",
        names,
    );
    assert!(!names.iter().any(|n| n == b"caller"),
        "bare `caller` must NOT appear, got: {:?}", names);
}
