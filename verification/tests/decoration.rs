//! The underscore rule, name by name.
use delinker::decoration::coff_decorate_function_name;
use delinker::decoration::{classify_function_name, DecorationTally, NameClass};

// ---- decoration branch: names that DO get a `_` prepended ----

#[test]
fn cdecl_plain_name_gets_underscore() {
    // Source `extern "C" void foo()` -> PDB public `foo` (stripped)
    // -> .obj `_foo`.
    assert_eq!(coff_decorate_function_name(b"foo"), b"_foo");
}

#[test]
fn stdcall_name_gets_underscore_before_at_suffix() {
    // Source `extern "C" void __stdcall foo(int)` -> PDB public `foo@4`
    // (linker strips the cdecl underscore, keeps the `@4`) -> .obj `_foo@4`.
    assert_eq!(coff_decorate_function_name(b"foo@4"), b"_foo@4");
}

#[test]
fn internal_function_procedure_name_gets_underscore() {
    // An internal function seen only via its Procedure symbol is recorded
    // without a leading `_`. It gets one.
    assert_eq!(
        coff_decorate_function_name(b"InitGLSL130TextureFunctions_1"),
        b"_InitGLSL130TextureFunctions_1",
    );
}

// ---- leave-alone branch: names that already start with `_` ----

#[test]
fn dll_export_with_underscore_is_left_alone() {
    // `_GSH2Destroy` in the PDB (a DLL
    // export whose Public name kept its `_`) must NOT become
    // `__GSH2Destroy`. The base `cl.exe` compile emits `_GSH2Destroy`,
    // so the delinked target must too.
    assert_eq!(coff_decorate_function_name(b"_GSH2Destroy"), b"_GSH2Destroy");
}

#[test]
fn dll_export_family_is_left_alone() {
    // Real names from shaderUtilsD.pdb - all DLL exports whose Public
    // symbol retained the leading `_`. All must stay single-underscored.
    for name in [
        &b"_GSH2Initialize"[..],
        &b"_GSH2CompileProgram"[..],
        &b"_GSH2DestroyGX2Program"[..],
        &b"_GSH2CalcFetchShaderSizeEx"[..],
        &b"_GX2GetAttribFormatBits"[..],
    ] {
        assert_eq!(coff_decorate_function_name(name), name);
    }
}

#[test]
fn intrinsic_with_underscore_is_left_alone() {
    // `_chkstk` is a compiler intrinsic declared with `_` in source.
    // The PDB records it as `_chkstk`. We leave it alone - adding
    // another `_` would give `__chkstk`, which only matches a base
    // compile of source `_chkstk` if the compiler also doubled it, and
    // for intrinsics it doesn't.
    assert_eq!(coff_decorate_function_name(b"_chkstk"), b"_chkstk");
}

#[test]
fn double_underscore_intrinsic_is_left_alone() {
    // Same rule for `__security_check_cookie`-style names: they already
    // start with `_`, so leave them alone.
    assert_eq!(
        coff_decorate_function_name(b"__security_check_cookie"),
        b"__security_check_cookie",
    );
}

#[test]
fn import_thunk_with_underscore_is_left_alone() {
    // Import load thunks like `__imp_load_X` already carry their leading
    // `_`; do not double-decorate.
    assert_eq!(
        coff_decorate_function_name(b"__imp_load_CreateFileA@4"),
        b"__imp_load_CreateFileA@4",
    );
}

// ---- leave-alone branch: mangled C++ and fastcall ----

#[test]
fn mangled_cpp_name_is_left_alone() {
    let mangled = b"?foo@@YAXH@Z";
    assert_eq!(coff_decorate_function_name(mangled), mangled);
}

#[test]
fn mangled_cpp_member_name_is_left_alone() {
    let mangled = b"?bar@Foo@@QAEXXZ";
    assert_eq!(coff_decorate_function_name(mangled), mangled);
}

#[test]
fn fastcall_name_is_left_alone() {
    let fastcall = b"@foo@4";
    assert_eq!(coff_decorate_function_name(fastcall), fastcall);
}

// ---- defensive / boundary ----

#[test]
fn empty_name_is_decorated_to_single_underscore() {
    // Should not happen in practice, but the helper must not panic on
    // an empty slice. An empty name has no first byte, so it falls into
    // the "needs decoration" branch and becomes a single `_`.
    assert_eq!(coff_decorate_function_name(b""), b"_");
}

#[test]
fn classification_is_pure_in_first_byte() {
    // Sanity sweep: the verdict depends ONLY on the first byte.
    //
    // Left alone - starts with `?`, `@`, or `_`:
    for left_alone in [
        &b"?"[..],
        &b"?x"[..],
        &b"?foo@@YAXXZ"[..],
        &b"@"[..],
        &b"@foo@0"[..],
        &b"_"[..],
        &b"_x"[..],
        &b"_foo"[..],
        &b"__foo"[..],
        &b"_foo@4"[..],
        &b"_GSH2Destroy"[..],
        &b"_chkstk"[..],
    ] {
        assert_eq!(coff_decorate_function_name(left_alone), left_alone);
    }
    // Decorated - does not start with `?`, `@`, or `_`:
    for (input, expected) in [
        (&b"a"[..], &b"_a"[..]),
        (&b"foo"[..], &b"_foo"[..]),
        (&b"foo@8"[..], &b"_foo@8"[..]),
        (&b"GSH2Destroy"[..], &b"_GSH2Destroy"[..]),
        (&b"InitGLSL130TextureFunctions_1"[..], &b"_InitGLSL130TextureFunctions_1"[..]),
        (&b""[..], &b"_"[..]),
    ] {
        assert_eq!(coff_decorate_function_name(input), expected);
    }
}

#[test]
fn output_always_has_exactly_one_leading_underscore_for_cdecl() {
    // For an `extern "C"` cdecl name, regardless
    // of whether the PDB gave us the stripped or un-stripped form, the
    // .obj output has exactly ONE leading `_`.
    //
    //   PDB `GSH2Destroy`   (Procedure, stripped)  -> `_GSH2Destroy`
    //   PDB `_GSH2Destroy`  (Public, un-stripped)  -> `_GSH2Destroy`
    //
    // Both forms produce the same .obj name. That's what makes the
    // delinked target match the `cl.exe`-compiled base for both
    // internal and exported `extern "C"` functions.
    assert_eq!(coff_decorate_function_name(b"GSH2Destroy"),  b"_GSH2Destroy");
    assert_eq!(coff_decorate_function_name(b"_GSH2Destroy"), b"_GSH2Destroy");
    // And critically, neither produces `__GSH2Destroy`.
    assert_ne!(coff_decorate_function_name(b"_GSH2Destroy"), b"__GSH2Destroy");
}

// ---- classes and tallies ----

#[test]
fn class_goes_by_the_first_byte() {
    assert_eq!(classify_function_name(b""), NameClass::Bare);
    assert_eq!(classify_function_name(b"foo"), NameClass::Bare);
    assert_eq!(classify_function_name(b"_foo"), NameClass::Underscored);
    assert_eq!(classify_function_name(b"?foo"), NameClass::Mangled);
    assert_eq!(classify_function_name(b"@foo"), NameClass::Mangled);
}

#[test]
fn decorating_twice_is_decorating_once() {
    for name in [&b""[..], &b"foo"[..], &b"_foo"[..], &b"?foo"[..], &b"@foo"[..]] {
        let once = coff_decorate_function_name(name);
        assert_eq!(coff_decorate_function_name(&once), once);
    }
}

#[test]
fn tally_counts_each_class() {
    let mut tally = DecorationTally::new();
    assert_eq!(tally, DecorationTally { decorated: 0, underscored: 0, mangled: 0 });
    tally.record(b"foo");
    tally.record(b"");
    tally.record(b"_foo");
    tally.record(b"?foo");
    tally.record(b"@foo");
    tally.record(b"?bar");
    assert_eq!(tally, DecorationTally { decorated: 2, underscored: 1, mangled: 3 });
}

#[test]
fn decorating_with_a_tally_counts() {
    let mut tally = DecorationTally::new();
    assert_eq!(tally.decorate(b"foo"), b"_foo");
    assert_eq!(tally.decorate(b"_foo"), b"_foo");
    assert_eq!(tally.decorate(b"?foo"), b"?foo");
    assert_eq!(tally.decorate(b"@foo"), b"@foo");
    assert_eq!(tally, DecorationTally { decorated: 1, underscored: 1, mangled: 2 });
}

#[test]
fn tally_starts_over_behind_the_largest_number() {
    let mut tally = DecorationTally { decorated: usize::MAX, underscored: 7, mangled: 0 };
    tally.record(b"foo");
    assert_eq!(tally, DecorationTally { decorated: 0, underscored: 7, mangled: 0 });
    let other = DecorationTally { decorated: 1, underscored: usize::MAX, mangled: 2 };
    assert_eq!(
        tally.merge(&other),
        DecorationTally { decorated: 1, underscored: 6, mangled: 2 },
    );
}
