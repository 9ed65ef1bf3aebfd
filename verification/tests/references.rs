//! References, chains of them, and the branches of functions.
use delinker::code::{
    apply_sites, branch_site, branch_sites, resolve_relative_relocations, sites_match,
    BranchOperand, BranchSite, DecodedInstruction, Env, FlowControl,
};
use delinker::relocs::{
    can_place, get_constant_name, is_string_symbol, Name, RelocKind, RelocTable,
};
use delinker::symbols::PdbSymbols;

const BASE: u32 = 0x400000;

fn env() -> Env {
    Env { image_base: BASE, text_rva: 0x1000 }
}

fn symbols(list: &[(usize, &[u8])]) -> PdbSymbols {
    let mut r = PdbSymbols::new();
    for (rva, name) in list {
        r.insert(*rva, name.to_vec());
    }
    r
}

fn name_at(relocs: &RelocTable, rva: usize) -> Option<(usize, Vec<u8>)> {
    match relocs.get(rva) {
        Some(RelocKind::Function { rva, name }) => Some((rva, name.to_vec())),
        _ => None,
    }
}

#[test]
fn narrow_strings_are_spelled_by_their_bytes() {
    assert_eq!(get_constant_name(b"??_C@_05ABC@", b"Hi 5!\0"), b"Hi_5__");
    assert_eq!(get_constant_name(b"??_C@_0", b""), b"");
}

#[test]
fn wide_strings_are_spelled_by_pairs() {
    assert_eq!(get_constant_name(b"??_C@_15ABC@", b"\0H\0i\0 \0\0"), b"H_i____");
    assert_eq!(get_constant_name(b"??_C@_15ABC@", b"H\0i\0\0\0"), b"_i___");
    assert_eq!(get_constant_name(b"??_C@_1", b"x"), b"");
    assert_eq!(get_constant_name(b"??_C@_1", b""), b"");
}

#[test]
fn string_symbols_are_known_by_their_start() {
    assert!(is_string_symbol(b"??_C@_0abc"));
    assert!(is_string_symbol(b"??_C@_1"));
    assert!(!is_string_symbol(b"??_C@_2"));
    assert!(!is_string_symbol(b"??_C@"));
    assert!(!is_string_symbol(b"foo"));
}

#[test]
fn names_come_from_the_reference() {
    let function = RelocKind::Function { rva: 1, name: b"f" };
    assert_eq!(function.get_name().as_raw_string(), b"f");
    let string = RelocKind::ConstantString { symbol: b"??_C@_0x", data: b"a b" };
    assert_eq!(string.get_name().as_raw_string(), b"a_b");
    let constant = RelocKind::Constant { symbol: b"__real@1", target_rva: 0 };
    assert_eq!(constant.get_name().as_raw_string(), b"__real@1");
    let variable = RelocKind::Static { symbol: b"_g", target_rva: 0 };
    assert_eq!(variable.get_name().as_raw_string(), b"_g");
    assert_eq!(Name::Owned(b"x".to_vec()).as_raw_string(), b"x");
}

#[test]
fn table_returns_what_was_put_in() {
    let mut relocs = RelocTable::new();
    assert!(relocs.get(5).is_none());
    assert!(relocs.insert(5, RelocKind::Function { rva: 9, name: b"f" }).is_none());
    assert_eq!(name_at(&relocs, 5), Some((9, b"f".to_vec())));
    let before = relocs.insert(5, RelocKind::Function { rva: 8, name: b"g" });
    assert!(matches!(before, Some(RelocKind::Function { rva: 9, .. })));
    assert_eq!(name_at(&relocs, 5), Some((8, b"g".to_vec())));
    assert!(relocs.get(4).is_none());
}

#[test]
fn symbols_return_the_last_name() {
    let mut s = symbols(&[(1, b"a"), (2, b"b")]);
    s.insert(1, b"c".to_vec());
    assert_eq!(s.get(1), Some(&b"c"[..]));
    assert_eq!(s.get(2), Some(&b"b"[..]));
    assert_eq!(s.get(3), None);
}

#[test]
fn data_must_lie_in_the_image() {
    let relocs = RelocTable::new();
    assert!(can_place(RelocKind::Constant { symbol: b"c", target_rva: 12 }, &relocs, 16));
    assert!(!can_place(RelocKind::Constant { symbol: b"c", target_rva: 13 }, &relocs, 16));
    assert!(!can_place(RelocKind::Static { symbol: b"c", target_rva: usize::MAX }, &relocs, 16));
    assert!(can_place(RelocKind::Function { rva: 99, name: b"f" }, &relocs, 16));
    assert!(can_place(RelocKind::ConstantString { symbol: b"??_C@_0", data: b"x" }, &relocs, 16));
    assert!(!can_place(RelocKind::ConstantString { symbol: b"x", data: b"x" }, &relocs, 16));
}

#[test]
fn every_link_of_a_chain_must_be_placeable() {
    let mut relocs = RelocTable::new();
    relocs.insert(0, RelocKind::Static { symbol: b"s", target_rva: 8 });
    relocs.insert(8, RelocKind::Constant { symbol: b"c", target_rva: 0 });
    let first = RelocKind::Constant { symbol: b"c", target_rva: 0 };
    // The chain leads back to its start, and ends there.
    assert!(can_place(first, &relocs, 16));
    relocs.insert(8, RelocKind::Constant { symbol: b"c", target_rva: 14 });
    assert!(!can_place(first, &relocs, 16));
}

#[test]
fn branch_targets_are_near_operands() {
    let ix = |flow, operand| DecodedInstruction { len: 5, flow, operand };
    let near = BranchOperand::Near32(7);
    assert_eq!(ix(FlowControl::Call, near).branch_target(), Some(7));
    assert_eq!(ix(FlowControl::ConditionalBranch, near).branch_target(), Some(7));
    assert_eq!(ix(FlowControl::UnconditionalBranch, near).branch_target(), Some(7));
    assert_eq!(ix(FlowControl::Other, near).branch_target(), None);
    assert_eq!(ix(FlowControl::Call, BranchOperand::Near16(3)).branch_target(), Some(3));
    assert_eq!(ix(FlowControl::Call, BranchOperand::Other).branch_target(), None);
}

#[test]
fn site_is_the_end_of_a_long_branch_out() {
    let known = symbols(&[(0x1010, b"g"), (0x1004, b"inside")]);
    let call = |va| DecodedInstruction {
        len: 5,
        flow: FlowControl::Call,
        operand: BranchOperand::Near32(va),
    };
    let site = branch_site(&call(BASE + 0x1010), 5, BASE, 0x1000, 16, &known).unwrap();
    assert_eq!((site.offset, site.rva, site.name), (1, 0x1010, &b"g"[..]));
    // Within the function.
    assert!(branch_site(&call(BASE + 0x1004), 5, BASE, 0x1000, 16, &known).is_none());
    // To nothing that is known.
    assert!(branch_site(&call(BASE + 0x1011), 5, BASE, 0x1000, 16, &known).is_none());
    // Below the image.
    assert!(branch_site(&call(BASE - 1), 5, BASE, 0x1000, 16, &known).is_none());
    // Too short for a distance of four bytes.
    let short = DecodedInstruction { len: 4, ..call(BASE + 0x1010) };
    assert!(branch_site(&short, 5, BASE, 0x1000, 16, &known).is_none());
}

#[test]
fn decoding_finds_calls_and_jumps() {
    // call +0x0b; jz +0x05; jmp short +2; ret; ret; nop; jmp -0x11.
    let code = [
        0xE8, 0x0B, 0, 0, 0, // 0x1000: call 0x1010 + 0
        0x0F, 0x84, 0x25, 0, 0, 0, // 0x1005: jz 0x1030
        0xEB, 0x02, // 0x100b: jmp short 0x100f
        0xC3, 0xC3, 0x90, // 0x100d
    ];
    let known = symbols(&[(0x1010, b"callee"), (0x1030, b"other"), (0x100f, b"self")]);
    let found = branch_sites(&env(), 0x1000, &code, &known);
    let found: Vec<(usize, usize, &[u8])> =
        found.iter().map(|s| (s.offset, s.rva, s.name)).collect();
    assert_eq!(
        found,
        vec![(1, 0x1010, &b"callee"[..]), (7, 0x1030, &b"other"[..])],
    );
}

#[test]
fn branches_of_sixteen_bits_lead_nowhere() {
    // A call with an operand-size prefix leads to the first 64 kilobytes.
    let code = [0x66, 0xE8, 0x00, 0x00, 0x90, 0xC3];
    let known = symbols(&[(0x1004, b"f"), (0x4, b"g")]);
    assert!(branch_sites(&env(), 0x1000, &code, &known).is_empty());
    // In an image that lies there, the branch is too short to hold a distance.
    let low = Env { image_base: 0, text_rva: 0 };
    assert!(branch_sites(&low, 0x1000, &code, &symbols(&[(0x1004, b"f")])).is_empty());
}

#[test]
fn cut_off_instructions_end_the_search() {
    let code = [0xE8, 0x00];
    assert!(branch_sites(&env(), 0x1000, &code, &symbols(&[])).is_empty());
    assert!(branch_sites(&env(), 0x1000, &[], &symbols(&[])).is_empty());
}

#[test]
fn applying_sites_zeroes_them_and_links_them() {
    let mut relocs = RelocTable::new();
    relocs.insert(0x1008, RelocKind::Static { symbol: b"s", target_rva: 0 });
    let found = vec![BranchSite { offset: 1, rva: 0x2000, name: b"f" }];
    let bytes = apply_sites(0x1000, &[0xE8, 1, 2, 3, 4, 0xC3], &found, &mut relocs);
    assert_eq!(bytes, vec![0xE8, 0, 0, 0, 0, 0xC3]);
    assert_eq!(name_at(&relocs, 0x1001), Some((0x2000, b"f".to_vec())));
    assert!(matches!(relocs.get(0x1008), Some(RelocKind::Static { .. })));
    assert!(relocs.get(0x1002).is_none());
}

#[test]
fn sites_match_the_function_they_lead_to() {
    let found = vec![BranchSite { offset: 1, rva: 0x2000, name: b"f" }];
    let mut relocs = RelocTable::new();
    assert!(sites_match(&relocs, 0x1000, &found));
    relocs.insert(0x1001, RelocKind::Function { rva: 0x2000, name: b"f" });
    assert!(sites_match(&relocs, 0x1000, &found));
    relocs.insert(0x1001, RelocKind::Function { rva: 0x2004, name: b"f" });
    assert!(!sites_match(&relocs, 0x1000, &found));
    relocs.insert(0x1001, RelocKind::Function { rva: 0x2000, name: b"g" });
    assert!(!sites_match(&relocs, 0x1000, &found));
    relocs.insert(0x1001, RelocKind::Static { symbol: b"f", target_rva: 0x2000 });
    assert!(!sites_match(&relocs, 0x1000, &found));
}

#[test]
fn resolving_again_gives_the_same() {
    let mut image = vec![0x90u8; 0x1100];
    image[0x1000..0x1006].copy_from_slice(&[0xE8, 0x0B, 0, 0, 0, 0xC3]);
    let known = symbols(&[(0x1010, b"callee")]);
    let mut relocs = RelocTable::new();
    relocs.insert(0x1001, RelocKind::Function { rva: 0x1010, name: b"callee" });
    relocs.insert(0x1004, RelocKind::Static { symbol: b"s", target_rva: 0 });
    let once = resolve_relative_relocations(&env(), 0x1000, 6, &known, &image, &mut relocs);
    assert_eq!(once, vec![0xE8, 0, 0, 0, 0, 0xC3]);
    assert_eq!(name_at(&relocs, 0x1001), Some((0x1010, b"callee".to_vec())));
    let twice = resolve_relative_relocations(&env(), 0x1000, 6, &known, &image, &mut relocs);
    assert_eq!(twice, once);
    assert!(matches!(relocs.get(0x1004), Some(RelocKind::Static { .. })));
    assert_eq!(name_at(&relocs, 0x1001), Some((0x1010, b"callee".to_vec())));
}
