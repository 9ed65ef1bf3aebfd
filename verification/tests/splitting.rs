//! Whole images, split into object files and written.
use delinker::code::Env;
use delinker::decoration::DecorationTally;
use delinker::modules::{FunctionSymbol, Module, ModuleSymbol, ModuleSymbols};
use delinker::object_file::{ObjectError, ObjectFile, ObjectLocation, ObjectOffset};
use delinker::keys::path_of_output;
use delinker::object_files::{ObjectFiles, OutputFile};
use delinker::relocs::{RelocKind, RelocTable};
use delinker::splitting::ParseError;
use delinker::symbols::PdbSymbols;
use object::read::{Object as _, ObjectSection as _, ObjectSymbol as _};
use std::collections::HashSet;

const ENV: Env = Env { image_base: 0x400000, text_rva: 0x1000 };

fn function(name: &[u8], offset: u32, len: u32, source: &[u8]) -> ModuleSymbol {
    ModuleSymbol::Procedure(FunctionSymbol {
        name: name.to_vec(),
        offset,
        len,
        source: Some(source.to_vec()),
    })
}

fn module(object_file_name: &[u8], symbols: Vec<ModuleSymbol>) -> Module {
    Module {
        object_file_name: object_file_name.to_vec(),
        symbols: ModuleSymbols::Present(symbols),
    }
}

fn parse(
    modules: Vec<Module>,
    symbols: &PdbSymbols,
    image: &[u8],
    relocs: RelocTable<'_>,
) -> Result<Vec<OutputFile>, ParseError> {
    Ok(ObjectFiles::parse(&ENV, &modules, symbols, image, relocs, false)?.write())
}

fn image_of_the_file<'a>(files: &'a [OutputFile], path: &str) -> &'a [u8] {
    let file = files.iter().find(|f| f.path == path).expect("no such file");
    file.image.as_ref().expect("not writable")
}

fn section(image: &[u8], name: &str) -> Vec<u8> {
    let file = object::read::File::parse(image).expect("object parse");
    let section = file.section_by_name(name).expect("no such section");
    section.data().expect("no data").to_vec()
}

/// The relocations of a section: where they are, and the names they refer to.
fn relocations(image: &[u8], name: &str) -> Vec<(u64, String)> {
    let file = object::read::File::parse(image).expect("object parse");
    let section = file.section_by_name(name).expect("no such section");
    let mut r = Vec::new();
    for (offset, relocation) in section.relocations() {
        match relocation.target() {
            object::RelocationTarget::Symbol(index) => {
                let symbol = file.symbol_by_index(index).expect("no such symbol");
                r.push((offset, symbol.name().expect("no name").to_string()));
            }
            _ => panic!("not a symbol"),
        }
    }
    r
}

/// The symbols of an object file: names, and where they are.
fn defined(image: &[u8]) -> Vec<(String, u64)> {
    let file = object::read::File::parse(image).expect("object parse");
    file.symbols()
        .filter(|s| s.is_definition())
        .map(|s| (s.name().expect("no name").to_string(), s.address()))
        .collect()
}

fn image_with(code: &[(usize, &[u8])]) -> Vec<u8> {
    let mut image = vec![0u8; 0x2000];
    for (rva, bytes) in code {
        image[*rva..*rva + bytes.len()].copy_from_slice(bytes);
    }
    image
}

#[test]
fn functions_go_to_the_files_of_their_sources() {
    let image = image_with(&[(0x1000, &[0xE8, 0x0B, 0, 0, 0, 0xC3]), (0x1010, &[0xC3])]);
    let mut symbols = PdbSymbols::new();
    symbols.insert(0x1010, b"callee".to_vec());
    let modules = vec![module(
        b"c:\\out\\game.lib",
        vec![
            function(b"caller", 0, 6, b"c:/src/a/one.cpp"),
            ModuleSymbol::Other,
            function(b"?", 0x10, 1, b"c:/src/b/two.cpp"),
        ],
    )];
    let files = parse(modules, &symbols, &image, RelocTable::new()).unwrap();
    assert_eq!(files.len(), 2);

    let one = image_of_the_file(&files, "game/a/one.cpp.obj");
    assert_eq!(section(one, ".text"), vec![0xE8, 0, 0, 0, 0, 0xC3, 0x90, 0x90]);
    assert_eq!(relocations(one, ".text"), vec![(1, "_callee".to_string())]);
    assert!(defined(one).contains(&("_caller".to_string(), 0)));

    // The name known for the address wins over that of the symbol.
    let two = image_of_the_file(&files, "game/b/two.cpp.obj");
    assert_eq!(section(two, ".text"), vec![0xC3, 0x90, 0x90, 0x90]);
    assert!(defined(two).contains(&("_callee".to_string(), 0)));
    assert!(relocations(two, ".text").is_empty());
}

#[test]
fn functions_of_one_source_share_a_file() {
    let image = image_with(&[(0x1000, &[1, 2, 3, 4, 5]), (0x1010, &[6])]);
    let modules = vec![
        module(b"game.lib", vec![function(b"f", 0, 5, b"c:\\src\\x\\one.cpp")]),
        module(
            b"GAME.lib",
            vec![function(b"other", 0, 1, b"d:\\y\\z.cpp")],
        ),
        module(
            b"game.lib",
            vec![
                ModuleSymbol::Thunk(FunctionSymbol {
                    name: b"g".to_vec(),
                    offset: 0x10,
                    len: 1,
                    source: Some(b"c:\\src\\x\\one.cpp".to_vec()),
                }),
                function(b"h", 0x10, 1, b"c:\\src\\y\\two.cpp"),
            ],
        ),
    ];
    let files = parse(modules, &PdbSymbols::new(), &image, RelocTable::new()).unwrap();
    let paths: Vec<&str> = files.iter().map(|f| f.path.as_str()).collect();
    assert_eq!(paths, vec!["game/x/one.cpp.obj", "GAME/z.cpp.obj", "game/y/two.cpp.obj"]);
    let one = image_of_the_file(&files, "game/x/one.cpp.obj");
    assert_eq!(
        section(one, ".text"),
        vec![1, 2, 3, 4, 5, 0x90, 0x90, 0x90, 6, 0x90, 0x90, 0x90],
    );
    let symbols = defined(one);
    assert!(symbols.contains(&("_f".to_string(), 0)));
    assert!(symbols.contains(&("_g".to_string(), 8)));
}

#[test]
fn headers_and_unknown_sources_are_left_out() {
    let image = image_with(&[]);
    let modules = vec![module(
        b"game.lib",
        vec![
            function(b"f", 0, 1, b"c:\\src\\x.h"),
            ModuleSymbol::Procedure(FunctionSymbol {
                name: b"g".to_vec(),
                offset: 0,
                len: 1,
                source: None,
            }),
            // Not even looked at, though it lies outside the image.
            function(b"h", 0xFFFF_FFFF, 0xFFFF_FFFF, b"c:\\src\\x.inl"),
        ],
    )];
    let files = parse(modules, &PdbSymbols::new(), &image, RelocTable::new()).unwrap();
    assert!(files.is_empty());
}

#[test]
fn system_libraries_are_left_out() {
    let image = image_with(&[]);
    let modules = vec![
        module(b"c:\\LIBCMT.lib", vec![function(b"f", 0, 1, b"f:\\dd\\vctools\\x.c")]),
        Module { object_file_name: b"kernel32.lib".to_vec(), symbols: ModuleSymbols::Unreadable },
        Module { object_file_name: b"game.lib".to_vec(), symbols: ModuleSymbols::Missing },
    ];
    let files = parse(modules, &PdbSymbols::new(), &image, RelocTable::new()).unwrap();
    assert!(files.is_empty());
}

#[test]
fn unreadable_modules_are_refused() {
    let image = image_with(&[]);
    let modules = vec![
        module(b"game.lib", vec![function(b"f", 0, 1, b"c:\\x.cpp")]),
        Module { object_file_name: b"more.lib".to_vec(), symbols: ModuleSymbols::Unreadable },
    ];
    let r = parse(modules, &PdbSymbols::new(), &image, RelocTable::new());
    assert_eq!(r.err(), Some(ParseError::UnreadableModule { module: 1 }));
}

#[test]
fn functions_outside_the_image_are_refused() {
    let image = image_with(&[]);
    for (offset, len) in [(0xFFF, 2), (0x1000, 1), (u32::MAX, u32::MAX), (0, 0x1001)] {
        let modules = vec![module(
            b"game.lib",
            vec![ModuleSymbol::Other, function(b"f", offset, len, b"c:\\x.cpp")],
        )];
        let r = parse(modules, &PdbSymbols::new(), &image, RelocTable::new());
        assert_eq!(r.err(), Some(ParseError::MalformedFunction { module: 0, symbol: 1 }));
    }
    let modules = vec![module(b"game.lib", vec![function(b"f", 0xFFF, 1, b"c:\\x.cpp")])];
    assert!(parse(modules, &PdbSymbols::new(), &image, RelocTable::new()).is_ok());
}

#[test]
fn contradicting_references_are_refused() {
    let image = image_with(&[(0x1000, &[0xE8, 0x0B, 0, 0, 0])]);
    let mut symbols = PdbSymbols::new();
    symbols.insert(0x1010, b"callee".to_vec());
    let modules = || vec![module(b"game.lib", vec![function(b"f", 0, 5, b"c:\\x.cpp")])];
    let refused = Some(ParseError::MalformedFunction { module: 0, symbol: 0 });

    let mut relocs = RelocTable::new();
    relocs.insert(0x1001, RelocKind::Static { symbol: b"s", target_rva: 0 });
    assert_eq!(parse(modules(), &symbols, &image, relocs).err(), refused);

    let mut relocs = RelocTable::new();
    relocs.insert(0x1001, RelocKind::Function { rva: 0x1020, name: b"callee" });
    assert_eq!(parse(modules(), &symbols, &image, relocs).err(), refused);

    let mut relocs = RelocTable::new();
    relocs.insert(0x1001, RelocKind::Function { rva: 0x1010, name: b"other" });
    assert_eq!(parse(modules(), &symbols, &image, relocs).err(), refused);

    let mut relocs = RelocTable::new();
    relocs.insert(0x1001, RelocKind::Function { rva: 0x1010, name: b"callee" });
    assert!(parse(modules(), &symbols, &image, relocs).is_ok());
}

#[test]
fn references_without_name_or_data_are_refused() {
    let image = image_with(&[]);
    let modules = || vec![module(b"game.lib", vec![function(b"f", 0, 8, b"c:\\x.cpp")])];
    let refused = Some(ParseError::MalformedFunction { module: 0, symbol: 0 });

    let mut relocs = RelocTable::new();
    relocs.insert(0x1007, RelocKind::ConstantString { symbol: b"x", data: b"x" });
    assert_eq!(parse(modules(), &PdbSymbols::new(), &image, relocs).err(), refused);

    let mut relocs = RelocTable::new();
    relocs.insert(0x1000, RelocKind::Constant { symbol: b"c", target_rva: 0x1FFD });
    assert_eq!(parse(modules(), &PdbSymbols::new(), &image, relocs).err(), refused);

    // Behind the function, nobody looks.
    let mut relocs = RelocTable::new();
    relocs.insert(0x1008, RelocKind::Constant { symbol: b"c", target_rva: 0x1FFD });
    assert!(parse(modules(), &PdbSymbols::new(), &image, relocs).is_ok());
}

#[test]
fn functions_can_be_held_by_two_modules() {
    let image = image_with(&[(0x1000, &[0xE8, 0x0B, 0, 0, 0])]);
    let mut symbols = PdbSymbols::new();
    symbols.insert(0x1010, b"callee".to_vec());
    let modules = vec![
        module(b"a.lib", vec![function(b"f", 0, 5, b"c:\\x.cpp")]),
        module(b"b.lib", vec![function(b"f", 0, 5, b"c:\\x.cpp")]),
    ];
    let files = parse(modules, &symbols, &image, RelocTable::new()).unwrap();
    for path in ["a/x.cpp.obj", "b/x.cpp.obj"] {
        let file = image_of_the_file(&files, path);
        assert_eq!(relocations(file, ".text"), vec![(1, "_callee".to_string())]);
    }
}

#[test]
fn data_is_brought_along_with_what_it_refers_to() {
    let image = image_with(&[
        (0x1000, &[0x90; 12]),
        (0x1800, &[1, 2, 3, 4]),
        (0x1900, &[5, 6, 7, 8]),
    ]);
    let mut relocs = RelocTable::new();
    relocs.insert(0x1002, RelocKind::Constant { symbol: b"c", target_rva: 0x1800 });
    relocs.insert(0x1008, RelocKind::ConstantString { symbol: b"??_C@_0x", data: b"hello\0" });
    // The data leads back to itself.
    relocs.insert(0x1800, RelocKind::Static { symbol: b"s", target_rva: 0x1900 });
    relocs.insert(0x1900, RelocKind::Constant { symbol: b"c", target_rva: 0x1800 });
    let modules = vec![module(b"game.lib", vec![function(b"f", 0, 12, b"c:\\x.cpp")])];
    let files = parse(modules, &PdbSymbols::new(), &image, relocs).unwrap();
    let file = image_of_the_file(&files, "game/x.cpp.obj");

    assert_eq!(section(file, ".text"), vec![0x90; 12]);
    assert_eq!(section(file, ".rdata"), b"\x01\x02\x03\x04\x01\x02\x03\x04hello\0\0\0");
    assert_eq!(section(file, ".data"), vec![5, 6, 7, 8]);
    assert_eq!(
        relocations(file, ".text"),
        vec![(2, "c".to_string()), (8, "hello_".to_string())],
    );
    assert_eq!(relocations(file, ".rdata"), vec![(0, "s".to_string())]);
    assert_eq!(relocations(file, ".data"), vec![(0, "c".to_string())]);
    let symbols = defined(file);
    assert!(symbols.contains(&("hello_".to_string(), 8)));
    assert!(symbols.contains(&("c".to_string(), 0)));
    assert!(symbols.contains(&("c".to_string(), 4)));
}

#[test]
fn visited_addresses_are_not_followed() {
    let image = image_with(&[(0x1800, &[1, 2, 3, 4])]);
    let mut relocs = RelocTable::new();
    relocs.insert(0x1800, RelocKind::Constant { symbol: b"c", target_rva: 0x1800 });
    let start = RelocKind::Constant { symbol: b"c", target_rva: 0x1800 };

    let mut file = ObjectFile::empty(false);
    let at = file.add_function(b"f", &[0x90; 4]);
    let mut visited = HashSet::new();
    file.add_relocation_at(start, at, &image, &relocs, &mut visited).unwrap();
    assert_eq!(visited, HashSet::from([0x1800]));
    assert_eq!(section(&file.to_bytes().unwrap(), ".rdata").len(), 8);
    file.add_relocation_at(start, at, &image, &relocs, &mut visited).unwrap();
    assert_eq!(visited, HashSet::from([0x1800]));
    assert_eq!(section(&file.to_bytes().unwrap(), ".rdata").len(), 12);
}

#[test]
fn unused_bytes_come_first_on_request() {
    let plain = ObjectFile::empty(false).to_bytes().unwrap();
    let padded = ObjectFile::empty(true).to_bytes().unwrap();
    assert_eq!(section(&plain, ".rdata"), vec![]);
    assert_eq!(section(&padded, ".rdata"), vec![0, 0, 0, 0]);
    for image in [&plain, &padded] {
        let file = object::read::File::parse(&**image).unwrap();
        assert_eq!(file.format(), object::BinaryFormat::Coff);
        assert_eq!(file.architecture(), object::Architecture::I386);
        let names: Vec<&str> = file.sections().map(|s| s.name().unwrap()).collect();
        assert_eq!(names, vec![".data", ".rdata", ".text"]);
        let kinds: Vec<object::SectionKind> = file.sections().map(|s| s.kind()).collect();
        assert_eq!(
            kinds,
            vec![
                object::SectionKind::Data,
                object::SectionKind::ReadOnlyData,
                object::SectionKind::Text,
            ],
        );
    }
    let align = |image: &[u8]| {
        let file = object::read::File::parse(image).unwrap();
        file.section_by_name(".rdata").unwrap().align()
    };
    assert_eq!(align(&plain), 1);
    assert_eq!(align(&padded), 4);
}

#[test]
fn sections_are_filled_to_words() {
    for (len, size) in [(0, 0), (1, 4), (2, 4), (3, 4), (4, 4), (5, 8)] {
        let mut file = ObjectFile::empty(false);
        let body: Vec<u8> = (1..=len).collect();
        let at = file.append_section_data(file.data_section_id, &body, 0xAA);
        assert_eq!(at.offset, 0);
        let mut want = body.clone();
        want.resize(size, 0xAA);
        assert_eq!(section(&file.to_bytes().unwrap(), ".data"), want);
        let next = file.append_section_data(file.data_section_id, &[9], 0);
        assert_eq!(next.offset, size as u64);
    }
}

#[test]
fn offsets_move_within_their_section() {
    let mut file = ObjectFile::empty(false);
    file.add_function(b"f", &[0x90; 4]);
    let at = file.add_function(b"g", &[0x90; 4]);
    let moved = at + 3;
    assert_eq!((at.offset, moved.offset), (4, 7));
    assert_eq!(moved.section_id, at.section_id);
}

#[test]
fn symbols_are_of_the_kind_of_their_section() {
    let mut file = ObjectFile::empty(false);
    let at = file.add_function(b"f", &[0x90; 8]);
    let data = file.append_section_data(file.data_section_id, &[1, 2, 3, 4], 0);
    let code = ObjectOffset { offset: 4, section_id: file.text_section_id };
    file.add_relocation(b"d".to_vec(), ObjectLocation::Offset(data), at).unwrap();
    file.add_relocation(b"t".to_vec(), ObjectLocation::Offset(code), at + 4).unwrap();
    file.add_relocation(b"e".to_vec(), ObjectLocation::Extern, data).unwrap();
    let image = file.to_bytes().unwrap();
    let parsed = object::read::File::parse(&*image).unwrap();
    let symbol = |name: &str| parsed.symbols().find(|s| s.name() == Ok(name)).unwrap();
    assert_eq!(symbol("_f").kind(), object::SymbolKind::Text);
    assert_eq!(symbol("d").kind(), object::SymbolKind::Data);
    assert_eq!(symbol("t").kind(), object::SymbolKind::Text);
    assert_eq!(symbol("t").address(), 4);
    assert!(symbol("e").is_undefined());
    assert!(symbol("e").is_global());
    assert_eq!(
        relocations(&image, ".text"),
        vec![(0, "d".to_string()), (4, "t".to_string())],
    );
    assert_eq!(relocations(&image, ".data"), vec![(0, "e".to_string())]);
}

#[test]
fn relocations_are_relative_words() {
    let mut file = ObjectFile::empty(false);
    let at = file.add_function(b"f", &[0xE8, 0, 0, 0, 0]);
    file.add_relocation(b"_g".to_vec(), ObjectLocation::Extern, at + 1).unwrap();
    let image = file.to_bytes().unwrap();
    // Nothing is stored where the distance goes.
    assert_eq!(section(&image, ".text"), vec![0xE8, 0, 0, 0, 0, 0x90, 0x90, 0x90]);
    let parsed = object::read::File::parse(&*image).unwrap();
    let text = parsed.section_by_name(".text").unwrap();
    let (offset, relocation) = text.relocations().next().unwrap();
    assert_eq!(offset, 1);
    assert_eq!(relocation.kind(), object::RelocationKind::Relative);
    assert_eq!(relocation.size(), 32);
    assert_eq!(relocation.flags(), object::RelocationFlags::Coff { typ: 0x14 });
}

#[test]
fn long_names_cannot_hold_zero_bytes() {
    let mut file = ObjectFile::empty(false);
    file.add_function(b"a\0b", &[0xC3]);
    assert!(file.to_bytes().is_ok());
    file.add_function(b"a\0bcdefgh", &[0xC3]);
    assert_eq!(file.to_bytes(), Err(ObjectError::Unwritable));
    // It does not come right later.
    file.add_function(b"fine", &[0xC3]);
    assert_eq!(file.to_bytes(), Err(ObjectError::Unwritable));
}

#[test]
fn output_paths_have_slashes_and_an_extension() {
    assert_eq!(path_of_output(b"game\\a\\x.cpp"), "game/a/x.cpp.obj");
    assert_eq!(path_of_output(b""), ".obj");
    assert_eq!(path_of_output(b"\xe9"), "\u{e9}.obj");
}

#[test]
fn unwritable_object_files_keep_their_place() {
    let image = image_with(&[]);
    let modules = vec![module(
        b"game.lib",
        vec![
            function(b"\0123456789", 0, 1, b"c:\\s\\x.cpp"),
            function(b"fine", 0, 1, b"c:\\s\\y.cpp"),
        ],
    )];
    let files = parse(modules, &PdbSymbols::new(), &image, RelocTable::new()).unwrap();
    assert_eq!(files[0].path, "game/x.cpp.obj");
    assert_eq!(files[0].image, Err(ObjectError::Unwritable));
    assert_eq!(files[1].path, "game/y.cpp.obj");
    assert!(files[1].image.is_ok());
}

#[test]
fn decorations_are_counted_over_all_files() {
    let image = image_with(&[(0x1000, &[0xE8, 0x0B, 0, 0, 0]), (0x1010, &[0xC3])]);
    let mut symbols = PdbSymbols::new();
    symbols.insert(0x1010, b"?callee@@YAXXZ".to_vec());
    let modules = vec![module(
        b"game.lib",
        vec![
            function(b"caller", 0, 5, b"c:\\s\\x.cpp"),
            function(b"callee", 0x10, 1, b"c:\\s\\y.cpp"),
            function(b"_third", 0x20, 1, b"c:\\s\\y.cpp"),
        ],
    )];
    let files =
        ObjectFiles::parse(&ENV, &modules, &symbols, &image, RelocTable::new(), true).unwrap();
    // The reference counts, and so does the definition.
    assert_eq!(
        files.decorations(),
        DecorationTally { decorated: 1, underscored: 1, mangled: 2 },
    );
}

#[test]
fn directories_that_hold_one_directory_are_dropped() {
    let image = image_with(&[]);
    let modules = vec![
        module(
            b"game.lib",
            vec![
                function(b"a", 0, 1, b"c:\\p\\game\\one.cpp"),
                function(b"b", 0, 1, b"c:\\p\\game\\x\\two.cpp"),
                // A header has a say in the root only.
                function(b"c", 0, 1, b"c:\\p\\include\\x.h"),
                // And the primary source only in the root, too.
                function(b"d", 0, 1, b"c:\\p\\main\\gaME.cpp"),
            ],
        ),
        module(
            b"deep.lib",
            vec![
                function(b"a", 0, 1, b"c:\\p\\a\\b\\c\\one.cpp"),
                function(b"b", 0, 1, b"c:\\p\\a\\b\\c\\d\\two.cpp"),
                function(b"c", 0, 1, b"c:\\p\\x.h"),
            ],
        ),
    ];
    let files = parse(modules, &PdbSymbols::new(), &image, RelocTable::new()).unwrap();
    let paths: Vec<&str> = files.iter().map(|f| f.path.as_str()).collect();
    assert_eq!(
        paths,
        vec![
            "game/one.cpp.obj",
            "game/x/two.cpp.obj",
            "game.cpp.obj",
            "deep/one.cpp.obj",
            "deep/d/two.cpp.obj",
        ],
    );
}

#[test]
fn constants_lie_behind_the_unused_bytes() {
    let image = image_with(&[(0x1800, &[1, 2, 3, 4])]);
    let relocs = RelocTable::new();
    let constant = RelocKind::Constant { symbol: b"c", target_rva: 0x1800 };
    for (pad, at) in [(false, 0), (true, 4)] {
        let mut file = ObjectFile::empty(pad);
        let start = file.add_function(b"f", &[0x90; 4]);
        file.add_relocation_at(constant, start, &image, &relocs, &mut HashSet::new()).unwrap();
        let bytes = file.to_bytes().unwrap();
        assert!(defined(&bytes).contains(&("c".to_string(), at)));
        assert_eq!(section(&bytes, ".rdata").len() as u64, at + 4);
    }
}

#[test]
fn system_sources_below_the_only_source_count_from_its_directory() {
    let image = image_with(&[]);
    let modules = vec![module(
        b"game.lib",
        vec![
            function(b"a", 0, 1, b"c:\\one.cpp"),
            function(b"b", 0, 1, b"c:\\program files\\vc\\two.c"),
        ],
    )];
    let files = parse(modules, &PdbSymbols::new(), &image, RelocTable::new()).unwrap();
    let paths: Vec<&str> = files.iter().map(|f| f.path.as_str()).collect();
    assert_eq!(paths, vec!["game/one.cpp.obj", "game/program files/vc/two.c.obj"]);
}

#[test]
fn branch_and_definition_carry_one_name() {
    let image = image_with(&[(0x1000, &[0xE8, 0x0B, 0, 0, 0]), (0x1010, &[0xC3])]);
    let mut symbols = PdbSymbols::new();
    symbols.insert(0x1010, b"known".to_vec());
    let modules = vec![module(
        b"game.lib",
        vec![
            function(b"caller", 0, 5, b"c:\\s\\x.cpp"),
            function(b"unknown", 0x10, 1, b"c:\\s\\y.cpp"),
        ],
    )];
    let files = parse(modules, &symbols, &image, RelocTable::new()).unwrap();
    let caller = image_of_the_file(&files, "game/x.cpp.obj");
    let callee = image_of_the_file(&files, "game/y.cpp.obj");
    assert_eq!(relocations(caller, ".text"), vec![(1, "_known".to_string())]);
    assert_eq!(defined(callee), vec![("_known".to_string(), 0)]);
}

#[test]
fn table_references_carry_the_name_of_the_definition() {
    let image = image_with(&[(0x1000, &[0x90; 8]), (0x1010, &[0xC3])]);
    let mut symbols = PdbSymbols::new();
    symbols.insert(0x1010, b"known".to_vec());
    let mut relocs = RelocTable::new();
    relocs.insert(0x1002, RelocKind::Function { rva: 0x1010, name: b"known" });
    let modules = vec![module(
        b"game.lib",
        vec![
            function(b"first", 0x20, 1, b"c:\\s\\x.cpp"),
            function(b"user", 0, 8, b"c:\\s\\x.cpp"),
            function(b"unknown", 0x10, 1, b"c:\\s\\y.cpp"),
        ],
    )];
    let files = parse(modules, &symbols, &image, relocs).unwrap();
    let user = image_of_the_file(&files, "game/x.cpp.obj");
    let definition = image_of_the_file(&files, "game/y.cpp.obj");
    // The function lies behind the first one, from a multiple of four bytes on.
    assert!(defined(user).contains(&("_user".to_string(), 4)));
    assert_eq!(relocations(user, ".text"), vec![(6, "_known".to_string())]);
    assert_eq!(defined(definition), vec![("_known".to_string(), 0)]);
}

#[test]
fn object_files_are_named_like_translation_units_of_their_library() {
    let image = image_with(&[]);
    let modules = vec![module(
        b"gamed.lib",
        vec![
            function(b"a", 0, 1, b"c:\\s\\GAME.Cxx"),
            function(b"b", 0, 1, b"c:\\s\\sub\\gen.one.ASM"),
        ],
    )];
    let files = parse(modules, &PdbSymbols::new(), &image, RelocTable::new()).unwrap();
    let paths: Vec<&str> = files.iter().map(|f| f.path.as_str()).collect();
    assert_eq!(paths, vec!["game.Cxx.obj", "gamed/sub/gen.one.ASM.obj"]);
}
