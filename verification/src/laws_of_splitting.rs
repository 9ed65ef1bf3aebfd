//! What splitting an image up comes down to, function by function.
use crate::code::{linked, sites, sites_agree, zeroed, Env};
use crate::coff::file_image;
use crate::decoration::DecorationTally;
use crate::keys::{key_of, output_path};
use crate::laws_of_objects::{
    is_followed_by, law_chains_add_a_symbol_each, law_functions_go_behind_the_code,
};
use crate::modules::{lib_depth, lib_root, FunctionEntry, ModuleContents, ModuleEntry};
use crate::object_files::{
    image_of, total_decorations, ObjectEntry, ObjectFiles, OutputFile,
};
use crate::object_state::{ObjectState, Place};
use crate::paths::{lib_name, names_system_lib, names_translation_unit, normalised};
use crate::placement::{function_to_move, key_of_function};
use crate::relocs::Reference;
use crate::splitting::{with_references, Image, ParseError, Progress};
use crate::symbols::PdbSymbols;
use vstd::prelude::*;

verus! {

/// The image is what is handed in.
pub proof fn law_image_is_what_is_handed_in(
    env: Env,
    symbols: PdbSymbols,
    coff_data: &[u8],
    pad_empty_rdata: bool,
)
    ensures
        ({
            let image = image_of(&env, &symbols, coff_data, pad_empty_rdata);
            &&& image.image_base == env.image_base
            &&& image.text_rva == env.text_rva
            &&& image.functions == symbols@
            &&& image.bytes == coff_data@
            &&& image.pad_rdata == pad_empty_rdata
        }),
{
}

/// How many symbols the first `n` places behind `start` bring: one for each
/// reference in each of their chains.
pub open spec fn symbols_brought(relocs: Map<usize, Reference>, start: int, n: int) -> int
    decreases n,
{
    if n <= 0 {
        0
    } else {
        symbols_brought(relocs, start, n - 1) + if relocs.contains_key(
            (start + n - 1) as usize,
        ) {
            relocs[(start + n - 1) as usize].chain(relocs, Set::empty()).len() as int
        } else {
            0
        }
    }
}

/// References are added place by place, in the order of the addresses, each with
/// its own chain, at the place in the object file.
pub proof fn law_references_are_added_place_by_place(
    object: ObjectState,
    at: Place,
    relocs: Map<usize, Reference>,
    start: int,
    n: int,
    image: Seq<u8>,
)
    requires
        n >= 0,
    ensures
        with_references(object, at, relocs, start, 0, image) == object,
        !relocs.contains_key((start + n) as usize) ==> with_references(
            object,
            at,
            relocs,
            start,
            n + 1,
            image,
        ) == with_references(object, at, relocs, start, n, image),
        relocs.contains_key((start + n) as usize) ==> with_references(
            object,
            at,
            relocs,
            start,
            n + 1,
            image,
        ) == with_references(object, at, relocs, start, n, image).with_chain(
            relocs[(start + n) as usize].chain(relocs, Set::empty()),
            Place { section: at.section, offset: (at.offset + n) as u64 },
            image,
        ),
{
}

/// References bring their symbols, one for each link, and no code.
proof fn lemma_references_bring_symbols(
    object: ObjectState,
    at: Place,
    relocs: Map<usize, Reference>,
    start: int,
    n: int,
    image: Seq<u8>,
)
    requires
        object.contents.sections.len() == 3,
        0 <= at.section < 3,
    ensures
        ({
            let after = with_references(object, at, relocs, start, n, image).contents;
            &&& after.sections.len() == 3
            &&& after.symbols.len() == object.contents.symbols.len() + symbols_brought(
                relocs,
                start,
                n,
            )
            &&& after.sections[2].data == object.contents.sections[2].data
        }),
    decreases n,
{
    if n > 0 {
        lemma_references_bring_symbols(object, at, relocs, start, n - 1, image);
        let rva = (start + n - 1) as usize;
        if relocs.contains_key(rva) {
            law_chains_add_a_symbol_each(
                with_references(object, at, relocs, start, n - 1, image),
                relocs[rva].chain(relocs, Set::empty()),
                Place { section: at.section, offset: (at.offset + n - 1) as u64 },
                image,
            );
        }
    }
}

impl Image {
    /// A function starts at its offset in the section of code, takes the bytes of
    /// the image from there on, and goes by the name known for that address, or
    /// by its own.
    pub proof fn law_functions_are_cut_out_of_the_image(self, function: FunctionEntry)
        requires
            self.text_rva + function.offset + function.len <= self.bytes.len(),
            self.bytes.len() <= usize::MAX,
        ensures
            self.start_of(function) == self.text_rva + function.offset,
            self.code_of(function).len() == function.len,
            forall|i: int|
                0 <= i < function.len ==> #[trigger] self.code_of(function)[i]
                    == self.bytes[self.text_rva + function.offset + i],
            self.functions.contains_key((self.text_rva + function.offset) as usize)
                ==> self.name_of(function) == self.functions[(self.text_rva
                + function.offset) as usize],
            !self.functions.contains_key((self.text_rva + function.offset) as usize)
                ==> self.name_of(function) == function.name,
            self.sites_of(function) == sites(
                self.image_base,
                (self.text_rva + function.offset) as usize,
                self.code_of(function),
                self.functions,
            ),
            self.body_of(function) == zeroed(self.code_of(function), self.sites_of(function)),
    {
    }

    /// What a function's places refer to is what the table says, and what its
    /// branches lead to.
    pub proof fn law_branches_count_among_the_references(
        self,
        function: FunctionEntry,
        relocs: Map<usize, Reference>,
    )
        ensures
            self.relocs_with(function, relocs) == linked(
                relocs,
                (self.text_rva + function.offset) as usize,
                self.sites_of(function),
            ),
    {
    }

    /// A function can be moved where it lies within the image, its branches agree
    /// with the table, and whatever its places refer to can be brought along;
    /// and only there.
    pub proof fn law_movable_functions(
        self,
        function: FunctionEntry,
        relocs: Map<usize, Reference>,
    )
        ensures
            self.is_movable(function, relocs) <==> {
                let start = self.text_rva + function.offset;
                let table = self.relocs_with(function, relocs);
                &&& start + function.len <= self.bytes.len()
                &&& sites_agree(relocs, start as usize, self.sites_of(function))
                &&& forall|rva: usize|
                    start <= rva < start + function.len && #[trigger] table.contains_key(rva)
                        ==> table[rva].is_chain_placeable(
                        table,
                        Set::empty(),
                        self.bytes.len(),
                    )
            },
    {
    }

    /// Moving a function puts its bytes behind the code of the object file, with
    /// no-operations up to a multiple of four behind them, and brings one symbol
    /// for the function and one for each link of what its places refer to.
    pub proof fn law_moved_functions_go_behind_the_code(
        self,
        object: ObjectState,
        function: FunctionEntry,
        relocs: Map<usize, Reference>,
    )
        requires
            object.contents.sections.len() == 3,
            object.contents.sections[2].data.len() <= u64::MAX,
        ensures
            ({
                let before = object.contents;
                let after = self.with_function(object, function, relocs).contents;
                &&& is_followed_by(
                    before.sections[2].data,
                    after.sections[2].data,
                    self.body_of(function),
                    0x90,
                )
                &&& after.symbols.len() == before.symbols.len() + 1 + symbols_brought(
                    self.relocs_with(function, relocs),
                    self.text_rva + function.offset,
                    function.len as int,
                )
            }),
    {
        let name = self.name_of(function);
        let body = self.body_of(function);
        law_functions_go_behind_the_code(object, name, body);
        lemma_references_bring_symbols(
            object.with_function(name, body),
            object.end_of(2),
            self.relocs_with(function, relocs),
            self.start_of(function),
            function.len as int,
            self.bytes,
        );
    }

    /// The object file of a moved function is the one before with the function,
    /// and then with what its places refer to, from where the function starts.
    pub proof fn law_moving_is_adding_then_linking(
        self,
        object: ObjectState,
        function: FunctionEntry,
        relocs: Map<usize, Reference>,
    )
        requires
            object.contents.sections.len() == 3,
            object.contents.sections[2].data.len() <= u64::MAX,
        ensures
            self.with_function(object, function, relocs) == with_references(
                object.with_function(self.name_of(function), self.body_of(function)),
                (Place {
                    section: 2,
                    offset: object.contents.sections[2].data.len() as u64,
                }),
                self.relocs_with(function, relocs),
                self.text_rva + function.offset,
                function.len as int,
                self.bytes,
            ),
    {
    }

    /// A symbol that is no function, or that has no source, or whose source is no
    /// translation unit, changes nothing.
    pub proof fn law_other_symbols_change_nothing(
        self,
        lib: Seq<u8>,
        root: Seq<u8>,
        depth: nat,
        before: Progress,
        symbol: Option<FunctionEntry>,
    )
        requires
            symbol is Some && symbol->0.source is Some ==> !names_translation_unit(
                normalised(symbol->0.source->0),
            ),
        ensures
            self.after_symbol(lib, root, depth, before, symbol) == Some(before),
    {
    }

    /// A function of a translation unit changes one object file, that of its
    /// source, which is made if it is not there; all others stay. It is refused
    /// where it cannot be moved, and only there.
    pub proof fn law_a_function_changes_one_object_file(
        self,
        lib: Seq<u8>,
        root: Seq<u8>,
        depth: nat,
        before: Progress,
        function: FunctionEntry,
        other: Seq<u8>,
    )
        requires
            function.source is Some,
            names_translation_unit(normalised(function.source->0)),
        ensures
            ({
                let key = key_of(normalised(function.source->0), lib, root, depth);
                let after = self.after_symbol(lib, root, depth, before, Some(function));
                &&& after is Some <==> self.is_movable(function, before.relocs)
                &&& after matches Some(progress) ==> {
                    &&& progress.objects.contains_key(key)
                    &&& before.objects.contains_key(key) ==> progress.objects[key]
                        == self.with_function(before.objects[key], function, before.relocs)
                    &&& !before.objects.contains_key(key) ==> progress.objects[key]
                        == self.with_function(
                        ObjectState::empty(self.pad_rdata),
                        function,
                        before.relocs,
                    )
                    &&& other != key ==> {
                        &&& progress.objects.contains_key(other) == before.objects.contains_key(
                            other,
                        )
                        &&& before.objects.contains_key(other) ==> progress.objects[other]
                            == before.objects[other]
                    }
                    &&& progress.relocs == self.relocs_with(function, before.relocs)
                }
            }),
    {
    }

    /// The symbols of a module are taken one after the other, and the first that
    /// is refused is named.
    pub proof fn law_symbols_are_taken_in_order(
        self,
        m: int,
        lib: Seq<u8>,
        root: Seq<u8>,
        depth: nat,
        before: Progress,
        symbols: Seq<Option<FunctionEntry>>,
        n: int,
    )
        requires
            n >= 0,
        ensures
            ({
                let now = self.after_symbols(m, lib, root, depth, before, symbols, n);
                let next = self.after_symbols(m, lib, root, depth, before, symbols, n + 1);
                &&& self.after_symbols(m, lib, root, depth, before, symbols, 0) == Ok::<
                    Progress,
                    ParseError,
                >(before)
                &&& now is Err ==> next == now
                &&& now matches Ok(progress) ==> {
                    let step = self.after_symbol(lib, root, depth, progress, symbols[n]);
                    &&& step is Some ==> next == Ok::<Progress, ParseError>(step->0)
                    &&& step is None ==> next == Err::<Progress, ParseError>(
                        ParseError::MalformedFunction { module: m as usize, symbol: n as usize },
                    )
                }
            }),
    {
    }

    /// The modules are taken one after the other, each with the layout of its own
    /// library. One of a system library, or without symbols, changes nothing,
    /// and one that cannot be read is refused and named.
    pub proof fn law_modules_are_taken_in_order(
        self,
        modules: Seq<ModuleEntry>,
        relocs: Map<usize, Reference>,
        n: int,
    )
        requires
            0 <= n < modules.len(),
        ensures
            ({
                let lib = lib_name(modules[n].object_file_name);
                let now = self.after_modules(modules, relocs, n);
                let next = self.after_modules(modules, relocs, n + 1);
                let first = self.after_modules(modules, relocs, 0);
                &&& first is Ok
                &&& first->Ok_0.relocs == relocs
                &&& forall|key: Seq<u8>| !#[trigger] first->Ok_0.objects.contains_key(key)
                &&& now is Err ==> next == now
                &&& now is Ok && names_system_lib(lib) ==> next == now
                &&& now is Ok && !names_system_lib(lib) ==> match modules[n].symbols {
                    ModuleContents::Unreadable => next == Err::<Progress, ParseError>(
                        ParseError::UnreadableModule { module: n as usize },
                    ),
                    ModuleContents::Missing => next == now,
                    ModuleContents::Present(symbols) => next == self.after_symbols(
                        n,
                        lib,
                        lib_root(modules, lib),
                        lib_depth(modules, lib),
                        now->Ok_0,
                        symbols,
                        symbols.len() as int,
                    ),
                }
            }),
    {
    }

    /// The functions to be moved are those of translation units, in modules that
    /// can be read, of all libraries that are not the system's.
    pub proof fn law_functions_of_all_other_libraries_are_moved(
        self,
        files: &ObjectFiles,
        modules: Seq<ModuleEntry>,
        relocs: Map<usize, Reference>,
        m: int,
        i: int,
    )
        requires
            self.bytes.len() <= usize::MAX,
            self.after_modules(modules, relocs, modules.len() as int) is Ok,
            files.wf(),
            files@ == self.after_modules(modules, relocs, modules.len() as int)->Ok_0.objects,
            0 <= m < modules.len(),
            !names_system_lib(lib_name(modules[m].object_file_name)),
            modules[m].symbols is Present,
            0 <= i < modules[m].symbols->Present_0.len(),
            modules[m].symbols->Present_0[i] is Some,
            modules[m].symbols->Present_0[i]->0.source is Some,
            names_translation_unit(normalised(modules[m].symbols->Present_0[i]->0.source->0)),
        ensures
            ({
                let lib = lib_name(modules[m].object_file_name);
                let function = modules[m].symbols->Present_0[i]->0;
                let key = key_of(
                    normalised(function.source->0),
                    lib,
                    lib_root(modules, lib),
                    lib_depth(modules, lib),
                );
                &&& files@.contains_key(key)
                &&& self.is_linked_in(files@[key].contents, function, relocs)
            }),
    {
        assert(function_to_move(modules, m, i) == Some(modules[m].symbols->Present_0[i]->0));
        assert(key_of_function(modules, m, modules[m].symbols->Present_0[i]->0) == key_of(
            normalised(modules[m].symbols->Present_0[i]->0.source->0),
            lib_name(modules[m].object_file_name),
            lib_root(modules, lib_name(modules[m].object_file_name)),
            lib_depth(modules, lib_name(modules[m].object_file_name)),
        ));
        self.law_every_function_is_in_the_result(files, modules, relocs, m, i);
    }
}

/// A file to be written goes to where its object file's name leads, and holds what
/// the object file is written as, if it can be written; and only then.
pub proof fn law_files_are_what_object_files_are_written_as(file: OutputFile, entry: ObjectEntry)
    requires
        file.is_file_of(&entry),
    ensures
        file.path@ == output_path(entry.key@),
        file.image is Ok <==> entry.object@.is_writable(),
        file.image is Ok ==> file.image->Ok_0@ == file_image(entry.object@.contents),
{
}

/// The decorations of all object files are those of each, put together.
pub proof fn law_decorations_are_put_together(objects: Seq<ObjectEntry>, entry: ObjectEntry)
    ensures
        total_decorations(Seq::<ObjectEntry>::empty()) == (DecorationTally {
            decorated: 0,
            underscored: 0,
            mangled: 0,
        }),
        total_decorations(objects.push(entry)) == total_decorations(objects).plus(
            entry.object@.decorations,
        ),
{
    assert(objects.push(entry).drop_last() =~= objects);
}

} // verus!
