//! What holds of all object files of an image: nothing is lost, and nothing
//! comes from nowhere.
use crate::bytes::SLASH;
use crate::code::{
    law_linking_keeps_what_was_known, law_sites_are_in_order, law_sites_are_linked,
    law_sites_carry_known_names, lemma_linking_is_monotone, Site,
};
use crate::coff::Contents;
use crate::decoration::decorated;
use crate::growth::{
    extends, holds_function_at, holds_reference, law_added_function_is_held,
    law_added_reference_is_held, law_chains_are_only_added, law_functions_are_only_added,
    law_held_function_stays, law_held_reference_stays, law_references_are_only_added,
    lemma_extends_itself, lemma_extends_on, section_extends,
};
use crate::keys::{
    key_of, law_key_has_no_slash, law_key_names_a_translation_unit, law_key_starts_as_library,
    output_path, path_char, starts_as_library,
};
use crate::modules::{
    lib_depth, lib_root, lib_sources, FunctionEntry, ModuleContents, ModuleEntry,
};
use crate::object_files::{is_at, ObjectFiles};
use crate::object_state::{text_section, ObjectState, Place};
use crate::paths::{
    law_lib_name_has_no_separator, law_normalising_settles_separators, names_system_lib,
    names_translation_unit, normalised,
};
use crate::relocs::Reference;
use crate::roots::law_root_is_a_directory;
use crate::splitting::{with_references, Image, Progress};
use vstd::prelude::*;

verus! {

/// Whether every object file has its three sections.
pub open spec fn has_sections(progress: Progress) -> bool {
    forall|key: Seq<u8>| #[trigger]
        progress.objects.contains_key(key) ==> progress.objects[key].contents.sections.len() == 3
}

/// Whether all object files hold all that they held before, with more behind it.
pub open spec fn only_adds(before: Progress, after: Progress) -> bool {
    forall|key: Seq<u8>| #[trigger]
        before.objects.contains_key(key) ==> after.objects.contains_key(key) && extends(
            before.objects[key].contents,
            after.objects[key].contents,
        )
}

/// What adds to an addition adds to what that adds to.
proof fn lemma_adds_on(a: Progress, b: Progress, c: Progress)
    requires
        only_adds(a, b),
        only_adds(b, c),
    ensures
        only_adds(a, c),
{
    assert forall|key: Seq<u8>| #[trigger] a.objects.contains_key(key) implies c.objects.contains_key(
        key,
    ) && extends(a.objects[key].contents, c.objects[key].contents) by {
        assert(b.objects.contains_key(key));
        lemma_extends_on(
            a.objects[key].contents,
            b.objects[key].contents,
            c.objects[key].contents,
        );
    }
}

/// To change nothing is to add.
proof fn lemma_adds_nothing(a: Progress)
    ensures
        only_adds(a, a),
{
    assert forall|key: Seq<u8>| #[trigger] a.objects.contains_key(key) implies extends(
        a.objects[key].contents,
        a.objects[key].contents,
    ) by {
        lemma_extends_itself(a.objects[key].contents);
    }
}

/// All that the bytes of a function refer to is added.
proof fn lemma_references_extend(
    object: ObjectState,
    at: Place,
    relocs: Map<usize, Reference>,
    start: int,
    n: int,
    image: Seq<u8>,
)
    requires
        object.contents.sections.len() == 3,
        0 <= at.section < 3,
    ensures
        extends(
            object.contents,
            with_references(object, at, relocs, start, n, image).contents,
        ),
    decreases n,
{
    if n <= 0 {
        lemma_extends_itself(object.contents);
    } else {
        let before = with_references(object, at, relocs, start, n - 1, image);
        let rva = (start + n - 1) as usize;
        lemma_references_extend(object, at, relocs, start, n - 1, image);
        if relocs.contains_key(rva) {
            let chain = relocs[rva].chain(relocs, Set::empty());
            let place = Place { section: at.section, offset: (at.offset + n - 1) as u64 };
            law_chains_are_only_added(before, chain, place, image);
            lemma_extends_on(
                object.contents,
                before.contents,
                before.with_chain(chain, place, image).contents,
            );
        }
    }
}

/// What a byte of a function refers to can be found where the byte is.
proof fn lemma_reference_is_held(
    object: ObjectState,
    at: Place,
    relocs: Map<usize, Reference>,
    start: int,
    n: int,
    image: Seq<u8>,
    rva: usize,
)
    requires
        object.contents.sections.len() == 3,
        0 <= at.section < 3,
        0 <= start,
        start <= rva < start + n,
        start + n <= usize::MAX,
        relocs.contains_key(rva),
    ensures
        holds_reference(
            with_references(object, at, relocs, start, n, image).contents,
            (Place { section: at.section, offset: (at.offset + rva - start) as u64 }),
            relocs[rva].link_name(),
        ),
    decreases n,
{
    let before = with_references(object, at, relocs, start, n - 1, image);
    let after = with_references(object, at, relocs, start, n, image);
    let place = Place { section: at.section, offset: (at.offset + rva - start) as u64 };
    let last = (start + n - 1) as usize;
    lemma_references_extend(object, at, relocs, start, n - 1, image);
    if rva == last {
        let chain = relocs[rva].chain(relocs, Set::empty());
        assert(chain[0] == relocs[rva]);
        let first = before.with_target(chain[0], place, image);
        law_added_reference_is_held(before, chain[0], place, image);
        law_references_are_only_added(before, chain[0], place, image);
        law_chains_are_only_added(first, chain.drop_first(), before.home_of(chain[0]), image);
        law_held_reference_stays(
            first.contents,
            after.contents,
            place,
            relocs[rva].link_name(),
        );
    } else {
        lemma_reference_is_held(object, at, relocs, start, n - 1, image, rva);
        if relocs.contains_key(last) {
            law_chains_are_only_added(
                before,
                relocs[last].chain(relocs, Set::empty()),
                Place { section: at.section, offset: (at.offset + n - 1) as u64 },
                image,
            );
            law_held_reference_stays(
                before.contents,
                after.contents,
                place,
                relocs[rva].link_name(),
            );
        }
    }
}

impl Image {
    /// Moving a function adds it, and all that it refers to.
    proof fn lemma_function_extends(
        self,
        object: ObjectState,
        function: FunctionEntry,
        relocs: Map<usize, Reference>,
    )
        requires
            object.contents.sections.len() == 3,
        ensures
            extends(object.contents, self.with_function(object, function, relocs).contents),
            extends(
                object.with_function(self.name_of(function), self.body_of(function)).contents,
                self.with_function(object, function, relocs).contents,
            ),
    {
        let placed = object.with_function(self.name_of(function), self.body_of(function));
        law_functions_are_only_added(object, self.name_of(function), self.body_of(function));
        lemma_references_extend(
            placed,
            object.end_of(text_section()),
            self.relocs_with(function, relocs),
            self.start_of(function),
            function.len as int,
            self.bytes,
        );
        lemma_extends_on(
            object.contents,
            placed.contents,
            self.with_function(object, function, relocs).contents,
        );
    }

    /// A symbol only adds to what is there.
    proof fn lemma_symbol_adds(
        self,
        lib: Seq<u8>,
        root: Seq<u8>,
        depth: nat,
        before: Progress,
        symbol: Option<FunctionEntry>,
    )
        requires
            has_sections(before),
            self.after_symbol(lib, root, depth, before, symbol) is Some,
        ensures
            has_sections(self.after_symbol(lib, root, depth, before, symbol)->0),
            only_adds(before, self.after_symbol(lib, root, depth, before, symbol)->0),
    {
        let after = self.after_symbol(lib, root, depth, before, symbol)->0;
        lemma_adds_nothing(before);
        if let Some(function) = symbol {
            if let Some(path) = function.source_path() {
                if names_translation_unit(path) {
                    let key = key_of(path, lib, root, depth);
                    let object = if before.objects.contains_key(key) {
                        before.objects[key]
                    } else {
                        ObjectState::empty(self.pad_rdata)
                    };
                    self.lemma_function_extends(object, function, before.relocs);
                    assert forall|other: Seq<u8>| #[trigger]
                        before.objects.contains_key(other) implies after.objects.contains_key(other)
                        && extends(
                        before.objects[other].contents,
                        after.objects[other].contents,
                    ) by {
                        lemma_extends_itself(before.objects[other].contents);
                    }
                }
            }
        }
    }

    /// The symbols of a module only add to what is there.
    proof fn lemma_symbols_add(
        self,
        m: int,
        lib: Seq<u8>,
        root: Seq<u8>,
        depth: nat,
        before: Progress,
        symbols: Seq<Option<FunctionEntry>>,
        i: int,
        n: int,
    )
        requires
            0 <= i <= n,
            has_sections(before),
            self.after_symbols(m, lib, root, depth, before, symbols, n) is Ok,
        ensures
            self.after_symbols(m, lib, root, depth, before, symbols, i) is Ok,
            has_sections(self.after_symbols(m, lib, root, depth, before, symbols, i)->Ok_0),
            has_sections(self.after_symbols(m, lib, root, depth, before, symbols, n)->Ok_0),
            only_adds(
                self.after_symbols(m, lib, root, depth, before, symbols, i)->Ok_0,
                self.after_symbols(m, lib, root, depth, before, symbols, n)->Ok_0,
            ),
        decreases n,
    {
        if n > 0 {
            let last = self.after_symbols(m, lib, root, depth, before, symbols, n - 1);
            assert(last is Ok);
            let middle = if i < n {
                i
            } else {
                n - 1
            };
            self.lemma_symbols_add(m, lib, root, depth, before, symbols, middle, n - 1);
            self.lemma_symbol_adds(lib, root, depth, last->Ok_0, symbols[n - 1]);
            let all = self.after_symbols(m, lib, root, depth, before, symbols, n)->Ok_0;
            if i < n {
                lemma_adds_on(
                    self.after_symbols(m, lib, root, depth, before, symbols, i)->Ok_0,
                    last->Ok_0,
                    all,
                );
            } else {
                lemma_adds_nothing(all);
            }
        } else {
            lemma_adds_nothing(before);
        }
    }

    /// A module only adds to what is there.
    proof fn lemma_module_adds(self, modules: Seq<ModuleEntry>, before: Progress, m: int)
        requires
            has_sections(before),
            self.after_module(modules, before, m) is Ok,
        ensures
            has_sections(self.after_module(modules, before, m)->Ok_0),
            only_adds(before, self.after_module(modules, before, m)->Ok_0),
    {
        lemma_adds_nothing(before);
        let lib = modules[m].lib();
        if let ModuleContents::Present(symbols) = modules[m].symbols {
            if !names_system_lib(lib) {
                self.lemma_symbols_add(
                    m,
                    lib,
                    lib_root(modules, lib),
                    lib_depth(modules, lib),
                    before,
                    symbols,
                    0,
                    symbols.len() as int,
                );
            }
        }
    }

    /// Later modules take nothing away from what earlier ones led to: every
    /// object file stays, and holds all that it held.
    pub proof fn law_modules_only_add(
        self,
        modules: Seq<ModuleEntry>,
        relocs: Map<usize, Reference>,
        m: int,
        n: int,
    )
        requires
            0 <= m <= n,
            self.after_modules(modules, relocs, n) is Ok,
        ensures
            self.after_modules(modules, relocs, m) is Ok,
            has_sections(self.after_modules(modules, relocs, m)->Ok_0),
            has_sections(self.after_modules(modules, relocs, n)->Ok_0),
            only_adds(
                self.after_modules(modules, relocs, m)->Ok_0,
                self.after_modules(modules, relocs, n)->Ok_0,
            ),
        decreases n,
    {
        let all = self.after_modules(modules, relocs, n)->Ok_0;
        if n > 0 {
            let last = self.after_modules(modules, relocs, n - 1);
            assert(last is Ok);
            let middle = if m < n {
                m
            } else {
                n - 1
            };
            self.law_modules_only_add(modules, relocs, middle, n - 1);
            self.lemma_module_adds(modules, last->Ok_0, n - 1);
            if m < n {
                lemma_adds_on(
                    self.after_modules(modules, relocs, m)->Ok_0,
                    last->Ok_0,
                    all,
                );
            } else {
                lemma_adds_nothing(all);
            }
        } else {
            lemma_adds_nothing(all);
        }
    }
}

/// Whether the branches of a function that starts at `start` in the section for
/// code refer to the decorated names of the functions they lead to.
pub open spec fn holds_branches(contents: Contents, start: u64, found: Seq<Site>) -> bool {
    forall|i: int|
        0 <= i < found.len() ==> holds_reference(
            contents,
            (Place {
                section: text_section(),
                offset: (start + (#[trigger] found[i]).offset) as u64,
            }),
            decorated(found[i].name),
        )
}

/// What is in a part of a part of a table is in the table.
proof fn lemma_submap_on(
    a: Map<usize, Reference>,
    b: Map<usize, Reference>,
    c: Map<usize, Reference>,
)
    requires
        a.submap_of(b),
        b.submap_of(c),
    ensures
        a.submap_of(c),
{
    assert forall|rva: usize| #[trigger] a.dom().contains(rva) implies c.dom().contains(rva)
        && a[rva] == c[rva] by {
        assert(b.dom().contains(rva));
    }
}

/// Whether every known place in a function of `len` bytes at `fun_rva`, which
/// starts at `start` in the section for code, refers to the name that what it
/// refers to goes by.
pub open spec fn holds_references(
    contents: Contents,
    start: u64,
    fun_rva: int,
    len: int,
    relocs: Map<usize, Reference>,
) -> bool {
    forall|rva: usize|
        fun_rva <= rva < fun_rva + len && #[trigger] relocs.contains_key(rva) ==> holds_reference(
            contents,
            (Place { section: text_section(), offset: (start + rva - fun_rva) as u64 }),
            relocs[rva].link_name(),
        )
}

impl Image {
    /// Whether an object file holds a function, references for its branches,
    /// and references for all places in it that the table knows.
    pub open spec fn is_linked_in(
        self,
        contents: Contents,
        function: FunctionEntry,
        relocs: Map<usize, Reference>,
    ) -> bool {
        exists|k: int|
            {
                &&& #[trigger] holds_function_at(
                    contents,
                    self.name_of(function),
                    self.body_of(function),
                    k,
                )
                &&& holds_branches(contents, contents.symbols[k].value, self.sites_of(function))
                &&& holds_references(
                    contents,
                    contents.symbols[k].value,
                    self.start_of(function),
                    function.len as int,
                    self.relocs_with(function, relocs),
                )
            }
    }

    /// A symbol leaves what the table knows as it is.
    proof fn lemma_symbol_keeps_table(
        self,
        lib: Seq<u8>,
        root: Seq<u8>,
        depth: nat,
        before: Progress,
        symbol: Option<FunctionEntry>,
    )
        requires
            self.bytes.len() <= usize::MAX,
            self.after_symbol(lib, root, depth, before, symbol) is Some,
        ensures
            before.relocs.submap_of(
                self.after_symbol(lib, root, depth, before, symbol)->0.relocs,
            ),
    {
        if let Some(function) = symbol {
            if let Some(path) = function.source_path() {
                if names_translation_unit(path) {
                    let start = self.start_of(function) as usize;
                    let code = self.code_of(function);
                    law_sites_are_in_order(self.image_base, start, code, self.functions);
                    law_linking_keeps_what_was_known(
                        before.relocs,
                        start,
                        code.len() as int,
                        self.sites_of(function),
                    );
                }
            }
        }
    }

    /// The symbols of a module leave what the table knows as it is.
    proof fn lemma_symbols_keep_table(
        self,
        m: int,
        lib: Seq<u8>,
        root: Seq<u8>,
        depth: nat,
        before: Progress,
        symbols: Seq<Option<FunctionEntry>>,
        n: int,
    )
        requires
            self.bytes.len() <= usize::MAX,
            self.after_symbols(m, lib, root, depth, before, symbols, n) is Ok,
        ensures
            before.relocs.submap_of(
                self.after_symbols(m, lib, root, depth, before, symbols, n)->Ok_0.relocs,
            ),
        decreases n,
    {
        if n > 0 {
            let last = self.after_symbols(m, lib, root, depth, before, symbols, n - 1);
            assert(last is Ok);
            self.lemma_symbols_keep_table(m, lib, root, depth, before, symbols, n - 1);
            self.lemma_symbol_keeps_table(lib, root, depth, last->Ok_0, symbols[n - 1]);
            lemma_submap_on(
                before.relocs,
                last->Ok_0.relocs,
                self.after_symbols(m, lib, root, depth, before, symbols, n)->Ok_0.relocs,
            );
        }
    }

    /// What the table knows at the start stays as it is, whatever modules come.
    pub proof fn law_known_places_stay(
        self,
        modules: Seq<ModuleEntry>,
        relocs: Map<usize, Reference>,
        n: int,
    )
        requires
            self.bytes.len() <= usize::MAX,
            self.after_modules(modules, relocs, n) is Ok,
        ensures
            relocs.submap_of(self.after_modules(modules, relocs, n)->Ok_0.relocs),
        decreases n,
    {
        if n > 0 {
            let last = self.after_modules(modules, relocs, n - 1);
            assert(last is Ok);
            self.law_known_places_stay(modules, relocs, n - 1);
            let lib = modules[n - 1].lib();
            if let ModuleContents::Present(symbols) = modules[n - 1].symbols {
                if !names_system_lib(lib) {
                    self.lemma_symbols_keep_table(
                        n - 1,
                        lib,
                        lib_root(modules, lib),
                        lib_depth(modules, lib),
                        last->Ok_0,
                        symbols,
                        symbols.len() as int,
                    );
                    lemma_submap_on(
                        relocs,
                        last->Ok_0.relocs,
                        self.after_modules(modules, relocs, n)->Ok_0.relocs,
                    );
                }
            }
        }
    }
}

/// The function that a symbol of a module is, where it is to be moved: it comes
/// from a translation unit, and its library is not one of the system's.
pub open spec fn function_to_move(modules: Seq<ModuleEntry>, m: int, i: int) -> Option<
    FunctionEntry,
> {
    if names_system_lib(modules[m].lib()) {
        None
    } else {
        match modules[m].symbols {
            ModuleContents::Present(symbols) => if 0 <= i < symbols.len() {
                match symbols[i] {
                    Some(function) => match function.source_path() {
                        Some(path) => if names_translation_unit(path) {
                            Some(function)
                        } else {
                            None
                        },
                        None => None,
                    },
                    None => None,
                }
            } else {
                None
            },
            _ => None,
        }
    }
}

/// The name of the object file that a function of a module belongs to.
pub open spec fn key_of_function(
    modules: Seq<ModuleEntry>,
    m: int,
    function: FunctionEntry,
) -> Seq<u8> {
    let lib = modules[m].lib();
    key_of(
        function.source_path()->0,
        lib,
        lib_root(modules, lib),
        lib_depth(modules, lib),
    )
}

/// Whether the object file `key` is there for one of the functions of the
/// first `n` modules.
pub open spec fn is_key_of_some(modules: Seq<ModuleEntry>, n: int, key: Seq<u8>) -> bool {
    exists|m: int, i: int|
        0 <= m < n && (#[trigger] function_to_move(modules, m, i) matches Some(function) && key
            == key_of_function(modules, m, function))
}

impl Image {
    /// Every branch of a function to another one becomes a reference to that
    /// one's decorated name, where the branch is in the object file.
    pub proof fn law_every_branch_is_relocated(
        self,
        object: ObjectState,
        function: FunctionEntry,
        relocs: Map<usize, Reference>,
        i: int,
    )
        requires
            object.contents.sections.len() == 3,
            self.start_of(function) + function.len <= self.bytes.len(),
            self.bytes.len() <= usize::MAX,
            object.contents.sections[text_section()].data.len() + function.len <= u64::MAX,
            0 <= i < self.sites_of(function).len(),
        ensures
            holds_reference(
                self.with_function(object, function, relocs).contents,
                (Place {
                    section: text_section(),
                    offset: (object.end_of(text_section()).offset + self.sites_of(
                        function,
                    )[i].offset) as u64,
                }),
                decorated(self.sites_of(function)[i].name),
            ),
    {
        let start = self.start_of(function) as usize;
        let code = self.code_of(function);
        let found = self.sites_of(function);
        law_sites_are_in_order(self.image_base, start, code, self.functions);
        law_sites_are_linked(relocs, start, code.len() as int, found, i);
        let site = found[i];
        assert(site.offset + 4 <= code.len());
        lemma_reference_is_held(
            object.with_function(self.name_of(function), self.body_of(function)),
            object.end_of(text_section()),
            self.relocs_with(function, relocs),
            start as int,
            function.len as int,
            self.bytes,
            site.place(start),
        );
    }

    /// Every known place in a function becomes a reference where the place is in
    /// the object file, to the name that what it refers to goes by.
    pub proof fn law_every_known_place_is_relocated(
        self,
        object: ObjectState,
        function: FunctionEntry,
        relocs: Map<usize, Reference>,
        rva: usize,
    )
        requires
            object.contents.sections.len() == 3,
            self.start_of(function) + function.len <= self.bytes.len(),
            self.bytes.len() <= usize::MAX,
            object.contents.sections[text_section()].data.len() + function.len <= u64::MAX,
            self.start_of(function) <= rva < self.start_of(function) + function.len,
            self.relocs_with(function, relocs).contains_key(rva),
        ensures
            holds_reference(
                self.with_function(object, function, relocs).contents,
                (Place {
                    section: text_section(),
                    offset: (object.end_of(text_section()).offset + rva - self.start_of(
                        function,
                    )) as u64,
                }),
                self.relocs_with(function, relocs)[rva].link_name(),
            ),
    {
        lemma_reference_is_held(
            object.with_function(self.name_of(function), self.body_of(function)),
            object.end_of(text_section()),
            self.relocs_with(function, relocs),
            self.start_of(function),
            function.len as int,
            self.bytes,
            rva,
        );
    }

    /// Every function of a translation unit comes to stand in the object file
    /// of that unit, under its decorated name, with its own bytes but for the
    /// branches to other functions; those, and all places in it that the table
    /// knows, refer to the names of what they lead to. An image or a section
    /// that does not fit into memory is left out.
    pub proof fn law_every_function_is_placed(
        self,
        modules: Seq<ModuleEntry>,
        relocs: Map<usize, Reference>,
        n: int,
        m: int,
        i: int,
    )
        requires
            0 <= m < n,
            self.after_modules(modules, relocs, n) is Ok,
            function_to_move(modules, m, i) is Some,
            self.bytes.len() <= usize::MAX,
            forall|key: Seq<u8>| #[trigger]
                self.after_modules(modules, relocs, n)->Ok_0.objects.contains_key(key)
                    ==> self.after_modules(
                    modules,
                    relocs,
                    n,
                )->Ok_0.objects[key].contents.sections[text_section()].data.len() <= u64::MAX,
        ensures
            ({
                let function = function_to_move(modules, m, i)->0;
                let key = key_of_function(modules, m, function);
                let objects = self.after_modules(modules, relocs, n)->Ok_0.objects;
                &&& objects.contains_key(key)
                &&& self.is_linked_in(objects[key].contents, function, relocs)
            }),
    {
        let function = function_to_move(modules, m, i)->0;
        let key = key_of_function(modules, m, function);
        let lib = modules[m].lib();
        let root = lib_root(modules, lib);
        let depth = lib_depth(modules, lib);
        let symbols = modules[m].symbols->Present_0;
        self.law_modules_only_add(modules, relocs, m, n);
        self.law_modules_only_add(modules, relocs, m + 1, n);
        let before = self.after_modules(modules, relocs, m)->Ok_0;
        let module = self.after_modules(modules, relocs, m + 1)->Ok_0;
        let all = self.after_modules(modules, relocs, n)->Ok_0;
        let len = symbols.len() as int;
        self.lemma_symbols_add(m, lib, root, depth, before, symbols, i, len);
        self.lemma_symbols_add(m, lib, root, depth, before, symbols, i + 1, len);
        let now = self.after_symbols(m, lib, root, depth, before, symbols, i)->Ok_0;
        let next = self.after_symbols(m, lib, root, depth, before, symbols, i + 1)->Ok_0;
        let object = if now.objects.contains_key(key) {
            now.objects[key]
        } else {
            ObjectState::empty(self.pad_rdata)
        };
        let moved = self.with_function(object, function, now.relocs);
        assert(next.objects[key] == moved);
        assert(next.objects.contains_key(key));
        lemma_adds_on(next, module, all);
        self.law_known_places_stay(modules, relocs, m);
        self.lemma_symbols_keep_table(m, lib, root, depth, before, symbols, i);
        lemma_submap_on(relocs, before.relocs, now.relocs);
        self.lemma_moved_function_is_linked(
            object,
            function,
            relocs,
            now.relocs,
            all.objects[key].contents,
        );
    }

    /// A function that was moved can be found with its branches and with all
    /// places that were known at first, whatever is added behind it.
    proof fn lemma_moved_function_is_linked(
        self,
        object: ObjectState,
        function: FunctionEntry,
        known: Map<usize, Reference>,
        relocs: Map<usize, Reference>,
        later: Contents,
    )
        requires
            known.submap_of(relocs),
            object.contents.sections.len() == 3,
            self.is_movable(function, relocs),
            self.bytes.len() <= usize::MAX,
            extends(self.with_function(object, function, relocs).contents, later),
            later.sections[text_section()].data.len() <= u64::MAX,
        ensures
            self.is_linked_in(later, function, known),
    {
        let name = self.name_of(function);
        let body = self.body_of(function);
        let found = self.sites_of(function);
        let placed = object.with_function(name, body);
        let moved = self.with_function(object, function, relocs);
        let k = object.contents.symbols.len() as int;
        self.lemma_function_extends(object, function, relocs);
        lemma_extends_on(placed.contents, moved.contents, later);
        assert(section_extends(
            placed.contents.sections[text_section()],
            later.sections[text_section()],
        ));
        law_added_function_is_held(object, name, body);
        law_held_function_stays(placed.contents, later, name, body, k);
        let start = later.symbols[k].value;
        assert(start == object.end_of(text_section()).offset);
        assert forall|i: int| 0 <= i < found.len() implies holds_reference(
            later,
            (Place {
                section: text_section(),
                offset: (start + (#[trigger] found[i]).offset) as u64,
            }),
            decorated(found[i].name),
        ) by {
            self.law_every_branch_is_relocated(object, function, relocs, i);
            law_held_reference_stays(
                moved.contents,
                later,
                Place { section: text_section(), offset: (start + found[i].offset) as u64 },
                decorated(found[i].name),
            );
        }
        assert(holds_branches(later, start, found));
        let first = self.start_of(function);
        let table = self.relocs_with(function, known);
        lemma_linking_is_monotone(known, relocs, first as usize, found);
        assert forall|rva: usize|
            first <= rva < first + function.len && #[trigger] table.contains_key(
                rva,
            ) implies holds_reference(
            later,
            (Place { section: text_section(), offset: (start + rva - first) as u64 }),
            table[rva].link_name(),
        ) by {
            assert(table.dom().contains(rva));
            assert(self.relocs_with(function, relocs).dom().contains(rva));
            self.law_every_known_place_is_relocated(object, function, relocs, rva);
            law_held_reference_stays(
                moved.contents,
                later,
                Place { section: text_section(), offset: (start + rva - first) as u64 },
                table[rva].link_name(),
            );
        }
        assert(holds_references(later, start, first, function.len as int, table));
    }

    /// A branch and the function it leads to go by one name: the site carries
    /// the name under which the function at that address is added.
    pub proof fn law_branches_carry_the_name_of_the_definition(
        self,
        caller: FunctionEntry,
        callee: FunctionEntry,
        i: int,
    )
        requires
            0 <= i < self.sites_of(caller).len(),
            self.sites_of(caller)[i].rva == self.start_of(callee),
        ensures
            self.sites_of(caller)[i].name == self.name_of(callee),
    {
        law_sites_carry_known_names(
            self.image_base,
            self.start_of(caller) as usize,
            self.code_of(caller),
            self.functions,
            i,
        );
    }

    /// A reference that carries the name known for its address, and the function
    /// at that address, go by one name in the object files.
    pub proof fn law_references_carry_the_name_of_the_definition(
        self,
        reference: Reference,
        callee: FunctionEntry,
    )
        requires
            reference is Function,
            reference->Function_rva == self.start_of(callee),
            self.functions.contains_key(reference->Function_rva),
            reference->Function_name == self.functions[reference->Function_rva],
        ensures
            reference.link_name() == decorated(self.name_of(callee)),
    {
    }

    /// Every function of a translation unit is among the object files that
    /// splitting the image up led to, with its branches and all known places in
    /// it linked.
    pub proof fn law_every_function_is_in_the_result(
        self,
        files: &ObjectFiles,
        modules: Seq<ModuleEntry>,
        relocs: Map<usize, Reference>,
        m: int,
        i: int,
    )
        requires
            self.bytes.len() <= usize::MAX,
            self.after_modules(modules, relocs, modules.len() as int) is Ok,
            files.wf(),
            files@ == self.after_modules(modules, relocs, modules.len() as int)->Ok_0.objects,
            0 <= m < modules.len(),
            function_to_move(modules, m, i) is Some,
        ensures
            ({
                let function = function_to_move(modules, m, i)->0;
                let key = key_of_function(modules, m, function);
                &&& files@.contains_key(key)
                &&& self.is_linked_in(files@[key].contents, function, relocs)
            }),
    {
        assert forall|key: Seq<u8>| #[trigger] files@.contains_key(key) implies files@[key]
            .contents.sections[text_section()].data.len() <= u64::MAX by {
            let k = choose|k: int| is_at(files.objects@, key, k);
            files.lemma_at(k);
            assert(files.objects@[k].object.wf());
        }
        self.law_every_function_is_placed(modules, relocs, modules.len() as int, m, i);
    }

    /// The symbols of a module make no object files but those of its functions.
    proof fn lemma_keys_of_symbols(
        self,
        modules: Seq<ModuleEntry>,
        m: int,
        before: Progress,
        n: int,
        key: Seq<u8>,
    )
        requires
            !names_system_lib(modules[m].lib()),
            modules[m].symbols is Present,
            0 <= m,
            n <= modules[m].symbols->Present_0.len(),
            self.after_symbols(
                m,
                modules[m].lib(),
                lib_root(modules, modules[m].lib()),
                lib_depth(modules, modules[m].lib()),
                before,
                modules[m].symbols->Present_0,
                n,
            ) is Ok,
            self.after_symbols(
                m,
                modules[m].lib(),
                lib_root(modules, modules[m].lib()),
                lib_depth(modules, modules[m].lib()),
                before,
                modules[m].symbols->Present_0,
                n,
            )->Ok_0.objects.contains_key(key),
        ensures
            before.objects.contains_key(key) || is_key_of_some(modules, m + 1, key),
        decreases n,
    {
        let lib = modules[m].lib();
        let root = lib_root(modules, lib);
        let depth = lib_depth(modules, lib);
        let symbols = modules[m].symbols->Present_0;
        if n > 0 {
            let last = self.after_symbols(m, lib, root, depth, before, symbols, n - 1);
            assert(last is Ok);
            if last->Ok_0.objects.contains_key(key) {
                self.lemma_keys_of_symbols(modules, m, before, n - 1, key);
            } else {
                assert(function_to_move(modules, m, n - 1) is Some);
            }
        }
    }

    /// There is no object file but those of the functions that are moved.
    pub proof fn law_every_object_file_has_a_function(
        self,
        modules: Seq<ModuleEntry>,
        relocs: Map<usize, Reference>,
        n: int,
        key: Seq<u8>,
    )
        requires
            self.after_modules(modules, relocs, n) is Ok,
            self.after_modules(modules, relocs, n)->Ok_0.objects.contains_key(key),
        ensures
            is_key_of_some(modules, n, key),
        decreases n,
    {
        if n > 0 {
            let last = self.after_modules(modules, relocs, n - 1);
            assert(last is Ok);
            let m = n - 1;
            if !last->Ok_0.objects.contains_key(key) {
                self.lemma_keys_of_symbols(
                    modules,
                    m,
                    last->Ok_0,
                    modules[m].symbols->Present_0.len() as int,
                    key,
                );
            } else {
                self.law_every_object_file_has_a_function(modules, relocs, m, key);
                let (k, i) = choose|k: int, i: int|
                    0 <= k < m && (#[trigger] function_to_move(modules, k, i) matches Some(
                        function,
                    ) && key == key_of_function(modules, k, function));
                assert(function_to_move(modules, k, i) is Some);
            }
        }
    }

    /// The names of object files hold no other separator than the backslash.
    pub proof fn law_keys_have_no_slash(
        self,
        modules: Seq<ModuleEntry>,
        relocs: Map<usize, Reference>,
        n: int,
        key: Seq<u8>,
    )
        requires
            self.after_modules(modules, relocs, n) is Ok,
            self.after_modules(modules, relocs, n)->Ok_0.objects.contains_key(key),
        ensures
            !key.contains(SLASH),
    {
        self.law_every_object_file_has_a_function(modules, relocs, n, key);
        let (m, i) = choose|m: int, i: int|
            0 <= m < n && (#[trigger] function_to_move(modules, m, i) matches Some(function) && key
                == key_of_function(modules, m, function));
        let function = function_to_move(modules, m, i)->0;
        let lib = modules[m].lib();
        law_lib_name_has_no_separator(modules[m].object_file_name);
        law_normalising_settles_separators(function.source->0);
        law_key_has_no_slash(
            normalised(function.source->0),
            lib,
            lib_root(modules, lib),
            lib_depth(modules, lib),
        );
    }

    /// Every object file is named like a translation unit, and its name starts
    /// with that of a library of the image.
    pub proof fn law_keys_name_translation_units(
        self,
        modules: Seq<ModuleEntry>,
        relocs: Map<usize, Reference>,
        n: int,
        key: Seq<u8>,
    )
        requires
            self.after_modules(modules, relocs, n) is Ok,
            self.after_modules(modules, relocs, n)->Ok_0.objects.contains_key(key),
        ensures
            names_translation_unit(key),
            exists|m: int| 0 <= m < n && starts_as_library(key, (#[trigger] modules[m]).lib()),
    {
        self.law_every_object_file_has_a_function(modules, relocs, n, key);
        let (m, i) = choose|m: int, i: int|
            0 <= m < n && (#[trigger] function_to_move(modules, m, i) matches Some(function) && key
                == key_of_function(modules, m, function));
        let path = function_to_move(modules, m, i)->0.source_path()->0;
        let lib = modules[m].lib();
        let root = lib_root(modules, lib);
        let depth = lib_depth(modules, lib);
        law_root_is_a_directory(lib_sources(modules, lib));
        law_key_names_a_translation_unit(path, lib, root, depth);
        law_key_starts_as_library(path, lib, root, depth);
    }

    /// Two object files of an image never go to the same place in the output.
    pub proof fn law_output_paths_are_distinct(
        self,
        modules: Seq<ModuleEntry>,
        relocs: Map<usize, Reference>,
        n: int,
        a: Seq<u8>,
        b: Seq<u8>,
    )
        requires
            self.after_modules(modules, relocs, n) is Ok,
            self.after_modules(modules, relocs, n)->Ok_0.objects.contains_key(a),
            self.after_modules(modules, relocs, n)->Ok_0.objects.contains_key(b),
            output_path(a) == output_path(b),
        ensures
            a == b,
    {
        self.law_keys_have_no_slash(modules, relocs, n, a);
        self.law_keys_have_no_slash(modules, relocs, n, b);
        assert(output_path(a).len() == a.len() + ".obj"@.len());
        assert(output_path(b).len() == b.len() + ".obj"@.len());
        assert forall|i: int| 0 <= i < a.len() implies a[i] == b[i] by {
            assert(output_path(a)[i] == path_char(a[i]));
            assert(output_path(b)[i] == path_char(b[i]));
            assert(a.contains(a[i]));
            assert(b.contains(b[i]));
        }
        assert(a =~= b);
    }
}

} // verus!
