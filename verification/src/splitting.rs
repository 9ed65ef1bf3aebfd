//! What splitting an image up leads to, symbol by symbol and module by module.
use crate::code::{linked, sites, sites_agree, zeroed, Site};
use crate::keys::key_of;
use crate::modules::{lib_depth, lib_root, FunctionEntry, ModuleContents, ModuleEntry};
use crate::object_state::{text_section, ObjectState, Place};
use crate::paths::{names_system_lib, names_translation_unit};
use crate::relocs::Reference;
use vstd::prelude::*;

verus! {

/// What is known of the image, for as long as it is split up.
pub struct Image {
    pub image_base: u32,
    pub text_rva: usize,
    /// The functions by address.
    pub functions: Map<usize, Seq<u8>>,
    pub bytes: Seq<u8>,
    /// Whether new object files start with unused bytes.
    pub pad_rdata: bool,
}

/// What splitting the image has led to so far.
#[verifier::ext_equal]
pub struct Progress {
    /// The object files by name.
    pub objects: Map<Seq<u8>, ObjectState>,
    /// What the places in the image refer to.
    pub relocs: Map<usize, Reference>,
}

impl Image {
    /// Where a function starts in the image.
    pub open spec fn start_of(self, function: FunctionEntry) -> int {
        self.text_rva + function.offset
    }

    /// The bytes of a function.
    pub open spec fn code_of(self, function: FunctionEntry) -> Seq<u8> {
        self.bytes.subrange(self.start_of(function), self.start_of(function) + function.len)
    }

    /// The name of a function: the one known for its address, or its own.
    pub open spec fn name_of(self, function: FunctionEntry) -> Seq<u8> {
        let start = self.start_of(function) as usize;
        if self.functions.contains_key(start) {
            self.functions[start]
        } else {
            function.name
        }
    }

    /// The branches of a function to other functions.
    pub open spec fn sites_of(self, function: FunctionEntry) -> Seq<Site> {
        sites(
            self.image_base,
            self.start_of(function) as usize,
            self.code_of(function),
            self.functions,
        )
    }

    /// The bytes that a function is given in its object file: its own, with
    /// zeros where it branches to other functions.
    pub open spec fn body_of(self, function: FunctionEntry) -> Seq<u8> {
        zeroed(self.code_of(function), self.sites_of(function))
    }

    /// What the places in the image refer to once a function's branches count too.
    pub open spec fn relocs_with(
        self,
        function: FunctionEntry,
        relocs: Map<usize, Reference>,
    ) -> Map<usize, Reference> {
        linked(relocs, self.start_of(function) as usize, self.sites_of(function))
    }

    /// Whether a function can be moved into an object file: it lies within the
    /// image, its branches agree with what is known, and all that it refers to
    /// can be brought along.
    pub open spec fn is_movable(
        self,
        function: FunctionEntry,
        relocs: Map<usize, Reference>,
    ) -> bool {
        let start = self.start_of(function);
        &&& start + function.len <= self.bytes.len()
        &&& sites_agree(relocs, start as usize, self.sites_of(function))
        &&& are_placeable(
            self.relocs_with(function, relocs),
            start,
            function.len as int,
            self.bytes.len(),
        )
    }

    /// The object file with a function in it, and with all that it refers to.
    pub open spec fn with_function(
        self,
        object: ObjectState,
        function: FunctionEntry,
        relocs: Map<usize, Reference>,
    ) -> ObjectState {
        with_references(
            object.with_function(self.name_of(function), self.body_of(function)),
            object.end_of(text_section()),
            self.relocs_with(function, relocs),
            self.start_of(function),
            function.len as int,
            self.bytes,
        )
    }

    /// Where things stand after one more symbol of a module. Only a function
    /// from a translation unit changes anything. Nothing if the function cannot
    /// be moved.
    pub open spec fn after_symbol(
        self,
        lib: Seq<u8>,
        root: Seq<u8>,
        depth: nat,
        before: Progress,
        symbol: Option<FunctionEntry>,
    ) -> Option<Progress> {
        match symbol {
            Some(function) => match function.source_path() {
                Some(path) => if !names_translation_unit(path) {
                    Some(before)
                } else if !self.is_movable(function, before.relocs) {
                    None
                } else {
                    let key = key_of(path, lib, root, depth);
                    let object = if before.objects.contains_key(key) {
                        before.objects[key]
                    } else {
                        ObjectState::empty(self.pad_rdata)
                    };
                    Some(
                        Progress {
                            objects: before.objects.insert(
                                key,
                                self.with_function(object, function, before.relocs),
                            ),
                            relocs: self.relocs_with(function, before.relocs),
                        },
                    )
                },
                None => Some(before),
            },
            None => Some(before),
        }
    }

    /// Where things stand after the first `n` symbols of the module of number `m`.
    pub open spec fn after_symbols(
        self,
        m: int,
        lib: Seq<u8>,
        root: Seq<u8>,
        depth: nat,
        before: Progress,
        symbols: Seq<Option<FunctionEntry>>,
        n: int,
    ) -> Result<Progress, ParseError>
        decreases n,
    {
        if n <= 0 {
            Ok(before)
        } else {
            match self.after_symbols(m, lib, root, depth, before, symbols, n - 1) {
                Ok(progress) => match self.after_symbol(
                    lib,
                    root,
                    depth,
                    progress,
                    symbols[n - 1],
                ) {
                    Some(after) => Ok(after),
                    None => Err(
                        ParseError::MalformedFunction { module: m as usize, symbol: (n - 1) as usize },
                    ),
                },
                Err(error) => Err(error),
            }
        }
    }

    /// Where things stand after one more module, that of number `m`. One of the
    /// system's libraries, or without symbols, changes nothing.
    pub open spec fn after_module(
        self,
        modules: Seq<ModuleEntry>,
        before: Progress,
        m: int,
    ) -> Result<Progress, ParseError> {
        let lib = modules[m].lib();
        if names_system_lib(lib) {
            Ok(before)
        } else {
            match modules[m].symbols {
                ModuleContents::Unreadable => Err(
                    ParseError::UnreadableModule { module: m as usize },
                ),
                ModuleContents::Missing => Ok(before),
                ModuleContents::Present(symbols) => self.after_symbols(
                    m,
                    lib,
                    lib_root(modules, lib),
                    lib_depth(modules, lib),
                    before,
                    symbols,
                    symbols.len() as int,
                ),
            }
        }
    }

    /// Where things stand after the first `n` modules.
    pub open spec fn after_modules(
        self,
        modules: Seq<ModuleEntry>,
        relocs: Map<usize, Reference>,
        n: int,
    ) -> Result<Progress, ParseError>
        decreases n,
    {
        if n <= 0 {
            Ok(Progress { objects: Map::empty(), relocs })
        } else {
            match self.after_modules(modules, relocs, n - 1) {
                Ok(before) => self.after_module(modules, before, n - 1),
                Err(error) => Err(error),
            }
        }
    }
}

/// Whether all that the first `n` bytes behind `start` refer to can be brought
/// into an object file.
pub open spec fn are_placeable(
    relocs: Map<usize, Reference>,
    start: int,
    n: int,
    image_len: nat,
) -> bool {
    forall|rva: usize|
        start <= rva < start + n && #[trigger] relocs.contains_key(rva)
            ==> relocs[rva].is_chain_placeable(relocs, Set::empty(), image_len)
}

/// The object file with all that the first `n` bytes behind `start` refer to.
/// Those bytes are at `at` in it. The references are added in the order of
/// their addresses, each with the chain that follows from it.
pub open spec fn with_references(
    object: ObjectState,
    at: Place,
    relocs: Map<usize, Reference>,
    start: int,
    n: int,
    image: Seq<u8>,
) -> ObjectState
    decreases n,
{
    if n <= 0 {
        object
    } else {
        let before = with_references(object, at, relocs, start, n - 1, image);
        let rva = (start + n - 1) as usize;
        if relocs.contains_key(rva) {
            before.with_chain(
                relocs[rva].chain(relocs, Set::empty()),
                Place { section: at.section, offset: (at.offset + n - 1) as u64 },
                image,
            )
        } else {
            before
        }
    }
}

/// Why an image could not be split up.
#[derive(Clone, Copy, PartialEq, Eq, Debug, Structural)]
pub enum ParseError {
    /// The symbols of a module could not be read.
    UnreadableModule { module: usize },
    /// A function lies outside the image, contradicts what is known of the
    /// places in it, or refers to something outside the image or without a name.
    MalformedFunction { module: usize, symbol: usize },
}

impl Image {
    /// What could not be done does not come right with more symbols.
    pub proof fn lemma_error_stays(
        self,
        m: int,
        lib: Seq<u8>,
        root: Seq<u8>,
        depth: nat,
        before: Progress,
        symbols: Seq<Option<FunctionEntry>>,
        i: int,
        n: int,
    )
        requires
            0 <= i <= n,
            self.after_symbols(m, lib, root, depth, before, symbols, i) is Err,
        ensures
            self.after_symbols(m, lib, root, depth, before, symbols, n) == self.after_symbols(
                m,
                lib,
                root,
                depth,
                before,
                symbols,
                i,
            ),
        decreases n,
    {
        if i < n {
            self.lemma_error_stays(m, lib, root, depth, before, symbols, i, n - 1);
        }
    }

    /// What could not be done does not come right with more modules.
    pub proof fn lemma_module_error_stays(
        self,
        modules: Seq<ModuleEntry>,
        relocs: Map<usize, Reference>,
        m: int,
        n: int,
    )
        requires
            0 <= m <= n,
            self.after_modules(modules, relocs, m) is Err,
        ensures
            self.after_modules(modules, relocs, n) == self.after_modules(modules, relocs, m),
        decreases n,
    {
        if m < n {
            self.lemma_module_error_stays(modules, relocs, m, n - 1);
        }
    }
}

} // verus!
