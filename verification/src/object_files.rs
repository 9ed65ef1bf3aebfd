//! All object files of an image: which function goes where.
use crate::bytes::same_bytes;
use crate::code::{
    branch_sites, resolve_relative_relocations, site_views, sites_match, Env,
};
use crate::coff::file_image;
use crate::decoration::DecorationTally;
use crate::keys::{object_key, output_path, path_of_output};
use crate::modules::{
    module_layouts, module_libs, module_views, FunctionSymbol, LibLayout, Module, ModuleSymbol,
    ModuleSymbols,
};
use crate::object_file::{ObjectError, ObjectFile};
use crate::object_state::{text_section, ObjectState};
use crate::paths::{is_system_lib, is_translation_unit, normalise};
use crate::relocs::{can_place, RelocTable};
use crate::splitting::{are_placeable, with_references, Image, ParseError, Progress};
use crate::symbols::PdbSymbols;
use std::collections::HashSet;
use vstd::prelude::*;
use vstd::slice::slice_subrange;

verus! {

/// An object file and its name.
pub struct ObjectEntry {
    /// The name: a path within the output, without its extension.
    pub key: Vec<u8>,
    pub object: ObjectFile,
}

/// The object files of an image.
pub struct ObjectFiles {
    /// The object files, in the order in which they came; no name occurs twice.
    pub objects: Vec<ObjectEntry>,
}

/// Whether the object file of number `i` goes by the name `key`.
pub open spec fn is_at(objects: Seq<ObjectEntry>, key: Seq<u8>, i: int) -> bool {
    0 <= i < objects.len() && objects[i].key@ == key
}

impl View for ObjectFiles {
    type V = Map<Seq<u8>, ObjectState>;

    open spec fn view(&self) -> Map<Seq<u8>, ObjectState> {
        Map::new(
            |key: Seq<u8>| exists|i: int| is_at(self.objects@, key, i),
            |key: Seq<u8>| self.objects@[choose|i: int| is_at(self.objects@, key, i)].object@,
        )
    }
}

impl ObjectFiles {
    /// The object files are in order, and no name occurs twice.
    pub open spec fn wf(&self) -> bool {
        &&& forall|i: int| 0 <= i < self.objects@.len() ==> (#[trigger] self.objects@[i]).object.wf()
        &&& forall|i: int, j: int|
            0 <= i < j < self.objects@.len() ==> (#[trigger] self.objects@[i]).key@ != (
            #[trigger] self.objects@[j]).key@
    }

    /// The object file of a number is the one that its name leads to.
    pub proof fn lemma_at(&self, i: int)
        requires
            self.wf(),
            0 <= i < self.objects@.len(),
        ensures
            self@.contains_key(self.objects@[i].key@),
            self@[self.objects@[i].key@] == self.objects@[i].object@,
    {
        let key = self.objects@[i].key@;
        assert(is_at(self.objects@, key, i));
        let k = choose|k: int| is_at(self.objects@, key, k);
        assert(k == i);
    }

    /// Makes a list without object files.
    pub fn new() -> (r: ObjectFiles)
        ensures
            r.wf(),
            r@ == Map::<Seq<u8>, ObjectState>::empty(),
    {
        let r = ObjectFiles { objects: Vec::new() };
        assert(r@ =~= Map::<Seq<u8>, ObjectState>::empty());
        r
    }

    /// Returns the number of the object file of a name, which is made if there
    /// is none.
    fn entry(&mut self, key: Vec<u8>, pad_rdata: bool) -> (r: usize)
        requires
            old(self).wf(),
        ensures
            final(self).wf(),
            r < final(self).objects@.len(),
            final(self).objects@[r as int].key@ == key@,
            final(self)@ == if old(self)@.contains_key(key@) {
                old(self)@
            } else {
                old(self)@.insert(key@, ObjectState::empty(pad_rdata))
            },
    {
        let ghost before = *self;
        let mut i: usize = 0;
        while i < self.objects.len()
            invariant
                i <= self.objects@.len(),
                *self == before,
                before.wf(),
                forall|k: int| 0 <= k < i ==> (#[trigger] self.objects@[k]).key@ != key@,
            decreases self.objects@.len() - i,
        {
            if same_bytes(self.objects[i].key.as_slice(), key.as_slice()) {
                assert(is_at(self.objects@, key@, i as int));
                return i;
            }
            i = i + 1;
        }
        let ghost name = key@;
        self.objects.push(ObjectEntry { key, object: ObjectFile::empty(pad_rdata) });
        proof {
            let after = self.objects@;
            assert(!before@.contains_key(name));
            assert forall|k: int| 0 <= k < before.objects@.len() implies after[k]
                == #[trigger] before.objects@[k] by {}
            assert(self@ =~= before@.insert(name, ObjectState::empty(pad_rdata))) by {
                assert forall|other: Seq<u8>| self@.contains_key(other) <==> before@.contains_key(
                    other,
                ) || other == name by {
                    if before@.contains_key(other) {
                        let k = choose|k: int| is_at(before.objects@, other, k);
                        assert(is_at(after, other, k));
                    }
                    if other == name {
                        assert(is_at(after, other, i as int));
                    }
                    if self@.contains_key(other) && other != name {
                        let k = choose|k: int| is_at(after, other, k);
                        assert(is_at(before.objects@, other, k));
                    }
                }
                assert forall|other: Seq<u8>| before@.contains_key(other) implies self@[other]
                    == before@[other] by {
                    let k = choose|k: int| is_at(before.objects@, other, k);
                    before.lemma_at(k);
                    self.lemma_at(k);
                }
                self.lemma_at(i as int);
            }
        }
        i
    }

    /// What the object files are once one of them has become another.
    proof fn lemma_replaced(before: ObjectFiles, after: ObjectFiles, i: int)
        requires
            before.wf(),
            0 <= i < before.objects@.len(),
            after.objects@ == before.objects@.update(i, after.objects@[i]),
            after.objects@[i].key@ == before.objects@[i].key@,
            after.objects@[i].object.wf(),
        ensures
            after.wf(),
            after@ == before@.insert(before.objects@[i].key@, after.objects@[i].object@),
    {
        let key = before.objects@[i].key@;
        assert forall|j: int, k: int|
            0 <= j < k < after.objects@.len() implies (#[trigger] after.objects@[j]).key@ != (
        #[trigger] after.objects@[k]).key@ by {
            assert(before.objects@[j].key@ == after.objects@[j].key@);
            assert(before.objects@[k].key@ == after.objects@[k].key@);
        }
        assert forall|j: int| 0 <= j < after.objects@.len() implies (
        #[trigger] after.objects@[j]).object.wf() by {
            if j != i {
                assert(before.objects@[j].object.wf());
            }
        }
        assert(after@ =~= before@.insert(key, after.objects@[i].object@)) by {
            assert forall|other: Seq<u8>| after@.contains_key(other) <==> before@.contains_key(
                other,
            ) by {
                if before@.contains_key(other) {
                    let k = choose|k: int| is_at(before.objects@, other, k);
                    assert(is_at(after.objects@, other, k));
                }
                if after@.contains_key(other) {
                    let k = choose|k: int| is_at(after.objects@, other, k);
                    assert(is_at(before.objects@, other, k));
                }
            }
            before.lemma_at(i);
            after.lemma_at(i);
            assert forall|other: Seq<u8>| before@.contains_key(other) && other != key implies after@[other]
                == before@[other] by {
                let k = choose|k: int| is_at(before.objects@, other, k);
                before.lemma_at(k);
                after.lemma_at(k);
            }
        }
    }

    /// Moves a function of the image into the object file that `key` names,
    /// with all that it refers to. Tells whether it can be moved: if not, the
    /// object files stay as they are.
    fn move_function<'s>(
        &mut self,
        env: &Env,
        key: Vec<u8>,
        function: &FunctionSymbol,
        symbols: &'s PdbSymbols,
        coff_data: &[u8],
        relocs_rva: &mut RelocTable<'s>,
        pad_empty_rdata: bool,
    ) -> (r: bool)
        requires
            old(self).wf(),
        ensures
            ({
                let image = image_of(env, symbols, coff_data, pad_empty_rdata);
                let object = if old(self)@.contains_key(key@) {
                    old(self)@[key@]
                } else {
                    ObjectState::empty(pad_empty_rdata)
                };
                &&& final(self).wf()
                &&& r == image.is_movable(function@, old(relocs_rva)@)
                &&& r ==> final(self)@ == old(self)@.insert(
                    key@,
                    image.with_function(object, function@, old(relocs_rva)@),
                )
                &&& r ==> final(relocs_rva)@ == image.relocs_with(function@, old(relocs_rva)@)
                &&& !r ==> final(self)@ == old(self)@
            }),
    {
        let ghost image = image_of(env, symbols, coff_data, pad_empty_rdata);
        let ghost relocs = relocs_rva@;
        let image_len: usize = coff_data.len();
        let fun_size: usize = function.len as usize;
        let fun_offset: usize = function.offset as usize;
        if fun_size > image_len || fun_offset > image_len - fun_size || env.text_rva > image_len
            - fun_size - fun_offset {
            return false;
        }
        let fun_rva: usize = env.text_rva + fun_offset;
        let code = slice_subrange(coff_data, fun_rva, fun_rva + fun_size);
        let found = branch_sites(env, fun_rva, code, symbols);
        assert(code@ == image.code_of(function@));
        assert forall|k: int| 0 <= k < found@.len() implies fun_rva + (#[trigger] found@[k]).offset
            <= usize::MAX by {
            assert(site_views(found@)[k].offset + 4 <= code@.len());
        }
        if !sites_match(relocs_rva, fun_rva, &found) {
            return false;
        }
        let fun_bytes = resolve_relative_relocations(
            env,
            fun_rva,
            fun_size,
            symbols,
            coff_data,
            relocs_rva,
        );
        if !can_place_all(relocs_rva, fun_rva, fun_size, image_len) {
            return false;
        }
        let ghost name = key@;
        let i: usize = self.entry(key, pad_empty_rdata);
        let ghost before = *self;
        proof {
            before.lemma_at(i as int);
        }
        let fun_name: &[u8] = match symbols.get(fun_rva) {
            Some(name) => name,
            None => function.name.as_slice(),
        };
        place_function(
            &mut self.objects[i].object,
            fun_name,
            fun_bytes.as_slice(),
            fun_rva,
            coff_data,
            relocs_rva,
        );
        proof {
            Self::lemma_replaced(before, *self, i as int);
            assert(self@ =~= old(self)@.insert(name, self.objects@[i as int].object@));
        }
        true
    }

    /// Moves the functions of the module of number `m` into object files.
    fn parse_symbols<'s>(
        &mut self,
        env: &Env,
        m: usize,
        lib_name: &[u8],
        layout: &LibLayout,
        module_symbols: &Vec<ModuleSymbol>,
        symbols: &'s PdbSymbols,
        coff_data: &[u8],
        relocs_rva: &mut RelocTable<'s>,
        pad_empty_rdata: bool,
    ) -> (r: Result<(), ParseError>)
        requires
            old(self).wf(),
        ensures
            final(self).wf(),
            ({
                let all = module_symbols@.map_values(|symbol: ModuleSymbol| symbol@);
                let image = image_of(env, symbols, coff_data, pad_empty_rdata);
                match image.after_symbols(
                    m as int,
                    lib_name@,
                    layout.root@,
                    layout.depth as nat,
                    (Progress { objects: old(self)@, relocs: old(relocs_rva)@ }),
                    all,
                    all.len() as int,
                ) {
                    Ok(progress) => {
                        &&& r is Ok
                        &&& final(self)@ == progress.objects
                        &&& final(relocs_rva)@ == progress.relocs
                    },
                    Err(error) => r == Err::<(), ParseError>(error),
                }
            }),
    {
        let ghost all = module_symbols@.map_values(|symbol: ModuleSymbol| symbol@);
        let ghost image = image_of(env, symbols, coff_data, pad_empty_rdata);
        let ghost before = Progress { objects: self@, relocs: relocs_rva@ };
        let mut i: usize = 0;
        while i < module_symbols.len()
            invariant
                i <= module_symbols@.len(),
                all == module_symbols@.map_values(|symbol: ModuleSymbol| symbol@),
                image == image_of(env, symbols, coff_data, pad_empty_rdata),
                before == (Progress { objects: old(self)@, relocs: old(relocs_rva)@ }),
                self.wf(),
                image.after_symbols(
                    m as int,
                    lib_name@,
                    layout.root@,
                    layout.depth as nat,
                    before,
                    all,
                    i as int,
                ) == Ok::<Progress, ParseError>(
                    Progress { objects: self@, relocs: relocs_rva@ },
                ),
            decreases module_symbols@.len() - i,
        {
            let ghost now = Progress { objects: self@, relocs: relocs_rva@ };
            assert(all[i as int] == module_symbols@[i as int]@);
            if let Some(function) = module_symbols[i].function() {
                if let Some(source) = &function.source {
                    let path = normalise(source.as_slice());
                    if is_translation_unit(path.as_slice()) {
                        let key = object_key(
                            path.as_slice(),
                            lib_name,
                            layout.root.as_slice(),
                            layout.depth,
                        );
                        if !self.move_function(
                            env,
                            key,
                            function,
                            symbols,
                            coff_data,
                            relocs_rva,
                            pad_empty_rdata,
                        ) {
                            proof {
                                assert(image.after_symbol(
                                    lib_name@,
                                    layout.root@,
                                    layout.depth as nat,
                                    now,
                                    all[i as int],
                                ) is None);
                                image.lemma_error_stays(
                                    m as int,
                                    lib_name@,
                                    layout.root@,
                                    layout.depth as nat,
                                    before,
                                    all,
                                    i + 1,
                                    all.len() as int,
                                );
                            }
                            return Err(ParseError::MalformedFunction { module: m, symbol: i });
                        }
                    }
                }
            }
            proof {
                assert(image.after_symbol(
                    lib_name@,
                    layout.root@,
                    layout.depth as nat,
                    now,
                    all[i as int],
                ) == Some(Progress { objects: self@, relocs: relocs_rva@ }));
            }
            i = i + 1;
        }
        Ok(())
    }

    /// Moves the functions of the module of number `m` into object files,
    /// unless it belongs to one of the system's libraries.
    fn parse_module<'s>(
        &mut self,
        env: &Env,
        modules: &Vec<Module>,
        m: usize,
        lib_name: &[u8],
        layout: &LibLayout,
        symbols: &'s PdbSymbols,
        coff_data: &[u8],
        relocs_rva: &mut RelocTable<'s>,
        pad_empty_rdata: bool,
    ) -> (r: Result<(), ParseError>)
        requires
            old(self).wf(),
            m < modules@.len(),
            lib_name@ == modules@[m as int]@.lib(),
            layout.is_layout(module_views(modules@), lib_name@),
        ensures
            final(self).wf(),
            match image_of(env, symbols, coff_data, pad_empty_rdata).after_module(
                module_views(modules@),
                (Progress { objects: old(self)@, relocs: old(relocs_rva)@ }),
                m as int,
            ) {
                Ok(progress) => {
                    &&& r is Ok
                    &&& final(self)@ == progress.objects
                    &&& final(relocs_rva)@ == progress.relocs
                },
                Err(error) => r == Err::<(), ParseError>(error),
            },
    {
        assert(module_views(modules@)[m as int] == modules@[m as int]@);
        if is_system_lib(lib_name) {
            return Ok(());
        }
        match &modules[m].symbols {
            ModuleSymbols::Unreadable => Err(ParseError::UnreadableModule { module: m }),
            ModuleSymbols::Missing => Ok(()),
            ModuleSymbols::Present(module_symbols) => self.parse_symbols(
                env,
                m,
                lib_name,
                layout,
                module_symbols,
                symbols,
                coff_data,
                relocs_rva,
                pad_empty_rdata,
            ),
        }
    }

    /// Splits an image up: moves the functions of its modules into object
    /// files, one for each translation unit, with all that they refer to. The
    /// functions of the system's own libraries are left out, and so are those
    /// whose source file is not known or no translation unit.
    pub fn parse<'s>(
        env: &Env,
        modules: &Vec<Module>,
        symbols: &'s PdbSymbols,
        coff_data: &[u8],
        relocs_rva: RelocTable<'s>,
        pad_empty_rdata: bool,
    ) -> (r: Result<ObjectFiles, ParseError>)
        ensures
            match image_of(env, symbols, coff_data, pad_empty_rdata).after_modules(
                module_views(modules@),
                relocs_rva@,
                modules@.len() as int,
            ) {
                Ok(progress) => r is Ok && r->Ok_0.wf() && r->Ok_0@ == progress.objects,
                Err(error) => r is Err && r->Err_0 == error,
            },
    {
        let ghost all = module_views(modules@);
        let ghost image = image_of(env, symbols, coff_data, pad_empty_rdata);
        let ghost relocs = relocs_rva@;
        let libs = module_libs(modules);
        let layouts = module_layouts(modules, &libs);
        let mut table = relocs_rva;
        let mut this = ObjectFiles::new();
        let mut m: usize = 0;
        while m < modules.len()
            invariant
                m <= modules@.len(),
                all == module_views(modules@),
                image == image_of(env, symbols, coff_data, pad_empty_rdata),
                relocs == relocs_rva@,
                libs@.len() == modules@.len(),
                layouts@.len() == modules@.len(),
                forall|k: int| 0 <= k < libs@.len() ==> (#[trigger] libs@[k])@ == modules@[k]@.lib(),
                forall|k: int|
                    0 <= k < layouts@.len() ==> (#[trigger] layouts@[k]).is_layout(
                        all,
                        modules@[k]@.lib(),
                    ),
                this.wf(),
                image.after_modules(all, relocs, m as int) == Ok::<Progress, ParseError>(
                    Progress { objects: this@, relocs: table@ },
                ),
            decreases modules@.len() - m,
        {
            assert(libs@[m as int]@ == modules@[m as int]@.lib());
            let parsed = this.parse_module(
                env,
                modules,
                m,
                libs[m].as_slice(),
                &layouts[m],
                symbols,
                coff_data,
                &mut table,
                pad_empty_rdata,
            );
            if let Err(error) = parsed {
                proof {
                    image.lemma_module_error_stays(all, relocs, m + 1, all.len() as int);
                }
                return Err(error);
            }
            m = m + 1;
        }
        Ok(this)
    }
}

/// A file to be written.
pub struct OutputFile {
    /// Where it goes, below the directory for the output.
    pub path: String,
    /// Its bytes, or why there are none.
    pub image: Result<Vec<u8>, ObjectError>,
}

impl OutputFile {
    /// Whether this is the file of an object file.
    pub open spec fn is_file_of(&self, entry: &ObjectEntry) -> bool {
        &&& self.path@ == output_path(entry.key@)
        &&& self.image is Ok <==> entry.object@.is_writable()
        &&& self.image is Ok ==> self.image->Ok_0@ == file_image(entry.object@.contents)
    }
}

/// How the names in some of the object files were decorated, all in all.
pub open spec fn total_decorations(objects: Seq<ObjectEntry>) -> DecorationTally
    decreases objects.len(),
{
    if objects.len() == 0 {
        DecorationTally::zero()
    } else {
        total_decorations(objects.drop_last()).plus(objects.last().object@.decorations)
    }
}

impl ObjectFiles {
    /// Lays out the files to be written, one for each object file.
    pub fn write(self) -> (r: Vec<OutputFile>)
        requires
            self.wf(),
        ensures
            r@.len() == self.objects@.len(),
            forall|i: int|
                0 <= i < r@.len() ==> (#[trigger] r@[i]).is_file_of(&self.objects@[i]),
    {
        let mut r: Vec<OutputFile> = Vec::with_capacity(self.objects.len());
        let mut i: usize = 0;
        while i < self.objects.len()
            invariant
                i <= self.objects@.len(),
                self.wf(),
                r@.len() == i,
                forall|k: int| 0 <= k < i ==> (#[trigger] r@[k]).is_file_of(&self.objects@[k]),
            decreases self.objects@.len() - i,
        {
            assert(self.objects@[i as int].object.wf());
            let path = path_of_output(self.objects[i].key.as_slice());
            let image = self.objects[i].object.to_bytes();
            r.push(OutputFile { path, image });
            i = i + 1;
        }
        r
    }

    /// Counts how the names in all object files were decorated.
    pub fn decorations(&self) -> (r: DecorationTally)
        ensures
            r == total_decorations(self.objects@),
    {
        let mut r = DecorationTally::new();
        let mut i: usize = 0;
        while i < self.objects.len()
            invariant
                i <= self.objects@.len(),
                r == total_decorations(self.objects@.take(i as int)),
            decreases self.objects@.len() - i,
        {
            r = r.merge(&self.objects[i].object.decorations);
            i = i + 1;
            assert(self.objects@.take(i as int).drop_last() =~= self.objects@.take(i - 1));
        }
        assert(self.objects@.take(i as int) =~= self.objects@);
        r
    }
}

/// What is known of the image, in mathematical terms.
pub open spec fn image_of(
    env: &Env,
    symbols: &PdbSymbols,
    coff_data: &[u8],
    pad_empty_rdata: bool,
) -> Image {
    Image {
        image_base: env.image_base,
        text_rva: env.text_rva,
        functions: symbols@,
        bytes: coff_data@,
        pad_rdata: pad_empty_rdata,
    }
}

/// Tells whether all that the bytes of a function refer to can be brought into
/// an object file.
fn can_place_all(
    relocs_rva: &RelocTable,
    fun_rva: usize,
    fun_size: usize,
    image_len: usize,
) -> (r: bool)
    requires
        fun_rva + fun_size <= usize::MAX,
    ensures
        r == are_placeable(relocs_rva@, fun_rva as int, fun_size as int, image_len as nat),
{
    let mut i: usize = 0;
    while i < fun_size
        invariant
            i <= fun_size,
            fun_rva + fun_size <= usize::MAX,
            are_placeable(relocs_rva@, fun_rva as int, i as int, image_len as nat),
        decreases fun_size - i,
    {
        if let Some(kind) = relocs_rva.get(fun_rva + i) {
            if !can_place(kind, relocs_rva, image_len) {
                assert(relocs_rva@.contains_key((fun_rva + i) as usize));
                return false;
            }
        }
        i = i + 1;
    }
    true
}

/// Adds a function to an object file, with all that its bytes refer to.
fn place_function(
    object_file: &mut ObjectFile,
    fun_name: &[u8],
    fun_bytes: &[u8],
    fun_rva: usize,
    coff_data: &[u8],
    relocs_rva: &RelocTable,
)
    requires
        old(object_file).wf(),
        fun_rva + fun_bytes@.len() <= usize::MAX,
        are_placeable(
            relocs_rva@,
            fun_rva as int,
            fun_bytes@.len() as int,
            coff_data@.len(),
        ),
    ensures
        final(object_file).wf(),
        final(object_file)@ == with_references(
            old(object_file)@.with_function(fun_name@, fun_bytes@),
            old(object_file)@.end_of(text_section()),
            relocs_rva@,
            fun_rva as int,
            fun_bytes@.len() as int,
            coff_data@,
        ),
{
    let ghost at = object_file@.end_of(text_section());
    let start = object_file.add_function(fun_name, fun_bytes);
    let ghost placed = object_file@;
    let fun_size: usize = fun_bytes.len();
    let mut i: usize = 0;
    while i < fun_size
        invariant
            i <= fun_size,
            fun_rva + fun_size <= usize::MAX,
            start.place() == at,
            start.is_valid(),
            start.offset + fun_size <= u64::MAX,
            are_placeable(relocs_rva@, fun_rva as int, fun_size as int, coff_data@.len()),
            object_file.wf(),
            object_file@ == with_references(
                placed,
                at,
                relocs_rva@,
                fun_rva as int,
                i as int,
                coff_data@,
            ),
        decreases fun_size - i,
    {
        if let Some(kind) = relocs_rva.get(fun_rva + i) {
            // Each chain is on its own.
            let mut visited: HashSet<usize> = HashSet::new();
            assert(relocs_rva@.contains_key((fun_rva + i) as usize));
            let _ = object_file.add_relocation_at(
                kind,
                start + i,
                coff_data,
                relocs_rva,
                &mut visited,
            );
        }
        i = i + 1;
    }
}

} // verus!
