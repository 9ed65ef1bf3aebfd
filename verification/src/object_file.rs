//! One object file: its three sections, and the functions, constants and
//! references that go into them.
use crate::bytes::text_bytes;
use crate::coff::{
    add_relocation, add_section, add_symbol, append_data, contents_of, file_image,
    is_storable_name, new_object, same_section, section_number, sections_of, set_mangling,
    settings_of, symbol_number, write_object, ByteOrder, FileFormat, NameMangling, NewRelocation,
    NewSymbol, NewSymbolPlace, Processor, RelocationEncoding, RelocationKind, SectionKind,
    SymbolKind, SymbolPlace, SymbolScope,
};
use crate::decoration::DecorationTally;
use crate::object_state::{
    all_names_storable, data_section, padded, rdata_section, text_section, ObjectState, Place,
};
use crate::relocs::{lemma_chain_step, lemma_one_less, Reference, RelocKind, RelocTable};
use std::collections::HashSet;
use vstd::prelude::*;
use vstd::slice::{slice_subrange, slice_to_vec};
use vstd::std_specs::hash::group_hash_axioms;

verus! {

/// A place in an object file.
#[derive(Copy, Clone)]
pub struct ObjectOffset {
    /// Where in the section.
    pub offset: u64,
    /// The section.
    pub section_id: object::write::SectionId,
}

impl ObjectOffset {
    /// The place, by the number of its section.
    pub open spec fn place(self) -> Place {
        Place { section: section_number(self.section_id), offset: self.offset }
    }

    /// Whether the place is in one of the three sections.
    pub open spec fn is_valid(self) -> bool {
        0 <= section_number(self.section_id) < 3
    }
}

impl core::ops::Add<usize> for ObjectOffset {
    type Output = ObjectOffset;

    fn add(self, rhs: usize) -> (r: ObjectOffset) {
        ObjectOffset { offset: self.offset + rhs as u64, section_id: self.section_id }
    }
}

impl vstd::std_specs::ops::AddSpecImpl<usize> for ObjectOffset {
    open spec fn obeys_add_spec() -> bool {
        true
    }

    open spec fn add_req(self, rhs: usize) -> bool {
        self.offset + rhs <= u64::MAX
    }

    open spec fn add_spec(self, rhs: usize) -> ObjectOffset {
        ObjectOffset { offset: (self.offset + rhs) as u64, section_id: self.section_id }
    }
}

/// What a reference goes to.
#[derive(Copy, Clone)]
pub enum ObjectLocation {
    /// A place in the same object file.
    Offset(ObjectOffset),
    /// Something in another object file.
    Extern,
}

impl ObjectLocation {
    /// The place, by the number of its section.
    pub open spec fn place(self) -> Option<Place> {
        match self {
            ObjectLocation::Offset(offset) => Some(offset.place()),
            ObjectLocation::Extern => None,
        }
    }

    /// Whether the place, if there is one, is in one of the three sections.
    pub open spec fn is_valid(self) -> bool {
        match self {
            ObjectLocation::Offset(offset) => offset.is_valid(),
            ObjectLocation::Extern => true,
        }
    }
}

/// Why an object file could not be completed.
#[derive(Clone, Copy, PartialEq, Eq, Debug, Structural)]
pub enum ObjectError {
    /// The format has no room for it: there are too many symbols, or a long
    /// name holds a zero byte.
    Unwritable,
}

/// An object file under construction.
pub struct ObjectFile {
    pub object: object::write::Object<'static>,
    pub data_section_id: object::write::SectionId,
    pub rdata_section_id: object::write::SectionId,
    pub text_section_id: object::write::SectionId,
    /// How the names of functions were decorated.
    pub decorations: DecorationTally,
    /// How many symbols there are: the largest number stands for any more than that.
    pub symbol_count: u32,
    /// Whether the names of all symbols can be stored.
    pub names_storable: bool,
}

impl View for ObjectFile {
    type V = ObjectState;

    open spec fn view(&self) -> ObjectState {
        ObjectState { contents: contents_of(self.object), decorations: self.decorations }
    }
}

impl ObjectFile {
    /// The three sections are there, filled to multiples of four bytes, and
    /// what is known of the symbols is true.
    pub open spec fn wf(&self) -> bool {
        &&& self@.contents.is_object()
        &&& section_number(self.data_section_id) == data_section()
        &&& section_number(self.rdata_section_id) == rdata_section()
        &&& section_number(self.text_section_id) == text_section()
        &&& self.symbol_count == if self@.contents.symbols.len() < u32::MAX {
            self@.contents.symbols.len()
        } else {
            u32::MAX as nat
        }
        &&& self.names_storable == all_names_storable(self@.contents.symbols)
    }

    /// Makes an object file without functions. With `pad_rdata` the section
    /// for unchanging data starts with four bytes that nothing refers to.
    pub fn empty(pad_rdata: bool) -> (r: ObjectFile)
        ensures
            r.wf(),
            r@ == ObjectState::empty(pad_rdata),
    {
        proof {
            reveal_strlit(".data");
            reveal_strlit(".rdata");
            reveal_strlit(".text");
        }
        let mut object = new_object(FileFormat::Coff, Processor::I386, ByteOrder::Little);
        set_mangling(&mut object, NameMangling::Verbatim);

        let data_section_id = add_section(
            &mut object,
            Vec::new(),
            slice_to_vec(text_bytes(".data")),
            SectionKind::Data,
        );
        let rdata_section_id = add_section(
            &mut object,
            Vec::new(),
            slice_to_vec(text_bytes(".rdata")),
            SectionKind::ReadOnlyData,
        );
        let text_section_id = add_section(
            &mut object,
            Vec::new(),
            slice_to_vec(text_bytes(".text")),
            SectionKind::Text,
        );
        if pad_rdata {
            let zeros: [u8; 4] = [0, 0, 0, 0];
            append_data(&mut object, rdata_section_id, &zeros, 4);
            assert(zeros@ =~= seq![0u8, 0u8, 0u8, 0u8]);
        }
        let r = ObjectFile {
            object,
            data_section_id,
            rdata_section_id,
            text_section_id,
            decorations: DecorationTally::new(),
            symbol_count: 0,
            names_storable: true,
        };
        assert(r@.contents.sections =~= ObjectState::empty(pad_rdata).contents.sections);
        r
    }
}

/// Adds data at the end of a section, fills it up to a multiple of four bytes
/// with `pad`, and returns where the data starts.
pub fn append_with_padding(
    object: &mut object::write::Object<'static>,
    section_id: object::write::SectionId,
    data: &[u8],
    pad: u8,
) -> (r: u64)
    requires
        settings_of(*old(object)).plain,
        0 <= section_number(section_id) < sections_of(*old(object)).len(),
    ensures
        r == sections_of(*old(object))[section_number(section_id)].data.len(),
        r + data@.len() <= u64::MAX,
        sections_of(*final(object))[section_number(section_id)].data.len() <= u64::MAX,
        contents_of(*final(object)) == contents_of(*old(object)).with_data(
            section_number(section_id),
            padded(data@, pad),
        ),
{
    let ghost n = section_number(section_id);
    let offset: u64 = append_data(object, section_id, data, 1);
    match 4 - data.len() % 4 {
        1 => {
            let padding: [u8; 1] = [pad];
            append_data(object, section_id, &padding, 1);
            assert(data@ + padding@ =~= padded(data@, pad));
        },
        2 => {
            let padding: [u8; 2] = [pad, pad];
            append_data(object, section_id, &padding, 1);
            assert(data@ + padding@ =~= padded(data@, pad));
        },
        3 => {
            let padding: [u8; 3] = [pad, pad, pad];
            append_data(object, section_id, &padding, 1);
            assert(data@ + padding@ =~= padded(data@, pad));
        },
        _ => {
            assert(data@ =~= padded(data@, pad));
        },
    }
    proof {
        let want = contents_of(*old(object)).with_data(n, padded(data@, pad));
        let got = contents_of(*object);
        assert(got.sections[n].data =~= want.sections[n].data);
        assert(got.sections =~= want.sections);
    }
    offset
}

/// Reads a word of four bytes.
///
/// Calls `bytemuck::pod_read_unaligned`, which is trusted to return the bytes
/// as they are.
#[verifier::external_body]
fn read_word(bytes: &[u8]) -> (r: [u8; 4])
    requires
        bytes@.len() == 4,
    ensures
        r@ == bytes@,
{
    bytemuck::pod_read_unaligned::<[u8; 4]>(bytes)
}

/// A chain of one reference adds that reference.
proof fn lemma_last_link(state: ObjectState, chain: Seq<Reference>, at: Place, image: Seq<u8>)
    requires
        chain.len() == 1,
    ensures
        state.with_chain(chain, at, image) == state.with_target(chain[0], at, image),
{
    reveal_with_fuel(ObjectState::with_chain, 2);
}

/// Tells whether the name of a symbol can be stored.
pub fn name_is_storable(name: &[u8]) -> (r: bool)
    ensures
        r == is_storable_name(name@),
{
    if name.len() <= 8 {
        return true;
    }
    let mut i: usize = 0;
    while i < name.len()
        invariant
            i <= name@.len(),
            name@.len() > 8,
            forall|j: int| 0 <= j < i ==> name@[j] != 0,
        decreases name@.len() - i,
    {
        if name[i] == 0 {
            return false;
        }
        i = i + 1;
    }
    true
}

impl ObjectFile {
    /// Adds data at the end of a section, fills it up to a multiple of four
    /// bytes with `pad`, and returns where the data starts.
    pub fn append_section_data(
        &mut self,
        section_id: object::write::SectionId,
        data: &[u8],
        pad: u8,
    ) -> (r: ObjectOffset)
        requires
            old(self).wf(),
            0 <= section_number(section_id) < 3,
        ensures
            final(self).wf(),
            final(self)@ == old(self)@.with_padded_data(section_number(section_id), data@, pad),
            final(self).data_section_id == old(self).data_section_id,
            final(self).rdata_section_id == old(self).rdata_section_id,
            final(self).text_section_id == old(self).text_section_id,
            r.section_id == section_id,
            r.offset == old(self)@.contents.sections[section_number(section_id)].data.len(),
            r.place() == old(self)@.end_of(section_number(section_id)),
            r.offset + data@.len() <= u64::MAX,
    {
        let offset: u64 = append_with_padding(&mut self.object, section_id, data, pad);
        ObjectOffset { offset, section_id }
    }

    /// Adds a symbol, and returns what stands for it.
    fn push_symbol(&mut self, symbol: NewSymbol) -> (r: object::write::SymbolId)
        requires
            old(self).wf(),
            symbol.entry().place matches SymbolPlace::Section(n) ==> 0 <= n < 3,
        ensures
            final(self).wf(),
            final(self)@ == (ObjectState {
                contents: old(self)@.contents.with_symbol(symbol.entry()),
                ..old(self)@
            }),
            final(self).data_section_id == old(self).data_section_id,
            final(self).rdata_section_id == old(self).rdata_section_id,
            final(self).text_section_id == old(self).text_section_id,
            symbol_number(r) == old(self)@.contents.symbols.len(),
    {
        let ghost symbols = self@.contents.symbols;
        let ghost entry = symbol.entry();
        let storable: bool = name_is_storable(symbol.name.as_slice());
        self.names_storable = self.names_storable && storable;
        if self.symbol_count < u32::MAX {
            self.symbol_count = self.symbol_count + 1;
        }
        let r = add_symbol(&mut self.object, symbol);
        proof {
            let after = self@.contents.symbols;
            assert(after == symbols.push(entry));
            assert(after.drop_last() =~= symbols);
            assert(all_names_storable(after) == (all_names_storable(symbols) && storable)) by {
                if all_names_storable(after) {
                    assert(is_storable_name(after[symbols.len() as int].name));
                    assert forall|i: int| 0 <= i < symbols.len() implies is_storable_name(
                        (#[trigger] symbols[i]).name,
                    ) by {
                        assert(after[i] == symbols[i]);
                    }
                }
            }
        }
        r
    }

    /// Adds a symbol for what is referred to, and a relocation that puts the
    /// distance to it at `offset`.
    pub fn add_relocation(
        &mut self,
        name: Vec<u8>,
        location: ObjectLocation,
        offset: ObjectOffset,
    ) -> (r: Result<(), ObjectError>)
        requires
            old(self).wf(),
            location.is_valid(),
            offset.is_valid(),
        ensures
            r is Ok,
            final(self).wf(),
            final(self)@ == old(self)@.with_reference(name@, location.place(), offset.place()),
            final(self).data_section_id == old(self).data_section_id,
            final(self).rdata_section_id == old(self).rdata_section_id,
            final(self).text_section_id == old(self).text_section_id,
    {
        let value: u64 = match location {
            ObjectLocation::Extern => 0,
            ObjectLocation::Offset(place) => place.offset,
        };
        let (kind, place) = match location {
            // What is elsewhere is always a function: data is brought along.
            ObjectLocation::Extern => (SymbolKind::Text, NewSymbolPlace::Undefined),
            ObjectLocation::Offset(place) => {
                let kind = if same_section(place.section_id, self.text_section_id) {
                    SymbolKind::Text
                } else {
                    SymbolKind::Data
                };
                (kind, NewSymbolPlace::Section(place.section_id))
            },
        };
        let symbol = self.push_symbol(
            NewSymbol {
                name,
                value,
                size: u64::MAX,
                kind,
                scope: SymbolScope::Linkage,
                weak: false,
                place,
            },
        );
        let added = add_relocation(
            &mut self.object,
            offset.section_id,
            NewRelocation {
                offset: offset.offset,
                symbol,
                addend: -4,
                kind: RelocationKind::Relative,
                encoding: RelocationEncoding::Generic,
                size: 32,
            },
        );
        match added {
            Ok(()) => Ok(()),
            Err(_) => Err(ObjectError::Unwritable),
        }
    }

    /// Adds a function under its decorated name, and returns where it starts.
    pub fn add_function(&mut self, name: &[u8], body: &[u8]) -> (r: ObjectOffset)
        requires
            old(self).wf(),
        ensures
            final(self).wf(),
            final(self)@ == old(self)@.with_function(name@, body@),
            final(self).data_section_id == old(self).data_section_id,
            final(self).rdata_section_id == old(self).rdata_section_id,
            final(self).text_section_id == old(self).text_section_id,
            r.section_id == old(self).text_section_id,
            r.offset == old(self)@.contents.sections[text_section()].data.len(),
            r.offset % 4 == 0,
            r.place() == old(self)@.end_of(text_section()),
            r.offset + body@.len() <= u64::MAX,
    {
        let text = self.text_section_id;
        let r = self.append_section_data(text, body, 0x90);
        let decorated_name = self.decorations.decorate(name);
        self.push_symbol(
            NewSymbol {
                name: decorated_name,
                value: r.offset,
                size: u64::MAX,
                kind: SymbolKind::Text,
                scope: SymbolScope::Linkage,
                weak: false,
                place: NewSymbolPlace::Section(r.section_id),
            },
        );
        r
    }

    /// Adds what `reloc_kind` refers to, and the reference to it at
    /// `reloc_offset`; and where the data brought along refers to something in
    /// turn, that too, and so on. The addresses in `visited` are not followed,
    /// so that data that leads back to itself is added once.
    pub fn add_relocation_at(
        &mut self,
        reloc_kind: RelocKind,
        reloc_offset: ObjectOffset,
        coff_data: &[u8],
        relocs_rva: &RelocTable,
        visited: &mut HashSet<usize>,
    ) -> (r: Result<(), ObjectError>)
        requires
            old(self).wf(),
            reloc_offset.is_valid(),
            reloc_kind@.is_chain_placeable(relocs_rva@, old(visited)@, coff_data@.len()),
        ensures
            r is Ok,
            final(self).wf(),
            final(self)@ == old(self)@.with_chain(
                reloc_kind@.chain(relocs_rva@, old(visited)@),
                reloc_offset.place(),
                coff_data@,
            ),
            final(visited)@ == old(visited)@.union(
                reloc_kind@.followed(relocs_rva@, old(visited)@).to_set(),
            ),
            final(self).data_section_id == old(self).data_section_id,
            final(self).rdata_section_id == old(self).rdata_section_id,
            final(self).text_section_id == old(self).text_section_id,
        decreases relocs_rva@.dom().difference(old(visited)@).len(),
    {
        broadcast use group_hash_axioms;

        let ghost before = self@;
        let ghost seen = visited@;
        let ghost chain = reloc_kind@.chain(relocs_rva@, seen);
        proof {
            relocs_rva.lemma_finite();
            assert(chain[0] == reloc_kind@);
            assert(reloc_kind@.is_placeable(coff_data@.len()));
        }
        let name = reloc_kind.get_name();
        let reloc_name = name.as_raw_string();

        let (target_rva, section_id) = match reloc_kind {
            RelocKind::Function { rva: _, name: _ } => {
                // The same name as where the function is defined, or the
                // linker would take them for two.
                let decorated_name = self.decorations.decorate(reloc_name);
                proof {
                    lemma_last_link(before, chain, reloc_offset.place(), coff_data@);
                }
                return self.add_relocation(decorated_name, ObjectLocation::Extern, reloc_offset);
            },
            RelocKind::ConstantString { symbol: _, data } => {
                let rdata = self.rdata_section_id;
                let home = self.append_section_data(rdata, data, 0x00);
                proof {
                    lemma_last_link(before, chain, reloc_offset.place(), coff_data@);
                }
                return self.add_relocation(
                    slice_to_vec(reloc_name),
                    ObjectLocation::Offset(home),
                    reloc_offset,
                );
            },
            RelocKind::Constant { symbol: _, target_rva } => (target_rva, self.rdata_section_id),
            RelocKind::Static { symbol: _, target_rva } => (target_rva, self.data_section_id),
        };
        let image_len: usize = coff_data.len();
        assert(target_rva + 4 <= image_len);
        let new_data: [u8; 4] = read_word(slice_subrange(coff_data, target_rva, target_rva + 4));
        let home = self.append_section_data(section_id, &new_data, 0x00);
        let added = self.add_relocation(
            slice_to_vec(reloc_name),
            ObjectLocation::Offset(home),
            reloc_offset,
        );
        if added.is_err() {
            return added;
        }
        assert(self@ == before.with_target(reloc_kind@, reloc_offset.place(), coff_data@));
        assert(home.place() == before.home_of(reloc_kind@));
        match relocs_rva.get(target_rva) {
            Some(next) => {
                if visited.insert(target_rva) {
                    proof {
                        lemma_one_less(relocs_rva@.dom(), seen, target_rva);
                        lemma_chain_step(reloc_kind@, relocs_rva@, seen, target_rva);
                        let rest = next@.chain(relocs_rva@, visited@);
                        assert(chain.drop_first() =~= rest);
                        assert forall|i: int| 0 <= i < rest.len() implies (
                        #[trigger] rest[i]).is_placeable(coff_data@.len()) by {
                            assert(chain[i + 1] == rest[i]);
                        }
                        let tail = next@.followed(relocs_rva@, visited@);
                        assert((seq![target_rva] + tail).to_set() =~= tail.to_set().insert(
                            target_rva,
                        )) by {
                            assert((seq![target_rva] + tail)[0] == target_rva);
                            assert forall|x: usize| tail.contains(x) implies (seq![target_rva]
                                + tail).contains(x) by {
                                let k = tail.index_of(x);
                                assert((seq![target_rva] + tail)[k + 1] == x);
                            }
                        }
                        assert(seen.union((seq![target_rva] + tail).to_set()) =~= visited@.union(
                            tail.to_set(),
                        ));
                    }
                    return self.add_relocation_at(next, home, coff_data, relocs_rva, visited);
                }
                assert(visited@ =~= seen);
            },
            None => {},
        }
        proof {
            lemma_last_link(before, chain, reloc_offset.place(), coff_data@);
            assert(seen.union(Seq::<usize>::empty().to_set()) =~= seen);
        }
        Ok(())
    }

    /// Returns the bytes of the file.
    pub fn to_bytes(&self) -> (r: Result<Vec<u8>, ObjectError>)
        requires
            self.wf(),
        ensures
            r is Ok <==> self@.is_writable(),
            r is Ok ==> r->Ok_0@ == file_image(self@.contents),
    {
        if !self.names_storable || self.symbol_count == u32::MAX {
            return Err(ObjectError::Unwritable);
        }
        proof {
            reveal_strlit(".data");
            reveal_strlit(".rdata");
            reveal_strlit(".text");
        }
        match write_object(&self.object) {
            Ok(bytes) => Ok(bytes),
            Err(_) => Err(ObjectError::Unwritable),
        }
    }
}

} // verus!
