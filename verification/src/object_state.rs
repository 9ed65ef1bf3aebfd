//! What an object file is, and what adding to it makes of it.
use crate::bytes::ascii;
use crate::coff::{
    is_storable_name, ByteOrder, Contents, FileFormat, NameMangling, Processor, RelocationEntry,
    SectionEntry, SectionKind, Settings, SymbolEntry, SymbolKind, SymbolPlace, SymbolScope, REL32,
};
use crate::decoration::{decorated, DecorationTally};
use crate::relocs::Reference;
use vstd::prelude::*;

verus! {

/// The number of the section for data that changes.
pub open spec fn data_section() -> int {
    0
}

/// The number of the section for data that does not change.
pub open spec fn rdata_section() -> int {
    1
}

/// The number of the section for code.
pub open spec fn text_section() -> int {
    2
}

/// How many bytes are missing to a multiple of four.
pub open spec fn padding_len(n: nat) -> nat {
    ((4 - n % 4) % 4) as nat
}

/// `data`, filled up with `pad` to a multiple of four bytes.
pub open spec fn padded(data: Seq<u8>, pad: u8) -> Seq<u8> {
    data + Seq::new(padding_len(data.len()), |i: int| pad)
}

/// The settings of every object file: COFF for the I386, with names verbatim.
pub open spec fn standard_settings() -> Settings {
    Settings {
        format: FileFormat::Coff,
        processor: Processor::I386,
        order: ByteOrder::Little,
        mangling: NameMangling::Verbatim,
        plain: true,
    }
}

impl SectionEntry {
    /// Whether this is the section `name` of an object file with `symbols`
    /// symbols: it is filled to a multiple of four bytes, its length is a number
    /// of 64 bits, and its relocations refer to those symbols, each to its own.
    pub open spec fn is_section(self, name: Seq<u8>, kind: SectionKind, symbols: nat) -> bool {
        &&& self.segment == Seq::<u8>::empty()
        &&& self.name == name
        &&& self.kind == kind
        &&& self.align == 1 || self.align == 4
        &&& self.data.len() % 4 == 0
        &&& self.data.len() <= u64::MAX
        &&& self.relocations.len() <= symbols
        &&& forall|j: int|
            0 <= j < self.relocations.len() ==> 0 <= (#[trigger] self.relocations[j]).symbol
                < symbols
    }
}

impl Contents {
    /// Whether these are the contents of an object file of this library.
    pub open spec fn is_object(self) -> bool {
        &&& self.settings == standard_settings()
        &&& self.sections.len() == 3
        &&& self.sections[data_section()].is_section(
            ascii(".data"@),
            SectionKind::Data,
            self.symbols.len(),
        )
        &&& self.sections[rdata_section()].is_section(
            ascii(".rdata"@),
            SectionKind::ReadOnlyData,
            self.symbols.len(),
        )
        &&& self.sections[text_section()].is_section(
            ascii(".text"@),
            SectionKind::Text,
            self.symbols.len(),
        )
        &&& forall|i: int|
            0 <= i < self.symbols.len() ==> match (#[trigger] self.symbols[i]).place {
                SymbolPlace::Undefined => true,
                SymbolPlace::Section(n) => 0 <= n < 3,
            }
    }

    /// The contents with more data at the end of a section.
    pub open spec fn with_data(self, section: int, data: Seq<u8>) -> Contents {
        Contents {
            sections: self.sections.update(section, self.sections[section].with_data(data, 1)),
            ..self
        }
    }

    /// The contents with one more symbol.
    pub open spec fn with_symbol(self, symbol: SymbolEntry) -> Contents {
        Contents { symbols: self.symbols.push(symbol), ..self }
    }

    /// The contents with one more relocation in a section.
    pub open spec fn with_relocation(self, section: int, relocation: RelocationEntry) -> Contents {
        Contents {
            sections: self.sections.update(
                section,
                self.sections[section].with_relocation(relocation),
            ),
            ..self
        }
    }
}

/// A place in an object file, by the number of its section.
pub struct Place {
    pub section: int,
    pub offset: u64,
}

/// The symbol that stands for the place `at`, or for something elsewhere, under
/// a name. It is for code if it is elsewhere or in the section for code.
pub open spec fn symbol_at(name: Seq<u8>, at: Option<Place>) -> SymbolEntry {
    SymbolEntry {
        name,
        value: match at {
            Some(place) => place.offset,
            None => 0,
        },
        size: u64::MAX,
        kind: match at {
            Some(place) => if place.section == text_section() {
                SymbolKind::Text
            } else {
                SymbolKind::Data
            },
            None => SymbolKind::Text,
        },
        scope: SymbolScope::Linkage,
        weak: false,
        place: match at {
            Some(place) => SymbolPlace::Section(place.section),
            None => SymbolPlace::Undefined,
        },
    }
}

/// What an object file is, for those who use it: what it holds, and how the
/// names of the functions in it were decorated.
#[verifier::ext_equal]
pub struct ObjectState {
    pub contents: Contents,
    pub decorations: DecorationTally,
}

impl ObjectState {
    /// Whether the file format has room for the object file: it has for fewer
    /// symbols than the largest number of 32 bits, and for long names without
    /// zero bytes.
    pub open spec fn is_writable(self) -> bool {
        self.contents.symbols.len() < u32::MAX && all_names_storable(self.contents.symbols)
    }

    /// Where the next data of a section goes.
    pub open spec fn end_of(self, section: int) -> Place {
        Place { section, offset: self.contents.sections[section].data.len() as u64 }
    }

    /// An object file without functions. Four bytes at the start of the
    /// section for unchanging data keep a constant from lying at offset zero.
    pub open spec fn empty(pad_rdata: bool) -> ObjectState {
        let rdata = SectionEntry::fresh(
            Seq::<u8>::empty(),
            ascii(".rdata"@),
            SectionKind::ReadOnlyData,
        );
        ObjectState {
            contents: Contents {
                settings: standard_settings(),
                sections: seq![
                    SectionEntry::fresh(Seq::<u8>::empty(), ascii(".data"@), SectionKind::Data),
                    if pad_rdata {
                        rdata.with_data(seq![0u8, 0u8, 0u8, 0u8], 4)
                    } else {
                        rdata
                    },
                    SectionEntry::fresh(Seq::<u8>::empty(), ascii(".text"@), SectionKind::Text),
                ],
                symbols: Seq::<SymbolEntry>::empty(),
            },
            decorations: DecorationTally::zero(),
        }
    }

    /// The object file with more data in a section, filled up to a multiple of
    /// four bytes.
    pub open spec fn with_padded_data(self, section: int, data: Seq<u8>, pad: u8) -> ObjectState {
        ObjectState { contents: self.contents.with_data(section, padded(data, pad)), ..self }
    }

    /// The object file with a symbol for `target`, and a relocation that puts
    /// the distance to it at `at`.
    pub open spec fn with_reference(
        self,
        name: Seq<u8>,
        target: Option<Place>,
        at: Place,
    ) -> ObjectState {
        ObjectState {
            contents: self.contents.with_symbol(symbol_at(name, target)).with_relocation(
                at.section,
                RelocationEntry {
                    offset: at.offset,
                    symbol: self.contents.symbols.len() as int,
                    typ: REL32,
                },
            ),
            ..self
        }
    }

    /// The object file with one more function, under its decorated name.
    pub open spec fn with_function(self, name: Seq<u8>, body: Seq<u8>) -> ObjectState {
        ObjectState {
            contents: self.contents.with_data(text_section(), padded(body, 0x90)).with_symbol(
                symbol_at(decorated(name), Some(self.end_of(text_section()))),
            ),
            decorations: self.decorations.with(name),
        }
    }

    /// Where the data goes that a reference refers to.
    pub open spec fn home_of(self, reference: Reference) -> Place {
        match reference {
            Reference::Static { symbol, target_rva } => self.end_of(data_section()),
            _ => self.end_of(rdata_section()),
        }
    }

    /// The object file with what a reference refers to, and the reference to
    /// it at `at`. A function is elsewhere, and goes by its decorated name. Data
    /// is brought along: all of a string, four bytes of anything else.
    pub open spec fn with_target(self, reference: Reference, at: Place, image: Seq<u8>) -> ObjectState {
        let home = self.home_of(reference);
        match reference {
            Reference::Function { rva, name } => ObjectState {
                decorations: self.decorations.with(name),
                ..self.with_reference(decorated(name), None, at)
            },
            Reference::ConstantString { symbol, data } => self.with_padded_data(
                home.section,
                data,
                0,
            ).with_reference(reference.name(), Some(home), at),
            Reference::Constant { symbol, target_rva } => self.with_padded_data(
                home.section,
                image.subrange(target_rva as int, target_rva + 4),
                0,
            ).with_reference(symbol, Some(home), at),
            Reference::Static { symbol, target_rva } => self.with_padded_data(
                home.section,
                image.subrange(target_rva as int, target_rva + 4),
                0,
            ).with_reference(symbol, Some(home), at),
        }
    }

    /// The object file with a chain of references: the first is at `at`, and
    /// each of the others at the data that the one before refers to.
    pub open spec fn with_chain(self, chain: Seq<Reference>, at: Place, image: Seq<u8>) -> ObjectState
        decreases chain.len(),
    {
        if chain.len() == 0 {
            self
        } else {
            self.with_target(chain[0], at, image).with_chain(
                chain.drop_first(),
                self.home_of(chain[0]),
                image,
            )
        }
    }
}

/// Whether the names of all symbols can be stored.
pub open spec fn all_names_storable(symbols: Seq<SymbolEntry>) -> bool {
    forall|i: int| 0 <= i < symbols.len() ==> is_storable_name((#[trigger] symbols[i]).name)
}

} // verus!
