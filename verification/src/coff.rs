//! Object files under construction.
//!
//! The `object` crate builds and writes them. Here stand what such a file
//! holds, in plain values, and the crate's calls that change it, each with what
//! it does to the contents.
use vstd::prelude::*;

verus! {

/// The file formats that are written.
#[derive(Clone, Copy, PartialEq, Eq, Debug, Structural)]
pub enum FileFormat {
    Coff,
}

/// The processors that are written for.
#[derive(Clone, Copy, PartialEq, Eq, Debug, Structural)]
pub enum Processor {
    I386,
}

/// The byte orders that are written in.
#[derive(Clone, Copy, PartialEq, Eq, Debug, Structural)]
pub enum ByteOrder {
    Little,
}

/// What is done to the names of symbols as they are added.
#[derive(Clone, Copy, PartialEq, Eq, Debug, Structural)]
pub enum NameMangling {
    /// Nothing.
    Verbatim,
    /// They get the underscore of 32-bit COFF.
    CoffI386,
}

/// What a section holds.
#[derive(Clone, Copy, PartialEq, Eq, Debug, Structural)]
pub enum SectionKind {
    Data,
    ReadOnlyData,
    Text,
}

/// What a symbol stands for.
#[derive(Clone, Copy, PartialEq, Eq, Debug, Structural)]
pub enum SymbolKind {
    Text,
    Data,
}

/// From where a symbol is visible.
#[derive(Clone, Copy, PartialEq, Eq, Debug, Structural)]
pub enum SymbolScope {
    /// From the other object files that are linked.
    Linkage,
}

/// What a relocation computes.
#[derive(Clone, Copy, PartialEq, Eq, Debug, Structural)]
pub enum RelocationKind {
    /// The distance to the symbol.
    Relative,
}

/// How a relocated value is written.
#[derive(Clone, Copy, PartialEq, Eq, Debug, Structural)]
pub enum RelocationEncoding {
    /// As a number.
    Generic,
}

/// The settings of an object file.
pub struct Settings {
    pub format: FileFormat,
    pub processor: Processor,
    pub order: ByteOrder,
    pub mangling: NameMangling,
    /// Whether this describes the file, and nothing else is set in it: there
    /// are no flags, section groups, section symbols or other extras.
    pub plain: bool,
}

/// A relocation, as the file holds it.
pub struct RelocationEntry {
    /// Where in the section it applies.
    pub offset: u64,
    /// The number of the symbol it refers to.
    pub symbol: int,
    /// Its type in the file format.
    pub typ: u16,
}

/// A section, as the file holds it.
#[verifier::ext_equal]
pub struct SectionEntry {
    pub segment: Seq<u8>,
    pub name: Seq<u8>,
    pub kind: SectionKind,
    pub align: u64,
    pub data: Seq<u8>,
    pub relocations: Seq<RelocationEntry>,
}

/// Where a symbol is defined.
pub enum SymbolPlace {
    /// Elsewhere.
    Undefined,
    /// In the section of this number.
    Section(int),
}

/// A symbol, as the file holds it.
#[verifier::ext_equal]
pub struct SymbolEntry {
    pub name: Seq<u8>,
    pub value: u64,
    pub size: u64,
    pub kind: SymbolKind,
    pub scope: SymbolScope,
    pub weak: bool,
    pub place: SymbolPlace,
}

/// All that an object file holds.
#[verifier::ext_equal]
pub struct Contents {
    pub settings: Settings,
    pub sections: Seq<SectionEntry>,
    pub symbols: Seq<SymbolEntry>,
}

/// A type of the `object` crate: an object file under construction.
#[verifier::external_type_specification]
#[verifier::external_body]
pub struct ExObject<'a>(object::write::Object<'a>);

/// A type of the `object` crate: stands for a section of an object file.
#[verifier::external_type_specification]
#[verifier::external_body]
pub struct ExSectionId(object::write::SectionId);

/// A type of the `object` crate: stands for a symbol of an object file.
#[verifier::external_type_specification]
#[verifier::external_body]
pub struct ExSymbolId(object::write::SymbolId);

/// A type of the `object` crate: why an object file could not be changed or written.
#[verifier::external_type_specification]
#[verifier::external_body]
pub struct ExError(object::write::Error);

/// The settings of an object file under construction.
pub uninterp spec fn settings_of(object: object::write::Object<'static>) -> Settings;

/// The sections of an object file under construction, in the order in which
/// they were added.
pub uninterp spec fn sections_of(object: object::write::Object<'static>) -> Seq<SectionEntry>;

/// The symbols of an object file under construction, in the order in which
/// they were added.
pub uninterp spec fn symbols_of(object: object::write::Object<'static>) -> Seq<SymbolEntry>;

/// The number of the section that an identifier stands for.
pub uninterp spec fn section_number(id: object::write::SectionId) -> int;

/// The number of the symbol that an identifier stands for.
pub uninterp spec fn symbol_number(id: object::write::SymbolId) -> int;

/// The bytes of the file that an object file under construction is written as.
pub uninterp spec fn file_image(contents: Contents) -> Seq<u8>;

/// All that an object file under construction holds.
pub open spec fn contents_of(object: object::write::Object<'static>) -> Contents {
    Contents {
        settings: settings_of(object),
        sections: sections_of(object),
        symbols: symbols_of(object),
    }
}

/// The type of a 32-bit relative relocation for the I386, `IMAGE_REL_I386_REL32`.
pub const REL32: u16 = 0x14;

/// A symbol to be added.
pub struct NewSymbol {
    pub name: Vec<u8>,
    pub value: u64,
    pub size: u64,
    pub kind: SymbolKind,
    pub scope: SymbolScope,
    pub weak: bool,
    pub place: NewSymbolPlace,
}

/// Where a symbol to be added is defined.
#[derive(Clone, Copy)]
pub enum NewSymbolPlace {
    /// Elsewhere.
    Undefined,
    /// In this section.
    Section(object::write::SectionId),
}

/// A relocation to be added.
pub struct NewRelocation {
    pub offset: u64,
    pub symbol: object::write::SymbolId,
    pub addend: i64,
    pub kind: RelocationKind,
    pub encoding: RelocationEncoding,
    pub size: u8,
}

impl NewSymbolPlace {
    /// The place, with its section by number.
    pub open spec fn place(self) -> SymbolPlace {
        match self {
            NewSymbolPlace::Undefined => SymbolPlace::Undefined,
            NewSymbolPlace::Section(id) => SymbolPlace::Section(section_number(id)),
        }
    }
}

impl NewSymbol {
    /// The symbol, as a file holds it.
    pub open spec fn entry(self) -> SymbolEntry {
        SymbolEntry {
            name: self.name@,
            value: self.value,
            size: self.size,
            kind: self.kind,
            scope: self.scope,
            weak: self.weak,
            place: self.place.place(),
        }
    }
}

/// The first multiple of `align` that is not below `n`.
pub open spec fn round_up(n: nat, align: nat) -> nat
    recommends
        align > 0,
{
    if n % align == 0 {
        n
    } else {
        (n - n % align + align) as nat
    }
}

impl SectionEntry {
    /// A section that holds nothing yet.
    pub open spec fn fresh(segment: Seq<u8>, name: Seq<u8>, kind: SectionKind) -> SectionEntry {
        SectionEntry {
            segment,
            name,
            kind,
            align: 1,
            data: Seq::<u8>::empty(),
            relocations: Seq::<RelocationEntry>::empty(),
        }
    }

    /// The section with more data at its end, from a multiple of `align` on.
    pub open spec fn with_data(self, data: Seq<u8>, align: u64) -> SectionEntry {
        let start = round_up(self.data.len(), align as nat);
        SectionEntry {
            align: if self.align < align { align } else { self.align },
            data: self.data + Seq::new((start - self.data.len()) as nat, |i: int| 0u8) + data,
            ..self
        }
    }

    /// The section with one more relocation.
    pub open spec fn with_relocation(self, relocation: RelocationEntry) -> SectionEntry {
        SectionEntry { relocations: self.relocations.push(relocation), ..self }
    }
}

/// Makes an empty object file.
///
/// Calls `object::write::Object::new`, which is trusted to make a file of the
/// given format, processor and byte order without sections, symbols or extras,
/// and with the name mangling that is usual for 32-bit COFF.
#[verifier::external_body]
pub(crate) fn new_object(format: FileFormat, processor: Processor, order: ByteOrder) -> (r: object::write::Object<'static>)
    ensures
        settings_of(r) == (Settings {
            format,
            processor,
            order,
            mangling: NameMangling::CoffI386,
            plain: true,
        }),
        sections_of(r) == Seq::<SectionEntry>::empty(),
        symbols_of(r) == Seq::<SymbolEntry>::empty(),
{
    let format = match format {
        FileFormat::Coff => object::BinaryFormat::Coff,
    };
    let architecture = match processor {
        Processor::I386 => object::Architecture::I386,
    };
    let endianness = match order {
        ByteOrder::Little => object::Endianness::Little,
    };
    object::write::Object::new(format, architecture, endianness)
}

/// Chooses what is done to the names of symbols that are added from now on.
///
/// Calls `object::write::Object::set_mangling`, which is trusted to set that
/// and nothing else.
#[verifier::external_body]
pub(crate) fn set_mangling(object: &mut object::write::Object<'static>, mangling: NameMangling)
    ensures
        settings_of(*final(object)) == (Settings { mangling, ..settings_of(*old(object)) }),
        sections_of(*final(object)) == sections_of(*old(object)),
        symbols_of(*final(object)) == symbols_of(*old(object)),
{
    object.set_mangling(match mangling {
        NameMangling::Verbatim => object::write::Mangling::None,
        NameMangling::CoffI386 => object::write::Mangling::CoffI386,
    })
}

/// Adds an empty section.
///
/// Calls `object::write::Object::add_section`, which is trusted to put the
/// section behind the others, with an alignment of one byte, and to return the
/// identifier that stands for its number.
#[verifier::external_body]
pub(crate) fn add_section(
    object: &mut object::write::Object<'static>,
    segment: Vec<u8>,
    name: Vec<u8>,
    kind: SectionKind,
) -> (r: object::write::SectionId)
    requires
        settings_of(*old(object)).plain,
    ensures
        section_number(r) == sections_of(*old(object)).len(),
        sections_of(*final(object)) == sections_of(*old(object)).push(
            SectionEntry::fresh(segment@, name@, kind),
        ),
        settings_of(*final(object)) == settings_of(*old(object)),
        symbols_of(*final(object)) == symbols_of(*old(object)),
{
    let kind = match kind {
        SectionKind::Data => object::SectionKind::Data,
        SectionKind::ReadOnlyData => object::SectionKind::ReadOnlyData,
        SectionKind::Text => object::SectionKind::Text,
    };
    object.add_section(segment, name, kind)
}

/// Adds data at the end of a section, and returns where in the section it starts.
///
/// Calls `object::write::Object::append_section_data`, which is trusted to fill
/// the section with zeros up to a multiple of `align`, to put the data behind
/// them, to raise the section's alignment to `align` if it is lower, and to
/// return where the data starts. A section's data is held in memory, so its
/// length is a number of 64 bits.
#[verifier::external_body]
pub(crate) fn append_data(
    object: &mut object::write::Object<'static>,
    section: object::write::SectionId,
    data: &[u8],
    align: u64,
) -> (r: u64)
    requires
        settings_of(*old(object)).plain,
        0 <= section_number(section) < sections_of(*old(object)).len(),
        align == 1 || align == 4,
    ensures
        r == round_up(
            sections_of(*old(object))[section_number(section)].data.len(),
            align as nat,
        ),
        sections_of(*final(object)) == sections_of(*old(object)).update(
            section_number(section),
            sections_of(*old(object))[section_number(section)].with_data(data@, align),
        ),
        sections_of(*final(object))[section_number(section)].data.len() <= u64::MAX,
        settings_of(*final(object)) == settings_of(*old(object)),
        symbols_of(*final(object)) == symbols_of(*old(object)),
{
    object.append_section_data(section, data, align)
}

/// Adds a symbol.
///
/// Calls `object::write::Object::add_symbol` with no flags. Where names are
/// taken verbatim, it is trusted to put the symbol behind the others as it is,
/// and to return the identifier that stands for its number.
#[verifier::external_body]
pub(crate) fn add_symbol(object: &mut object::write::Object<'static>, symbol: NewSymbol) -> (r: object::write::SymbolId)
    requires
        settings_of(*old(object)).plain,
        settings_of(*old(object)).mangling == NameMangling::Verbatim,
    ensures
        symbol_number(r) == symbols_of(*old(object)).len(),
        symbols_of(*final(object)) == symbols_of(*old(object)).push(symbol.entry()),
        settings_of(*final(object)) == settings_of(*old(object)),
        sections_of(*final(object)) == sections_of(*old(object)),
{
    let NewSymbol { name, value, size, kind, scope, weak, place } = symbol;
    let kind = match kind {
        SymbolKind::Text => object::SymbolKind::Text,
        SymbolKind::Data => object::SymbolKind::Data,
    };
    let scope = match scope {
        SymbolScope::Linkage => object::SymbolScope::Linkage,
    };
    let section = match place {
        NewSymbolPlace::Undefined => object::write::SymbolSection::Undefined,
        NewSymbolPlace::Section(id) => object::write::SymbolSection::Section(id),
    };
    let flags = object::SymbolFlags::None;
    object.add_symbol(object::write::Symbol { name, value, size, kind, scope, weak, section, flags })
}

/// Adds a relocation to a section.
///
/// Calls `object::write::Object::add_relocation`. In a COFF file for the I386 a
/// 32-bit relative relocation is counted from the end of the relocated field,
/// so an addend of -4 leaves nothing to be stored in the section's data. Of
/// such a relocation the call is trusted to succeed, and to put the relocation
/// behind the others of the section, with the type of its kind.
#[verifier::external_body]
pub(crate) fn add_relocation(
    object: &mut object::write::Object<'static>,
    section: object::write::SectionId,
    relocation: NewRelocation,
) -> (r: Result<(), object::write::Error>)
    requires
        settings_of(*old(object)).plain,
        0 <= section_number(section) < sections_of(*old(object)).len(),
        relocation.addend == -4,
        relocation.size == 32,
    ensures
        r is Ok,
        sections_of(*final(object)) == sections_of(*old(object)).update(
            section_number(section),
            sections_of(*old(object))[section_number(section)].with_relocation(
                (RelocationEntry {
                    offset: relocation.offset,
                    symbol: symbol_number(relocation.symbol),
                    typ: REL32,
                }),
            ),
        ),
        settings_of(*final(object)) == settings_of(*old(object)),
        symbols_of(*final(object)) == symbols_of(*old(object)),
{
    let NewRelocation { offset, symbol, addend, kind, encoding, size } = relocation;
    let kind = match kind {
        RelocationKind::Relative => object::RelocationKind::Relative,
    };
    let encoding = match encoding {
        RelocationEncoding::Generic => object::RelocationEncoding::Generic,
    };
    let flags = object::RelocationFlags::Generic { kind, encoding, size };
    object.add_relocation(section, object::write::Relocation { offset, symbol, addend, flags })
}

/// Tells whether two identifiers stand for the same section.
///
/// Calls `==` of `object::write::SectionId`, which is trusted to go by the
/// sections' numbers.
#[verifier::external_body]
pub(crate) fn same_section(a: object::write::SectionId, b: object::write::SectionId) -> (r: bool)
    ensures
        r == (section_number(a) == section_number(b)),
{
    a == b
}

/// Whether a name can be stored: a long one goes to a table where a zero byte
/// ends it.
pub open spec fn is_storable_name(name: Seq<u8>) -> bool {
    name.len() > 8 ==> !name.contains(0u8)
}

impl Contents {
    /// Whether the file can be written.
    pub open spec fn is_writable(self) -> bool {
        &&& self.settings.plain
        &&& self.symbols.len() < u32::MAX
        &&& self.sections.len() < u16::MAX
        &&& forall|i: int|
            0 <= i < self.symbols.len() ==> is_storable_name((#[trigger] self.symbols[i]).name)
        &&& forall|i: int|
            0 <= i < self.symbols.len() ==> match (#[trigger] self.symbols[i]).place {
                SymbolPlace::Undefined => true,
                SymbolPlace::Section(n) => 0 <= n < self.sections.len(),
            }
        &&& forall|i: int|
            #![trigger self.sections[i]]
            0 <= i < self.sections.len() ==> {
                let section = self.sections[i];
                &&& is_storable_name(section.name)
                &&& section.align == 1 || section.align == 4
                &&& section.relocations.len() < u32::MAX
                &&& forall|j: int|
                    0 <= j < section.relocations.len() ==> 0 <= (
                    #[trigger] section.relocations[j]).symbol < self.symbols.len()
            }
    }
}

/// Writes an object file.
///
/// Calls `object::write::Object::write`, which is trusted to succeed on the
/// contents that can be written, and to return bytes that depend on nothing but
/// those contents. How the bytes are laid out is not stated.
#[verifier::external_body]
pub(crate) fn write_object(object: &object::write::Object<'static>) -> (r: Result<Vec<u8>, object::write::Error>)
    requires
        contents_of(*object).is_writable(),
    ensures
        r is Ok,
        r->Ok_0@ == file_image(contents_of(*object)),
{
    object.write()
}

} // verus!
