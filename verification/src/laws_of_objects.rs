//! What adding to an object file comes down to, section by section.
use crate::coff::{
    contents_of, section_number, sections_of, settings_of, symbols_of, ByteOrder, FileFormat, NameMangling, Processor,
    SectionKind, SymbolKind, SymbolPlace, SymbolScope,
};
use crate::bytes::ascii;
use crate::decoration::decorated;
use crate::object_file::{ObjectFile, ObjectLocation, ObjectOffset};
use crate::object_state::{padded, ObjectState, Place};
use crate::relocs::{constant_name, Reference};
use vstd::prelude::*;
use vstd::std_specs::ops::AddSpec;

verus! {

/// Filling up adds fewer than four bytes, all the same, and leads to a multiple
/// of four.
pub proof fn law_filling_up_leads_to_words(data: Seq<u8>, pad: u8)
    ensures
        padded(data, pad).len() % 4 == 0,
        data.len() <= padded(data, pad).len() < data.len() + 4,
        padded(data, pad).subrange(0, data.len() as int) == data,
        forall|i: int| data.len() <= i < padded(data, pad).len() ==> padded(data, pad)[i] == pad,
{
    assert(padded(data, pad).subrange(0, data.len() as int) =~= data);
}

/// Whether `after` is `before`, then `data`, then fewer than four bytes `pad` up
/// to a multiple of four, counted from the start of `data`.
pub open spec fn is_followed_by(before: Seq<u8>, after: Seq<u8>, data: Seq<u8>, pad: u8) -> bool {
    let end = before.len() + data.len();
    &&& end <= after.len() < end + 4
    &&& (after.len() - before.len()) % 4 == 0
    &&& after.subrange(0, before.len() as int) == before
    &&& after.subrange(before.len() as int, end as int) == data
    &&& forall|i: int| end <= i < after.len() ==> after[i] == pad
}

/// A new object file has three sections, for data, unchanging data and code. They
/// are empty, but for four zero bytes on request, and there are no symbols.
pub proof fn law_new_object_files_are_empty(pad_rdata: bool)
    ensures
        ({
            let contents = ObjectState::empty(pad_rdata).contents;
            let a = contents.sections[0];
            let b = contents.sections[1];
            let c = contents.sections[2];
            &&& contents.sections.len() == 3
            &&& contents.symbols.len() == 0
            &&& a.kind == SectionKind::Data && b.kind == SectionKind::ReadOnlyData && c.kind
                == SectionKind::Text
            &&& a.name == seq![0x2eu8, 0x64u8, 0x61u8, 0x74u8, 0x61u8]
            &&& b.name == seq![0x2eu8, 0x72u8, 0x64u8, 0x61u8, 0x74u8, 0x61u8]
            &&& c.name == seq![0x2eu8, 0x74u8, 0x65u8, 0x78u8, 0x74u8]
            &&& a.data.len() == 0 && c.data.len() == 0
            &&& pad_rdata ==> b.data == seq![0u8, 0u8, 0u8, 0u8] && b.align == 4
            &&& !pad_rdata ==> b.data.len() == 0 && b.align == 1
            &&& a.align == 1 && c.align == 1
            &&& a.segment.len() == 0 && b.segment.len() == 0 && c.segment.len() == 0
            &&& a.relocations.len() == 0 && b.relocations.len() == 0 && c.relocations.len() == 0
            &&& contents.settings.format == FileFormat::Coff
            &&& contents.settings.processor == Processor::I386
            &&& contents.settings.order == ByteOrder::Little
            &&& contents.settings.mangling == NameMangling::Verbatim
        }),
        ObjectState::empty(pad_rdata).decorations.decorated == 0,
        ObjectState::empty(pad_rdata).decorations.underscored == 0,
        ObjectState::empty(pad_rdata).decorations.mangled == 0,
{
    reveal_strlit(".data");
    reveal_strlit(".rdata");
    reveal_strlit(".text");
    assert(ascii(".data"@) =~= seq![0x2eu8, 0x64u8, 0x61u8, 0x74u8, 0x61u8]);
    assert(ascii(".rdata"@) =~= seq![0x2eu8, 0x72u8, 0x64u8, 0x61u8, 0x74u8, 0x61u8]);
    assert(ascii(".text"@) =~= seq![0x2eu8, 0x74u8, 0x65u8, 0x78u8, 0x74u8]);
    let zeros = seq![0u8, 0u8, 0u8, 0u8];
    assert(pad_rdata ==> ObjectState::empty(pad_rdata).contents.sections[1].data =~= zeros);
}

/// Whether three sections keep their names, kinds and alignments.
pub open spec fn keeps_headers(before: ObjectState, after: ObjectState) -> bool {
    forall|i: int|
        #![trigger after.contents.sections[i]]
        0 <= i < 3 ==> {
            let a = before.contents.sections[i];
            let b = after.contents.sections[i];
            &&& b.segment == a.segment
            &&& b.name == a.name
            &&& b.kind == a.kind
            &&& a.align >= 1 ==> b.align == a.align
        }
}

/// A function's bytes come behind all other code, with no-operations behind
/// them. Its one new symbol is visible from elsewhere, is for code, has the
/// decorated name, and is where the bytes start. All else stays.
pub proof fn law_functions_go_behind_the_code(state: ObjectState, name: Seq<u8>, body: Seq<u8>)
    requires
        state.contents.sections.len() == 3,
        state.contents.sections[2].data.len() <= u64::MAX,
    ensures
        ({
            let before = state.contents;
            let after = state.with_function(name, body).contents;
            let symbol = after.symbols[before.symbols.len() as int];
            &&& after.settings == before.settings
            &&& after.sections.len() == 3
            &&& after.sections[0] == before.sections[0]
            &&& after.sections[1] == before.sections[1]
            &&& is_followed_by(before.sections[2].data, after.sections[2].data, body, 0x90)
            &&& after.sections[2].relocations == before.sections[2].relocations
            &&& keeps_headers(state, state.with_function(name, body))
            &&& after.symbols.len() == before.symbols.len() + 1
            &&& after.symbols.subrange(0, before.symbols.len() as int) == before.symbols
            &&& symbol.name == decorated(name)
            &&& symbol.value == before.sections[2].data.len()
            &&& symbol.size == 0xffff_ffff_ffff_ffff
            &&& symbol.kind == SymbolKind::Text
            &&& symbol.scope == SymbolScope::Linkage
            &&& !symbol.weak
            &&& symbol.place == SymbolPlace::Section(2)
        }),
        state.with_function(name, body).decorations == state.decorations.with(name),
{
    let before = state.contents;
    let after = state.with_function(name, body).contents;
    lemma_data_is_followed(state, 2, body, 0x90);
    assert(after.symbols.subrange(0, before.symbols.len() as int) =~= before.symbols);
}

/// Data that is added, filled up to words, comes behind what was there.
proof fn lemma_data_is_followed(state: ObjectState, section: int, data: Seq<u8>, pad: u8)
    requires
        0 <= section < state.contents.sections.len(),
    ensures
        is_followed_by(
            state.contents.sections[section].data,
            state.contents.with_data(section, padded(data, pad)).sections[section].data,
            data,
            pad,
        ),
{
    let a = state.contents.sections[section].data;
    let b = state.contents.with_data(section, padded(data, pad)).sections[section].data;
    let end = a.len() + data.len();
    law_filling_up_leads_to_words(data, pad);
    assert(b =~= a + padded(data, pad));
    assert(b.subrange(0, a.len() as int) =~= a);
    assert(b.subrange(a.len() as int, end as int) =~= data);
    assert forall|i: int| end <= i < b.len() implies b[i] == pad by {
        assert(b[i] == padded(data, pad)[i - a.len()]);
    }
}

/// Whether the last relocation of a section is a relative one of 32 bits at `at`,
/// to the symbol of number `k`, and the only new one.
pub open spec fn has_one_more_relocation(
    before: ObjectState,
    after: ObjectState,
    at: Place,
    k: int,
) -> bool {
    let a = before.contents.sections[at.section].relocations;
    let b = after.contents.sections[at.section].relocations;
    &&& b.len() == a.len() + 1
    &&& b.subrange(0, a.len() as int) == a
    &&& b[a.len() as int].offset == at.offset
    &&& b[a.len() as int].symbol == k
    &&& b[a.len() as int].typ == 0x14
    &&& forall|i: int|
        0 <= i < 3 && i != at.section ==> (#[trigger] after.contents.sections[i]).relocations
            == before.contents.sections[i].relocations
}

/// A reference to a function brings no data. Its one new symbol is undefined, for
/// code, and has the function's decorated name; its one new relocation leads to
/// that symbol.
pub proof fn law_functions_are_referred_to_elsewhere(
    state: ObjectState,
    rva: usize,
    name: Seq<u8>,
    at: Place,
    image: Seq<u8>,
)
    requires
        state.contents.sections.len() == 3,
        0 <= at.section < 3,
    ensures
        ({
            let before = state.contents;
            let moved = state.with_target((Reference::Function { rva, name }), at, image);
            let after = moved.contents;
            let symbol = after.symbols[before.symbols.len() as int];
            &&& after.settings == before.settings
            &&& after.sections.len() == 3
            &&& after.sections[0].data == before.sections[0].data
            &&& after.sections[1].data == before.sections[1].data
            &&& after.sections[2].data == before.sections[2].data
            &&& after.symbols.len() == before.symbols.len() + 1
            &&& after.symbols.subrange(0, before.symbols.len() as int) == before.symbols
            &&& symbol.name == decorated(name)
            &&& symbol.value == 0
            &&& symbol.size == 0xffff_ffff_ffff_ffff
            &&& symbol.kind == SymbolKind::Text
            &&& symbol.scope == SymbolScope::Linkage
            &&& !symbol.weak
            &&& symbol.place == SymbolPlace::Undefined
            &&& has_one_more_relocation(state, moved, at, before.symbols.len() as int)
            &&& keeps_headers(state, moved)
            &&& moved.decorations == state.decorations.with(name)
        }),
{
    let before = state.contents;
    let moved = state.with_target((Reference::Function { rva, name }), at, image);
    let after = moved.contents;
    assert(after.symbols.subrange(0, before.symbols.len() as int) =~= before.symbols);
    let a = before.sections[at.section].relocations;
    let b = after.sections[at.section].relocations;
    assert(b.subrange(0, a.len() as int) =~= a);
}

/// A reference adds one symbol under its name, and one relocation to that symbol.
/// The symbol is where what is referred to is, and is for code if that is
/// elsewhere or in the third section, and for data otherwise. No data changes.
pub proof fn law_references_add_one_symbol(
    state: ObjectState,
    name: Seq<u8>,
    target: Option<Place>,
    at: Place,
)
    requires
        state.contents.sections.len() == 3,
        0 <= at.section < 3,
    ensures
        ({
            let before = state.contents;
            let linked = state.with_reference(name, target, at);
            let after = linked.contents;
            let symbol = after.symbols[before.symbols.len() as int];
            &&& after.settings == before.settings
            &&& linked.decorations == state.decorations
            &&& after.sections.len() == 3
            &&& after.sections[0].data == before.sections[0].data
            &&& after.sections[1].data == before.sections[1].data
            &&& after.sections[2].data == before.sections[2].data
            &&& after.symbols.len() == before.symbols.len() + 1
            &&& after.symbols.subrange(0, before.symbols.len() as int) == before.symbols
            &&& symbol.name == name
            &&& symbol.size == 0xffff_ffff_ffff_ffff
            &&& symbol.scope == SymbolScope::Linkage
            &&& !symbol.weak
            &&& target is None ==> symbol.value == 0 && symbol.kind == SymbolKind::Text
                && symbol.place == SymbolPlace::Undefined
            &&& target matches Some(place) ==> {
                &&& symbol.value == place.offset
                &&& symbol.place == SymbolPlace::Section(place.section)
                &&& place.section == 2 ==> symbol.kind == SymbolKind::Text
                &&& place.section != 2 ==> symbol.kind == SymbolKind::Data
            }
            &&& has_one_more_relocation(state, linked, at, before.symbols.len() as int)
            &&& keeps_headers(state, linked)
        }),
{
    let before = state.contents;
    let after = state.with_reference(name, target, at).contents;
    assert(after.symbols.subrange(0, before.symbols.len() as int) =~= before.symbols);
    let a = before.sections[at.section].relocations;
    let b = after.sections[at.section].relocations;
    assert(b.subrange(0, a.len() as int) =~= a);
}

/// Data goes behind all that its section holds, with the given bytes behind it up
/// to a multiple of four. All else stays.
pub proof fn law_data_goes_behind_its_section(
    state: ObjectState,
    section: int,
    data: Seq<u8>,
    pad: u8,
)
    requires
        state.contents.sections.len() == 3,
        0 <= section < 3,
    ensures
        ({
            let after = state.with_padded_data(section, data, pad);
            &&& is_followed_by(
                state.contents.sections[section].data,
                after.contents.sections[section].data,
                data,
                pad,
            )
            &&& after.contents.sections[section].relocations
                == state.contents.sections[section].relocations
            &&& forall|i: int|
                0 <= i < 3 && i != section ==> #[trigger] after.contents.sections[i]
                    == state.contents.sections[i]
            &&& after.contents.symbols == state.contents.symbols
            &&& after.contents.settings == state.contents.settings
            &&& after.decorations == state.decorations
            &&& keeps_headers(state, after)
        }),
{
    lemma_data_is_followed(state, section, data, pad);
}

/// Whether data was brought along: `data` comes behind all else in the section of
/// number `home`; the one new symbol is for data, has that name, and is where
/// the data starts; the one new relocation, at `at`, leads to that symbol. No
/// other data changes.
pub open spec fn brings_data(
    before: ObjectState,
    after: ObjectState,
    home: int,
    data: Seq<u8>,
    name: Seq<u8>,
    at: Place,
) -> bool {
    let symbol = after.contents.symbols[before.contents.symbols.len() as int];
    let start = before.contents.sections[home].data.len();
    &&& after.contents.settings == before.contents.settings
    &&& after.decorations == before.decorations
    &&& after.contents.sections.len() == 3
    &&& is_followed_by(
        before.contents.sections[home].data,
        after.contents.sections[home].data,
        data,
        0,
    )
    &&& forall|i: int|
        0 <= i < 3 && i != home ==> (#[trigger] after.contents.sections[i]).data
            == before.contents.sections[i].data
    &&& after.contents.symbols.len() == before.contents.symbols.len() + 1
    &&& after.contents.symbols.subrange(0, before.contents.symbols.len() as int)
        == before.contents.symbols
    &&& symbol.name == name
    &&& symbol.value == start
    &&& symbol.size == 0xffff_ffff_ffff_ffff
    &&& symbol.kind == SymbolKind::Data
    &&& symbol.scope == SymbolScope::Linkage
    &&& !symbol.weak
    &&& symbol.place == SymbolPlace::Section(home)
    &&& after.contents.sections[home].data.subrange(
        symbol.value as int,
        symbol.value + data.len(),
    ) == data
    &&& has_one_more_relocation(before, after, at, before.contents.symbols.len() as int)
    &&& keeps_headers(before, after)
}

/// What a reference to data comes down to.
proof fn lemma_brings_data(
    state: ObjectState,
    home: int,
    data: Seq<u8>,
    name: Seq<u8>,
    at: Place,
)
    requires
        state.contents.sections.len() == 3,
        0 <= at.section < 3,
        home == 0 || home == 1,
        state.contents.sections[home].data.len() <= u64::MAX,
    ensures
        brings_data(
            state,
            state.with_padded_data(home, data, 0).with_reference(
                name,
                Some(state.end_of(home)),
                at,
            ),
            home,
            data,
            name,
            at,
        ),
{
    let held = state.with_padded_data(home, data, 0);
    let after = held.with_reference(name, Some(state.end_of(home)), at);
    lemma_data_is_followed(state, home, data, 0);
    assert(after.contents.sections[home].data == held.contents.sections[home].data);
    assert(after.contents.symbols.subrange(0, state.contents.symbols.len() as int)
        =~= state.contents.symbols);
    let a = state.contents.sections[at.section].relocations;
    let b = after.contents.sections[at.section].relocations;
    assert(b.subrange(0, a.len() as int) =~= a);
}

/// A reference to data that changes brings four bytes of the image into the first
/// section, and leads to them.
pub proof fn law_variables_are_brought_along(
    state: ObjectState,
    symbol: Seq<u8>,
    target_rva: usize,
    at: Place,
    image: Seq<u8>,
)
    requires
        state.contents.sections.len() == 3,
        0 <= at.section < 3,
        target_rva + 4 <= image.len(),
        state.contents.sections[0].data.len() <= u64::MAX,
    ensures
        brings_data(
            state,
            state.with_target((Reference::Static { symbol, target_rva }), at, image),
            0,
            seq![
                image[target_rva as int],
                image[target_rva + 1],
                image[target_rva + 2],
                image[target_rva + 3],
            ],
            symbol,
            at,
        ),
{
    let word = image.subrange(target_rva as int, target_rva + 4);
    assert(word =~= seq![
        image[target_rva as int],
        image[target_rva + 1],
        image[target_rva + 2],
        image[target_rva + 3],
    ]);
    lemma_brings_data(state, 0, word, symbol, at);
}

/// A reference to data that does not change brings four bytes of the image into
/// the second section, and leads to them.
pub proof fn law_constants_are_brought_along(
    state: ObjectState,
    symbol: Seq<u8>,
    target_rva: usize,
    at: Place,
    image: Seq<u8>,
)
    requires
        state.contents.sections.len() == 3,
        0 <= at.section < 3,
        target_rva + 4 <= image.len(),
        state.contents.sections[1].data.len() <= u64::MAX,
    ensures
        brings_data(
            state,
            state.with_target((Reference::Constant { symbol, target_rva }), at, image),
            1,
            seq![
                image[target_rva as int],
                image[target_rva + 1],
                image[target_rva + 2],
                image[target_rva + 3],
            ],
            symbol,
            at,
        ),
{
    let word = image.subrange(target_rva as int, target_rva + 4);
    assert(word =~= seq![
        image[target_rva as int],
        image[target_rva + 1],
        image[target_rva + 2],
        image[target_rva + 3],
    ]);
    lemma_brings_data(state, 1, word, symbol, at);
}

/// A reference to a string brings all of the string into the second section, and
/// leads to it under the name that the string spells.
pub proof fn law_strings_are_brought_along(
    state: ObjectState,
    symbol: Seq<u8>,
    data: Seq<u8>,
    at: Place,
    image: Seq<u8>,
)
    requires
        state.contents.sections.len() == 3,
        0 <= at.section < 3,
        state.contents.sections[1].data.len() <= u64::MAX,
    ensures
        brings_data(
            state,
            state.with_target((Reference::ConstantString { symbol, data }), at, image),
            1,
            data,
            constant_name(symbol, data),
            at,
        ),
{
    lemma_brings_data(state, 1, data, constant_name(symbol, data), at);
}

/// The place where the data of a reference goes: behind all that the first section
/// holds if it changes, behind all that the second one holds if not.
pub open spec fn place_for(state: ObjectState, reference: Reference) -> Place {
    if reference is Static {
        Place { section: 0, offset: state.contents.sections[0].data.len() as u64 }
    } else {
        Place { section: 1, offset: state.contents.sections[1].data.len() as u64 }
    }
}

/// A chain is added link by link, each further one where the data of the one
/// before went.
pub proof fn law_chains_are_added_link_by_link(
    state: ObjectState,
    reference: Reference,
    rest: Seq<Reference>,
    at: Place,
    image: Seq<u8>,
)
    ensures
        state.with_chain(Seq::<Reference>::empty(), at, image) == state,
        state.with_chain(seq![reference] + rest, at, image) == state.with_target(
            reference,
            at,
            image,
        ).with_chain(rest, place_for(state, reference), image),
{
    assert((seq![reference] + rest).drop_first() =~= rest);
}

/// A chain adds one symbol for each of its references, and no code.
pub proof fn law_chains_add_a_symbol_each(
    state: ObjectState,
    chain: Seq<Reference>,
    at: Place,
    image: Seq<u8>,
)
    requires
        state.contents.sections.len() == 3,
        0 <= at.section < 3,
    ensures
        state.with_chain(chain, at, image).contents.sections.len() == 3,
        state.with_chain(chain, at, image).contents.symbols.len() == state.contents.symbols.len()
            + chain.len(),
        state.with_chain(chain, at, image).contents.sections[2].data
            == state.contents.sections[2].data,
    decreases chain.len(),
{
    if chain.len() > 0 {
        let next = state.with_target(chain[0], at, image);
        law_chains_add_a_symbol_each(next, chain.drop_first(), state.home_of(chain[0]), image);
    }
}

/// An object file can be written if it has fewer than 4294967295 symbols, and no
/// name of more than eight bytes holds a zero byte; and only then.
pub proof fn law_writable_object_files(state: ObjectState)
    ensures
        state.is_writable() <==> state.contents.symbols.len() < 4294967295 && forall|i: int, j: int|
            #![trigger state.contents.symbols[i].name[j]]
            0 <= i < state.contents.symbols.len() && 0 <= j < state.contents.symbols[i].name.len()
                && state.contents.symbols[i].name.len() > 8 ==> state.contents.symbols[i].name[j]
                != 0,
{
    let symbols = state.contents.symbols;
    if state.is_writable() {
        assert forall|i: int, j: int|
            #![trigger symbols[i].name[j]]
            0 <= i < symbols.len() && 0 <= j < symbols[i].name.len() && symbols[i].name.len()
                > 8 implies symbols[i].name[j] != 0 by {
            assert(symbols[i].name.contains(symbols[i].name[j]));
        }
    } else if symbols.len() < 4294967295 {
        let i = choose|i: int|
            0 <= i < symbols.len() && !crate::coff::is_storable_name(
                (#[trigger] symbols[i]).name,
            );
        let j = symbols[i].name.index_of(0u8);
        assert(symbols[i].name[j] == 0);
    }
}

/// A place moves within its section by what is added to it.
pub proof fn law_places_move_within_their_section(place: ObjectOffset, n: usize)
    requires
        place.offset + n <= u64::MAX,
    ensures
        place.add_req(n),
        place.add_spec(n).offset == place.offset + n,
        place.add_spec(n).section_id == place.section_id,
        place.place().offset == place.offset,
        place.place().section == section_number(place.section_id),
        ObjectLocation::Offset(place).place() == Some(place.place()),
        ObjectLocation::Extern.place() is None,
{
}

/// A place is one in an object file if it is in one of its three sections.
pub proof fn law_places_are_in_three_sections(place: ObjectOffset)
    ensures
        place.is_valid() <==> 0 <= section_number(place.section_id) < 3,
        ObjectLocation::Offset(place).is_valid() <==> place.is_valid(),
        ObjectLocation::Extern.is_valid(),
{
}

/// An object file holds what the file under construction holds.
pub proof fn law_object_files_are_what_they_hold(file: ObjectFile)
    ensures
        file@.contents == contents_of(file.object),
        file@.contents.settings == settings_of(file.object),
        file@.contents.sections == sections_of(file.object),
        file@.contents.symbols == symbols_of(file.object),
        file@.decorations == file.decorations,
{
}

} // verus!
