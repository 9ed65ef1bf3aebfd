//! What an object file keeps as it grows.
use crate::coff::{
    Contents, RelocationEntry, SectionEntry, SymbolEntry, SymbolKind, SymbolPlace, REL32,
};
use crate::decoration::decorated;
use crate::object_state::{
    padded, rdata_section, symbol_at, text_section, ObjectState, Place,
};
use crate::relocs::Reference;
use vstd::prelude::*;

verus! {

/// Whether a section holds all that it held before, with more behind it.
pub open spec fn section_extends(before: SectionEntry, after: SectionEntry) -> bool {
    &&& after.segment == before.segment
    &&& after.name == before.name
    &&& after.kind == before.kind
    &&& before.data.is_prefix_of(after.data)
    &&& before.relocations.is_prefix_of(after.relocations)
}

/// Whether an object file holds all that it held before, with more behind it.
pub open spec fn extends(before: Contents, after: Contents) -> bool {
    &&& after.settings == before.settings
    &&& after.sections.len() == before.sections.len()
    &&& forall|i: int|
        0 <= i < before.sections.len() ==> section_extends(
            #[trigger] before.sections[i],
            after.sections[i],
        )
    &&& before.symbols.is_prefix_of(after.symbols)
}

/// What extends an extension extends what that extends.
pub proof fn lemma_extends_on(a: Contents, b: Contents, c: Contents)
    requires
        extends(a, b),
        extends(b, c),
    ensures
        extends(a, c),
{
    assert forall|i: int| 0 <= i < a.sections.len() implies section_extends(
        #[trigger] a.sections[i],
        c.sections[i],
    ) by {
        assert(section_extends(b.sections[i], c.sections[i]));
        let x = a.sections[i];
        let y = b.sections[i];
        let z = c.sections[i];
        assert(z.data.take(x.data.len() as int) =~= x.data);
        assert(z.relocations.take(x.relocations.len() as int) =~= x.relocations);
    }
    assert(c.symbols.take(a.symbols.len() as int) =~= a.symbols);
}

/// An object file extends itself.
pub proof fn lemma_extends_itself(a: Contents)
    ensures
        extends(a, a),
{
    assert forall|i: int| 0 <= i < a.sections.len() implies section_extends(
        #[trigger] a.sections[i],
        a.sections[i],
    ) by {
        let x = a.sections[i];
        assert(x.data.take(x.data.len() as int) =~= x.data);
        assert(x.relocations.take(x.relocations.len() as int) =~= x.relocations);
    }
    assert(a.symbols.take(a.symbols.len() as int) =~= a.symbols);
}

/// More data in a section extends an object file.
proof fn lemma_data_extends(a: Contents, section: int, data: Seq<u8>)
    requires
        0 <= section < a.sections.len(),
    ensures
        extends(a, a.with_data(section, data)),
{
    let b = a.with_data(section, data);
    lemma_extends_itself(a);
    assert forall|i: int| 0 <= i < a.sections.len() implies section_extends(
        #[trigger] a.sections[i],
        b.sections[i],
    ) by {
        if i == section {
            let x = a.sections[i].data;
            assert(b.sections[i].data.take(x.len() as int) =~= x);
            assert(section_extends(a.sections[i], a.sections[i]));
        } else {
            assert(section_extends(a.sections[i], a.sections[i]));
        }
    }
}

/// One more symbol extends an object file.
proof fn lemma_symbol_extends(a: Contents, symbol: SymbolEntry)
    ensures
        extends(a, a.with_symbol(symbol)),
{
    lemma_extends_itself(a);
    assert(a.with_symbol(symbol).symbols.take(a.symbols.len() as int) =~= a.symbols);
}

/// One more relocation extends an object file.
proof fn lemma_relocation_extends(a: Contents, section: int, relocation: RelocationEntry)
    requires
        0 <= section < a.sections.len(),
    ensures
        extends(a, a.with_relocation(section, relocation)),
{
    let b = a.with_relocation(section, relocation);
    lemma_extends_itself(a);
    assert forall|i: int| 0 <= i < a.sections.len() implies section_extends(
        #[trigger] a.sections[i],
        b.sections[i],
    ) by {
        assert(section_extends(a.sections[i], a.sections[i]));
        if i == section {
            let x = a.sections[i].relocations;
            assert(b.sections[i].relocations.take(x.len() as int) =~= x);
        }
    }
}

/// Adding a function takes nothing away from an object file.
pub proof fn law_functions_are_only_added(state: ObjectState, name: Seq<u8>, body: Seq<u8>)
    requires
        state.contents.sections.len() == 3,
    ensures
        extends(state.contents, state.with_function(name, body).contents),
{
    let data = state.contents.with_data(text_section(), padded(body, 0x90));
    let symbol = symbol_at(decorated(name), Some(state.end_of(text_section())));
    lemma_data_extends(state.contents, text_section(), padded(body, 0x90));
    lemma_symbol_extends(data, symbol);
    lemma_extends_on(state.contents, data, data.with_symbol(symbol));
}

/// A reference takes nothing away from an object file.
proof fn lemma_reference_extends(
    state: ObjectState,
    name: Seq<u8>,
    target: Option<Place>,
    at: Place,
)
    requires
        0 <= at.section < state.contents.sections.len(),
    ensures
        extends(state.contents, state.with_reference(name, target, at).contents),
{
    let symbol = state.contents.with_symbol(symbol_at(name, target));
    let relocation = RelocationEntry {
        offset: at.offset,
        symbol: state.contents.symbols.len() as int,
        typ: REL32,
    };
    lemma_symbol_extends(state.contents, symbol_at(name, target));
    lemma_relocation_extends(symbol, at.section, relocation);
    lemma_extends_on(state.contents, symbol, symbol.with_relocation(at.section, relocation));
}

/// Adding what a place refers to takes nothing away from an object file.
pub proof fn law_references_are_only_added(
    state: ObjectState,
    reference: Reference,
    at: Place,
    image: Seq<u8>,
)
    requires
        state.contents.sections.len() == 3,
        0 <= at.section < 3,
    ensures
        extends(state.contents, state.with_target(reference, at, image).contents),
{
    let home = state.home_of(reference);
    match reference {
        Reference::Function { rva, name } => {
            lemma_reference_extends(state, decorated(name), None, at);
        },
        Reference::ConstantString { symbol, data } => {
            let held = state.with_padded_data(home.section, data, 0);
            lemma_data_extends(state.contents, home.section, padded(data, 0));
            lemma_reference_extends(held, reference.name(), Some(home), at);
            lemma_extends_on(
                state.contents,
                held.contents,
                held.with_reference(reference.name(), Some(home), at).contents,
            );
        },
        Reference::Constant { symbol, target_rva } => {
            let data = image.subrange(target_rva as int, target_rva + 4);
            let held = state.with_padded_data(home.section, data, 0);
            lemma_data_extends(state.contents, home.section, padded(data, 0));
            lemma_reference_extends(held, symbol, Some(home), at);
            lemma_extends_on(
                state.contents,
                held.contents,
                held.with_reference(symbol, Some(home), at).contents,
            );
        },
        Reference::Static { symbol, target_rva } => {
            let data = image.subrange(target_rva as int, target_rva + 4);
            let held = state.with_padded_data(home.section, data, 0);
            lemma_data_extends(state.contents, home.section, padded(data, 0));
            lemma_reference_extends(held, symbol, Some(home), at);
            lemma_extends_on(
                state.contents,
                held.contents,
                held.with_reference(symbol, Some(home), at).contents,
            );
        },
    }
}

/// Adding a chain of references takes nothing away from an object file.
pub proof fn law_chains_are_only_added(
    state: ObjectState,
    chain: Seq<Reference>,
    at: Place,
    image: Seq<u8>,
)
    requires
        state.contents.sections.len() == 3,
        0 <= at.section < 3,
    ensures
        extends(state.contents, state.with_chain(chain, at, image).contents),
    decreases chain.len(),
{
    if chain.len() == 0 {
        lemma_extends_itself(state.contents);
    } else {
        let next = state.with_target(chain[0], at, image);
        law_references_are_only_added(state, chain[0], at, image);
        law_chains_are_only_added(next, chain.drop_first(), state.home_of(chain[0]), image);
        lemma_extends_on(
            state.contents,
            next.contents,
            state.with_chain(chain, at, image).contents,
        );
    }
}

/// Whether the symbol of number `k` is that of a function: it has the
/// function's decorated name, it is for code and in the section for code, and
/// the function's bytes are where it says.
pub open spec fn holds_function_at(
    contents: Contents,
    name: Seq<u8>,
    body: Seq<u8>,
    k: int,
) -> bool {
    &&& 0 <= k < contents.symbols.len()
    &&& contents.symbols[k].name == decorated(name)
    &&& contents.symbols[k].kind == SymbolKind::Text
    &&& contents.symbols[k].place == SymbolPlace::Section(text_section())
    &&& contents.symbols[k].value + body.len() <= contents.sections[text_section()].data.len()
    &&& contents.sections[text_section()].data.subrange(
        contents.symbols[k].value as int,
        contents.symbols[k].value + body.len(),
    ) == body
}

/// A function that was added can be found: the new symbol is there under its
/// decorated name, and its bytes are where the symbol says.
pub proof fn law_added_function_is_held(state: ObjectState, name: Seq<u8>, body: Seq<u8>)
    requires
        state.contents.sections.len() == 3,
        state.contents.sections[text_section()].data.len() <= u64::MAX,
    ensures
        holds_function_at(
            state.with_function(name, body).contents,
            name,
            body,
            state.contents.symbols.len() as int,
        ),
{
    let after = state.with_function(name, body).contents;
    let value = after.symbols[state.contents.symbols.len() as int].value as int;
    assert(after.sections[text_section()].data.subrange(value, value + body.len()) =~= body);
}

/// A function that an object file holds stays in it, whatever is added.
pub proof fn law_held_function_stays(
    before: Contents,
    after: Contents,
    name: Seq<u8>,
    body: Seq<u8>,
    k: int,
)
    requires
        before.sections.len() == 3,
        extends(before, after),
        holds_function_at(before, name, body, k),
    ensures
        holds_function_at(after, name, body, k),
        after.symbols[k] == before.symbols[k],
{
    assert(section_extends(before.sections[text_section()], after.sections[text_section()]));
    let value = before.symbols[k].value as int;
    let a = before.sections[text_section()].data;
    let b = after.sections[text_section()].data;
    assert(after.symbols.take(before.symbols.len() as int)[k] == after.symbols[k]);
    assert(b.subrange(value, value + body.len()) =~= a.subrange(value, value + body.len())) by {
        assert forall|i: int| 0 <= i < a.len() implies a[i] == b[i] by {
            assert(b.take(a.len() as int)[i] == b[i]);
        }
    }
}

/// A function goes by one name, where it is defined and where it is referred to.
pub proof fn law_definition_and_reference_share_a_name(
    defining: ObjectState,
    referring: ObjectState,
    name: Seq<u8>,
    body: Seq<u8>,
    rva: usize,
    at: Place,
    image: Seq<u8>,
)
    ensures
        defining.with_function(name, body).contents.symbols.last().name
            == referring.with_target(
            (Reference::Function { rva, name }),
            at,
            image,
        ).contents.symbols.last().name,
{
}

/// Every addition leaves a section at a multiple of four bytes.
pub proof fn law_sections_stay_aligned(contents: Contents, section: int, data: Seq<u8>, pad: u8)
    requires
        0 <= section < contents.sections.len(),
        contents.sections[section].data.len() % 4 == 0,
    ensures
        contents.with_data(section, padded(data, pad)).sections[section].data.len() % 4 == 0,
{
}

/// Every function starts at a multiple of four bytes, at the end of what the
/// section for code held before.
pub proof fn law_functions_start_aligned(state: ObjectState, name: Seq<u8>, body: Seq<u8>)
    requires
        state.contents.is_object(),
    ensures
        state.with_function(name, body).contents.symbols.last().value
            == state.contents.sections[text_section()].data.len(),
        state.with_function(name, body).contents.symbols.last().value % 4 == 0,
{
}

/// A new function lies behind every earlier one.
pub proof fn law_new_functions_lie_behind(
    state: ObjectState,
    name: Seq<u8>,
    body: Seq<u8>,
    earlier_name: Seq<u8>,
    earlier_body: Seq<u8>,
    k: int,
)
    requires
        state.contents.is_object(),
        holds_function_at(state.contents, earlier_name, earlier_body, k),
    ensures
        state.contents.symbols[k].value + earlier_body.len() <= state.with_function(
            name,
            body,
        ).contents.symbols.last().value,
{
    law_functions_start_aligned(state, name, body);
}

/// In an object file that starts with unused bytes, no constant lies at the
/// start of its section, whatever is added before it.
pub proof fn law_no_constant_lies_at_the_start(state: ObjectState)
    requires
        extends(ObjectState::empty(true).contents, state.contents),
        state.contents.sections[rdata_section()].data.len() <= u64::MAX,
    ensures
        state.end_of(rdata_section()).offset >= 4,
{
    let before = ObjectState::empty(true).contents.sections[rdata_section()];
    assert(section_extends(before, state.contents.sections[rdata_section()]));
    assert(before.data.len() == 4);
}

/// Whether an object file holds a reference at a place: a relocation there, to
/// a symbol of that name.
pub open spec fn holds_reference(contents: Contents, at: Place, name: Seq<u8>) -> bool {
    exists|j: int| holds_reference_at(contents, at, name, j)
}

/// Whether the relocation of number `j` in a section is a reference to `name`.
pub open spec fn holds_reference_at(contents: Contents, at: Place, name: Seq<u8>, j: int) -> bool {
    let relocations = contents.sections[at.section].relocations;
    &&& 0 <= j < relocations.len()
    &&& relocations[j].offset == at.offset
    &&& relocations[j].typ == REL32
    &&& 0 <= relocations[j].symbol < contents.symbols.len()
    &&& contents.symbols[relocations[j].symbol].name == name
}

/// A reference that was added can be found, under the name that it goes by.
pub proof fn law_added_reference_is_held(
    state: ObjectState,
    reference: Reference,
    at: Place,
    image: Seq<u8>,
)
    requires
        state.contents.sections.len() == 3,
        0 <= at.section < 3,
    ensures
        holds_reference(
            state.with_target(reference, at, image).contents,
            at,
            reference.link_name(),
        ),
{
    let after = state.with_target(reference, at, image).contents;
    let j = state.contents.sections[at.section].relocations.len() as int;
    assert(holds_reference_at(after, at, reference.link_name(), j));
}

/// A reference that an object file holds stays in it, whatever is added.
pub proof fn law_held_reference_stays(before: Contents, after: Contents, at: Place, name: Seq<u8>)
    requires
        0 <= at.section < before.sections.len(),
        extends(before, after),
        holds_reference(before, at, name),
    ensures
        holds_reference(after, at, name),
{
    let j = choose|j: int| holds_reference_at(before, at, name, j);
    assert(section_extends(before.sections[at.section], after.sections[at.section]));
    let a = before.sections[at.section].relocations;
    let b = after.sections[at.section].relocations;
    assert(b.take(a.len() as int)[j] == b[j]);
    assert(after.symbols.take(before.symbols.len() as int)[a[j].symbol]
        == after.symbols[a[j].symbol]);
    assert(holds_reference_at(after, at, name, j));
}

} // verus!
