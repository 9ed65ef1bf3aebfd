//! What the places in an image that hold addresses refer to.
use crate::bytes::{alphanumeric, ascii, is_alphanumeric, starts_with, text_bytes, UNDERSCORE};
use crate::decoration::decorated;
use std::collections::{BTreeMap, HashSet};
use vstd::prelude::*;
use vstd::std_specs::btree::group_btree_axioms;
use vstd::std_specs::hash::group_hash_axioms;

verus! {

/// What a place in the image refers to.
#[derive(Clone, Copy)]
pub enum RelocKind<'a> {
    /// The function at an address, and the name chosen among those it has.
    Function { rva: usize, name: &'a [u8] },
    /// A string literal: the symbol that the compiler made for it, and its bytes.
    ConstantString { symbol: &'a [u8], data: &'a [u8] },
    /// Data that does not change, four bytes at an address.
    Constant { symbol: &'a [u8], target_rva: usize },
    /// Data that changes, four bytes at an address.
    Static { symbol: &'a [u8], target_rva: usize },
}

/// What a place in the image refers to, in mathematical terms.
pub enum Reference {
    Function { rva: usize, name: Seq<u8> },
    ConstantString { symbol: Seq<u8>, data: Seq<u8> },
    Constant { symbol: Seq<u8>, target_rva: usize },
    Static { symbol: Seq<u8>, target_rva: usize },
}

impl View for RelocKind<'_> {
    type V = Reference;

    open spec fn view(&self) -> Reference {
        match *self {
            RelocKind::Function { rva, name } => Reference::Function { rva, name: name@ },
            RelocKind::ConstantString { symbol, data } => Reference::ConstantString {
                symbol: symbol@,
                data: data@,
            },
            RelocKind::Constant { symbol, target_rva } => Reference::Constant {
                symbol: symbol@,
                target_rva,
            },
            RelocKind::Static { symbol, target_rva } => Reference::Static {
                symbol: symbol@,
                target_rva,
            },
        }
    }
}

/// Whether the compiler's symbol is that of a string literal of bytes.
pub open spec fn names_narrow_string(symbol: Seq<u8>) -> bool {
    ascii("??_C@_0"@).is_prefix_of(symbol)
}

/// Whether the compiler's symbol is that of a string literal of 16-bit units.
pub open spec fn names_wide_string(symbol: Seq<u8>) -> bool {
    ascii("??_C@_1"@).is_prefix_of(symbol)
}

/// Whether the compiler's symbol is that of a string literal.
pub open spec fn names_string(symbol: Seq<u8>) -> bool {
    names_narrow_string(symbol) || names_wide_string(symbol)
}

/// `b` if it is an ASCII letter or digit, else an underscore.
pub open spec fn readable(b: u8) -> u8 {
    if is_alphanumeric(b) {
        b
    } else {
        UNDERSCORE
    }
}

/// A readable name for a string literal. One of bytes is spelled by its bytes;
/// one of 16-bit units by its pairs of neighbours, each of which gives the
/// second byte where the first is zero.
pub open spec fn constant_name(symbol: Seq<u8>, data: Seq<u8>) -> Seq<u8> {
    if names_narrow_string(symbol) {
        data.map_values(|b: u8| readable(b))
    } else {
        Seq::new(
            if data.len() == 0 {
                0
            } else {
                (data.len() - 1) as nat
            },
            |i: int|
                if data[i] == 0 {
                    readable(data[i + 1])
                } else {
                    UNDERSCORE
                },
        )
    }
}

/// Returns a readable name for a string literal.
pub fn get_constant_name(symbol: &[u8], data: &[u8]) -> (r: Vec<u8>)
    requires
        names_string(symbol@),
    ensures
        r@ == constant_name(symbol@, data@),
{
    proof {
        reveal_strlit("??_C@_0");
    }
    let mut r: Vec<u8> = Vec::with_capacity(data.len());
    let mut i: usize = 0;
    if starts_with(symbol, text_bytes("??_C@_0")) {
        while i < data.len()
            invariant
                i <= data@.len(),
                r@ == data@.take(i as int).map_values(|b: u8| readable(b)),
            decreases data@.len() - i,
        {
            r.push(
                if alphanumeric(data[i]) {
                    data[i]
                } else {
                    UNDERSCORE
                },
            );
            i = i + 1;
            assert(r@ =~= data@.take(i as int).map_values(|b: u8| readable(b)));
        }
        assert(data@.take(i as int) =~= data@);
    } else {
        while data.len() - i > 1
            invariant
                i <= data@.len(),
                data@.len() > 0 ==> i < data@.len(),
                !names_narrow_string(symbol@),
                r@ == constant_name(symbol@, data@).take(i as int),
            decreases data@.len() - i,
        {
            r.push(
                if data[i] == 0 && alphanumeric(data[i + 1]) {
                    data[i + 1]
                } else {
                    UNDERSCORE
                },
            );
            i = i + 1;
            assert(r@ =~= constant_name(symbol@, data@).take(i as int));
        }
        assert(r@ =~= constant_name(symbol@, data@));
    }
    r
}

/// Tells whether the compiler's symbol is that of a string literal.
pub fn is_string_symbol(symbol: &[u8]) -> (r: bool)
    ensures
        r == names_string(symbol@),
{
    proof {
        reveal_strlit("??_C@_0");
        reveal_strlit("??_C@_1");
    }
    starts_with(symbol, text_bytes("??_C@_0")) || starts_with(symbol, text_bytes("??_C@_1"))
}

/// The name of what a place refers to.
pub enum Name<'a> {
    Borrowed(&'a [u8]),
    Owned(Vec<u8>),
}

impl View for Name<'_> {
    type V = Seq<u8>;

    open spec fn view(&self) -> Seq<u8> {
        match *self {
            Name::Borrowed(name) => name@,
            Name::Owned(name) => name@,
        }
    }
}

impl Name<'_> {
    /// Returns the bytes of the name.
    pub fn as_raw_string(&self) -> (r: &[u8])
        ensures
            r@ == self@,
    {
        match self {
            Name::Owned(name) => name.as_slice(),
            Name::Borrowed(name) => *name,
        }
    }
}

impl Reference {
    /// The name of what is referred to, before any decoration.
    pub open spec fn name(self) -> Seq<u8> {
        match self {
            Reference::Function { rva, name } => name,
            Reference::ConstantString { symbol, data } => constant_name(symbol, data),
            Reference::Constant { symbol, target_rva } => symbol,
            Reference::Static { symbol, target_rva } => symbol,
        }
    }

    /// The name that goes into an object file for what is referred to.
    pub open spec fn link_name(self) -> Seq<u8> {
        match self {
            Reference::Function { rva, name } => decorated(name),
            _ => self.name(),
        }
    }

    /// Whether a string literal, if it is one, has the symbol of one.
    pub open spec fn has_name(self) -> bool {
        self matches Reference::ConstantString { symbol, data } ==> names_string(symbol)
    }

    /// The address of the data that is referred to, if it is data in the image.
    pub open spec fn target(self) -> Option<usize> {
        match self {
            Reference::Constant { symbol, target_rva } => Some(target_rva),
            Reference::Static { symbol, target_rva } => Some(target_rva),
            _ => None,
        }
    }

    /// Whether the reference can be put into an object file: it has a name, and
    /// its data, if it is data in the image, lies within the image.
    pub open spec fn is_placeable(self, image_len: nat) -> bool {
        &&& self.has_name()
        &&& self.target() matches Some(rva) ==> rva + 4 <= image_len
    }

    /// Where the data that is referred to itself refers to something, and that
    /// again, and so on: the addresses that are followed, one after the other.
    /// None of those in `visited` is followed, and none twice.
    pub open spec fn followed(self, relocs: Map<usize, Reference>, visited: Set<usize>) -> Seq<
        usize,
    >
        decreases relocs.dom().difference(visited).len(),
        when relocs.dom().finite()
        via Reference::followed_ends
    {
        match self.target() {
            Some(rva) => if relocs.contains_key(rva) && !visited.contains(rva) {
                seq![rva] + relocs[rva].followed(relocs, visited.insert(rva))
            } else {
                Seq::empty()
            },
            None => Seq::empty(),
        }
    }

    #[via_fn]
    proof fn followed_ends(self, relocs: Map<usize, Reference>, visited: Set<usize>) {
        if let Some(rva) = self.target() {
            if relocs.contains_key(rva) && !visited.contains(rva) {
                lemma_one_less(relocs.dom(), visited, rva);
            }
        }
    }

    /// The reference, and those at the addresses that are followed from it.
    pub open spec fn chain(self, relocs: Map<usize, Reference>, visited: Set<usize>) -> Seq<
        Reference,
    > {
        seq![self] + self.followed(relocs, visited).map_values(|rva: usize| relocs[rva])
    }

    /// Whether the reference, and all that is followed from it, can be put into
    /// an object file.
    pub open spec fn is_chain_placeable(
        self,
        relocs: Map<usize, Reference>,
        visited: Set<usize>,
        image_len: nat,
    ) -> bool {
        let chain = self.chain(relocs, visited);
        forall|i: int| 0 <= i < chain.len() ==> (#[trigger] chain[i]).is_placeable(image_len)
    }
}

/// Of the addresses in `all` that were not visited, one fewer is left after one
/// more visit.
pub proof fn lemma_one_less(all: Set<usize>, visited: Set<usize>, rva: usize)
    requires
        all.finite(),
        all.contains(rva),
        !visited.contains(rva),
    ensures
        all.difference(visited.insert(rva)).len() < all.difference(visited).len(),
{
    assert(all.difference(visited.insert(rva)) =~= all.difference(visited).remove(rva));
}

/// What a chain is, one link further on.
pub proof fn lemma_chain_step(
    reference: Reference,
    relocs: Map<usize, Reference>,
    visited: Set<usize>,
    rva: usize,
)
    requires
        relocs.dom().finite(),
        reference.target() == Some(rva),
        relocs.contains_key(rva),
        !visited.contains(rva),
    ensures
        reference.chain(relocs, visited) == seq![reference] + relocs[rva].chain(
            relocs,
            visited.insert(rva),
        ),
        reference.followed(relocs, visited) == seq![rva] + relocs[rva].followed(
            relocs,
            visited.insert(rva),
        ),
{
    let rest = relocs[rva].followed(relocs, visited.insert(rva));
    assert(reference.chain(relocs, visited) =~= seq![reference] + (seq![relocs[rva]]
        + rest.map_values(|rva: usize| relocs[rva])));
}

impl<'a> RelocKind<'a> {
    /// Returns the name of what is referred to, before any decoration.
    pub fn get_name(self) -> (r: Name<'a>)
        requires
            self@.has_name(),
        ensures
            r@ == self@.name(),
    {
        match self {
            RelocKind::Function { rva: _, name } => Name::Borrowed(name),
            RelocKind::ConstantString { symbol, data } => Name::Owned(
                get_constant_name(symbol, data),
            ),
            RelocKind::Constant { symbol, target_rva: _ } => Name::Borrowed(symbol),
            RelocKind::Static { symbol, target_rva: _ } => Name::Borrowed(symbol),
        }
    }
}

/// Tells whether what `kind` refers to, and all that is followed from it, can
/// be put into an object file. The addresses in `visited` are not followed.
fn chain_is_placeable(
    kind: RelocKind,
    relocs_rva: &RelocTable,
    visited: &mut HashSet<usize>,
    image_len: usize,
) -> (r: bool)
    ensures
        r == kind@.is_chain_placeable(relocs_rva@, old(visited)@, image_len as nat),
    decreases relocs_rva@.dom().difference(old(visited)@).len(),
{
    broadcast use group_hash_axioms;

    let ghost seen = visited@;
    let ghost chain = kind@.chain(relocs_rva@, seen);
    proof {
        relocs_rva.lemma_finite();
        assert(chain[0] == kind@);
    }
    let target_rva: usize = match kind {
        RelocKind::Function { rva: _, name: _ } => {
            return true;
        },
        RelocKind::ConstantString { symbol, data: _ } => {
            return is_string_symbol(symbol);
        },
        RelocKind::Constant { symbol: _, target_rva } => target_rva,
        RelocKind::Static { symbol: _, target_rva } => target_rva,
    };
    if target_rva > image_len || image_len - target_rva < 4 {
        assert(!chain[0].is_placeable(image_len as nat));
        return false;
    }
    match relocs_rva.get(target_rva) {
        Some(next) => {
            if visited.insert(target_rva) {
                proof {
                    lemma_one_less(relocs_rva@.dom(), seen, target_rva);
                    lemma_chain_step(kind@, relocs_rva@, seen, target_rva);
                    let rest = next@.chain(relocs_rva@, visited@);
                    assert forall|i: int| 0 <= i < rest.len() implies chain[i + 1]
                        == #[trigger] rest[i] by {}
                    assert forall|i: int| 1 <= i < chain.len() implies #[trigger] chain[i]
                        == rest[i - 1] by {}
                }
                return chain_is_placeable(next, relocs_rva, visited, image_len);
            }
            true
        },
        None => true,
    }
}

/// Tells whether what `kind` refers to, and all that is followed from it, can
/// be put into an object file.
pub fn can_place(kind: RelocKind, relocs_rva: &RelocTable, image_len: usize) -> (r: bool)
    ensures
        r == kind@.is_chain_placeable(relocs_rva@, Set::empty(), image_len as nat),
{
    let mut visited: HashSet<usize> = HashSet::new();
    chain_is_placeable(kind, relocs_rva, &mut visited, image_len)
}

/// The places in the image that refer to something, by address.
pub struct RelocTable<'a> {
    entries: BTreeMap<usize, RelocKind<'a>>,
}

impl View for RelocTable<'_> {
    type V = Map<usize, Reference>;

    closed spec fn view(&self) -> Map<usize, Reference> {
        self.entries@.map_values(|kind: RelocKind| kind@)
    }
}

impl<'a> RelocTable<'a> {
    /// Makes a table without places.
    pub fn new() -> (r: RelocTable<'a>)
        ensures
            r@ == Map::<usize, Reference>::empty(),
    {
        let r = RelocTable { entries: BTreeMap::new() };
        assert(r@ =~= Map::<usize, Reference>::empty());
        r
    }

    /// Returns what the place at an address refers to.
    pub fn get(&self, rva: usize) -> (r: Option<RelocKind<'a>>)
        ensures
            match r {
                Some(kind) => self@.contains_key(rva) && kind@ == self@[rva],
                None => !self@.contains_key(rva),
            },
    {
        broadcast use group_btree_axioms;

        match self.entries.get(&rva) {
            Some(kind) => Some(*kind),
            None => None,
        }
    }

    /// Says what the place at an address refers to, and returns what it
    /// referred to before.
    pub fn insert(&mut self, rva: usize, kind: RelocKind<'a>) -> (r: Option<RelocKind<'a>>)
        ensures
            final(self)@ == old(self)@.insert(rva, kind@),
            match r {
                Some(before) => old(self)@.contains_key(rva) && before@ == old(self)@[rva],
                None => !old(self)@.contains_key(rva),
            },
    {
        broadcast use group_btree_axioms;

        let r = self.entries.insert(rva, kind);
        assert(self@ =~= old(self)@.insert(rva, kind@));
        r
    }

    /// The addresses of the places are finitely many.
    pub proof fn lemma_finite(&self)
        ensures
            self@.dom().finite(),
    {
        broadcast use group_btree_axioms;

        assert(self@.dom() =~= self.entries@.dom());
    }
}

/// A name made for a string literal holds letters, digits and underscores only.
pub proof fn law_constant_names_are_readable(symbol: Seq<u8>, data: Seq<u8>, i: int)
    requires
        0 <= i < constant_name(symbol, data).len(),
    ensures
        is_alphanumeric(constant_name(symbol, data)[i]) || constant_name(symbol, data)[i]
            == UNDERSCORE,
{
}

/// However data refers to data, no address is followed twice, none that was
/// visited before, and none where nothing is referred to.
pub proof fn law_no_address_is_followed_twice(
    reference: Reference,
    relocs: Map<usize, Reference>,
    visited: Set<usize>,
)
    requires
        relocs.dom().finite(),
    ensures
        reference.followed(relocs, visited).no_duplicates(),
        forall|i: int|
            0 <= i < reference.followed(relocs, visited).len() ==> relocs.contains_key(
                #[trigger] reference.followed(relocs, visited)[i],
            ) && !visited.contains(reference.followed(relocs, visited)[i]),
    decreases relocs.dom().difference(visited).len(),
{
    if let Some(rva) = reference.target() {
        if relocs.contains_key(rva) && !visited.contains(rva) {
            lemma_one_less(relocs.dom(), visited, rva);
            law_no_address_is_followed_twice(relocs[rva], relocs, visited.insert(rva));
            let all = reference.followed(relocs, visited);
            let rest = relocs[rva].followed(relocs, visited.insert(rva));
            assert forall|i: int| 1 <= i < all.len() implies #[trigger] all[i] == rest[i - 1] by {}
            assert forall|i: int, j: int| 0 <= i < j < all.len() implies all[i] != all[j] by {
                assert(all[j] == rest[j - 1]);
                if i > 0 {
                    assert(all[i] == rest[i - 1]);
                }
            }
        }
    }
}

} // verus!
