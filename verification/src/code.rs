//! Branches out of a function, and the relocations that stand for them.
use crate::bytes::same_bytes;
use crate::relocs::{Reference, RelocKind, RelocTable};
use crate::symbols::PdbSymbols;
use vstd::prelude::*;
use vstd::slice::{slice_subrange, slice_to_vec};

verus! {

/// Where an image is loaded, and where its code starts.
#[derive(Clone, Copy)]
pub struct Env {
    /// The address that the image is linked for.
    pub image_base: u32,
    /// Where the section of code starts, counted from there.
    pub text_rva: usize,
}

/// What an instruction does to the flow of control.
#[derive(Clone, Copy, PartialEq, Eq, Debug, Structural)]
pub enum FlowControl {
    /// It branches on a condition.
    ConditionalBranch,
    /// It branches, to an address that the instruction holds.
    UnconditionalBranch,
    /// It calls an address that the instruction holds.
    Call,
    /// Something else, or nothing.
    Other,
}

/// The first operand of an instruction, as far as branches go.
#[derive(Clone, Copy, PartialEq, Eq, Debug, Structural)]
pub enum BranchOperand {
    /// A near branch to this address.
    Near16(u16),
    /// A near branch to this address.
    Near32(u32),
    /// Something else, or nothing.
    Other,
}

/// A decoded instruction.
#[derive(Clone, Copy, PartialEq, Eq, Debug, Structural)]
pub struct DecodedInstruction {
    /// How many bytes it takes.
    pub len: usize,
    pub flow: FlowControl,
    pub operand: BranchOperand,
}

/// The first instruction in `code`, which lies at the address `ip`.
pub uninterp spec fn decoded(bitness: u32, code: Seq<u8>, ip: u64) -> DecodedInstruction;

/// Decodes the first instruction in `code`, which lies at the address `ip`.
///
/// Calls `iced_x86::Decoder::with_ip` without options and `Decoder::decode`,
/// and reads from the instruction its length, its flow control, its first
/// operand's kind and, for a near branch, its target. They are trusted to
/// depend on the bytes and the address alone, and an instruction to take at
/// least one of the bytes that are there and no more than there are. Which
/// instruction the bytes stand for is not stated.
#[verifier::external_body]
fn decode(bitness: u32, code: &[u8], ip: u64) -> (r: DecodedInstruction)
    requires
        bitness == 32,
        code@.len() > 0,
    ensures
        r == decoded(bitness, code@, ip),
        1 <= r.len <= code@.len(),
{
    let ix = iced_x86::Decoder::with_ip(bitness, code, ip, iced_x86::DecoderOptions::NONE).decode();
    let flow = match ix.flow_control() {
        iced_x86::FlowControl::ConditionalBranch => FlowControl::ConditionalBranch,
        iced_x86::FlowControl::UnconditionalBranch => FlowControl::UnconditionalBranch,
        iced_x86::FlowControl::Call => FlowControl::Call,
        _ => FlowControl::Other,
    };
    let operand = match ix.op0_kind() {
        iced_x86::OpKind::NearBranch16 => BranchOperand::Near16(ix.near_branch16()),
        iced_x86::OpKind::NearBranch32 => BranchOperand::Near32(ix.near_branch32()),
        _ => BranchOperand::Other,
    };
    DecodedInstruction { len: ix.len(), flow, operand }
}

impl DecodedInstruction {
    /// The address that the instruction branches to, if it is a near branch.
    pub open spec fn target(self) -> Option<int> {
        if self.flow is Other {
            None
        } else {
            match self.operand {
                BranchOperand::Near16(va) => Some(va as int),
                BranchOperand::Near32(va) => Some(va as int),
                BranchOperand::Other => None,
            }
        }
    }

    /// Returns the address that the instruction branches to, if it is a near branch.
    pub fn branch_target(&self) -> (r: Option<u32>)
        ensures
            match r {
                Some(va) => self.target() == Some(va as int),
                None => self.target() is None,
            },
    {
        match self.flow {
            FlowControl::ConditionalBranch
            | FlowControl::UnconditionalBranch
            | FlowControl::Call => match self.operand {
                BranchOperand::Near16(va) => Some(va as u32),
                BranchOperand::Near32(va) => Some(va),
                BranchOperand::Other => None,
            },
            FlowControl::Other => None,
        }
    }
}

/// The last four bytes of an instruction that branches to another function.
pub struct Site {
    /// Where in the function they start.
    pub offset: int,
    /// The address of the other function.
    pub rva: usize,
    /// Its name.
    pub name: Seq<u8>,
}

/// The last four bytes of an instruction that branches to another function.
#[derive(Clone, Copy)]
pub struct BranchSite<'s> {
    /// Where in the function they start.
    pub offset: usize,
    /// The address of the other function.
    pub rva: usize,
    /// Its name.
    pub name: &'s [u8],
}

impl View for BranchSite<'_> {
    type V = Site;

    open spec fn view(&self) -> Site {
        Site { offset: self.offset as int, rva: self.rva, name: self.name@ }
    }
}

/// The site in an instruction that ends at `end` in a function. The
/// instruction has one if it branches out of the function, to the start of one
/// that is known, and is long enough to hold a distance of four bytes and more.
/// Any other branch out of the function is data that was read as code.
pub open spec fn site_of(
    ix: DecodedInstruction,
    end: int,
    image_base: u32,
    fun_rva: int,
    fun_size: int,
    functions: Map<usize, Seq<u8>>,
) -> Option<Site> {
    match ix.target() {
        Some(va) => {
            let rva = va - image_base;
            if rva < 0 || fun_rva <= rva < fun_rva + fun_size || ix.len <= 4
                || !functions.contains_key(rva as usize) {
                None
            } else {
                Some(Site { offset: end - 4, rva: rva as usize, name: functions[rva as usize] })
            }
        },
        None => None,
    }
}

/// Returns the site in an instruction that ends at `end` in a function.
pub fn branch_site<'s>(
    ix: &DecodedInstruction,
    end: usize,
    image_base: u32,
    fun_rva: usize,
    fun_size: usize,
    symbols: &'s PdbSymbols,
) -> (r: Option<BranchSite<'s>>)
    requires
        ix.len <= end,
    ensures
        match r {
            Some(site) => site_of(
                *ix,
                end as int,
                image_base,
                fun_rva as int,
                fun_size as int,
                symbols@,
            ) == Some(site@),
            None => site_of(
                *ix,
                end as int,
                image_base,
                fun_rva as int,
                fun_size as int,
                symbols@,
            ) is None,
        },
{
    let va: u32 = match ix.branch_target() {
        Some(va) => va,
        None => return None,
    };
    if va < image_base {
        return None;
    }
    let rva: usize = (va - image_base) as usize;
    if rva >= fun_rva && rva - fun_rva < fun_size {
        return None;
    }
    if ix.len <= 4 {
        return None;
    }
    match symbols.get(rva) {
        Some(name) => Some(BranchSite { offset: end - 4, rva, name }),
        None => None,
    }
}

/// The address of the byte at `offset` of a function, as the processor sees it.
pub open spec fn address(image_base: u32, fun_rva: usize, offset: usize) -> u64 {
    (image_base as u64).wrapping_add(fun_rva as u64).wrapping_add(offset as u64)
}

/// The sites in a function, from the instruction at `start` on.
pub open spec fn sites_from(
    image_base: u32,
    fun_rva: usize,
    code: Seq<u8>,
    functions: Map<usize, Seq<u8>>,
    start: int,
) -> Seq<Site>
    decreases code.len() - start,
{
    let ix = decoded(32, code.skip(start), address(image_base, fun_rva, start as usize));
    if start < 0 || start >= code.len() || !(1 <= ix.len <= code.len() - start) {
        Seq::empty()
    } else {
        let end = start + ix.len;
        let rest = sites_from(image_base, fun_rva, code, functions, end);
        match site_of(ix, end, image_base, fun_rva as int, code.len() as int, functions) {
            Some(site) => seq![site] + rest,
            None => rest,
        }
    }
}

/// The sites in a function.
pub open spec fn sites(
    image_base: u32,
    fun_rva: usize,
    code: Seq<u8>,
    functions: Map<usize, Seq<u8>>,
) -> Seq<Site> {
    sites_from(image_base, fun_rva, code, functions, 0)
}

/// What the branch sites of a sequence are.
pub open spec fn site_views(found: Seq<BranchSite>) -> Seq<Site> {
    found.map_values(|site: BranchSite| site@)
}

/// Whether sites lie within a function of `len` bytes, one behind the other.
pub open spec fn are_in_order(found: Seq<Site>, len: int) -> bool {
    &&& forall|i: int|
        0 <= i < found.len() ==> 0 <= (#[trigger] found[i]).offset && found[i].offset + 4 <= len
    &&& forall|i: int, j: int|
        0 <= i < j < found.len() ==> (#[trigger] found[i]).offset + 4 < (
        #[trigger] found[j]).offset
}

/// Finds the sites in a function, which takes the bytes `code` of the image.
pub fn branch_sites<'s>(
    env: &Env,
    fun_rva: usize,
    code: &[u8],
    symbols: &'s PdbSymbols,
) -> (r: Vec<BranchSite<'s>>)
    ensures
        site_views(r@) == sites(env.image_base, fun_rva, code@, symbols@),
        are_in_order(site_views(r@), code@.len() as int),
{
    let mut r: Vec<BranchSite<'s>> = Vec::new();
    let mut start: usize = 0;
    let size: usize = code.len();
    let ghost all = sites(env.image_base, fun_rva, code@, symbols@);
    assert(site_views(r@) + all =~= all);
    while start < size
        invariant
            size == code@.len(),
            start <= size,
            all == site_views(r@) + sites_from(
                env.image_base,
                fun_rva,
                code@,
                symbols@,
                start as int,
            ),
            are_in_order(site_views(r@), size as int),
            forall|i: int| 0 <= i < r@.len() ==> (#[trigger] r@[i]).offset + 4 <= start,
        decreases size - start,
    {
        let rest = slice_subrange(code, start, size);
        assert(rest@ =~= code@.skip(start as int));
        let ip: u64 = (env.image_base as u64).wrapping_add(fun_rva as u64).wrapping_add(
            start as u64,
        );
        let ix = decode(32, rest, ip);
        let end: usize = start + ix.len;
        let ghost before = site_views(r@);
        let ghost tail = sites_from(env.image_base, fun_rva, code@, symbols@, end as int);
        match branch_site(&ix, end, env.image_base, fun_rva, size, symbols) {
            Some(site) => {
                assert(site.offset >= start + 1);
                r.push(site);
                assert(site_views(r@) =~= before.push(site@));
                assert(before + (seq![site@] + tail) =~= before.push(site@) + tail);
                assert forall|i: int, j: int| 0 <= i < j < r@.len() implies (
                #[trigger] site_views(r@)[i]).offset + 4 < (#[trigger] site_views(
                    r@,
                )[j]).offset by {
                    if j == before.len() {
                        assert(r@[i].offset + 4 <= start);
                    } else {
                        assert(before[i].offset + 4 < before[j].offset);
                    }
                }
                assert forall|i: int| 0 <= i < r@.len() implies 0 <= (#[trigger] site_views(
                    r@,
                )[i]).offset && site_views(r@)[i].offset + 4 <= size by {
                    if i < before.len() {
                        assert(before[i].offset + 4 <= size);
                    }
                }
            },
            None => {},
        }
        start = end;
    }
    assert(sites_from(env.image_base, fun_rva, code@, symbols@, start as int) =~= Seq::empty());
    assert(site_views(r@) + Seq::<Site>::empty() =~= site_views(r@));
    r
}

/// Whether a byte of the function belongs to one of the sites.
pub open spec fn is_covered(found: Seq<Site>, i: int) -> bool {
    exists|k: int|
        0 <= k < found.len() && (#[trigger] found[k]).offset <= i < found[k].offset + 4
}

/// The function's bytes, with zeros at the sites.
pub open spec fn zeroed(code: Seq<u8>, found: Seq<Site>) -> Seq<u8> {
    Seq::new(
        code.len(),
        |i: int|
            if is_covered(found, i) {
                0u8
            } else {
                code[i]
            },
    )
}

impl Site {
    /// The address of the site, in a function at `fun_rva`.
    pub open spec fn place(self, fun_rva: usize) -> usize {
        (fun_rva + self.offset) as usize
    }

    /// What the site refers to.
    pub open spec fn reference(self) -> Reference {
        Reference::Function { rva: self.rva, name: self.name }
    }
}

/// The table of references with those of the sites in it.
pub open spec fn linked(
    relocs: Map<usize, Reference>,
    fun_rva: usize,
    found: Seq<Site>,
) -> Map<usize, Reference>
    decreases found.len(),
{
    if found.len() == 0 {
        relocs
    } else {
        linked(relocs, fun_rva, found.drop_last()).insert(
            found.last().place(fun_rva),
            found.last().reference(),
        )
    }
}

/// Whether nothing but what the sites refer to is known of the places where the
/// sites are.
pub open spec fn sites_agree(
    relocs: Map<usize, Reference>,
    fun_rva: usize,
    found: Seq<Site>,
) -> bool {
    forall|i: int|
        0 <= i < found.len() && relocs.contains_key((#[trigger] found[i]).place(fun_rva))
            ==> relocs[found[i].place(fun_rva)] == found[i].reference()
}

/// Tells whether nothing but what the sites refer to is known of the places
/// where the sites are.
pub fn sites_match(relocs_rva: &RelocTable, fun_rva: usize, found: &Vec<BranchSite>) -> (r: bool)
    requires
        forall|i: int| 0 <= i < found@.len() ==> fun_rva + (#[trigger] found@[i]).offset <= usize::MAX,
    ensures
        r == sites_agree(relocs_rva@, fun_rva, site_views(found@)),
{
    let ghost all = site_views(found@);
    let mut i: usize = 0;
    while i < found.len()
        invariant
            i <= found@.len(),
            all == site_views(found@),
            forall|i: int|
                0 <= i < found@.len() ==> fun_rva + (#[trigger] found@[i]).offset <= usize::MAX,
            sites_agree(relocs_rva@, fun_rva, all.take(i as int)),
        decreases found@.len() - i,
    {
        let site = found[i];
        assert(all[i as int] == site@);
        let same: bool = match relocs_rva.get(fun_rva + site.offset) {
            Some(RelocKind::Function { rva, name }) => rva == site.rva && same_bytes(
                name,
                site.name,
            ),
            Some(_) => false,
            None => true,
        };
        if !same {
            return false;
        }
        i = i + 1;
        assert forall|k: int|
            0 <= k < i && relocs_rva@.contains_key(
                (#[trigger] all.take(i as int)[k]).place(fun_rva),
            ) implies relocs_rva@[all.take(i as int)[k].place(fun_rva)] == all.take(
            i as int,
        )[k].reference() by {
            if k < i - 1 {
                assert(all.take(i - 1)[k] == all.take(i as int)[k]);
            }
        }
    }
    assert(all.take(i as int) =~= all);
    true
}

/// Zeroes the sites of a function, and says in the table what they refer to.
pub fn apply_sites<'s>(
    fun_rva: usize,
    code: &[u8],
    found: &Vec<BranchSite<'s>>,
    relocs_rva: &mut RelocTable<'s>,
) -> (r: Vec<u8>)
    requires
        fun_rva + code@.len() <= usize::MAX,
        are_in_order(site_views(found@), code@.len() as int),
    ensures
        r@ == zeroed(code@, site_views(found@)),
        final(relocs_rva)@ == linked(old(relocs_rva)@, fun_rva, site_views(found@)),
{
    let ghost all = site_views(found@);
    let ghost relocs = relocs_rva@;
    let mut fun_bytes: Vec<u8> = slice_to_vec(code);
    let mut i: usize = 0;
    assert(fun_bytes@ =~= zeroed(code@, all.take(0)));
    while i < found.len()
        invariant
            i <= found@.len(),
            all == site_views(found@),
            fun_rva + code@.len() <= usize::MAX,
            are_in_order(all, code@.len() as int),
            fun_bytes@ == zeroed(code@, all.take(i as int)),
            relocs_rva@ == linked(relocs, fun_rva, all.take(i as int)),
        decreases found@.len() - i,
    {
        let site = found[i];
        assert(all[i as int] == site@);
        let offset: usize = site.offset;
        fun_bytes.set(offset, 0);
        fun_bytes.set(offset + 1, 0);
        fun_bytes.set(offset + 2, 0);
        fun_bytes.set(offset + 3, 0);
        relocs_rva.insert(
            fun_rva + offset,
            RelocKind::Function { rva: site.rva, name: site.name },
        );
        proof {
            let now = all.take(i as int);
            let next = all.take(i + 1);
            assert(next.drop_last() =~= now);
            assert forall|j: int| 0 <= j < code@.len() implies is_covered(next, j) == (is_covered(
                now,
                j,
            ) || offset <= j < offset + 4) by {
                if is_covered(now, j) {
                    let k = choose|k: int|
                        0 <= k < now.len() && (#[trigger] now[k]).offset <= j < now[k].offset + 4;
                    assert(next[k] == now[k]);
                }
                if offset <= j < offset + 4 {
                    assert(next[i as int].offset <= j < next[i as int].offset + 4);
                }
                if is_covered(next, j) {
                    let k = choose|k: int|
                        0 <= k < next.len() && (#[trigger] next[k]).offset <= j < next[k].offset
                            + 4;
                    if k < i {
                        assert(now[k] == next[k]);
                    }
                }
            }
            assert(fun_bytes@ =~= zeroed(code@, next));
        }
        i = i + 1;
    }
    assert(all.take(i as int) =~= all);
    fun_bytes
}

/// Turns the branches of a function to other functions into relocations: says
/// in the table what they refer to, and returns the function's bytes with zeros
/// in place of the distances.
pub fn resolve_relative_relocations<'s>(
    env: &Env,
    fun_rva: usize,
    fun_size: usize,
    symbols: &'s PdbSymbols,
    coff_data: &[u8],
    relocs_rva: &mut RelocTable<'s>,
) -> (r: Vec<u8>)
    requires
        fun_rva + fun_size <= coff_data@.len(),
        sites_agree(
            old(relocs_rva)@,
            fun_rva,
            sites(
                env.image_base,
                fun_rva,
                coff_data@.subrange(fun_rva as int, fun_rva + fun_size),
                symbols@,
            ),
        ),
    ensures
        ({
            let code = coff_data@.subrange(fun_rva as int, fun_rva + fun_size);
            let found = sites(env.image_base, fun_rva, code, symbols@);
            &&& r@ == zeroed(code, found)
            &&& final(relocs_rva)@ == linked(old(relocs_rva)@, fun_rva, found)
            &&& old(relocs_rva)@.submap_of(final(relocs_rva)@)
        }),
{
    let image_len: usize = coff_data.len();
    let code = slice_subrange(coff_data, fun_rva, fun_rva + fun_size);
    let found = branch_sites(env, fun_rva, code, symbols);
    assert(fun_rva + code@.len() <= image_len);
    proof {
        law_linking_keeps_what_was_known(
            relocs_rva@,
            fun_rva,
            code@.len() as int,
            site_views(found@),
        );
    }
    apply_sites(fun_rva, code, &found, relocs_rva)
}

/// Resolving the branches of a function changes the bytes of the sites and no
/// others.
pub proof fn law_resolving_changes_sites_only(code: Seq<u8>, found: Seq<Site>)
    ensures
        zeroed(code, found).len() == code.len(),
        forall|i: int|
            0 <= i < code.len() ==> (#[trigger] zeroed(code, found)[i] == code[i] || is_covered(
                found,
                i,
            )),
        forall|i: int|
            0 <= i < code.len() && is_covered(found, i) ==> #[trigger] zeroed(code, found)[i] == 0,
{
}

/// What is said of places that are no sites stays as it was.
pub proof fn law_linking_leaves_other_places_alone(
    relocs: Map<usize, Reference>,
    fun_rva: usize,
    found: Seq<Site>,
    rva: usize,
)
    requires
        forall|i: int| 0 <= i < found.len() ==> (#[trigger] found[i]).place(fun_rva) != rva,
    ensures
        linked(relocs, fun_rva, found).contains_key(rva) == relocs.contains_key(rva),
        relocs.contains_key(rva) ==> linked(relocs, fun_rva, found)[rva] == relocs[rva],
    decreases found.len(),
{
    if found.len() > 0 {
        assert(found.last() == found[found.len() - 1]);
        assert forall|i: int| 0 <= i < found.drop_last().len() implies (
        #[trigger] found.drop_last()[i]).place(fun_rva) != rva by {
            assert(found.drop_last()[i] == found[i]);
        }
        law_linking_leaves_other_places_alone(relocs, fun_rva, found.drop_last(), rva);
    }
}

/// Every site refers to the function that its instruction branches to.
pub proof fn law_sites_are_linked(
    relocs: Map<usize, Reference>,
    fun_rva: usize,
    len: int,
    found: Seq<Site>,
    i: int,
)
    requires
        are_in_order(found, len),
        fun_rva + len <= usize::MAX,
        0 <= i < found.len(),
    ensures
        linked(relocs, fun_rva, found).contains_key(found[i].place(fun_rva)),
        linked(relocs, fun_rva, found)[found[i].place(fun_rva)] == found[i].reference(),
    decreases found.len(),
{
    let last = found.len() - 1;
    assert(found.last() == found[last]);
    if i < last {
        let before = found.drop_last();
        assert forall|j: int| 0 <= j < before.len() implies before[j] == #[trigger] found[j] by {}
        assert(are_in_order(before, len)) by {
            assert forall|j: int, k: int| 0 <= j < k < before.len() implies (
            #[trigger] before[j]).offset + 4 < (#[trigger] before[k]).offset by {
                assert(found[j].offset + 4 < found[k].offset);
            }
            assert forall|j: int| 0 <= j < before.len() implies 0 <= (
            #[trigger] before[j]).offset && before[j].offset + 4 <= len by {
                assert(found[j].offset + 4 <= len);
            }
        }
        law_sites_are_linked(relocs, fun_rva, len, before, i);
        assert(found[i].offset + 4 < found[last].offset);
        assert(found[last].offset + 4 <= len);
        assert(before[i] == found[i]);
    }
}

/// What was known before linking stays as it was, where the sites agree with it.
pub proof fn law_linking_keeps_what_was_known(
    relocs: Map<usize, Reference>,
    fun_rva: usize,
    len: int,
    found: Seq<Site>,
)
    requires
        are_in_order(found, len),
        fun_rva + len <= usize::MAX,
        sites_agree(relocs, fun_rva, found),
    ensures
        relocs.submap_of(linked(relocs, fun_rva, found)),
{
    let after = linked(relocs, fun_rva, found);
    assert forall|rva: usize| #[trigger] relocs.dom().contains(rva) implies after.dom().contains(
        rva,
    ) && relocs[rva] == after[rva] by {
        if exists|i: int| 0 <= i < found.len() && (#[trigger] found[i]).place(fun_rva) == rva {
            let i = choose|i: int|
                0 <= i < found.len() && (#[trigger] found[i]).place(fun_rva) == rva;
            law_sites_are_linked(relocs, fun_rva, len, found, i);
        } else {
            law_linking_leaves_other_places_alone(relocs, fun_rva, found, rva);
        }
    }
}

/// The more is known before linking, the more is known after it.
pub proof fn lemma_linking_is_monotone(
    less: Map<usize, Reference>,
    more: Map<usize, Reference>,
    fun_rva: usize,
    found: Seq<Site>,
)
    requires
        less.submap_of(more),
    ensures
        linked(less, fun_rva, found).submap_of(linked(more, fun_rva, found)),
    decreases found.len(),
{
    if found.len() > 0 {
        lemma_linking_is_monotone(less, more, fun_rva, found.drop_last());
    }
}

/// A function can be resolved again, as where two modules hold it: it agrees
/// with what it was resolved to, which stays as it is.
pub proof fn law_resolving_again_changes_nothing(
    relocs: Map<usize, Reference>,
    fun_rva: usize,
    len: int,
    found: Seq<Site>,
)
    requires
        are_in_order(found, len),
        fun_rva + len <= usize::MAX,
    ensures
        sites_agree(linked(relocs, fun_rva, found), fun_rva, found),
        linked(linked(relocs, fun_rva, found), fun_rva, found) == linked(relocs, fun_rva, found),
{
    let once = linked(relocs, fun_rva, found);
    let twice = linked(once, fun_rva, found);
    assert forall|i: int| 0 <= i < found.len() implies once.contains_key(
        (#[trigger] found[i]).place(fun_rva),
    ) && once[found[i].place(fun_rva)] == found[i].reference() by {
        law_sites_are_linked(relocs, fun_rva, len, found, i);
    }
    assert forall|rva: usize| twice.contains_key(rva) == #[trigger] once.contains_key(rva) && (
    once.contains_key(rva) ==> twice[rva] == once[rva]) by {
        if exists|i: int| 0 <= i < found.len() && (#[trigger] found[i]).place(fun_rva) == rva {
            let i = choose|i: int|
                0 <= i < found.len() && (#[trigger] found[i]).place(fun_rva) == rva;
            law_sites_are_linked(relocs, fun_rva, len, found, i);
            law_sites_are_linked(once, fun_rva, len, found, i);
        } else {
            law_linking_leaves_other_places_alone(once, fun_rva, found, rva);
        }
    }
    assert(twice =~= once);
}

/// The sites of a function lie within it, one behind the other, and none
/// before the instruction that the search starts from.
proof fn lemma_sites_in_order(
    image_base: u32,
    fun_rva: usize,
    code: Seq<u8>,
    functions: Map<usize, Seq<u8>>,
    start: int,
)
    ensures
        are_in_order(
            sites_from(image_base, fun_rva, code, functions, start),
            code.len() as int,
        ),
        forall|i: int|
            0 <= i < sites_from(image_base, fun_rva, code, functions, start).len() ==> start < (
            #[trigger] sites_from(image_base, fun_rva, code, functions, start)[i]).offset,
    decreases code.len() - start,
{
    let ix = decoded(32, code.skip(start), address(image_base, fun_rva, start as usize));
    if 0 <= start < code.len() && 1 <= ix.len <= code.len() - start {
        let end = start + ix.len;
        let all = sites_from(image_base, fun_rva, code, functions, start);
        let rest = sites_from(image_base, fun_rva, code, functions, end);
        lemma_sites_in_order(image_base, fun_rva, code, functions, end);
        if let Some(site) = site_of(
            ix,
            end,
            image_base,
            fun_rva as int,
            code.len() as int,
            functions,
        ) {
            assert(all =~= seq![site] + rest);
            assert forall|i: int| 1 <= i < all.len() implies #[trigger] all[i] == rest[i - 1] by {}
            assert forall|i: int, j: int| 0 <= i < j < all.len() implies (
            #[trigger] all[i]).offset + 4 < (#[trigger] all[j]).offset by {
                assert(all[j] == rest[j - 1]);
                if i > 0 {
                    assert(all[i] == rest[i - 1]);
                }
            }
        }
    }
}

/// The sites of a function lie within it, one behind the other.
pub proof fn law_sites_are_in_order(
    image_base: u32,
    fun_rva: usize,
    code: Seq<u8>,
    functions: Map<usize, Seq<u8>>,
)
    ensures
        are_in_order(sites(image_base, fun_rva, code, functions), code.len() as int),
{
    lemma_sites_in_order(image_base, fun_rva, code, functions, 0);
}

/// Every site, from the instruction at `start` on, carries the name known for
/// the address it leads to.
proof fn lemma_sites_carry_known_names(
    image_base: u32,
    fun_rva: usize,
    code: Seq<u8>,
    functions: Map<usize, Seq<u8>>,
    start: int,
    i: int,
)
    requires
        0 <= i < sites_from(image_base, fun_rva, code, functions, start).len(),
    ensures
        ({
            let site = sites_from(image_base, fun_rva, code, functions, start)[i];
            functions.contains_key(site.rva) && site.name == functions[site.rva]
        }),
    decreases code.len() - start,
{
    let ix = decoded(32, code.skip(start), address(image_base, fun_rva, start as usize));
    let end = start + ix.len;
    let size = code.len() as int;
    match site_of(ix, end, image_base, fun_rva as int, size, functions) {
        Some(_) => if i > 0 {
            lemma_sites_carry_known_names(image_base, fun_rva, code, functions, end, i - 1);
        },
        None => lemma_sites_carry_known_names(image_base, fun_rva, code, functions, end, i),
    }
}

/// Every site of a function carries the name known for the address it leads to.
pub proof fn law_sites_carry_known_names(
    image_base: u32,
    fun_rva: usize,
    code: Seq<u8>,
    functions: Map<usize, Seq<u8>>,
    i: int,
)
    requires
        0 <= i < sites(image_base, fun_rva, code, functions).len(),
    ensures
        functions.contains_key(sites(image_base, fun_rva, code, functions)[i].rva),
        sites(image_base, fun_rva, code, functions)[i].name == functions[sites(
            image_base,
            fun_rva,
            code,
            functions,
        )[i].rva],
{
    lemma_sites_carry_known_names(image_base, fun_rva, code, functions, 0, i);
}

} // verus!
