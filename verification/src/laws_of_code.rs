//! What the rules on references and branches come down to, place by place.
use crate::code::{
    address, decoded, linked, site_of, site_views, sites, sites_agree, sites_from, zeroed,
    BranchOperand, BranchSite, DecodedInstruction, FlowControl, Site,
};
use crate::decoration::decorated;
use crate::relocs::{constant_name, lemma_chain_step, lemma_one_less, Reference, RelocKind};
use vstd::prelude::*;

verus! {

/// Whether an instruction is a near branch or call to the address `va`.
pub open spec fn branches_to(ix: DecodedInstruction, va: int) -> bool {
    &&& ix.flow == FlowControl::ConditionalBranch || ix.flow == FlowControl::UnconditionalBranch
        || ix.flow == FlowControl::Call
    &&& match ix.operand {
        BranchOperand::Near16(x) => x == va,
        BranchOperand::Near32(x) => x == va,
        BranchOperand::Other => false,
    }
}

/// An instruction has a target where it is a near branch or call, and that one.
pub proof fn law_targets_are_those_of_branches(ix: DecodedInstruction)
    ensures
        ix.target() matches Some(va) ==> branches_to(ix, va),
        ix.target() is None ==> forall|va: int| !branches_to(ix, va),
{
}

/// Whether an instruction of a function of `fun_size` bytes at `fun_rva` leads to
/// the start of another function, at `rva`, that is known; it takes more than
/// four bytes.
pub open spec fn leads_out_to(
    ix: DecodedInstruction,
    rva: int,
    image_base: u32,
    fun_rva: int,
    fun_size: int,
    functions: Map<usize, Seq<u8>>,
) -> bool {
    &&& branches_to(ix, image_base + rva)
    &&& ix.len > 4
    &&& 0 <= rva
    &&& rva < fun_rva || rva >= fun_rva + fun_size
    &&& functions.contains_key(rva as usize)
}

/// An instruction has a site just where it leads out of the function, whichever
/// way; the site is its last four bytes, and carries the name known there.
pub proof fn law_sites_are_where_branches_lead_out(
    ix: DecodedInstruction,
    rva: int,
    end: int,
    image_base: u32,
    fun_rva: int,
    fun_size: int,
    functions: Map<usize, Seq<u8>>,
)
    ensures
        leads_out_to(ix, rva, image_base, fun_rva, fun_size, functions) ==> site_of(
            ix,
            end,
            image_base,
            fun_rva,
            fun_size,
            functions,
        ) == Some(Site { offset: end - 4, rva: rva as usize, name: functions[rva as usize] }),
        site_of(ix, end, image_base, fun_rva, fun_size, functions) matches Some(site)
            ==> leads_out_to(
            ix,
            site.rva as int,
            image_base,
            fun_rva,
            fun_size,
            functions,
        ) && site.offset == end - 4 && site.name == functions[site.rva],
{
}

/// The instruction at `p` in a function.
pub open spec fn instruction_at(
    image_base: u32,
    fun_rva: usize,
    code: Seq<u8>,
    p: int,
) -> DecodedInstruction {
    decoded(
        32,
        code.subrange(p, code.len() as int),
        ((image_base + fun_rva + p) % 0x1_0000_0000_0000_0000) as u64,
    )
}

/// Where the instruction of number `n` starts, when a function is decoded from
/// its start, each instruction behind the one before.
pub open spec fn instruction_start(
    image_base: u32,
    fun_rva: usize,
    code: Seq<u8>,
    n: int,
) -> int
    decreases n,
{
    if n <= 0 {
        0
    } else {
        let before = instruction_start(image_base, fun_rva, code, n - 1);
        before + instruction_at(image_base, fun_rva, code, before).len
    }
}

/// Whether the instruction of number `n` is reached, when a function is decoded
/// from its start.
pub open spec fn is_reached(image_base: u32, fun_rva: usize, code: Seq<u8>, n: int) -> bool {
    &&& 0 <= n
    &&& forall|k: int|
        0 <= k <= n ==> {
            let p = #[trigger] instruction_start(image_base, fun_rva, code, k);
            &&& 0 <= p < code.len()
            &&& 1 <= instruction_at(image_base, fun_rva, code, p).len <= code.len() - p
        }
}

/// The address of a byte in a function wraps around at 64 bits.
proof fn lemma_instruction_at(image_base: u32, fun_rva: usize, code: Seq<u8>, p: int)
    requires
        0 <= p < code.len() <= usize::MAX,
    ensures
        instruction_at(image_base, fun_rva, code, p) == decoded(
            32,
            code.skip(p),
            address(image_base, fun_rva, p as usize),
        ),
{
    assert(code.skip(p) =~= code.subrange(p, code.len() as int));
    let m = 0x1_0000_0000_0000_0000int;
    let sum = image_base + fun_rva + p;
    assert(0 <= sum < 3 * m);
    assert(sum % m == if sum < m {
        sum
    } else if sum < 2 * m {
        sum - m
    } else {
        sum - 2 * m
    });
}

/// What is found from the start is what is found in front of an instruction that
/// is reached, and what is found from there on.
proof fn lemma_sites_from_reached(
    image_base: u32,
    fun_rva: usize,
    code: Seq<u8>,
    functions: Map<usize, Seq<u8>>,
    n: int,
) -> (before: Seq<Site>)
    requires
        code.len() <= usize::MAX,
        is_reached(image_base, fun_rva, code, n),
    ensures
        sites(image_base, fun_rva, code, functions) == before + sites_from(
            image_base,
            fun_rva,
            code,
            functions,
            instruction_start(image_base, fun_rva, code, n),
        ),
    decreases n,
{
    let all = sites(image_base, fun_rva, code, functions);
    if n <= 0 {
        assert(Seq::<Site>::empty() + all =~= all);
        Seq::empty()
    } else {
        let p = instruction_start(image_base, fun_rva, code, n - 1);
        assert(is_reached(image_base, fun_rva, code, n - 1));
        let before = lemma_sites_from_reached(image_base, fun_rva, code, functions, n - 1);
        lemma_instruction_at(image_base, fun_rva, code, p);
        let ix = instruction_at(image_base, fun_rva, code, p);
        let end = p + ix.len;
        let rest = sites_from(image_base, fun_rva, code, functions, end);
        match site_of(ix, end, image_base, fun_rva as int, code.len() as int, functions) {
            Some(site) => {
                assert(before + (seq![site] + rest) =~= before.push(site) + rest);
                before.push(site)
            },
            None => before,
        }
    }
}

/// Every instruction that is reached and leads to another known function, below
/// or above, has a site at its last four bytes.
pub proof fn law_every_branch_out_is_a_site(
    image_base: u32,
    fun_rva: usize,
    code: Seq<u8>,
    functions: Map<usize, Seq<u8>>,
    n: int,
    rva: int,
)
    requires
        code.len() <= usize::MAX,
        is_reached(image_base, fun_rva, code, n),
        leads_out_to(
            instruction_at(
                image_base,
                fun_rva,
                code,
                instruction_start(image_base, fun_rva, code, n),
            ),
            rva,
            image_base,
            fun_rva as int,
            code.len() as int,
            functions,
        ),
    ensures
        sites(image_base, fun_rva, code, functions).contains(
            Site {
                offset: instruction_start(image_base, fun_rva, code, n + 1) - 4,
                rva: rva as usize,
                name: functions[rva as usize],
            },
        ),
{
    let p = instruction_start(image_base, fun_rva, code, n);
    assert(0 <= p < code.len());
    lemma_instruction_at(image_base, fun_rva, code, p);
    let before = lemma_sites_from_reached(image_base, fun_rva, code, functions, n);
    let ix = instruction_at(image_base, fun_rva, code, p);
    let end = p + ix.len;
    assert(instruction_start(image_base, fun_rva, code, n + 1) == end);
    law_sites_are_where_branches_lead_out(
        ix,
        rva,
        end,
        image_base,
        fun_rva as int,
        code.len() as int,
        functions,
    );
    let all = sites(image_base, fun_rva, code, functions);
    assert(all[before.len() as int] == (Site {
        offset: end - 4,
        rva: rva as usize,
        name: functions[rva as usize],
    }));
}

/// A site found from an instruction on belongs to one that is reached.
proof fn lemma_site_is_reached(
    image_base: u32,
    fun_rva: usize,
    code: Seq<u8>,
    functions: Map<usize, Seq<u8>>,
    n: int,
    i: int,
) -> (m: int)
    requires
        code.len() <= usize::MAX,
        0 <= n,
        n == 0 || is_reached(image_base, fun_rva, code, n - 1),
        0 <= i < sites_from(
            image_base,
            fun_rva,
            code,
            functions,
            instruction_start(image_base, fun_rva, code, n),
        ).len(),
    ensures
        ({
            let site = sites_from(
                image_base,
                fun_rva,
                code,
                functions,
                instruction_start(image_base, fun_rva, code, n),
            )[i];
            &&& is_reached(image_base, fun_rva, code, m)
            &&& is_site_of_instruction(image_base, fun_rva, code, functions, m, site)
        }),
    decreases code.len() - instruction_start(image_base, fun_rva, code, n),
{
    let p = instruction_start(image_base, fun_rva, code, n);
    assert(0 <= p < code.len());
    lemma_instruction_at(image_base, fun_rva, code, p);
    let ix = instruction_at(image_base, fun_rva, code, p);
    let end = p + ix.len;
    let size = code.len() as int;
    assert(is_reached(image_base, fun_rva, code, n)) by {
        assert forall|k: int| 0 <= k <= n implies {
            let q = #[trigger] instruction_start(image_base, fun_rva, code, k);
            &&& 0 <= q < code.len()
            &&& 1 <= instruction_at(image_base, fun_rva, code, q).len <= code.len() - q
        } by {
            if k < n {
                assert(is_reached(image_base, fun_rva, code, n - 1));
            }
        }
    }
    assert(instruction_start(image_base, fun_rva, code, n + 1) == end);
    match site_of(ix, end, image_base, fun_rva as int, size, functions) {
        Some(site) => {
            if i == 0 {
                law_sites_are_where_branches_lead_out(
                    ix,
                    site.rva as int,
                    end,
                    image_base,
                    fun_rva as int,
                    size,
                    functions,
                );
                n
            } else {
                lemma_site_is_reached(image_base, fun_rva, code, functions, n + 1, i - 1)
            }
        },
        None => lemma_site_is_reached(image_base, fun_rva, code, functions, n + 1, i),
    }
}

/// Whether a site is the last four bytes of the instruction of number `n`, which
/// leads to where the site says, under the name known there.
pub open spec fn is_site_of_instruction(
    image_base: u32,
    fun_rva: usize,
    code: Seq<u8>,
    functions: Map<usize, Seq<u8>>,
    n: int,
    site: Site,
) -> bool {
    &&& leads_out_to(
        instruction_at(
            image_base,
            fun_rva,
            code,
            instruction_start(image_base, fun_rva, code, n),
        ),
        site.rva as int,
        image_base,
        fun_rva as int,
        code.len() as int,
        functions,
    )
    &&& site.offset == instruction_start(image_base, fun_rva, code, n + 1) - 4
    &&& site.name == functions[site.rva]
}

/// There is no site but those of the instructions that are reached and lead to
/// another known function.
pub proof fn law_every_site_is_a_branch_out(
    image_base: u32,
    fun_rva: usize,
    code: Seq<u8>,
    functions: Map<usize, Seq<u8>>,
    i: int,
)
    requires
        code.len() <= usize::MAX,
        0 <= i < sites(image_base, fun_rva, code, functions).len(),
    ensures
        exists|n: int|
            #![trigger is_reached(image_base, fun_rva, code, n)]
            is_reached(image_base, fun_rva, code, n) && is_site_of_instruction(
                image_base,
                fun_rva,
                code,
                functions,
                n,
                sites(image_base, fun_rva, code, functions)[i],
            ),
{
    assert(instruction_start(image_base, fun_rva, code, 0) == 0);
    let n = lemma_site_is_reached(image_base, fun_rva, code, functions, 0, i);
    assert(is_reached(image_base, fun_rva, code, n));
}

/// Resolving puts zeros into the four bytes of each site, and leaves every other
/// byte alone.
pub proof fn law_resolving_zeroes_four_bytes(code: Seq<u8>, found: Seq<Site>, i: int)
    requires
        0 <= i < code.len(),
    ensures
        zeroed(code, found).len() == code.len(),
        (exists|k: int|
            0 <= k < found.len() && i - 3 <= (#[trigger] found[k]).offset <= i) ==> zeroed(
            code,
            found,
        )[i] == 0,
        (forall|k: int|
            0 <= k < found.len() ==> (#[trigger] found[k]).offset < i - 3 || found[k].offset > i)
            ==> zeroed(code, found)[i] == code[i],
{
}

/// Linking makes the place of the last site refer to the function it leads to,
/// and is otherwise the linking of the sites before it.
pub proof fn law_linking_goes_site_by_site(
    relocs: Map<usize, Reference>,
    fun_rva: usize,
    found: Seq<Site>,
    site: Site,
)
    ensures
        linked(relocs, fun_rva, Seq::<Site>::empty()) == relocs,
        linked(relocs, fun_rva, found.push(site)) == linked(relocs, fun_rva, found).insert(
            (fun_rva + site.offset) as usize,
            Reference::Function { rva: site.rva, name: site.name },
        ),
{
    assert(found.push(site).drop_last() =~= found);
}

/// Sites agree with a table where it knows nothing of their places but the
/// functions they lead to.
pub proof fn law_agreeing_tables_know_the_same(
    relocs: Map<usize, Reference>,
    fun_rva: usize,
    found: Seq<Site>,
)
    ensures
        sites_agree(relocs, fun_rva, found) <==> forall|i: int|
            #![trigger found[i]]
            0 <= i < found.len() && relocs.contains_key((fun_rva + found[i].offset) as usize)
                ==> relocs[(fun_rva + found[i].offset) as usize] == (Reference::Function {
                rva: found[i].rva,
                name: found[i].name,
            }),
{
    if sites_agree(relocs, fun_rva, found) {
        assert forall|i: int|
            #![trigger found[i]]
            0 <= i < found.len() && relocs.contains_key(
                (fun_rva + found[i].offset) as usize,
            ) implies relocs[(fun_rva + found[i].offset) as usize] == (Reference::Function {
            rva: found[i].rva,
            name: found[i].name,
        }) by {
            assert(relocs.contains_key(found[i].place(fun_rva)));
        }
    }
}

/// What is known of a place is taken as it is.
pub proof fn law_references_are_taken_as_they_are(kind: RelocKind, site: BranchSite)
    ensures
        kind matches RelocKind::Function { rva, name } ==> kind@ == (Reference::Function {
            rva,
            name: name@,
        }),
        kind matches RelocKind::ConstantString { symbol, data } ==> kind@ == (
        Reference::ConstantString { symbol: symbol@, data: data@ }),
        kind matches RelocKind::Constant { symbol, target_rva } ==> kind@ == (
        Reference::Constant { symbol: symbol@, target_rva }),
        kind matches RelocKind::Static { symbol, target_rva } ==> kind@ == (Reference::Static {
            symbol: symbol@,
            target_rva,
        }),
        site@ == (Site { offset: site.offset as int, rva: site.rva, name: site.name@ }),
{
}

/// Functions go by their decorated names, strings by what they spell, and all
/// else by the symbol it has.
pub proof fn law_names_come_from_what_is_referred_to(reference: Reference)
    ensures
        reference matches Reference::Function { rva, name } ==> reference.link_name() == decorated(
            name,
        ) && reference.name() == name,
        reference matches Reference::ConstantString { symbol, data } ==> reference.link_name()
            == constant_name(symbol, data) && reference.name() == constant_name(symbol, data),
        reference matches Reference::Constant { symbol, target_rva } ==> reference.link_name()
            == symbol && reference.name() == symbol,
        reference matches Reference::Static { symbol, target_rva } ==> reference.link_name()
            == symbol && reference.name() == symbol,
{
}

/// The address of the data that a reference leads to.
pub open spec fn leads_to_data(reference: Reference, rva: usize) -> bool {
    ||| (reference matches Reference::Constant { symbol, target_rva } && target_rva == rva)
    ||| (reference matches Reference::Static { symbol, target_rva } && target_rva == rva)
}

/// A chain starts with its reference. Each further one is what the table says of
/// the data that the one before leads to, and the chain ends only where there
/// is no data, where the table says nothing of it, or where it was visited or
/// followed before. Nothing that was visited is followed, and nothing twice.
pub proof fn law_chains_follow_the_data(
    reference: Reference,
    relocs: Map<usize, Reference>,
    visited: Set<usize>,
)
    requires
        relocs.dom().finite(),
    ensures
        ({
            let chain = reference.chain(relocs, visited);
            let followed = reference.followed(relocs, visited);
            let last = chain[chain.len() - 1];
            &&& chain.len() == followed.len() + 1
            &&& chain[0] == reference
            &&& forall|i: int|
                0 <= i < followed.len() ==> {
                    &&& leads_to_data(chain[i], #[trigger] followed[i])
                    &&& relocs.contains_key(followed[i])
                    &&& chain[i + 1] == relocs[followed[i]]
                    &&& !visited.contains(followed[i])
                }
            &&& forall|i: int, j: int|
                0 <= i < j < followed.len() ==> #[trigger] followed[i] != #[trigger] followed[j]
            &&& forall|rva: usize| #[trigger]
                leads_to_data(last, rva) ==> !relocs.contains_key(rva) || visited.contains(rva)
                    || followed.contains(rva)
        }),
    decreases relocs.dom().difference(visited).len(),
{
    let chain = reference.chain(relocs, visited);
    let followed = reference.followed(relocs, visited);
    match reference.target() {
        Some(rva) => {
            if relocs.contains_key(rva) && !visited.contains(rva) {
                lemma_one_less(relocs.dom(), visited, rva);
                lemma_chain_step(reference, relocs, visited, rva);
                law_chains_follow_the_data(relocs[rva], relocs, visited.insert(rva));
                let rest = relocs[rva].chain(relocs, visited.insert(rva));
                let tail = relocs[rva].followed(relocs, visited.insert(rva));
                assert(chain =~= seq![reference] + rest);
                assert(followed =~= seq![rva] + tail);
                assert forall|i: int| 0 <= i < followed.len() implies {
                    &&& leads_to_data(chain[i], #[trigger] followed[i])
                    &&& relocs.contains_key(followed[i])
                    &&& chain[i + 1] == relocs[followed[i]]
                    &&& !visited.contains(followed[i])
                } by {
                    if i > 0 {
                        assert(followed[i] == tail[i - 1]);
                        assert(chain[i] == rest[i - 1]);
                        assert(chain[i + 1] == rest[i]);
                    } else {
                        assert(chain[1] == rest[0]);
                    }
                }
                assert forall|i: int, j: int| 0 <= i < j < followed.len() implies #[trigger] followed[i]
                    != #[trigger] followed[j] by {
                    assert(followed[j] == tail[j - 1]);
                    if i > 0 {
                        assert(followed[i] == tail[i - 1]);
                    }
                }
                let last = chain[chain.len() - 1];
                assert(last == rest[rest.len() - 1]);
                assert forall|x: usize| #[trigger] leads_to_data(last, x) implies !relocs.contains_key(x)
                    || visited.contains(x) || followed.contains(x) by {
                    if x == rva {
                        assert(followed[0] == rva);
                    }
                    if tail.contains(x) {
                        let k = tail.index_of(x);
                        assert(followed[k + 1] == x);
                    }
                }
            } else {
                assert(followed =~= Seq::<usize>::empty());
                assert(chain =~= seq![reference]);
            }
        },
        None => {
            assert(followed =~= Seq::<usize>::empty());
            assert(chain =~= seq![reference]);
        },
    }
}

/// A chain can be brought along where every string in it has a string's symbol,
/// and all other data lies within the image with four bytes; and only there.
pub proof fn law_placeable_chains_lie_in_the_image(
    reference: Reference,
    relocs: Map<usize, Reference>,
    visited: Set<usize>,
    image_len: nat,
)
    ensures
        reference.is_chain_placeable(relocs, visited, image_len) <==> forall|i: int|
            0 <= i < reference.chain(relocs, visited).len() ==> can_be_brought(
                #[trigger] reference.chain(relocs, visited)[i],
                image_len,
            ),
{
    let chain = reference.chain(relocs, visited);
    assert forall|i: int| 0 <= i < chain.len() implies (#[trigger] chain[i]).is_placeable(image_len)
        == can_be_brought(chain[i], image_len) by {
        lemma_brought_is_placeable(chain[i], image_len);
    }
}

/// Whether what is referred to can be brought along.
pub open spec fn can_be_brought(reference: Reference, image_len: nat) -> bool {
    match reference {
        Reference::Function { rva, name } => true,
        Reference::ConstantString { symbol, data } => symbol.len() >= 7 && (symbol.subrange(0, 7)
            == seq![0x3fu8, 0x3fu8, 0x5fu8, 0x43u8, 0x40u8, 0x5fu8, 0x30u8] || symbol.subrange(
            0,
            7,
        ) == seq![0x3fu8, 0x3fu8, 0x5fu8, 0x43u8, 0x40u8, 0x5fu8, 0x31u8]),
        Reference::Constant { symbol, target_rva } => target_rva + 4 <= image_len,
        Reference::Static { symbol, target_rva } => target_rva + 4 <= image_len,
    }
}

/// What can be brought along is what can be placed.
proof fn lemma_brought_is_placeable(reference: Reference, image_len: nat)
    ensures
        reference.is_placeable(image_len) == can_be_brought(reference, image_len),
{
    if let Reference::ConstantString { symbol, data } = reference {
        crate::laws_of_names::law_string_symbols_start_so(symbol);
    }
}

/// Several sites are taken as they are, each in its place.
pub proof fn law_lists_of_sites_are_taken_as_they_are(found: Seq<BranchSite>, i: int)
    ensures
        site_views(found).len() == found.len(),
        0 <= i < found.len() ==> site_views(found)[i] == found[i]@,
{
}

} // verus!
