//! Sets of source paths: the directory that a library's sources share, and the
//! directories below it that hold nothing but one directory.
use crate::bytes::{
    ascii, lowercase, same_bytes, starts_with, text_bytes, to_lowercase, views, BACKSLASH,
};
use vstd::prelude::*;
use vstd::slice::{slice_subrange, slice_to_vec};

verus! {

/// A set of normalised paths.
pub struct PathSet {
    /// The paths, in the order in which they came; none occurs twice.
    paths: Vec<Vec<u8>>,
}

impl View for PathSet {
    type V = Set<Seq<u8>>;

    closed spec fn view(&self) -> Set<Seq<u8>> {
        views(self.paths@).to_set()
    }
}

impl PathSet {
    /// No path is held twice.
    pub closed spec fn wf(&self) -> bool {
        views(self.paths@).no_duplicates()
    }

    /// Makes an empty set.
    pub fn new() -> (r: PathSet)
        ensures
            r.wf(),
            r@ == Set::<Seq<u8>>::empty(),
    {
        let r = PathSet { paths: Vec::new() };
        assert(r@ =~= Set::<Seq<u8>>::empty());
        r
    }

    /// The paths of the set, in the order in which they came.
    pub closed spec fn elements(&self) -> Seq<Seq<u8>> {
        views(self.paths@)
    }

    /// The set holds the paths that are listed, and no others.
    pub proof fn lemma_elements(&self)
        ensures
            self@ == self.elements().to_set(),
    {
    }

    /// Returns how many paths there are.
    pub fn len(&self) -> (r: usize)
        ensures
            r == self.elements().len(),
            self.wf() ==> r == self@.len(),
    {
        proof {
            if self.wf() {
                self.elements().unique_seq_to_set();
            }
        }
        self.paths.len()
    }

    /// Returns the path of a number, counted as they came.
    pub fn get(&self, i: usize) -> (r: &[u8])
        requires
            i < self.elements().len(),
        ensures
            r@ == self.elements()[i as int],
    {
        self.paths[i].as_slice()
    }

    /// Tells whether a path is in the set.
    pub fn contains(&self, path: &[u8]) -> (r: bool)
        ensures
            r == self@.contains(path@),
    {
        let mut i: usize = 0;
        while i < self.paths.len()
            invariant
                i <= self.paths@.len(),
                forall|j: int| 0 <= j < i ==> views(self.paths@)[j] != path@,
            decreases self.paths@.len() - i,
        {
            if same_bytes(self.paths[i].as_slice(), path) {
                assert(views(self.paths@)[i as int] == path@);
                return true;
            }
            i = i + 1;
        }
        false
    }

    /// Puts a path into the set, and tells whether it is new there.
    pub fn insert(&mut self, path: Vec<u8>) -> (r: bool)
        requires
            old(self).wf(),
        ensures
            final(self).wf(),
            final(self)@ == old(self)@.insert(path@),
            r == !old(self)@.contains(path@),
    {
        if self.contains(path.as_slice()) {
            assert(self@.insert(path@) =~= self@);
            return false;
        }
        let ghost before = views(self.paths@);
        self.paths.push(path);
        proof {
            let after = views(self.paths@);
            assert(after =~= before.push(path@));
            assert forall|p: Seq<u8>| after.to_set().contains(p) == before.to_set().insert(
                path@,
            ).contains(p) by {
                if before.contains(p) {
                    let i = choose|i: int| 0 <= i < before.len() && before[i] == p;
                    assert(after[i] == p);
                }
                if p == path@ {
                    assert(after[before.len() as int] == p);
                }
            }
            assert(after.to_set() =~= before.to_set().insert(path@));
            assert forall|i: int, j: int|
                0 <= i < after.len() && 0 <= j < after.len() && i != j implies after[i]
                != after[j] by {
                assert(forall|k: int| 0 <= k < before.len() ==> before.to_set().contains(before[k]));
            }
        }
        true
    }
}

/// Whether a path lies where the system and its compiler are installed.
pub open spec fn is_system_path(path: Seq<u8>) -> bool {
    let l = lowercase(path);
    ||| ascii("c:\\program files"@).is_prefix_of(l)
    ||| ascii("f:\\dd\\vctools"@).is_prefix_of(l)
    ||| ascii("c:\\dd\\vctools"@).is_prefix_of(l)
}

/// Tells whether a path lies where the system and its compiler are installed.
fn lies_in_system(path: &[u8]) -> (r: bool)
    ensures
        r == is_system_path(path@),
{
    proof {
        reveal_strlit("c:\\program files");
        reveal_strlit("f:\\dd\\vctools");
        reveal_strlit("c:\\dd\\vctools");
    }
    let lower = to_lowercase(path);
    starts_with(lower.as_slice(), text_bytes("c:\\program files"))
        || starts_with(lower.as_slice(), text_bytes("f:\\dd\\vctools"))
        || starts_with(lower.as_slice(), text_bytes("c:\\dd\\vctools"))
}

/// The paths that decide where a project lies: those outside the system's
/// directories, or all of them where there are no others.
pub open spec fn deciding_paths(paths: Set<Seq<u8>>) -> Set<Seq<u8>> {
    let project = paths.filter(|p: Seq<u8>| !is_system_path(p));
    if project =~= Set::<Seq<u8>>::empty() {
        paths
    } else {
        project
    }
}

/// Whether `dir` is a directory, written with its last separator, that all of
/// `paths` lie below. The empty path stands for the top.
pub open spec fn is_common_directory(paths: Set<Seq<u8>>, dir: Seq<u8>) -> bool {
    &&& dir.len() > 0 ==> dir.last() == BACKSLASH
    &&& forall|p: Seq<u8>| #[trigger] paths.contains(p) ==> dir.is_prefix_of(p)
}

/// Whether `dir` is the deepest directory that all of `paths` lie below.
pub open spec fn is_deepest_directory(paths: Set<Seq<u8>>, dir: Seq<u8>) -> bool {
    &&& is_common_directory(paths, dir)
    &&& forall|d: Seq<u8>| #[trigger]
        is_common_directory(paths, d) ==> d.len() <= dir.len()
}

/// Whether `root` is where the project lies that `paths` are the sources of:
/// the deepest common directory of the deciding paths, the top where there are
/// none.
pub open spec fn is_project_root(paths: Set<Seq<u8>>, root: Seq<u8>) -> bool {
    let deciding = deciding_paths(paths);
    if deciding =~= Set::<Seq<u8>>::empty() {
        root.len() == 0
    } else {
        is_deepest_directory(deciding, root)
    }
}

/// Where the project lies that `paths` are the sources of.
pub open spec fn project_root(paths: Set<Seq<u8>>) -> Seq<u8> {
    choose|root: Seq<u8>| is_project_root(paths, root)
}

/// A set of paths has no more than one project root.
pub proof fn lemma_project_root_is_unique(paths: Set<Seq<u8>>, a: Seq<u8>, b: Seq<u8>)
    requires
        is_project_root(paths, a),
        is_project_root(paths, b),
    ensures
        a == b,
{
    let deciding = deciding_paths(paths);
    if deciding =~= Set::<Seq<u8>>::empty() {
        assert(a =~= b);
    } else {
        assert(a.len() <= b.len() && b.len() <= a.len());
        let p = choose|p: Seq<u8>| deciding.contains(p);
        assert(deciding.contains(p)) by {
            if forall|q: Seq<u8>| !deciding.contains(q) {
                assert(deciding =~= Set::<Seq<u8>>::empty());
            }
        }
        assert(a =~= p.subrange(0, a.len() as int));
        assert(b =~= p.subrange(0, b.len() as int));
    }
}

/// Finds the deepest directory within the first `limit` bytes of `first` that
/// `path` lies below too, and returns the length of its name.
fn common_directory_len(first: &[u8], path: &[u8], limit: usize) -> (r: usize)
    requires
        limit <= first@.len(),
    ensures
        r <= limit,
        r <= path@.len(),
        first@.take(r as int) == path@.take(r as int),
        r > 0 ==> first@[r - 1] == BACKSLASH,
        forall|s: int|
            r < s <= limit && s <= path@.len() && #[trigger] first@[s - 1] == BACKSLASH
                ==> first@.take(s) != path@.take(s),
{
    let max: usize = if limit <= path.len() { limit } else { path.len() };
    let mut split: usize = 0;
    let mut i: usize = 0;
    assert(first@.take(0) =~= path@.take(0));
    while i < max && first[i] == path[i]
        invariant
            split <= i <= max,
            max <= limit <= first@.len(),
            max <= path@.len(),
            max == limit || max == path@.len(),
            first@.take(i as int) == path@.take(i as int),
            split > 0 ==> first@[split - 1] == BACKSLASH,
            forall|s: int| split < s <= i ==> #[trigger] first@[s - 1] != BACKSLASH,
        decreases max - i,
    {
        if first[i] == BACKSLASH {
            split = i + 1;
        }
        i = i + 1;
        assert(first@.take(i as int) =~= first@.take(i - 1).push(first@[i - 1]));
        assert(path@.take(i as int) =~= path@.take(i - 1).push(path@[i - 1]));
    }
    assert(first@.take(split as int) =~= first@.take(i as int).take(split as int));
    assert(path@.take(split as int) =~= path@.take(i as int).take(split as int));
    assert forall|s: int|
        split < s <= limit && s <= path@.len() && #[trigger] first@[s - 1] == BACKSLASH implies first@.take(
        s,
    ) != path@.take(s) by {
        assert(s > i);
        assert(first@.take(s)[i as int] == first@[i as int]);
        assert(path@.take(s)[i as int] == path@[i as int]);
    }
    split
}

/// Whether `chosen` lists the positions in `all` of the members of `set`.
spec fn lists(all: Seq<Seq<u8>>, chosen: Seq<usize>, set: Set<Seq<u8>>) -> bool {
    &&& forall|k: int| 0 <= k < chosen.len() ==> (#[trigger] chosen[k]) < all.len()
    &&& forall|k: int| 0 <= k < chosen.len() ==> set.contains(all[(#[trigger] chosen[k]) as int])
    &&& forall|p: Seq<u8>| #[trigger]
        set.contains(p) ==> exists|k: int|
            0 <= k < chosen.len() && all[(#[trigger] chosen[k]) as int] == p
}

/// A path of `first` that ends in a separator, and that all the chosen paths
/// start with, is the project root when no longer one is.
proof fn lemma_root_of_chosen(
    paths: Set<Seq<u8>>,
    all: Seq<Seq<u8>>,
    chosen: Seq<usize>,
    end: int,
    k: int,
)
    requires
        lists(all, chosen, deciding_paths(paths)),
        1 <= k <= chosen.len(),
        k == chosen.len() || end == 0,
        0 <= end <= all[chosen[0] as int].len(),
        end > 0 ==> all[chosen[0] as int][end - 1] == BACKSLASH,
        forall|j: int|
            0 <= j < k ==> all[chosen[0] as int].take(end).is_prefix_of(
                all[(#[trigger] chosen[j]) as int],
            ),
        forall|s: int|
            end < s <= all[chosen[0] as int].len() && #[trigger] all[chosen[0] as int][s - 1]
                == BACKSLASH ==> exists|j: int|
                0 <= j < k && !all[chosen[0] as int].take(s).is_prefix_of(
                    all[(#[trigger] chosen[j]) as int],
                ),
    ensures
        is_project_root(paths, all[chosen[0] as int].take(end)),
{
    let deciding = deciding_paths(paths);
    let first = all[chosen[0] as int];
    let root = first.take(end);
    assert(deciding.contains(first));
    assert forall|p: Seq<u8>| #[trigger] deciding.contains(p) implies root.is_prefix_of(p) by {
        let j = choose|j: int| 0 <= j < chosen.len() && all[(#[trigger] chosen[j]) as int] == p;
        if end == 0 {
            assert(root =~= p.subrange(0, 0));
        }
    }
    assert forall|d: Seq<u8>| #[trigger] is_common_directory(deciding, d) implies d.len()
        <= root.len() by {
        let s = d.len() as int;
        assert(d.is_prefix_of(first));
        assert(d =~= first.take(s));
        if s > end {
            assert(first[s - 1] == d[s - 1]);
            let j = choose|j: int|
                0 <= j < k && !first.take(s).is_prefix_of(all[(#[trigger] chosen[j]) as int]);
            assert(deciding.contains(all[chosen[j] as int]));
        }
    }
    assert(is_deepest_directory(deciding, root));
}

/// Finds the directory that the sources of a project share. Paths into the
/// system's own directories have no say in it unless there are no others.
pub fn common_project_root(paths: &PathSet) -> (r: Vec<u8>)
    requires
        paths.wf(),
    ensures
        is_project_root(paths@, r@),
        r@ == project_root(paths@),
{
    let ghost all = views(paths.paths@);
    let n: usize = paths.paths.len();
    let mut chosen: Vec<usize> = Vec::new();
    let mut i: usize = 0;
    while i < n
        invariant
            i <= n == paths.paths@.len(),
            all == views(paths.paths@),
            forall|k: int| 0 <= k < chosen@.len() ==> (#[trigger] chosen@[k]) < i,
            forall|k: int|
                0 <= k < chosen@.len() ==> !is_system_path(all[(#[trigger] chosen@[k]) as int]),
            forall|j: int|
                0 <= j < i && !is_system_path(#[trigger] all[j]) ==> chosen@.contains(j as usize),
        decreases n - i,
    {
        if !lies_in_system(paths.paths[i].as_slice()) {
            let ghost before = chosen@;
            chosen.push(i);
            proof {
                assert(chosen@[before.len() as int] == i);
                assert forall|j: int|
                    0 <= j < i + 1 && !is_system_path(#[trigger] all[j]) implies chosen@.contains(
                    j as usize,
                ) by {
                    if j < i {
                        let k = choose|k: int| 0 <= k < before.len() && before[k] == j as usize;
                        assert(chosen@[k] == j as usize);
                    }
                }
            }
        }
        i = i + 1;
    }
    if chosen.len() == 0 {
        i = 0;
        proof {
            assert(deciding_paths(paths@) =~= paths@) by {
                assert forall|p: Seq<u8>| #[trigger] paths@.contains(p) implies is_system_path(p) by {
                    let j = choose|j: int| 0 <= j < all.len() && all[j] == p;
                    assert(is_system_path(all[j]));
                }
            }
        }
        while i < n
            invariant
                i <= n == paths.paths@.len(),
                chosen@.len() == i,
                forall|k: int| 0 <= k < i ==> (#[trigger] chosen@[k]) == k,
            decreases n - i,
        {
            chosen.push(i);
            i = i + 1;
        }
        proof {
            assert forall|p: Seq<u8>| #[trigger] paths@.contains(p) implies exists|k: int|
                0 <= k < chosen@.len() && all[(#[trigger] chosen@[k]) as int] == p by {
                let j = choose|j: int| 0 <= j < all.len() && all[j] == p;
                assert(chosen@[j] == j);
            }
            assert forall|k: int| 0 <= k < chosen@.len() implies paths@.contains(
                all[(#[trigger] chosen@[k]) as int],
            ) by {
                assert(all.contains(all[chosen@[k] as int]));
            }
        }
    } else {
        proof {
            let project = paths@.filter(|p: Seq<u8>| !is_system_path(p));
            assert forall|k: int| 0 <= k < chosen@.len() implies project.contains(
                all[(#[trigger] chosen@[k]) as int],
            ) by {
                assert(all.contains(all[chosen@[k] as int]));
            }
            assert(project.contains(all[chosen@[0] as int]));
            assert(deciding_paths(paths@) == project);
            assert forall|p: Seq<u8>| #[trigger] project.contains(p) implies exists|k: int|
                0 <= k < chosen@.len() && all[(#[trigger] chosen@[k]) as int] == p by {
                let j = choose|j: int| 0 <= j < all.len() && all[j] == p;
                assert(chosen@.contains(j as usize));
                let k = choose|k: int| 0 <= k < chosen@.len() && chosen@[k] == j as usize;
                assert(all[chosen@[k] as int] == p);
            }
        }
    }
    let ghost deciding = deciding_paths(paths@);
    assert(lists(all, chosen@, deciding));
    if chosen.len() == 0 {
        proof {
            assert(deciding =~= Set::<Seq<u8>>::empty());
            assert(is_project_root(paths@, Seq::<u8>::empty()));
        }
        let empty: Vec<u8> = Vec::new();
        proof {
            assert(empty@ =~= Seq::<u8>::empty());
            lemma_project_root_is_unique(paths@, empty@, project_root(paths@));
        }
        return empty;
    }
    let first: &[u8] = paths.paths[chosen[0]].as_slice();
    let mut end: usize = common_directory_len(first, first, first.len());
    let mut k: usize = 1;
    assert(first@.take(end as int).is_prefix_of(first@));
    while k < chosen.len() && end > 0
        invariant
            1 <= k <= chosen@.len(),
            n == paths.paths@.len(),
            all == views(paths.paths@),
            forall|j: int| 0 <= j < chosen@.len() ==> (#[trigger] chosen@[j]) < n,
            first@ == all[chosen@[0] as int],
            end <= first@.len(),
            end > 0 ==> first@[end - 1] == BACKSLASH,
            forall|j: int|
                0 <= j < k ==> first@.take(end as int).is_prefix_of(
                    all[(#[trigger] chosen@[j]) as int],
                ),
            forall|s: int|
                end < s <= first@.len() && #[trigger] first@[s - 1] == BACKSLASH ==> exists|j: int|
                    0 <= j < k && !first@.take(s).is_prefix_of(all[(#[trigger] chosen@[j]) as int]),
        decreases chosen@.len() - k,
    {
        let path: &[u8] = paths.paths[chosen[k]].as_slice();
        assert(path@ == all[chosen@[k as int] as int]);
        let shorter = common_directory_len(first, path, end);
        proof {
            assert forall|j: int| 0 <= j < k + 1 implies first@.take(shorter as int).is_prefix_of(
                all[(#[trigger] chosen@[j]) as int],
            ) by {
                let p = all[chosen@[j] as int];
                if j < k {
                    assert(first@.take(end as int) =~= p.subrange(0, end as int));
                    assert(first@.take(shorter as int) =~= first@.take(end as int).take(
                        shorter as int,
                    ));
                    assert(first@.take(shorter as int) =~= p.subrange(0, shorter as int));
                } else {
                    assert(first@.take(shorter as int) =~= p.subrange(0, shorter as int));
                }
            }
            assert forall|s: int|
                shorter < s <= first@.len() && #[trigger] first@[s - 1] == BACKSLASH implies exists|
                j: int,
            |
                0 <= j < k + 1 && !first@.take(s).is_prefix_of(
                    all[(#[trigger] chosen@[j]) as int],
                ) by {
                if s <= end {
                    assert(!first@.take(s).is_prefix_of(all[chosen@[k as int] as int])) by {
                        if first@.take(s).is_prefix_of(path@) {
                            assert(first@.take(s) =~= path@.take(s));
                        }
                    }
                } else {
                    let j = choose|j: int|
                        0 <= j < k && !first@.take(s).is_prefix_of(
                            all[(#[trigger] chosen@[j]) as int],
                        );
                    assert(0 <= j < k + 1);
                }
            }
        }
        end = shorter;
        k = k + 1;
    }
    let root = slice_subrange(first, 0, end);
    let r = slice_to_vec(root);
    proof {
        assert(r@ =~= first@.take(end as int));
        lemma_root_of_chosen(paths@, all, chosen@, end as int, k as int);
        lemma_project_root_is_unique(paths@, r@, project_root(paths@));
    }
    r
}

/// The components of a path: what stands between its separators.
pub open spec fn components(path: Seq<u8>) -> Seq<Seq<u8>>
    decreases path.len(),
{
    if path.len() == 0 {
        seq![Seq::<u8>::empty()]
    } else {
        let before = components(path.drop_last());
        if path.last() == BACKSLASH {
            before.push(Seq::<u8>::empty())
        } else {
            before.drop_last().push(before.last().push(path.last()))
        }
    }
}

/// Components with separators between them.
pub open spec fn joined(parts: Seq<Seq<u8>>) -> Seq<u8>
    decreases parts.len(),
{
    if parts.len() == 0 {
        Seq::<u8>::empty()
    } else if parts.len() == 1 {
        parts[0]
    } else {
        joined(parts.drop_last()) + seq![BACKSLASH] + parts.last()
    }
}

/// A path has at least one component.
pub proof fn lemma_components_nonempty(path: Seq<u8>)
    ensures
        components(path).len() >= 1,
    decreases path.len(),
{
    if path.len() > 0 {
        lemma_components_nonempty(path.drop_last());
    }
}

/// Returns the components of a path.
pub fn split_components(path: &[u8]) -> (r: Vec<Vec<u8>>)
    ensures
        views(r@) == components(path@),
        r@.len() >= 1,
{
    let mut done: Vec<Vec<u8>> = Vec::new();
    let mut current: Vec<u8> = Vec::new();
    let mut i: usize = 0;
    proof {
        assert(path@.take(0) =~= Seq::<u8>::empty());
        assert(current@ =~= Seq::<u8>::empty());
        assert(views(done@).push(current@) =~= components(path@.take(0)));
    }
    while i < path.len()
        invariant
            i <= path@.len(),
            views(done@).push(current@) == components(path@.take(i as int)),
        decreases path@.len() - i,
    {
        let b: u8 = path[i];
        let ghost parts = components(path@.take(i as int));
        let ghost done_before = views(done@);
        let ghost current_before = current@;
        proof {
            assert(parts.last() == current@);
            assert(parts.drop_last() =~= views(done@));
            assert(path@.take(i + 1).drop_last() =~= path@.take(i as int));
        }
        if b == BACKSLASH {
            done.push(current);
            current = Vec::new();
            proof {
                assert(views(done@) =~= parts);
                assert(current@ =~= Seq::<u8>::empty());
            }
        } else {
            current.push(b);
        }
        i = i + 1;
        assert(views(done@).push(current@) =~= components(path@.take(i as int)));
    }
    assert(path@.take(i as int) =~= path@);
    let ghost before = views(done@);
    let ghost last = current@;
    done.push(current);
    assert(views(done@) =~= before.push(last));
    done
}

/// Puts separators between the components from `start` on.
pub fn join_components(parts: &Vec<Vec<u8>>, start: usize) -> (r: Vec<u8>)
    requires
        start <= parts@.len(),
    ensures
        r@ == joined(views(parts@).skip(start as int)),
{
    let ghost all = views(parts@).skip(start as int);
    let mut r: Vec<u8> = Vec::new();
    let mut i: usize = start;
    assert(r@ =~= joined(all.take(0)));
    while i < parts.len()
        invariant
            start <= i <= parts@.len(),
            all == views(parts@).skip(start as int),
            r@ == joined(all.take(i - start)),
        decreases parts@.len() - i,
    {
        let ghost before = r@;
        if i > start {
            r.push(BACKSLASH);
        }
        r.extend_from_slice(parts[i].as_slice());
        proof {
            let taken = all.take(i - start + 1);
            assert(taken.drop_last() =~= all.take(i - start));
            assert(taken.last() == parts@[i as int]@);
            if i > start {
                assert(r@ =~= before + seq![BACKSLASH] + parts@[i as int]@);
            } else {
                assert(r@ =~= parts@[i as int]@);
            }
        }
        i = i + 1;
    }
    assert(all.take(i - start) =~= all);
    r
}

/// Whether all of `paths` go through the same `depth` directories first, and go
/// on below the last of them.
pub open spec fn is_chain(paths: Set<Seq<u8>>, depth: nat) -> bool {
    &&& forall|p: Seq<u8>| #[trigger] paths.contains(p) ==> components(p).len() > depth
    &&& forall|p: Seq<u8>, q: Seq<u8>, k: int|
        #![trigger components(p)[k], components(q)[k]]
        paths.contains(p) && paths.contains(q) && 0 <= k < depth ==> components(p)[k]
            == components(q)[k]
}

/// How many directories all of `paths` go through first.
pub open spec fn chain_depth(paths: Set<Seq<u8>>) -> nat {
    choose|depth: nat| #[trigger] is_chain(paths, depth) && !is_chain(paths, depth + 1)
}

/// How many leading directories are dropped from the names of a library's
/// object files: a chain of three or more, or a single one that only repeats
/// the library's own name.
pub open spec fn collapse_depth(lib: Seq<u8>, paths: Set<Seq<u8>>) -> nat {
    let depth = chain_depth(paths);
    if paths =~= Set::<Seq<u8>>::empty() {
        0
    } else if depth >= 3 {
        depth
    } else if depth >= 1 && exists|p: Seq<u8>| #[trigger]
        paths.contains(p) && components(p)[0] == lib {
        1
    } else {
        0
    }
}

/// A set of paths has no more than one chain depth.
pub proof fn lemma_chain_depth_is_unique(paths: Set<Seq<u8>>, a: nat, b: nat)
    requires
        is_chain(paths, a),
        !is_chain(paths, a + 1),
        is_chain(paths, b),
        !is_chain(paths, b + 1),
    ensures
        a == b,
{
    if a < b {
        lemma_shorter_chain(paths, a + 1, b);
    } else if b < a {
        lemma_shorter_chain(paths, b + 1, a);
    }
}

/// The first part of a chain is a chain.
proof fn lemma_shorter_chain(paths: Set<Seq<u8>>, a: nat, b: nat)
    requires
        a <= b,
        is_chain(paths, b),
    ensures
        is_chain(paths, a),
{
}

/// Tells whether all paths share the component at `depth` and go on below it.
fn chain_goes_on(all: &Vec<Vec<Vec<u8>>>, depth: usize) -> (r: bool)
    requires
        all@.len() > 0,
        depth < all@[0]@.len(),
    ensures
        r == (forall|i: int|
            0 <= i < all@.len() ==> (#[trigger] all@[i])@.len() - 1 > depth
                && all@[i]@[depth as int]@ == all@[0]@[depth as int]@),
{
    let mut i: usize = 0;
    while i < all.len()
        invariant
            i <= all@.len(),
            all@.len() > 0,
            depth < all@[0]@.len(),
            forall|j: int|
                0 <= j < i ==> (#[trigger] all@[j])@.len() - 1 > depth
                    && all@[j]@[depth as int]@ == all@[0]@[depth as int]@,
        decreases all@.len() - i,
    {
        if all[i].len() <= depth || all[i].len() - 1 <= depth {
            assert(!(all@[i as int]@.len() - 1 > depth));
            return false;
        }
        if !same_bytes(all[i][depth].as_slice(), all[0][depth].as_slice()) {
            assert(all@[i as int]@[depth as int]@ != all@[0]@[depth as int]@);
            return false;
        }
        i = i + 1;
    }
    true
}

/// Counts the leading directories that hold nothing but one directory, where
/// there are three or more of them; finds the single one that repeats the name
/// of the library otherwise.
pub fn path_chain_depth(lib_name: &[u8], relative_paths: &PathSet) -> (r: usize)
    requires
        relative_paths.wf(),
    ensures
        r == collapse_depth(lib_name@, relative_paths@),
{
    let ghost paths = relative_paths@;
    let ghost listed = views(relative_paths.paths@);
    if relative_paths.paths.len() == 0 {
        assert(paths =~= Set::<Seq<u8>>::empty());
        return 0;
    }
    assert(listed[0] == relative_paths.paths@[0]@);
    assert(paths.contains(listed[0]));
    let mut all: Vec<Vec<Vec<u8>>> = Vec::new();
    let mut i: usize = 0;
    while i < relative_paths.paths.len()
        invariant
            i <= relative_paths.paths@.len(),
            listed == views(relative_paths.paths@),
            all@.len() == i,
            forall|j: int| 0 <= j < i ==> views((#[trigger] all@[j])@) == components(listed[j]),
            forall|j: int| 0 <= j < i ==> (#[trigger] all@[j])@.len() >= 1,
        decreases relative_paths.paths@.len() - i,
    {
        let parts = split_components(relative_paths.paths[i].as_slice());
        assert(listed[i as int] == relative_paths.paths@[i as int]@);
        all.push(parts);
        i = i + 1;
    }
    let mut depth: usize = 0;
    proof {
        assert forall|p: Seq<u8>| #[trigger] paths.contains(p) implies components(p).len() > 0 by {
            lemma_components_nonempty(p);
        }
    }
    while depth < all[0].len() - 1 && chain_goes_on(&all, depth)
        invariant
            paths == relative_paths@,
            listed == views(relative_paths.paths@),
            paths == listed.to_set(),
            all@.len() == listed.len(),
            all@.len() > 0,
            forall|j: int|
                0 <= j < all@.len() ==> views((#[trigger] all@[j])@) == components(listed[j]),
            depth < all@[0]@.len(),
            is_chain(paths, depth as nat),
        decreases all@[0]@.len() - depth,
    {
        proof {
            assert forall|p: Seq<u8>| #[trigger] paths.contains(p) implies components(p).len() > depth
                + 1 by {
                let j = choose|j: int| 0 <= j < listed.len() && listed[j] == p;
                assert(all@[j]@.len() - 1 > depth);
                assert(components(p).len() == views(all@[j]@).len());
            }
            assert forall|p: Seq<u8>, q: Seq<u8>, k: int|
                #![trigger components(p)[k], components(q)[k]]
                paths.contains(p) && paths.contains(q) && 0 <= k < depth + 1 implies components(
                p,
            )[k] == components(q)[k] by {
                if k == depth {
                    let i = choose|i: int| 0 <= i < listed.len() && listed[i] == p;
                    let j = choose|j: int| 0 <= j < listed.len() && listed[j] == q;
                    assert(all@[i]@[depth as int]@ == all@[0]@[depth as int]@);
                    assert(all@[j]@[depth as int]@ == all@[0]@[depth as int]@);
                    assert(components(p)[k] == views(all@[i]@)[k]);
                    assert(components(q)[k] == views(all@[j]@)[k]);
                }
            }
        }
        depth = depth + 1;
    }
    proof {
        if is_chain(paths, (depth + 1) as nat) {
            assert(paths.contains(listed[0]));
            assert(components(listed[0]).len() == all@[0]@.len());
            assert forall|i: int| 0 <= i < all@.len() implies (#[trigger] all@[i])@.len() - 1 > depth
                && all@[i]@[depth as int]@ == all@[0]@[depth as int]@ by {
                assert(listed.contains(listed[i]));
                assert(paths.contains(listed[i]));
                assert(components(listed[i]).len() == all@[i]@.len());
                assert(components(listed[i])[depth as int] == views(all@[i]@)[depth as int]);
                assert(components(listed[0])[depth as int] == views(all@[0]@)[depth as int]);
                assert(components(listed[i])[depth as int] == components(
                    listed[0],
                )[depth as int]);
            }
        }
        lemma_chain_depth_is_unique(paths, depth as nat, chain_depth(paths));
    }
    let repeats = depth >= 1 && same_bytes(all[0][0].as_slice(), lib_name);
    proof {
        assert(components(listed[0])[0] == views(all@[0]@)[0]);
        if depth >= 1 {
            assert forall|p: Seq<u8>| #[trigger] paths.contains(p) implies components(p)[0]
                == components(listed[0])[0] by {
                assert(paths.contains(listed[0]));
            }
        }
    }
    if depth >= 3 {
        depth
    } else if repeats {
        assert(paths.contains(listed[0]) && components(listed[0])[0] == lib_name@);
        1
    } else {
        0
    }
}

/// Where a path is among others, there is a deepest directory that they share.
proof fn lemma_deepest_directory(paths: Set<Seq<u8>>, path: Seq<u8>, dir: Seq<u8>)
    requires
        paths.contains(path),
        is_common_directory(paths, dir),
    ensures
        exists|d: Seq<u8>| is_deepest_directory(paths, d),
    decreases path.len() - dir.len(),
{
    if !is_deepest_directory(paths, dir) {
        let deeper = choose|d: Seq<u8>| #[trigger]
            is_common_directory(paths, d) && d.len() > dir.len();
        assert(deeper.is_prefix_of(path));
        lemma_deepest_directory(paths, path, deeper);
    }
}

/// Every set of paths has a project root.
pub proof fn law_project_root_exists(paths: Set<Seq<u8>>)
    ensures
        is_project_root(paths, project_root(paths)),
{
    let deciding = deciding_paths(paths);
    let top = Seq::<u8>::empty();
    if deciding =~= Set::<Seq<u8>>::empty() {
        assert(is_project_root(paths, top));
    } else {
        let path = choose|p: Seq<u8>| deciding.contains(p);
        assert(deciding.contains(path)) by {
            if forall|p: Seq<u8>| !deciding.contains(p) {
                assert(deciding =~= Set::<Seq<u8>>::empty());
            }
        }
        assert forall|p: Seq<u8>| #[trigger] deciding.contains(p) implies top.is_prefix_of(p) by {
            assert(p.subrange(0, 0) =~= top);
        }
        assert(is_common_directory(deciding, top));
        lemma_deepest_directory(deciding, path, top);
        let dir = choose|d: Seq<u8>| is_deepest_directory(deciding, d);
        assert(is_project_root(paths, dir));
    }
}

/// The project's root is a directory, written with its last separator, or the top.
pub proof fn law_root_is_a_directory(paths: Set<Seq<u8>>)
    ensures
        project_root(paths).len() > 0 ==> project_root(paths).last() == BACKSLASH,
{
    law_project_root_exists(paths);
}

/// Every path that has a say lies below the project's root.
pub proof fn law_root_leads_to_every_source(paths: Set<Seq<u8>>, root: Seq<u8>, path: Seq<u8>)
    requires
        is_project_root(paths, root),
        deciding_paths(paths).contains(path),
    ensures
        root.is_prefix_of(path),
{
}

/// Where a chain can be found, there is a longest one.
proof fn lemma_longest_chain(paths: Set<Seq<u8>>, path: Seq<u8>, depth: nat)
    requires
        paths.contains(path),
        is_chain(paths, depth),
    ensures
        exists|d: nat| #[trigger] is_chain(paths, d) && !is_chain(paths, d + 1),
    decreases components(path).len() - depth,
{
    if is_chain(paths, depth + 1) {
        lemma_longest_chain(paths, path, depth + 1);
    }
}

/// Paths, if there are any, go through some number of directories first, and
/// not through one more.
pub proof fn law_chain_depth_exists(paths: Set<Seq<u8>>, path: Seq<u8>)
    requires
        paths.contains(path),
    ensures
        is_chain(paths, chain_depth(paths)),
        !is_chain(paths, chain_depth(paths) + 1),
{
    assert forall|p: Seq<u8>| #[trigger] paths.contains(p) implies components(p).len() > 0 by {
        lemma_components_nonempty(p);
    }
    assert(is_chain(paths, 0));
    lemma_longest_chain(paths, path, 0);
}

/// However many directories are dropped, the file name of every path stays.
pub proof fn law_collapsing_keeps_file_names(lib: Seq<u8>, paths: Set<Seq<u8>>, path: Seq<u8>)
    requires
        paths.contains(path),
    ensures
        collapse_depth(lib, paths) < components(path).len(),
{
    law_chain_depth_exists(paths, path);
}

} // verus!
