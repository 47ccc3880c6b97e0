use std::collections::HashMap;
use vstd::prelude::*;

use crate::cells::{children_count, children_count_of, parent_at, parent_cell, raw_is_cell, COARSE_RES, FINE_RES};
use crate::grid::GridError;

verus! {

broadcast use vstd::std_specs::hash::group_hash_axioms;

/// The fine cell map: each fine cell that a retained grid cell covers, with
/// the slot of the value it took (the slot of the last grid cell written).
/// `keys` lists the map's cells once each, in the order they first came.
pub struct FineMap {
    pub values: HashMap<u64, u64>,
    pub keys: Vec<u64>,
}

impl View for FineMap {
    type V = Map<u64, u64>;

    open spec fn view(&self) -> Map<u64, u64> {
        self.values@
    }
}

/// The map that `cells`, all written with `slot`, make.
pub open spec fn cells_with(cells: Seq<u64>, slot: u64) -> Map<u64, u64> {
    Map::new(|k: u64| cells.contains(k), |k: u64| slot)
}

proof fn lemma_push_contains(s: Seq<u64>, x: u64)
    ensures
        forall|k: u64| #[trigger] s.push(x).contains(k) <==> s.contains(k) || k == x,
{
    assert forall|k: u64| #[trigger] s.push(x).contains(k) <==> s.contains(k) || k == x by {
        if s.contains(k) {
            let j = choose|j: int| 0 <= j < s.len() && s[j] == k;
            assert(s.push(x)[j] == k);
        }
        if k == x {
            assert(s.push(x)[s.len() as int] == x);
        }
        if s.push(x).contains(k) {
            let j = choose|j: int| 0 <= j < s.len() + 1 && s.push(x)[j] == k;
            if j < s.len() {
                assert(s[j] == k);
            }
        }
    }
}

impl FineMap {
    pub open spec fn wf(&self) -> bool {
        &&& self.keys@.no_duplicates()
        &&& forall|k: u64| self.keys@.contains(k) <==> self.values@.contains_key(k)
    }

    /// An empty map.
    pub fn new() -> (r: FineMap)
        ensures
            r.wf(),
            r@ == Map::<u64, u64>::empty(),
    {
        let r = FineMap { values: HashMap::new(), keys: Vec::new() };
        assert(r@ =~= Map::<u64, u64>::empty());
        r
    }

    /// Writes `slot` for every cell of `cells`; a later write to a cell
    /// replaces an earlier one.
    pub fn insert_cells(&mut self, cells: &Vec<u64>, slot: u64)
        requires
            old(self).wf(),
        ensures
            final(self).wf(),
            final(self)@ == old(self)@.union_prefer_right(cells_with(cells@, slot)),
    {
        let ghost start = self@;
        let mut i: usize = 0;
        assert(start.union_prefer_right(cells_with(cells@.take(0), slot)) =~= start);
        while i < cells.len()
            invariant
                self.wf(),
                i <= cells.len(),
                self@ == start.union_prefer_right(cells_with(cells@.take(i as int), slot)),
            decreases cells.len() - i,
        {
            let c = cells[i];
            let ghost before = self@;
            let ghost keys_before = self.keys@;
            let present = self.values.contains_key(&c);
            if !present {
                assert(!keys_before.contains(c));
                self.keys.push(c);
                proof { lemma_push_contains(keys_before, c); }
                assert forall|a: int, b: int|
                    0 <= a < b < self.keys@.len() implies self.keys@[a] != self.keys@[b] by {
                    if b == keys_before.len() {
                        assert(keys_before[a] == self.keys@[a]);
                    }
                }
            }
            self.values.insert(c, slot);
            assert(forall|k: u64| self.keys@.contains(k) <==> (keys_before.contains(k) || k == c));
            assert(self@ == before.insert(c, slot));
            assert(cells@.take(i + 1) =~= cells@.take(i as int).push(c));
            proof { lemma_push_contains(cells@.take(i as int), c); }
            assert(self@ =~= start.union_prefer_right(cells_with(cells@.take(i + 1), slot)));
            i = i + 1;
        }
        assert(cells@.take(i as int) =~= cells@);
    }

    /// The slot written last for `cell`, if any.
    pub fn get(&self, cell: u64) -> (r: Option<u64>)
        requires
            self.wf(),
        ensures
            r == (if self@.contains_key(cell) { Some(self@[cell]) } else { None::<u64> }),
    {
        match self.values.get(&cell) {
            Some(v) => Some(*v),
            None => None,
        }
    }

    /// The number of fine cells in the map.
    pub fn len(&self) -> (r: usize)
        requires
            self.wf(),
        ensures
            r == self@.dom().len(),
    {
        proof {
            self.keys@.unique_seq_to_set();
            assert(self.keys@.to_set() =~= self@.dom());
        }
        self.keys.len()
    }
}

/// A fine cell that can be rolled up: a cell index with an ancestor at the
/// coarse resolution, whose fine descendants can be counted.
pub open spec fn fine_key_ok(k: u64) -> bool {
    &&& raw_is_cell(k)
    &&& parent_at(k, COARSE_RES) is Some
    &&& children_count_of(parent_at(k, COARSE_RES)->0, FINE_RES) is Some
}

/// The coarse ancestor of a fine cell.
pub open spec fn ancestor(k: u64) -> u64 {
    parent_at(k, COARSE_RES)->0
}

/// One coarse cell of the output: the fine cells of the map under it, and
/// the number of all its fine descendants, present or not. Its value is the
/// sum of its members' values divided by `children`.
pub struct Group {
    pub cell: u64,
    pub members: Vec<u64>,
    pub children: u64,
}

/// `gs` holds one group for each ancestor of a cell of `s` and no other, each
/// with exactly the cells of `s` under it, once each.
pub open spec fn groups_exact(s: Set<u64>, gs: Seq<Group>) -> bool {
    &&& forall|a: int, b: int| 0 <= a < b < gs.len() ==> gs[a].cell != gs[b].cell
    &&& forall|k: u64| #[trigger] s.contains(k) ==> exists|j: int| 0 <= j < gs.len() && gs[j].cell == ancestor(k)
    &&& forall|j: int, k: u64|
        0 <= j < gs.len() ==> (#[trigger] gs[j].members@.contains(k) <==> s.contains(k) && ancestor(k)
            == gs[j].cell)
    &&& forall|j: int| 0 <= j < gs.len() ==> #[trigger] gs[j].members@.no_duplicates()
    &&& forall|j: int| 0 <= j < gs.len() ==> #[trigger] gs[j].members@.len() > 0
    &&& forall|j: int|
        0 <= j < gs.len() ==> Some(#[trigger] gs[j].children) == children_count_of(gs[j].cell, FINE_RES)
}

/// Groups the cells of the fine map under their coarse ancestors, one group
/// per ancestor, each ancestor reached once. Fails when a cell cannot be
/// rolled up.
pub fn group_by_ancestor(fine: &FineMap) -> (r: Result<Vec<Group>, GridError>)
    requires
        fine.wf(),
    ensures
        r is Ok <==> (forall|k: u64| fine@.contains_key(k) ==> fine_key_ok(k)),
        r is Err ==> r == Err::<Vec<Group>, GridError>(GridError::Tessellation),
        r is Ok ==> groups_exact(fine@.dom(), r->Ok_0@),
{
    let mut groups: Vec<Group> = Vec::new();
    let mut slot_of: HashMap<u64, usize> = HashMap::new();
    let mut i: usize = 0;
    while i < fine.keys.len()
        invariant
            fine.wf(),
            i <= fine.keys.len(),
            forall|m: int| 0 <= m < i ==> fine_key_ok(#[trigger] fine.keys@[m]),
            forall|c: u64|
                #[trigger] slot_of@.contains_key(c) ==> slot_of@[c] < groups@.len() && groups@[slot_of@[c] as int].cell == c,
            forall|j: int|
                0 <= j < groups@.len() ==> slot_of@.contains_key(#[trigger] groups@[j].cell) && slot_of@[groups@[j].cell] == j,
            forall|j: int| 0 <= j < groups@.len() ==> #[trigger] groups@[j].members@.no_duplicates(),
            forall|j: int| 0 <= j < groups@.len() ==> #[trigger] groups@[j].members@.len() > 0,
            forall|j: int|
                0 <= j < groups@.len() ==> Some(#[trigger] groups@[j].children) == children_count_of(
                    groups@[j].cell,
                    FINE_RES,
                ),
            forall|j: int, k: u64|
                0 <= j < groups@.len() ==> (#[trigger] groups@[j].members@.contains(k) <==> fine.keys@.take(
                    i as int,
                ).contains(k) && ancestor(k) == groups@[j].cell),
            forall|m: int| 0 <= m < i ==> slot_of@.contains_key(ancestor(#[trigger] fine.keys@[m])),
        decreases fine.keys.len() - i,
    {
        let k = fine.keys[i];
        assert(fine@.contains_key(k)) by {
            assert(fine.keys@.contains(k));
        }
        let p = match parent_cell(k, COARSE_RES) {
            Some(p) => p,
            None => {
                assert(fine@.contains_key(k) && !fine_key_ok(k));
                return Err(GridError::Tessellation);
            },
        };
        let ghost prefix = fine.keys@.take(i as int);
        proof {
            assert(fine.keys@.take(i + 1) =~= prefix.push(k));
            lemma_push_contains(prefix, k);
            assert(!prefix.contains(k)) by {
                if prefix.contains(k) {
                    let m = choose|m: int| 0 <= m < prefix.len() && prefix[m] == k;
                    assert(fine.keys@[m] == fine.keys@[i as int]);
                }
            }
        }
        let ghost old_groups = groups@;
        match slot_of.get(&p) {
            Some(jr) => {
                let j = *jr;
                let ghost old_members = groups@[j as int].members@;
                groups[j].members.push(k);
                proof {
                    assert(!old_members.contains(k));
                    lemma_push_contains(old_members, k);
                    assert(groups@[j as int].members@ == old_members.push(k));
                    assert forall|a: int, b: int|
                        0 <= a < b < groups@[j as int].members@.len() implies groups@[j as int].members@[a]
                            != groups@[j as int].members@[b] by {
                        assert(old_members.no_duplicates());
                        if b < old_members.len() {
                            assert(old_members[a] == groups@[j as int].members@[a]);
                            assert(old_members[b] == groups@[j as int].members@[b]);
                        } else {
                            assert(old_members[a] == groups@[j as int].members@[a]);
                            assert(old_members.contains(old_members[a]));
                            assert(groups@[j as int].members@[b] == k);
                        }
                    }
                    assert forall|q: int| 0 <= q < groups@.len() && q != j implies groups@[q] == old_groups[q] by {}
                }
            },
            None => {
                let n = match children_count(p, FINE_RES) {
                    Some(n) => n,
                    None => {
                        assert(fine@.contains_key(k) && !fine_key_ok(k));
                        return Err(GridError::Tessellation);
                    },
                };
                let mut members: Vec<u64> = Vec::new();
                members.push(k);
                proof {
                    lemma_push_contains(Seq::<u64>::empty(), k);
                    assert(members@ == Seq::<u64>::empty().push(k));
                }
                let idx = groups.len();
                groups.push(Group { cell: p, members, children: n });
                slot_of.insert(p, idx);
                proof {
                    assert forall|q: int| 0 <= q < old_groups.len() implies groups@[q] == old_groups[q] by {}
                }
            },
        }
        i = i + 1;
    }
    proof {
        assert(fine.keys@.take(i as int) =~= fine.keys@);
        assert forall|k: u64| #[trigger] fine@.dom().contains(k) implies fine_key_ok(k) && exists|j: int|
            0 <= j < groups@.len() && groups@[j].cell == ancestor(k) by {
            assert(fine.keys@.contains(k));
            let m = choose|m: int| 0 <= m < fine.keys@.len() && fine.keys@[m] == k;
            assert(fine_key_ok(fine.keys@[m]));
            assert(slot_of@.contains_key(ancestor(fine.keys@[m])));
            let j = slot_of@[ancestor(k)] as int;
            assert(groups@[j].cell == ancestor(k));
        }
        assert forall|j: int, k: u64|
            0 <= j < groups@.len() implies (#[trigger] groups@[j].members@.contains(k) <==> fine@.dom().contains(k)
                && ancestor(k) == groups@[j].cell) by {
            assert(fine.keys@.contains(k) == fine@.dom().contains(k));
        }
        assert forall|a: int, b: int| 0 <= a < b < groups@.len() implies groups@[a].cell != groups@[b].cell by {
            assert(slot_of@[groups@[a].cell] == a);
        }
    }
    Ok(groups)
}

/// The value of a coarse cell from the sum of its members' values,
/// truncated toward zero, and the number of all its fine descendants:
/// the mean over every descendant, absent ones counting as zero, truncated
/// toward zero. A sum of non-negative values gives the same mean whether it
/// is truncated before the division or after. It fails where the mean does
/// not fit in sixteen bits, or where there are no descendants to divide by.
pub open spec fn coarse_spec(sum: u64, children: u64) -> Result<u16, GridError> {
    if children == 0 {
        Err(GridError::Tessellation)
    } else if sum / children > u16::MAX {
        Err(GridError::Narrowing)
    } else {
        Ok((sum / children) as u16)
    }
}

/// The value of one coarse cell; see `coarse_spec`.
pub fn coarse_value(sum: u64, children: u64) -> (r: Result<u16, GridError>)
    ensures
        r == coarse_spec(sum, children),
{
    if children == 0 {
        return Err(GridError::Tessellation);
    }
    let mean = sum / children;
    if mean > u16::MAX as u64 {
        Err(GridError::Narrowing)
    } else {
        Ok(mean as u16)
    }
}

/// The output cells: each group's coarse cell with the value that
/// `sums[j]`, the truncated sum of group `j`'s member values, gives it. One
/// group that fails fails the whole output, with the error of the first
/// such group.
pub fn coarse_cells(groups: &Vec<Group>, sums: &Vec<u64>) -> (r: Result<Vec<(u64, u16)>, GridError>)
    requires
        sums@.len() == groups@.len(),
    ensures
        r is Ok <==> forall|j: int| 0 <= j < groups@.len() ==> (#[trigger] coarse_spec(sums@[j], groups@[j].children)) is Ok,
        r is Ok ==> r->Ok_0@.len() == groups@.len() && forall|j: int|
            0 <= j < groups@.len() ==> #[trigger] r->Ok_0@[j] == (
                groups@[j].cell,
                coarse_spec(sums@[j], groups@[j].children)->Ok_0,
            ),
        r is Err ==> exists|j: int|
            0 <= j < groups@.len() && Err::<u16, GridError>(r->Err_0) == #[trigger] coarse_spec(sums@[j], groups@[j].children)
                && forall|q: int| 0 <= q < j ==> (#[trigger] coarse_spec(sums@[q], groups@[q].children)) is Ok,
{
    let mut out: Vec<(u64, u16)> = Vec::new();
    let mut j: usize = 0;
    while j < groups.len()
        invariant
            sums@.len() == groups@.len(),
            j <= groups@.len(),
            out@.len() == j,
            forall|q: int| 0 <= q < j ==> (#[trigger] coarse_spec(sums@[q], groups@[q].children)) is Ok,
            forall|q: int|
                0 <= q < j ==> #[trigger] out@[q] == (
                    groups@[q].cell,
                    coarse_spec(sums@[q], groups@[q].children)->Ok_0,
                ),
        decreases groups@.len() - j,
    {
        match coarse_value(sums[j], groups[j].children) {
            Ok(v) => {
                out.push((groups[j].cell, v));
            },
            Err(e) => {
                return Err(e);
            },
        }
        j = j + 1;
    }
    Ok(out)
}

/// For each ancestor of a cell of `s`, the cells of `s` under it.
pub open spec fn grouping_of(s: Set<u64>) -> Map<u64, Set<u64>> {
    Map::new(
        |c: u64| exists|k: u64| s.contains(k) && ancestor(k) == c,
        |c: u64| s.filter(|k: u64| ancestor(k) == c),
    )
}

/// The groups of `gs` as a map from coarse cell to its members.
pub open spec fn group_view(gs: Seq<Group>) -> Map<u64, Set<u64>> {
    Map::new(
        |c: u64| exists|j: int| 0 <= j < gs.len() && gs[j].cell == c,
        |c: u64| gs[choose|j: int| 0 <= j < gs.len() && gs[j].cell == c].members@.to_set(),
    )
}

/// Grouping depends on the set of fine cells alone, not on the order in
/// which they are visited: every exact grouping of `s` maps each coarse cell
/// to the same members, and its coarse cells are exactly the ancestors of
/// the cells of `s`, no more and no fewer.
pub proof fn law_grouping_is_order_free(s: Set<u64>, gs: Seq<Group>)
    requires
        groups_exact(s, gs),
    ensures
        group_view(gs) == grouping_of(s),
        group_view(gs).dom() == s.map(|k: u64| ancestor(k)),
{
    let v = group_view(gs);
    let g = grouping_of(s);
    assert forall|c: u64| v.contains_key(c) <==> g.contains_key(c) by {
        if v.contains_key(c) {
            let j = choose|j: int| 0 <= j < gs.len() && gs[j].cell == c;
            let k = gs[j].members@[0];
            assert(gs[j].members@.contains(k));
        }
        if g.contains_key(c) {
            let k = choose|k: u64| s.contains(k) && ancestor(k) == c;
            assert(s.contains(k));
        }
    }
    assert forall|c: u64| #[trigger] v.contains_key(c) implies v[c] == g[c] by {
        let j = choose|j: int| 0 <= j < gs.len() && gs[j].cell == c;
        assert(v[c] =~= g[c]) by {
            assert forall|k: u64| v[c].contains(k) <==> g[c].contains(k) by {
                assert(gs[j].members@.contains(k) <==> gs[j].members@.to_set().contains(k));
            }
        }
    }
    assert(v =~= g);
    assert(v.dom() =~= s.map(|k: u64| ancestor(k))) by {
        assert forall|c: u64| v.dom().contains(c) <==> s.map(|k: u64| ancestor(k)).contains(c) by {
            if s.map(|k: u64| ancestor(k)).contains(c) {
                let k = choose|k: u64| s.contains(k) && ancestor(k) == c;
                assert(g.contains_key(c));
            }
            if v.dom().contains(c) {
                assert(g.contains_key(c));
                let k = choose|k: u64| s.contains(k) && ancestor(k) == c;
                assert(s.map(|k: u64| ancestor(k)).contains(ancestor(k)));
            }
        }
    }
}

/// A footprint whose fine cells all lie under one coarse cell `c` rolls up
/// into exactly one group, for `c`, holding every one of those fine cells.
pub proof fn law_single_footprint(s: Set<u64>, gs: Seq<Group>, c: u64)
    requires
        groups_exact(s, gs),
        s.finite(),
        s.len() > 0,
        forall|k: u64| #[trigger] s.contains(k) ==> ancestor(k) == c,
    ensures
        gs.len() == 1,
        gs[0].cell == c,
        gs[0].members@.len() == s.len(),
{
    let k0 = s.choose();
    assert(s.contains(k0));
    let j0 = choose|j: int| 0 <= j < gs.len() && gs[j].cell == ancestor(k0);
    assert forall|j: int| 0 <= j < gs.len() implies gs[j].cell == c by {
        let k = gs[j].members@[0];
        assert(gs[j].members@.contains(k));
    }
    if gs.len() > 1 {
        assert(gs[0].cell == c && gs[1].cell == c);
    }
    assert(gs[0].members@.to_set() =~= s) by {
        assert forall|k: u64| gs[0].members@.to_set().contains(k) <==> s.contains(k) by {
            assert(gs[0].members@.contains(k) <==> gs[0].members@.to_set().contains(k));
        }
    }
    gs[0].members@.unique_seq_to_set();
}

} // verus!
