//! A spatial hash grid: each entry is filed under the integer cell that
//! holds it, so that the entries near a cell can be found without looking
//! at all of them.
use vstd::prelude::*;
use crate::arena::ElectronId;
use crate::cells::{cell_map_contents, CellMap};

verus! {

broadcast use vstd::seq_lib::lemma_seq_contains_after_push;

/// Integer coordinates of a cubic cell of the grid.
#[derive(Clone, Copy, Debug, PartialEq, Eq, Hash, Structural)]
pub struct ChunkPos {
    pub x: i32,
    pub y: i32,
    pub z: i32,
}

/// The key under which a cell's entries are filed: the three coordinates'
/// bit patterns side by side.
pub open spec fn chunk_key(c: ChunkPos) -> u128 {
    (((c.x as u32) as u128) << 64u128) | (((c.y as u32) as u128) << 32u128) | ((c.z as u32) as u128)
}

proof fn lemma_chunk_key_injective(a: ChunkPos, b: ChunkPos)
    requires
        chunk_key(a) == chunk_key(b),
    ensures
        a == b,
{
    let (ax, ay, az, bx, by, bz) = (a.x, a.y, a.z, b.x, b.y, b.z);
    assert(ax == bx && ay == by && az == bz) by (bit_vector)
        requires
            (((ax as u32) as u128) << 64u128) | (((ay as u32) as u128) << 32u128) | ((
            az as u32) as u128) == (((bx as u32) as u128) << 64u128) | (((by as u32) as u128)
                << 32u128) | ((bz as u32) as u128),
    ;
}

fn key_of(c: ChunkPos) -> (r: u128)
    ensures
        r == chunk_key(c),
{
    (((c.x as u32) as u128) << 64u128) | (((c.y as u32) as u128) << 32u128) | ((c.z as u32) as u128)
}

/// What the grid files of one electron: where it was when the grid was
/// built, and its handle.
#[derive(Clone, Copy, Debug)]
pub struct ElectronRepr<P> {
    pub position: P,
    pub id: ElectronId,
}

/// Whether two cells are equal or touch, by a face, an edge or a corner.
pub open spec fn adjacent(a: ChunkPos, b: ChunkPos) -> bool {
    -1 <= a.x - b.x <= 1 && -1 <= a.y - b.y <= 1 && -1 <= a.z - b.z <= 1
}

/// The grid of one step. Entries are numbered in the order they were
/// filed; each cell keeps the numbers of its entries.
pub struct ElectronChunks<P> {
    items: Vec<(ChunkPos, ElectronRepr<P>)>,
    members: CellMap,
}

impl<P> View for ElectronChunks<P> {
    type V = Seq<(ChunkPos, ElectronRepr<P>)>;

    /// The entries with their cells, in the order they were filed.
    closed spec fn view(&self) -> Seq<(ChunkPos, ElectronRepr<P>)> {
        self.items@
    }
}

impl<P> ElectronChunks<P> {
    /// The numbers of the entries filed under cell `c`.
    pub closed spec fn cell_list(&self, c: ChunkPos) -> Seq<usize> {
        if cell_map_contents(self.members).contains_key(chunk_key(c)) {
            cell_map_contents(self.members)[chunk_key(c)]
        } else {
            Seq::empty()
        }
    }

    /// The cell lists account for the first `m` entries and for no other.
    closed spec fn indexed_upto(&self, m: int) -> bool {
        &&& 0 <= m <= self.items@.len()
        &&& forall|c: ChunkPos, k: int|
            0 <= k < self.cell_list(c).len() ==> #[trigger] self.cell_list(c)[k] < m
                && self.items@[self.cell_list(c)[k] as int].0 == c
        &&& forall|c: ChunkPos| #[trigger] self.cell_list(c).no_duplicates()
        &&& forall|j: usize| j < m ==> #[trigger] self.cell_list(self.items@[j as int].0).contains(j)
    }

    pub closed spec fn wf(&self) -> bool {
        self.indexed_upto(self.items@.len() as int)
    }

    /// An empty grid.
    pub fn new() -> (r: Self)
        ensures
            r.wf(),
            r@ == Seq::<(ChunkPos, ElectronRepr<P>)>::empty(),
    {
        let r = ElectronChunks { items: Vec::new(), members: CellMap::new() };
        assert forall|c: ChunkPos| #[trigger] r.cell_list(c) == Seq::<usize>::empty() by {}
        r
    }

    /// Files entry `j`, which the cell lists do not hold yet, under its cell.
    fn index_entry(&mut self, j: usize)
        requires
            old(self).indexed_upto(j as int),
            j < old(self).items@.len(),
        ensures
            final(self).indexed_upto(j + 1),
            final(self).items == old(self).items,
    {
        let c = self.items[j].0;
        let key = key_of(c);
        let mut list = match self.members.remove(key) {
            Some(v) => v,
            None => Vec::new(),
        };
        proof {
            assert(list@ == old(self).cell_list(c));
        }
        list.push(j);
        self.members.insert(key, list);
        proof {
            assert forall|d: ChunkPos| #[trigger]
                self.cell_list(d) == if d == c {
                    old(self).cell_list(c).push(j)
                } else {
                    old(self).cell_list(d)
                } by {
                if chunk_key(d) == chunk_key(c) {
                    lemma_chunk_key_injective(d, c);
                }
            }
            assert forall|d: ChunkPos| #[trigger] self.cell_list(d).no_duplicates() by {
                if d == c {
                    let l = old(self).cell_list(c);
                    let l2 = l.push(j);
                    assert(l.no_duplicates());
                    assert forall|a: int, b: int|
                        0 <= a < l2.len() && 0 <= b < l2.len() && a != b implies l2[a]
                        != l2[b] by {
                        if a < l.len() {
                            assert(l[a] < j);
                        }
                        if b < l.len() {
                            assert(l[b] < j);
                        }
                    }
                }
            }
            assert forall|i: usize| i < j + 1 implies #[trigger] self.cell_list(
                self.items@[i as int].0,
            ).contains(i) by {
                if i < j {
                    let d = self.items@[i as int].0;
                    let l = old(self).cell_list(d);
                    assert(l.contains(i));
                    let k = choose|k: int| 0 <= k < l.len() && l[k] == i;
                    if d == c {
                        assert(l.push(j)[k] == i);
                    }
                } else {
                    assert(self.cell_list(c).last() == j);
                }
            }
        }
    }

    /// Files one more entry under cell `cell`.
    pub fn insert(&mut self, cell: ChunkPos, repr: ElectronRepr<P>)
        requires
            old(self).wf(),
        ensures
            final(self).wf(),
            final(self)@ == old(self)@.push((cell, repr)),
    {
        let j = self.items.len();
        self.items.push((cell, repr));
        proof {
            assert forall|c: ChunkPos| #[trigger] self.cell_list(c) == old(self).cell_list(c) by {}
            assert forall|c: ChunkPos, k: int|
                0 <= k < self.cell_list(c).len() implies #[trigger] self.cell_list(c)[k] < j
                && self.items@[self.cell_list(c)[k] as int].0 == c by {
                assert(old(self).cell_list(c) == self.cell_list(c));
            }
            assert forall|i: usize| i < j implies #[trigger] self.cell_list(
                self.items@[i as int].0,
            ).contains(i) by {
                assert(self.items@[i as int] == old(self).items@[i as int]);
                assert(old(self).cell_list(old(self).items@[i as int].0).contains(i));
            }
        }
        self.index_entry(j);
    }
}


/// Whether `d` is the `k`-th of the 27 cells around `c`: the offsets run
/// over -1, 0, 1 in each axis, `z` fastest.
pub open spec fn at_offset(c: ChunkPos, k: int, d: ChunkPos) -> bool {
    &&& d.x == c.x + k / 9 - 1
    &&& d.y == c.y + (k % 9) / 3 - 1
    &&& d.z == c.z + (k % 9) % 3 - 1
}

/// The number of cell `d` among the 27 cells around `c`.
pub open spec fn offset_index(c: ChunkPos, d: ChunkPos) -> int {
    (d.x - c.x + 1) * 9 + (d.y - c.y + 1) * 3 + (d.z - c.z + 1)
}

proof fn lemma_offset_round_trip(c: ChunkPos, k: int)
    requires
        0 <= k < 27,
    ensures
        forall|d: ChunkPos|
            at_offset(c, k, d) ==> adjacent(d, c) && offset_index(c, d) == k,
{
}

proof fn lemma_offset_index_range(c: ChunkPos, d: ChunkPos)
    requires
        adjacent(d, c),
    ensures
        0 <= offset_index(c, d) < 27,
{
}

impl<P> ElectronChunks<P> {
    /// Removes every entry.
    pub fn clear(&mut self)
        requires
            old(self).wf(),
        ensures
            final(self).wf(),
            final(self)@ == Seq::<(ChunkPos, ElectronRepr<P>)>::empty(),
    {
        self.items.clear();
        self.members.clear();
        assert forall|c: ChunkPos| #[trigger] self.cell_list(c) == Seq::<usize>::empty() by {}
    }

    /// The number of entries.
    pub fn len(&self) -> (r: usize)
        ensures
            r == self@.len(),
    {
        self.items.len()
    }

    /// Entry `j` with its cell.
    pub fn get(&self, j: usize) -> (r: &(ChunkPos, ElectronRepr<P>))
        requires
            j < self@.len(),
        ensures
            *r == self@[j as int],
    {
        &self.items[j]
    }

    /// The entries filed in the 27 cells around `cell` (the cell itself
    /// included), less entry `exclude`: each number once.
    pub fn neighbors_of(&self, cell: ChunkPos, exclude: Option<usize>) -> (r: Vec<usize>)
        requires
            self.wf(),
        ensures
            r@.no_duplicates(),
            forall|j: usize|
                #[trigger] r@.contains(j) <==> j < self@.len() && adjacent(self@[j as int].0, cell)
                    && exclude != Some(j),
    {
        let mut r: Vec<usize> = Vec::new();
        let n = self.items.len();
        let mut k: i64 = 0;
        while k < 27
            invariant
                self.wf(),
                n == self@.len(),
                0 <= k <= 27,
                r@.no_duplicates(),
                forall|j: usize|
                    #[trigger] r@.contains(j) <==> j < n && adjacent(self@[j as int].0, cell)
                        && exclude != Some(j) && offset_index(cell, self@[j as int].0) < k,
            decreases 27 - k,
        {
            let nx: i64 = cell.x as i64 + k / 9 - 1;
            let ny: i64 = cell.y as i64 + (k % 9) / 3 - 1;
            let nz: i64 = cell.z as i64 + (k % 9) % 3 - 1;
            proof {
                lemma_offset_round_trip(cell, k as int);
                assert forall|j: usize| j < n && adjacent(self@[j as int].0, cell) && offset_index(
                    cell,
                    self@[j as int].0,
                ) == k implies at_offset(cell, k as int, self@[j as int].0) by {}
            }
            if i32::MIN as i64 <= nx && nx <= i32::MAX as i64 && i32::MIN as i64 <= ny && ny
                <= i32::MAX as i64 && i32::MIN as i64 <= nz && nz <= i32::MAX as i64 {
                let d = ChunkPos { x: nx as i32, y: ny as i32, z: nz as i32 };
                match self.members.get(key_of(d)) {
                    Some(list) => {
                        proof {
                            assert(list@ == self.cell_list(d));
                        }
                        self.push_members(&mut r, list, cell, d, exclude, Ghost(k as int));
                    },
                    None => {
                        proof {
                            assert forall|j: usize|
                                j < n && #[trigger] adjacent(self@[j as int].0, cell) && offset_index(
                                    cell,
                                    self@[j as int].0,
                                ) == k implies false by {
                                assert(self@[j as int].0 == d);
                                assert(self.cell_list(d).contains(j));
                            }
                        }
                    },
                }
            }
            k = k + 1;
        }
        proof {
            assert forall|j: usize| j < n && adjacent(self@[j as int].0, cell) implies offset_index(
                cell,
                self@[j as int].0,
            ) < 27 by {
                lemma_offset_index_range(cell, self@[j as int].0);
            }
        }
        r
    }

    /// Appends to `r` the numbers in `list`, the cell list of `d`, which is
    /// the `k`-th cell around `cell`, less `exclude`.
    fn push_members(
        &self,
        r: &mut Vec<usize>,
        list: &Vec<usize>,
        cell: ChunkPos,
        d: ChunkPos,
        exclude: Option<usize>,
        k: Ghost<int>,
    )
        requires
            self.wf(),
            list@ == self.cell_list(d),
            adjacent(d, cell),
            offset_index(cell, d) == k@,
            old(r)@.no_duplicates(),
            forall|j: usize|
                #[trigger] old(r)@.contains(j) <==> j < self@.len() && adjacent(
                    self@[j as int].0,
                    cell,
                ) && exclude != Some(j) && offset_index(cell, self@[j as int].0) < k@,
        ensures
            final(r)@.no_duplicates(),
            forall|j: usize|
                #[trigger] final(r)@.contains(j) <==> j < self@.len() && adjacent(
                    self@[j as int].0,
                    cell,
                ) && exclude != Some(j) && offset_index(cell, self@[j as int].0) <= k@,
    {
        let n = self.items.len();
        let mut t: usize = 0;
        while t < list.len()
            invariant
                self.wf(),
                n == self@.len(),
                list@ == self.cell_list(d),
                adjacent(d, cell),
                offset_index(cell, d) == k@,
                0 <= t <= list@.len(),
                r@.no_duplicates(),
                forall|j: usize|
                    #[trigger] r@.contains(j) <==> j < n && adjacent(self@[j as int].0, cell)
                        && exclude != Some(j) && (offset_index(cell, self@[j as int].0) < k@ || (
                    self@[j as int].0 == d && list@.subrange(0, t as int).contains(j))),
            decreases list@.len() - t,
        {
            let j = list[t];
            proof {
                assert(self.cell_list(d)[t as int] < n);
                assert(self.cell_list(d).no_duplicates());
                let s0 = list@.subrange(0, t as int);
                let s1 = list@.subrange(0, t + 1);
                assert(s1 == s0.push(j));
                assert forall|i: usize| #[trigger] s1.contains(i) <==> s0.contains(i) || i == j by {
                    if s1.contains(i) {
                        let q = choose|q: int| 0 <= q < s1.len() && s1[q] == i;
                        if q < t {
                            assert(s0[q] == i);
                        }
                    }
                    if s0.contains(i) {
                        let q = choose|q: int| 0 <= q < s0.len() && s0[q] == i;
                        assert(s1[q] == i);
                    }
                    if i == j {
                        assert(s1[t as int] == i);
                    }
                }
                assert(!list@.subrange(0, t as int).contains(j)) by {
                    if list@.subrange(0, t as int).contains(j) {
                        let q = choose|q: int|
                            0 <= q < t && list@.subrange(0, t as int)[q] == j;
                        assert(list@[q] == list@[t as int]);
                    }
                }
            }
            proof {
                assert(self.items@[j as int].0 == d);
            }
            if exclude != Some(j) {
                let ghost r0 = r@;
                r.push(j);
                proof {
                    assert(!r0.contains(j));
                    assert(r@ == r0.push(j));
                    assert forall|i: usize| #[trigger] r@.contains(i) <==> r0.contains(i) || i == j by {
                        if r@.contains(i) {
                            let q = choose|q: int| 0 <= q < r@.len() && r@[q] == i;
                            if q < r0.len() {
                                assert(r0[q] == i);
                            }
                        }
                        if r0.contains(i) {
                            let q = choose|q: int| 0 <= q < r0.len() && r0[q] == i;
                            assert(r@[q] == i);
                        }
                        if i == j {
                            assert(r@[r0.len() as int] == i);
                        }
                    }
                }
            }
            t = t + 1;
        }
        proof {
            assert(list@.subrange(0, list@.len() as int) == list@);
            assert forall|j: usize| j < n && self@[j as int].0 == d implies list@.contains(j) by {
                assert(self.cell_list(self@[j as int].0).contains(j));
            }
            assert forall|j: usize| j < n && adjacent(self@[j as int].0, cell) && offset_index(
                cell,
                self@[j as int].0,
            ) == k@ implies self@[j as int].0 == d by {
                lemma_offset_index_injective(cell, self@[j as int].0, d);
            }
        }
    }
}

impl<P> ElectronChunks<P> {
    /// Every unordered pair of entries filed in the same or in touching
    /// cells, once each, the smaller number first.
    pub fn neighbor_pairs(&self) -> (r: Vec<(usize, usize)>)
        requires
            self.wf(),
        ensures
            r@.no_duplicates(),
            forall|p: (usize, usize)|
                #[trigger] r@.contains(p) <==> p.0 < p.1 < self@.len() && adjacent(
                    self@[p.0 as int].0,
                    self@[p.1 as int].0,
                ),
    {
        let mut r: Vec<(usize, usize)> = Vec::new();
        let n = self.items.len();
        let mut i: usize = 0;
        while i < n
            invariant
                self.wf(),
                n == self@.len(),
                i <= n,
                r@.no_duplicates(),
                forall|p: (usize, usize)|
                    #[trigger] r@.contains(p) <==> p.0 < i && p.0 < p.1 < n && adjacent(
                        self@[p.0 as int].0,
                        self@[p.1 as int].0,
                    ),
            decreases n - i,
        {
            let nb = self.neighbors_of(self.items[i].0, Some(i));
            let mut t: usize = 0;
            while t < nb.len()
                invariant
                    self.wf(),
                    n == self@.len(),
                    i < n,
                    t <= nb@.len(),
                    nb@.no_duplicates(),
                    forall|j: usize|
                        #[trigger] nb@.contains(j) <==> j < n && adjacent(
                            self@[j as int].0,
                            self@[i as int].0,
                        ) && j != i,
                    r@.no_duplicates(),
                    forall|p: (usize, usize)|
                        #[trigger] r@.contains(p) <==> (p.0 < i && p.0 < p.1 < n && adjacent(
                            self@[p.0 as int].0,
                            self@[p.1 as int].0,
                        )) || (p.0 == i && p.0 < p.1 && nb@.subrange(0, t as int).contains(p.1)),
                decreases nb@.len() - t,
            {
                let j = nb[t];
                let ghost s0 = nb@.subrange(0, t as int);
                let ghost s1 = nb@.subrange(0, t + 1);
                proof {
                    assert(s1 == s0.push(j));
                    assert(!s0.contains(j)) by {
                        if s0.contains(j) {
                            let q = choose|q: int| 0 <= q < s0.len() && s0[q] == j;
                            assert(nb@[q] == nb@[t as int]);
                        }
                    }
                }
                if j > i {
                    let ghost r0 = r@;
                    r.push((i, j));
                    proof {
                        assert(!r0.contains((i, j)));
                    }
                }
                t = t + 1;
            }
            proof {
                assert(nb@.subrange(0, nb@.len() as int) == nb@);
            }
            i = i + 1;
        }
        r
    }
}

impl<P> ElectronChunks<P> {
    /// The numbers of the entries filed under `cell`, in filing order.
    pub fn entries_in(&self, cell: ChunkPos) -> (r: Vec<usize>)
        requires
            self.wf(),
        ensures
            r@ == self.cell_list(cell),
    {
        match self.members.get(key_of(cell)) {
            Some(list) => list.clone(),
            None => Vec::new(),
        }
    }

    /// After a rebuild each entry is filed under exactly one cell, its own,
    /// and only once there; a cell holds nothing else.
    pub proof fn lemma_each_entry_in_one_cell(&self)
        requires
            self.wf(),
        ensures
            forall|c: ChunkPos, j: usize|
                #[trigger] self.cell_list(c).contains(j) <==> j < self@.len() && self@[j as int].0
                    == c,
            forall|c: ChunkPos| #[trigger] self.cell_list(c).no_duplicates(),
    {
        assert forall|c: ChunkPos, j: usize| #[trigger]
            self.cell_list(c).contains(j) implies j < self@.len() && self@[j as int].0 == c by {
            let k = choose|k: int| 0 <= k < self.cell_list(c).len() && self.cell_list(c)[k] == j;
            assert(self.cell_list(c)[k] < self.items@.len());
        }
        assert forall|c: ChunkPos, j: usize| j < self@.len() && self@[j as int].0 == c implies #[trigger]
            self.cell_list(c).contains(j) by {
            assert(self.cell_list(self.items@[j as int].0).contains(j));
        }
    }
}

proof fn lemma_offset_index_injective(c: ChunkPos, d: ChunkPos, e: ChunkPos)
    requires
        adjacent(d, c),
        adjacent(e, c),
        offset_index(c, d) == offset_index(c, e),
    ensures
        d == e,
{
}

/// Refiles the grid from scratch: afterwards it holds exactly `electrons`,
/// each under the cell given with it.
pub fn update_electron_chunks<P>(
    chunks: &mut ElectronChunks<P>,
    electrons: Vec<(ChunkPos, ElectronRepr<P>)>,
)
    requires
        old(chunks).wf(),
    ensures
        final(chunks).wf(),
        final(chunks)@ == electrons@,
{
    let ghost input = electrons@;
    let mut electrons = electrons;
    chunks.clear();
    proof {
        assert forall|c: ChunkPos| #[trigger] chunks.cell_list(c) =~= Seq::<usize>::empty() by {
            if chunks.cell_list(c).len() > 0 {
                assert(chunks.cell_list(c)[0] < 0);
            }
        }
    }
    let ghost before = *chunks;
    chunks.items.append(&mut electrons);
    proof {
        assert forall|c: ChunkPos| #[trigger] chunks.cell_list(c) =~= Seq::<usize>::empty() by {
            assert(before.cell_list(c) =~= Seq::<usize>::empty());
            assert(chunks.members == before.members);
        }
    }
    let n = chunks.items.len();
    let mut j: usize = 0;
    while j < n
        invariant
            chunks.indexed_upto(j as int),
            n == chunks@.len(),
            chunks@ == input,
            j <= n,
        decreases n - j,
    {
        chunks.index_entry(j);
        j = j + 1;
    }
}

} // verus!
