//! Memory of cells, each reached by its address and holding its neighbor
//! words, and the list manipulations that relink neighboring cells in it.
use vstd::prelude::*;
use vstd::hash_map::HashMapWithView;
use crate::neighbors::{
    addr_of, is_aligned, retarget, tag_of, HasNeighbors, NeighborWords, Neighbors,
};

verus! {

broadcast use vstd::std_specs::hash::group_hash_axioms;

/// The neighbor words `w` with the next address replaced by `addr`, tag bits kept.
pub open spec fn with_next(w: NeighborWords, addr: usize) -> NeighborWords {
    NeighborWords { next: retarget(w.next, addr), prev: w.prev }
}

/// The neighbor words `w` with the previous address replaced by `addr`, tag bits kept.
pub open spec fn with_prev(w: NeighborWords, addr: usize) -> NeighborWords {
    NeighborWords { next: w.next, prev: retarget(w.prev, addr) }
}

/// The neighbor words `w` with both addresses null, tag bits kept.
pub open spec fn detached(w: NeighborWords) -> NeighborWords {
    NeighborWords { next: retarget(w.next, 0), prev: retarget(w.prev, 0) }
}

/// What removing the cell at `me` does to memory `m`: the next neighbor (when
/// the cell type follows it) takes over `me`'s previous address, the previous
/// neighbor (when followed) takes over `me`'s next address, and `me` is left
/// with null addresses. Tag bits stay everywhere.
pub open spec fn removed<T: HasNeighbors>(
    m: Map<usize, NeighborWords>,
    me: usize,
) -> Map<usize, NeighborWords> {
    let c = m[me];
    let n = addr_of(c.next);
    let p = addr_of(c.prev);
    let m1 = if T::follows_next(c, n) {
        m.insert(n, with_prev(m[n], p))
    } else {
        m
    };
    let m2 = if T::follows_prev(c, p) {
        m1.insert(p, with_next(m1[p], n))
    } else {
        m1
    };
    m2.insert(me, detached(c))
}

/// When removing the cell at `me` from `m` reads only cells that are in `m`.
pub open spec fn can_remove<T: HasNeighbors>(m: Map<usize, NeighborWords>, me: usize) -> bool {
    &&& m.contains_key(me)
    &&& T::follows_next(m[me], addr_of(m[me].next)) ==> m.contains_key(addr_of(m[me].next))
    &&& T::follows_prev(m[me], addr_of(m[me].prev)) ==> m.contains_key(addr_of(m[me].prev))
}

/// What appending the cell at `nb` right after the cell at `me` does to memory
/// `m`: `nb` takes `me`'s next address, the old next neighbor (when the cell
/// type follows it) points back at `nb`, `nb` points back at `me`, and `me`
/// points on to `nb`. Tag bits stay everywhere.
pub open spec fn appended<T: HasNeighbors>(
    m: Map<usize, NeighborWords>,
    me: usize,
    nb: usize,
) -> Map<usize, NeighborWords> {
    let c = m[me];
    let n = addr_of(c.next);
    let m1 = m.insert(nb, with_next(m[nb], n));
    let m2 = if T::follows_next(c, n) {
        m1.insert(n, with_prev(m1[n], nb))
    } else {
        m1
    };
    let m3 = m2.insert(nb, with_prev(m2[nb], me));
    m3.insert(me, with_next(m3[me], nb))
}

/// When appending the cell at `nb` after the cell at `me` in `m` reads only
/// cells that are in `m` and writes only aligned addresses.
pub open spec fn can_append<T: HasNeighbors>(
    m: Map<usize, NeighborWords>,
    me: usize,
    nb: usize,
) -> bool {
    &&& m.contains_key(me)
    &&& m.contains_key(nb)
    &&& is_aligned(me)
    &&& is_aligned(nb)
    &&& T::follows_next(m[me], addr_of(m[me].next)) ==> m.contains_key(addr_of(m[me].next))
}

/// Two memories hold the same cells, with the same tag bits in each word.
pub open spec fn same_tags(m1: Map<usize, NeighborWords>, m2: Map<usize, NeighborWords>) -> bool {
    &&& m1.dom() == m2.dom()
    &&& forall|a: usize|
        #[trigger] m1.contains_key(a) ==> tag_of(m1[a].next) == tag_of(m2[a].next) && tag_of(
            m1[a].prev,
        ) == tag_of(m2[a].prev)
}

/// A word built from its own address and tag bits is the word itself, and a
/// word retargeted at an aligned address keeps its tag bits and holds that
/// address.
proof fn lemma_retarget_facts(w: usize, addr: usize)
    by (bit_vector)
    ensures
        (w & !3usize) | (w & 3usize) == w,
        addr & 3usize == 0 ==> (addr | (w & 3usize)) & !3usize == addr,
        addr & 3usize == 0 ==> (addr | (w & 3usize)) & 3usize == w & 3usize,
        (w & !3usize) == 0 ==> (0usize | (w & 3usize)) == w,
        0usize & 3usize == 0,
{
}

/// Memory of cells: each address in it holds the neighbor words of one cell.
pub struct CellMemory {
    cells: HashMapWithView<usize, NeighborWords>,
}

impl View for CellMemory {
    type V = Map<usize, NeighborWords>;

    closed spec fn view(&self) -> Map<usize, NeighborWords> {
        self.cells@
    }
}

impl CellMemory {
    /// Memory with no cells.
    pub fn new() -> (r: Self)
        ensures
            r@ == Map::<usize, NeighborWords>::empty(),
    {
        CellMemory { cells: HashMapWithView::new() }
    }

    /// Stores the neighbor words of the cell at `addr`.
    pub fn insert<T>(&mut self, addr: usize, cell: Neighbors<T>)
        ensures
            final(self)@ == old(self)@.insert(addr, cell@),
    {
        self.cells.insert(addr, cell.words());
    }

    /// The neighbor words of the cell at `addr`, if there is one.
    pub fn get<T>(&self, addr: usize) -> (r: Option<Neighbors<T>>)
        ensures
            match r {
                Some(cell) => self@.contains_key(addr) && cell@ == self@[addr],
                None => !self@.contains_key(addr),
            },
    {
        match self.cells.get(&addr) {
            Some(words) => Some(Neighbors::from_words(words)),
            None => None,
        }
    }
}

/// Facts about removing the cell at `me` from `m`: every cell keeps its tag
/// bits, `me` ends up with null addresses, and each neighbor that was
/// followed now points past `me`.
proof fn lemma_removed<T: HasNeighbors>(m: Map<usize, NeighborWords>, me: usize)
    requires
        can_remove::<T>(m, me),
    ensures
        same_tags(m, removed::<T>(m, me)),
        addr_of(removed::<T>(m, me)[me].next) == 0,
        addr_of(removed::<T>(m, me)[me].prev) == 0,
        T::follows_next(m[me], addr_of(m[me].next)) && addr_of(m[me].next) != me ==> addr_of(
            removed::<T>(m, me)[addr_of(m[me].next)].prev,
        ) == addr_of(m[me].prev),
        T::follows_prev(m[me], addr_of(m[me].prev)) && addr_of(m[me].prev) != me ==> addr_of(
            removed::<T>(m, me)[addr_of(m[me].prev)].next,
        ) == addr_of(m[me].next),
{
    let c = m[me];
    let n = addr_of(c.next);
    let p = addr_of(c.prev);
    let r = removed::<T>(m, me);
    lemma_addr_aligned(c.next);
    lemma_addr_aligned(c.prev);
    lemma_retarget_facts(c.next, 0);
    lemma_retarget_facts(c.prev, 0);
    lemma_retarget_facts(m[n].prev, p);
    let m1 = if T::follows_next(c, n) {
        m.insert(n, with_prev(m[n], p))
    } else {
        m
    };
    lemma_retarget_facts(m1[p].next, n);
    assert(r.dom() =~= m.dom());
}

/// Removing a cell touches no word but those it must relink: apart from the
/// removed cell's own two words, every next word stays as it was except the
/// followed previous neighbor's, and every previous word stays as it was
/// except the followed next neighbor's. The removed cell keeps its tag bits
/// and gets null addresses, the followed next neighbor's previous word keeps
/// its tag bits and holds the removed cell's previous address, and the
/// followed previous neighbor's next word keeps its tag bits and holds the
/// removed cell's next address.
pub proof fn lemma_remove_changes_only_links<T: HasNeighbors>(
    m: Map<usize, NeighborWords>,
    me: usize,
)
    requires
        can_remove::<T>(m, me),
    ensures
        ({
            let r = removed::<T>(m, me);
            let c = m[me];
            let n = addr_of(c.next);
            let p = addr_of(c.prev);
            &&& r.dom() == m.dom()
            &&& forall|a: usize|
                #[trigger] m.contains_key(a) && a != me && !(T::follows_prev(c, p) && a == p)
                    ==> r[a].next == m[a].next
            &&& forall|a: usize|
                #[trigger] m.contains_key(a) && a != me && !(T::follows_next(c, n) && a == n)
                    ==> r[a].prev == m[a].prev
            &&& r[me].next == tag_of(c.next)
            &&& r[me].prev == tag_of(c.prev)
            &&& T::follows_next(c, n) && n != me ==> r[n].prev == p | tag_of(m[n].prev)
            &&& T::follows_prev(c, p) && p != me ==> r[p].next == n | tag_of(m[p].next)
        }),
{
    let c = m[me];
    lemma_retarget_facts(c.next, 0);
    lemma_retarget_facts(c.prev, 0);
    lemma_or_zero(c.next & 3usize);
    lemma_or_zero(c.prev & 3usize);
    assert(removed::<T>(m, me).dom() =~= m.dom());
}

/// Or-ing a value into zero gives the value.
proof fn lemma_or_zero(x: usize)
    by (bit_vector)
    ensures
        0usize | x == x,
{
}

/// Facts about appending the cell at `nb` after the cell at `me` in `m`:
/// every cell keeps its tag bits, `me` points on to `nb`, `nb` points back at
/// `me` and on to `me`'s old next address, and that next neighbor, when
/// followed, points back at `nb`.
proof fn lemma_appended<T: HasNeighbors>(m: Map<usize, NeighborWords>, me: usize, nb: usize)
    requires
        can_append::<T>(m, me, nb),
    ensures
        same_tags(m, appended::<T>(m, me, nb)),
        addr_of(appended::<T>(m, me, nb)[me].next) == nb,
        addr_of(appended::<T>(m, me, nb)[nb].prev) == me,
        me != nb ==> addr_of(appended::<T>(m, me, nb)[nb].next) == addr_of(m[me].next),
        T::follows_next(m[me], addr_of(m[me].next)) && addr_of(m[me].next) != nb ==> addr_of(
            appended::<T>(m, me, nb)[addr_of(m[me].next)].prev,
        ) == nb,
{
    let c = m[me];
    let n = addr_of(c.next);
    let r = appended::<T>(m, me, nb);
    lemma_addr_aligned(c.next);
    let m1 = m.insert(nb, with_next(m[nb], n));
    let m2 = if T::follows_next(c, n) {
        m1.insert(n, with_prev(m1[n], nb))
    } else {
        m1
    };
    let m3 = m2.insert(nb, with_prev(m2[nb], me));
    lemma_retarget_facts(m[nb].next, n);
    lemma_retarget_facts(m1[n].prev, nb);
    lemma_retarget_facts(m2[nb].prev, me);
    lemma_retarget_facts(m3[me].next, nb);
    assert(r.dom() =~= m.dom());
}

/// Removing a cell right after appending it restores memory: appending a
/// detached cell `nb` (null addresses) after `me` and then removing `nb`
/// gives back the memory one started from, when `me`'s next link was
/// consistent (its followed next neighbor pointed back at `me`) and the cell
/// type follows `nb`'s new links as it followed `me`'s next link.
pub proof fn lemma_remove_undoes_append<T: HasNeighbors>(
    m: Map<usize, NeighborWords>,
    me: usize,
    nb: usize,
)
    requires
        can_append::<T>(m, me, nb),
        me != nb,
        addr_of(m[me].next) != nb,
        addr_of(m[nb].next) == 0,
        addr_of(m[nb].prev) == 0,
        T::follows_next(m[me], addr_of(m[me].next)) ==> addr_of(m[addr_of(m[me].next)].prev)
            == me,
        T::follows_next(appended::<T>(m, me, nb)[nb], addr_of(m[me].next)) == T::follows_next(
            m[me],
            addr_of(m[me].next),
        ),
        T::follows_prev(appended::<T>(m, me, nb)[nb], me),
    ensures
        can_remove::<T>(appended::<T>(m, me, nb), nb),
        removed::<T>(appended::<T>(m, me, nb), nb) == m,
{
    let c = m[me];
    let n = addr_of(c.next);
    let a = appended::<T>(m, me, nb);
    lemma_appended::<T>(m, me, nb);
    let m1 = m.insert(nb, with_next(m[nb], n));
    let m2 = if T::follows_next(c, n) {
        m1.insert(n, with_prev(m1[n], nb))
    } else {
        m1
    };
    lemma_retarget_facts(m[nb].next, n);
    lemma_retarget_facts(m2[nb].prev, me);
    lemma_retarget_facts(m[n].prev, me);
    lemma_retarget_facts(c.next, n);
    assert(removed::<T>(a, nb) =~= m);
}

/// Appending a cell right after removing it restores memory: removing `me`
/// from between its previous neighbor `p` and its next neighbor `n`, then
/// appending it again after `p`, gives back the memory one started from,
/// when the links around `me` were consistent (`p` pointed on to `me` and,
/// when followed, `n` pointed back at `me`), the cell type followed `me`'s
/// previous link, and it follows `p`'s new next link as it followed `me`'s.
pub proof fn lemma_append_undoes_remove<T: HasNeighbors>(m: Map<usize, NeighborWords>, me: usize)
    requires
        can_remove::<T>(m, me),
        is_aligned(me),
        addr_of(m[me].prev) != me,
        addr_of(m[me].next) != me,
        addr_of(m[me].prev) != addr_of(m[me].next),
        T::follows_prev(m[me], addr_of(m[me].prev)),
        addr_of(m[addr_of(m[me].prev)].next) == me,
        T::follows_next(m[me], addr_of(m[me].next)) ==> addr_of(m[addr_of(m[me].next)].prev)
            == me,
        T::follows_next(removed::<T>(m, me)[addr_of(m[me].prev)], addr_of(m[me].next))
            == T::follows_next(m[me], addr_of(m[me].next)),
    ensures
        can_append::<T>(removed::<T>(m, me), addr_of(m[me].prev), me),
        appended::<T>(removed::<T>(m, me), addr_of(m[me].prev), me) == m,
{
    let c = m[me];
    let n = addr_of(c.next);
    let p = addr_of(c.prev);
    let r = removed::<T>(m, me);
    lemma_removed::<T>(m, me);
    lemma_addr_aligned(c.prev);
    lemma_retarget_facts(c.next, n);
    lemma_retarget_facts(c.prev, p);
    lemma_retarget_facts(m[n].prev, me);
    lemma_retarget_facts(m[p].next, me);
    assert(appended::<T>(r, p, me) =~= m);
}

/// Appending a cell touches no word but those it must link: every next word
/// stays as it was except `me`'s and the appended cell's, and every previous
/// word stays as it was except the appended cell's and, when followed, that
/// of `me`'s old next neighbor.
pub proof fn lemma_append_changes_only_links<T: HasNeighbors>(
    m: Map<usize, NeighborWords>,
    me: usize,
    nb: usize,
)
    requires
        can_append::<T>(m, me, nb),
    ensures
        ({
            let r = appended::<T>(m, me, nb);
            let c = m[me];
            let n = addr_of(c.next);
            &&& r.dom() == m.dom()
            &&& forall|a: usize|
                #[trigger] m.contains_key(a) && a != me && a != nb ==> r[a].next == m[a].next
            &&& forall|a: usize|
                #[trigger] m.contains_key(a) && a != nb && !(T::follows_next(c, n) && a == n)
                    ==> r[a].prev == m[a].prev
        }),
{
    assert(appended::<T>(m, me, nb).dom() =~= m.dom());
}

/// The address held in any word is aligned.
proof fn lemma_addr_aligned(w: usize)
    by (bit_vector)
    ensures
        (w & !3usize) & 3usize == 0,
{
}

impl<T: HasNeighbors> Neighbors<T> {
    /// Unlinks the cell at `me` from its neighbors: the next neighbor, when
    /// the cell type `T` follows it, takes over `me`'s previous address; the
    /// previous neighbor, when followed, takes over `me`'s next address; then
    /// both of `me`'s addresses become null. No tag bit is changed.
    pub fn remove(memory: &mut CellMemory, me: usize)
        requires
            can_remove::<T>(old(memory)@, me),
        ensures
            final(memory)@ == removed::<T>(old(memory)@, me),
            same_tags(old(memory)@, final(memory)@),
            addr_of(final(memory)@[me].next) == 0,
            addr_of(final(memory)@[me].prev) == 0,
            ({
                let c = old(memory)@[me];
                T::follows_next(c, addr_of(c.next)) && addr_of(c.next) != me ==> addr_of(
                    final(memory)@[addr_of(c.next)].prev,
                ) == addr_of(c.prev)
            }),
            ({
                let c = old(memory)@[me];
                T::follows_prev(c, addr_of(c.prev)) && addr_of(c.prev) != me ==> addr_of(
                    final(memory)@[addr_of(c.prev)].next,
                ) == addr_of(c.next)
            }),
            ({
                let c = old(memory)@[me];
                forall|a: usize|
                    #[trigger] old(memory)@.contains_key(a) && a != me && !(T::follows_prev(
                        c,
                        addr_of(c.prev),
                    ) && a == addr_of(c.prev)) ==> final(memory)@[a].next == old(memory)@[a].next
            }),
            ({
                let c = old(memory)@[me];
                forall|a: usize|
                    #[trigger] old(memory)@.contains_key(a) && a != me && !(T::follows_next(
                        c,
                        addr_of(c.next),
                    ) && a == addr_of(c.next)) ==> final(memory)@[a].prev == old(memory)@[a].prev
            }),
    {
        let ghost m = memory@;
        proof {
            lemma_removed::<T>(m, me);
            lemma_remove_changes_only_links::<T>(m, me);
        }
        let cell = memory.get::<T>(me).unwrap();
        let ghost c = cell@;
        let ghost n = addr_of(c.next);
        let ghost p = addr_of(c.prev);
        proof {
            lemma_retarget_facts(c.prev, p);
        }
        if let Some(next) = cell.next() {
            let mut next_cell = memory.get::<T>(next).unwrap();
            next_cell.set_prev(cell.prev_unchecked());
            memory.insert(next, next_cell);
        }
        let ghost m1 = memory@;
        let cell = memory.get::<T>(me).unwrap();
        if let Some(prev) = cell.prev() {
            let mut prev_cell = memory.get::<T>(prev).unwrap();
            prev_cell.set_next(cell.next_unchecked());
            memory.insert(prev, prev_cell);
        }
        let mut cell = memory.get::<T>(me).unwrap();
        cell.set_next(0);
        cell.set_prev(0);
        memory.insert(me, cell);
        assert(memory@ =~= removed::<T>(m, me));
    }
    /// Links the cell at `neighbor` in right after the cell at `me`:
    /// `neighbor` takes `me`'s next address, the old next neighbor (when the
    /// cell type `T` follows it) points back at `neighbor`, `neighbor` points
    /// back at `me`, and `me` points on to `neighbor`. No tag bit is changed.
    pub fn append_raw(memory: &mut CellMemory, me: usize, neighbor: usize)
        requires
            can_append::<T>(old(memory)@, me, neighbor),
        ensures
            final(memory)@ == appended::<T>(old(memory)@, me, neighbor),
            same_tags(old(memory)@, final(memory)@),
            addr_of(final(memory)@[me].next) == neighbor,
            addr_of(final(memory)@[neighbor].prev) == me,
            me != neighbor ==> addr_of(final(memory)@[neighbor].next) == addr_of(
                old(memory)@[me].next,
            ),
            ({
                let c = old(memory)@[me];
                T::follows_next(c, addr_of(c.next)) && addr_of(c.next) != neighbor ==> addr_of(
                    final(memory)@[addr_of(c.next)].prev,
                ) == neighbor
            }),
            forall|a: usize|
                #[trigger] old(memory)@.contains_key(a) && a != me && a != neighbor
                    ==> final(memory)@[a].next == old(memory)@[a].next,
            ({
                let c = old(memory)@[me];
                forall|a: usize|
                    #[trigger] old(memory)@.contains_key(a) && a != neighbor && !(T::follows_next(
                        c,
                        addr_of(c.next),
                    ) && a == addr_of(c.next)) ==> final(memory)@[a].prev == old(memory)@[a].prev
            }),
    {
        let ghost m = memory@;
        proof {
            lemma_appended::<T>(m, me, neighbor);
            lemma_append_changes_only_links::<T>(m, me, neighbor);
        }
        let me_cell = memory.get::<T>(me).unwrap();
        let ghost c = me_cell@;
        proof {
            lemma_retarget_facts(c.next, addr_of(c.next));
        }
        let mut nb_cell = memory.get::<T>(neighbor).unwrap();
        nb_cell.set_next(me_cell.next_unchecked());
        memory.insert(neighbor, nb_cell);
        let me_cell = memory.get::<T>(me).unwrap();
        if let Some(next) = me_cell.next() {
            let mut next_cell = memory.get::<T>(next).unwrap();
            next_cell.set_prev(neighbor);
            memory.insert(next, next_cell);
        }
        let mut nb_cell = memory.get::<T>(neighbor).unwrap();
        nb_cell.set_prev(me);
        memory.insert(neighbor, nb_cell);
        let mut me_cell = memory.get::<T>(me).unwrap();
        me_cell.set_next(neighbor);
        memory.insert(me, me_cell);
        assert(memory@ =~= appended::<T>(m, me, neighbor));
    }

    /// Links the cell at `neighbor` in right after the cell at `me`, as
    /// `append_raw` does.
    pub fn append(memory: &mut CellMemory, me: usize, neighbor: usize)
        requires
            can_append::<T>(old(memory)@, me, neighbor),
        ensures
            final(memory)@ == appended::<T>(old(memory)@, me, neighbor),
            same_tags(old(memory)@, final(memory)@),
            addr_of(final(memory)@[me].next) == neighbor,
            addr_of(final(memory)@[neighbor].prev) == me,
            me != neighbor ==> addr_of(final(memory)@[neighbor].next) == addr_of(
                old(memory)@[me].next,
            ),
            ({
                let c = old(memory)@[me];
                T::follows_next(c, addr_of(c.next)) && addr_of(c.next) != neighbor ==> addr_of(
                    final(memory)@[addr_of(c.next)].prev,
                ) == neighbor
            }),
            forall|a: usize|
                #[trigger] old(memory)@.contains_key(a) && a != me && a != neighbor
                    ==> final(memory)@[a].next == old(memory)@[a].next,
            ({
                let c = old(memory)@[me];
                forall|a: usize|
                    #[trigger] old(memory)@.contains_key(a) && a != neighbor && !(T::follows_next(
                        c,
                        addr_of(c.next),
                    ) && a == addr_of(c.next)) ==> final(memory)@[a].prev == old(memory)@[a].prev
            }),
    {
        Self::append_raw(memory, me, neighbor)
    }
}

} // verus!
