use wee_alloc_bw::cell_memory::CellMemory;
use wee_alloc_bw::neighbors::{HasNeighbors, NeighborWords, Neighbors};

/// Follows every non-null address.
struct Linked;

impl HasNeighbors for Linked {
    fn follows_next(_neighbors: NeighborWords, next: usize) -> bool {
        next != 0
    }

    fn follows_prev(_neighbors: NeighborWords, prev: usize) -> bool {
        prev != 0
    }

    fn next_checked(_neighbors: &Neighbors<Self>, next: usize) -> Option<usize> {
        if next == 0 {
            None
        } else {
            Some(next)
        }
    }

    fn prev_checked(_neighbors: &Neighbors<Self>, prev: usize) -> Option<usize> {
        if prev == 0 {
            None
        } else {
            Some(prev)
        }
    }
}

/// Does not follow the next address when the second tag bit of the next word is set.
struct Guarded;

impl HasNeighbors for Guarded {
    fn follows_next(neighbors: NeighborWords, next: usize) -> bool {
        next != 0 && neighbors.next & 2 == 0
    }

    fn follows_prev(_neighbors: NeighborWords, prev: usize) -> bool {
        prev != 0
    }

    fn next_checked(neighbors: &Neighbors<Self>, next: usize) -> Option<usize> {
        if next == 0 || neighbors.get_next_bit_2() {
            None
        } else {
            Some(next)
        }
    }

    fn prev_checked(_neighbors: &Neighbors<Self>, prev: usize) -> Option<usize> {
        if prev == 0 {
            None
        } else {
            Some(prev)
        }
    }
}

fn cell<T>(next_and_bits: usize, prev_and_bits: usize) -> Neighbors<T> {
    let mut n = Neighbors::default();
    n.set_next_and_bits(next_and_bits);
    n.set_prev_and_bits(prev_and_bits);
    n
}

fn words(memory: &CellMemory, addr: usize) -> (usize, usize) {
    let c = memory.get::<Linked>(addr).unwrap();
    (c.next_and_bits(), c.prev_and_bits())
}

#[test]
fn next_and_prev_follow_the_cell_type() {
    let linked = cell::<Linked>(0x102, 0x200);
    assert_eq!(linked.next(), Some(0x100));
    assert_eq!(linked.prev(), Some(0x200));
    let guarded = cell::<Guarded>(0x102, 0x200);
    assert_eq!(guarded.next(), None);
    assert_eq!(guarded.prev(), Some(0x200));
    let null = Neighbors::<Linked>::default();
    assert_eq!(null.next(), None);
    assert_eq!(null.prev(), None);
}

#[test]
fn memory_stores_and_reads_cells() {
    let mut memory = CellMemory::new();
    assert!(memory.get::<Linked>(0x100).is_none());
    memory.insert(0x100, cell::<Linked>(0x201, 0x302));
    assert_eq!(words(&memory, 0x100), (0x201, 0x302));
    memory.insert(0x100, cell::<Linked>(0, 0));
    assert_eq!(words(&memory, 0x100), (0, 0));
}

#[test]
fn append_links_between_me_and_next() {
    // a <-> c, then b is appended after a: a <-> b <-> c.
    let mut memory = CellMemory::new();
    memory.insert(0x100, cell::<Linked>(0x301, 0));
    memory.insert(0x200, cell::<Linked>(0x2, 0x1));
    memory.insert(0x300, cell::<Linked>(0, 0x102));
    Neighbors::<Linked>::append(&mut memory, 0x100, 0x200);
    assert_eq!(words(&memory, 0x100), (0x201, 0));
    assert_eq!(words(&memory, 0x200), (0x302, 0x101));
    assert_eq!(words(&memory, 0x300), (0, 0x202));
}

#[test]
fn append_raw_at_the_end() {
    let mut memory = CellMemory::new();
    memory.insert(0x100, cell::<Linked>(0, 0));
    memory.insert(0x200, cell::<Linked>(0, 0));
    Neighbors::<Linked>::append_raw(&mut memory, 0x100, 0x200);
    assert_eq!(words(&memory, 0x100), (0x200, 0));
    assert_eq!(words(&memory, 0x200), (0, 0x100));
}

#[test]
fn append_skips_an_unfollowed_next() {
    let mut memory = CellMemory::new();
    memory.insert(0x100, cell::<Linked>(0x302, 0));
    memory.insert(0x200, cell::<Linked>(0, 0));
    memory.insert(0x300, cell::<Linked>(0, 0x100));
    Neighbors::<Guarded>::append(&mut memory, 0x100, 0x200);
    assert_eq!(words(&memory, 0x100), (0x202, 0));
    assert_eq!(words(&memory, 0x200), (0x300, 0x100));
    assert_eq!(words(&memory, 0x300), (0, 0x100));
}

#[test]
fn remove_unlinks_middle_cell_and_keeps_bits() {
    // a <-> b <-> c, then b is removed: a <-> c.
    let mut memory = CellMemory::new();
    memory.insert(0x100, cell::<Linked>(0x201, 0x2));
    memory.insert(0x200, cell::<Linked>(0x303, 0x101));
    memory.insert(0x300, cell::<Linked>(0x1, 0x202));
    Neighbors::<Linked>::remove(&mut memory, 0x200);
    assert_eq!(words(&memory, 0x100), (0x301, 0x2));
    assert_eq!(words(&memory, 0x200), (0x3, 0x1));
    assert_eq!(words(&memory, 0x300), (0x1, 0x102));
}

#[test]
fn remove_first_and_last_cells() {
    let mut memory = CellMemory::new();
    memory.insert(0x100, cell::<Linked>(0x200, 0));
    memory.insert(0x200, cell::<Linked>(0, 0x100));
    Neighbors::<Linked>::remove(&mut memory, 0x100);
    assert_eq!(words(&memory, 0x100), (0, 0));
    assert_eq!(words(&memory, 0x200), (0, 0));
}

#[test]
fn remove_undoes_append() {
    let mut memory = CellMemory::new();
    memory.insert(0x100, cell::<Linked>(0x301, 0x2));
    memory.insert(0x200, cell::<Linked>(0x1, 0x2));
    memory.insert(0x300, cell::<Linked>(0x3, 0x100));
    Neighbors::<Linked>::append(&mut memory, 0x100, 0x200);
    Neighbors::<Linked>::remove(&mut memory, 0x200);
    assert_eq!(words(&memory, 0x100), (0x301, 0x2));
    assert_eq!(words(&memory, 0x200), (0x1, 0x2));
    assert_eq!(words(&memory, 0x300), (0x3, 0x100));
}

#[test]
fn append_undoes_remove() {
    let mut memory = CellMemory::new();
    memory.insert(0x100, cell::<Linked>(0x201, 0x2));
    memory.insert(0x200, cell::<Linked>(0x303, 0x101));
    memory.insert(0x300, cell::<Linked>(0x1, 0x202));
    Neighbors::<Linked>::remove(&mut memory, 0x200);
    Neighbors::<Linked>::append(&mut memory, 0x100, 0x200);
    assert_eq!(words(&memory, 0x100), (0x201, 0x2));
    assert_eq!(words(&memory, 0x200), (0x303, 0x101));
    assert_eq!(words(&memory, 0x300), (0x1, 0x202));
}
