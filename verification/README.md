# wee_alloc_bw, verified parts

The verified library (`src/`):

- `neighbors`: the tagged neighbor words of a cell (`Neighbors<T>`): getting,
  setting and clearing the two tag bits of each word, reading and replacing
  the addresses they hold, and the `HasNeighbors` trait through which a cell
  type decides which addresses lead to a neighbor.
- `cell_memory`: memory of cells keyed by address (`CellMemory`), and the list
  manipulations `Neighbors::remove`, `append_raw` and `append` over it, with
  the laws that they keep every tag bit and undo each other.
- `static_array`: page allocation out of a fixed-size scratch heap by bumping
  an offset (`alloc_pages`, `alloc_bytes`), with the law that the regions it
  hands out lie within the heap and never overlap.

`app/` holds what stands on global state, locks and raw pointers: the static
scratch heap behind a spin lock, the exclusive-access wrapper, and the C entry
points of the example.
