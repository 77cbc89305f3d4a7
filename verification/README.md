# lance_index

Parts of a vector and scalar index library whose behaviour is stated in contracts and proved with
Verus:

- `vector::bq`: RabitQ codes. The packed layout of codes and its inverse, distance tables, quantized
  distances, a nearest-row search that skips groups of rows, and the storage of codes with its
  remapping.
- `vector::flat`: flat search with filters and distance bounds, and the flat quantizers.
- `vector::ivf_state`: the wire format of cached IVF index states.
- `mem_wal`: regions of the MemWAL index, how rows are routed to buckets, and the messages that its
  state is stored in.
- `scalar::bitmap`: plans for the physical segments of bitmap indexes.
- `encoded_dataset`, `table_identifier`, `optimize`: opening datasets of encoded vectors, identifying
  datasets, and options for optimizing indexes.

Floats appear in the library as `ordered::OrderedFloat`, the integer that keeps their total order.
What is computed with floats is handed in as closures.

`src/` is the verified library, `tests/` runs it, and `app/` is ordinary Rust around it: arrow data,
float arithmetic, serialization and the traits that indexes are used through.
