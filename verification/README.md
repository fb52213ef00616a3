# revlog

The review log of a spaced repetition collection, verified with Verus: its entries, the reader
that lists them card by card in chunks, and the statistics of what was remembered on each day.

- `src/revlog.rs`: an entry of the log and what it stands for
- `src/order.rs`: card order, and sorting into it
- `src/storage.rs`: the tables of a collection
- `src/collection.rs`: a collection, and logging what was scheduled without an answer
- `src/chunked.rs`: reading the log in chunks, and starting anew when it changes meanwhile
- `src/graphs/`: what the statistics read, the memory models of the presets, the days on which a
  memory state counts, and the sums of the days
  - `by_card.rs`: the sums told card by card, and which days have one
  - `split.rs`, `comparison.rs`: how the sums of different logs and presets compare
- `app/`: how entries are exchanged with others, and the floating point side of the statistics
- `tests/`: examples

The memory model is that of the crate `fsrs`. Its numbers are floating point and are carried
through the library as they are; what is proved of them is how many there are, in which order,
and on which days they count.
