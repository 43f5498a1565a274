# hammerfest_autosplitter

A LiveSplit autosplitter for Hammerfest / Eternalfest, with its decisions and
its memory reader verified by Verus. It starts the timer when a game unlocks,
splits on every level crossed, splits once more at the elevator that ends the
run, and resets when the game is over.

## Layout

`src/` is the verified library. Nothing in it reads a process or talks to a
timer: the host hands values in and executes what comes out.

- `policy`, `level`, `command`, `end_sequence`, `pacing`: what a tick decides,
  from the state read to the commands sent, and the laws those decisions keep.
- `atom`, `heap`, `avm1`, `pepper_flash`, `ruffle`, `hammerfest`: the readers
  of an AVM1 heap, Pepper Flash and Ruffle, and the search for the game in it.
- `scan`: the sweep over the heap in overlapping blocks, and what a sweep
  finds, stated block by block. A sweep stops where a pause is due and goes
  on from where it stands: `hammerfest::Search` is the search for the game
  cut at those pauses, proved to end with what `resolve` finds in one pass,
  and `app/` lets a tick pass at each of them so that LiveSplit does not
  freeze.
- `memory`, `linear_memory`, `elf`, `pe`, `plugin`, `runtime`: the memory
  the reader is served, and the ranges worth reading.
- `session`, `diagnostics`: the decisions of the main loop, one tick at a time.
- `replay`: a capture of a real heap, served back as memory.
- `names`, `text`: the obfuscated names of the build, and text helpers.

`app/` is the module LiveSplit loads: it attaches to the process, reads the
memory map and the timer, runs the loop that `session` decides, and prints.

`tests/` runs the library on heaps written byte by byte.

## Trust

One outside call is believed rather than proved: inflating a packed capture
with `flate2` (`replay::gunzip`). Its result is named, `gunzipped`, and
everything the library does with it is verified.

The contracts also rest on what `memory::Memory` says of the memory it
serves: `bytes_at` is a function of the address, so two reads of the same
bytes agree. That holds of the heaps the tests write and of a capture. A live
process can change between two reads, which that contract does not allow
for: there the proofs say what the reader does on a memory that holds still,
and `app/` takes on trust that a process which moves under it is no worse
served. The reader checks again what it keeps (the anchor, the cached
strings, the game) before each use.
