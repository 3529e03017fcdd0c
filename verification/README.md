# pyfreeze

Dormant process resumption for Python: after the import phase of a program the state of its
modules and file descriptors is written to a snapshot, and later runs restore the snapshot
instead of importing everything again.

The library under `src/` is verified with [Verus](https://github.com/verus-lang/verus). It
holds everything that can be computed without the interpreter, the kernel or the disk:

| Module | What it holds |
|---|---|
| `snapshot::format` | what a snapshot holds: header, module table, fd table |
| `snapshot::wire`, `snapshot::codec` | the bytes of each of these, and reading them back |
| `snapshot` | laying a snapshot out as a file (`SnapshotWriter`) and taking it apart (`SnapshotReader`) |
| `snapshot::hash` | the hash that tells whether the sources have changed |
| `snapshot::metadata` | metadata, and whether a snapshot fits the running interpreter |
| `capture` | how modules and descriptors are captured, and assembling the snapshot |
| `loader` | whether and how a snapshot is restored, and putting descriptors back |
| `cli` | what the commands of `pyfreeze` launch, print and return |

Public proof functions named `law_..` state what holds across functions. Reading gives back
what was written. What was captured is restored on the same machine, by an interpreter of the
same major and minor version, as long as the source files hold what they held. If any source
file changes or disappears, other bytes are hashed, so that only a collision of SHA-256 hides
it. Where the kernel carries out every request, a regular file and a pipe end up at the
descriptor that they had, and every other descriptor stays as it was.

What is trusted rather than proved is marked `external_body`: `bincode` on scalars, texts and
byte strings, SHA-256, hexadecimal, the clock, and the `Debug` form of a string.

`app/` is the program around the library: the command line, the extension module for Python,
files, processes and system calls.
