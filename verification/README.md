# pdrive-sync

One-way and two-way folder sync on top of the official Proton Drive command line client, as a
verified library with a thin program around it.

| Mode | Normal changes | `delete = "trash"` |
| --- | --- | --- |
| `push` | Local is authoritative; new and changed local files upload. | Local deletions move the matching remote files to Proton Drive Trash. |
| `pull` | Proton Drive is authoritative; new and changed remote files download. | Remote deletions move the matching local files to the desktop Trash. |
| `two-way` | A change on one side copies to the unchanged side. If both changed, `conflict` decides. | A deletion propagates only when the other side is unchanged; delete/change combinations are conflicts. |

With `delete = "keep"`, files missing from one side are copied back in two-way mode and left alone
in one-way modes.

## Layout

- `src/` is the library, verified with Verus. It decides everything that a sync does and does none
  of it itself: a sync is a value that asks for one thing at a time and is stepped with the answer.
  `src/lib.rs` lists the modules.
- `app/` is the program: the command line, the configuration file, the state database, the processes
  and the files.
- `tests/` runs the library against a local tree, a state database and a drive that live in memory.

## What is proved

Each step of each sync is proved to do what its specification says. About whole runs, whatever the
disk, the database and the drive answer, it is proved among other things that

- files at excluded paths are never transferred, trashed, remembered or forgotten;
- nothing is trashed unless `delete = "trash"` asks for it, and a push trashes nothing once a file
  failed to upload;
- uploads, trash commands and transactions come in bounded batches, and what a batch transferred is
  remembered before the next is sent;
- a two-way sync that meets a conflict it is not to resolve has changed nothing;
- whatever is put in its local place has the size and the digest that the drive claims for it;
- a missing local folder or readiness marker ends a sync before anything else is looked at;
- a sync sends and trashes only what it was to, and one that ends well has done all of it;
- a second two-way sync, if nothing changed since the first, changes nothing.

What other crates do is not proved. Their calls stand behind small functions whose contracts say
what is relied on: glob matching (`globset`), SHA-1 (`sha1`), lengths of time (`humantime`), dates
(`chrono`), and a few functions of the standard library.
