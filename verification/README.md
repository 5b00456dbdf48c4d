# qaqh-workspace

The file, search, command, image and journal tools of a coding agent, as a library whose
behaviour is proved with Verus.

- `src/` is the library. Each tool is a function from plain values (the arguments of the
  call, what reading a file gave, what the ledger knows) to a decision (what to write, what
  to run, what to answer), with a contract that fixes the outcome. Proof functions state
  what holds across calls: a refused edit changes nothing, a stale file is never written
  over, a replay does what its dry run showed, a recorded change is found again.
  - `edit/` locates hunks and applies them; `apply_patch_engine/` reads and applies
    patches; `copy_range`, `file_mutate`, `file_query`, `file_glob` and `grep_tool` are the
    other file tools.
  - `exec/` plans commands and reads their output; `image_query/` asks about images.
  - `manager`, `authorization`, `backend`, `conflict`, `confirm_apply` and `pending` decide
    which calls run, where and in which order.
  - `ledger`, `file_cache` and `journal/` remember what the calls did.
  - `outside` holds every call into another crate, with what is taken on trust about it.
- `tests/` runs the library on concrete values.
- `app/` is the program around it: files, processes, the network and the command line.
