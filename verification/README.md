# my-git

A small git: `init`, `hash-object` and `cat-file` (and an `ls-tree` that is
not wired to the command line), over a repository's `.git/objects` store.

## Layout

- `src/` — the library, verified with Verus.
  - `objects/utils.rs`, `objects/numbers.rs`, `objects/text.rs`: hexadecimal
    text, decimal text and `str::parse` for unsigned numbers, byte search,
    whitespace trimming and path joining.
  - `objects/object.rs`: object types, the `{type} {size}\0` header, and how
    the bytes of a stored object become a blob or a tree.
  - `objects/tree.rs`: tree entries, the stored form of a tree and its parser.
  - `objects/object_hash.rs`: hashing (SHA-1) and compressing (zlib) an object.
  - `objects/store.rs`: object paths, and loading an object from its file's bytes.
  - `objects/tree_traversal.rs`: the walk through a tree and its subtrees.
  - `objects/codec.rs`: the calls into `sha1` and `flate2`, the only code whose
    contracts are taken on trust (with `String::from_utf8` in `utils.rs`).
  - `commands.rs`, `commands/`: what the commands decide.
- `app/` — the command line program: argument parsing, and all reading and
  writing of files, around the library.
- `tests/` — tests of the library.

Every function in `src/` states in its contract what it returns; where the
command line program would panic, the library states so and offers a
function that reports it instead. Proof functions whose names start with
`law_` state the properties that hold across functions, such as that parsing
the stored form of a tree gives the tree back.
