# struct-patch

Patches for structs: a patch struct holds, for each field of a struct, what
to do with it (leave it, set it, patch it further, or edit a list field
element by element), and applying the patch does that.

- `src/traits.rs`: the traits that patched structs and patch structs
  implement (`Patch`, `Filler`, `Status`, `Merge`, ...).
- `src/field.rs`: how each kind of patch field is applied, diffed, merged,
  added and tested for emptiness, with the laws that relate them (applying a
  full patch, a diff, a merge).
- `src/list.rs`: the operations on list fields (`ListPatchOp`), applying
  them, the full patch and the diff of a list, and their laws (a merge is
  one list patch after the other; a diff rebuilds the elements of the
  current list, where the elements' own diffs do).
- `src/patch.rs`: the input of `#[derive(Patch)]` as plain values, the
  checks on its attributes, and the shape of the generated patch struct.
- `app/`: the derive itself (reading with `syn`, writing with `quote`) and
  the serde side.

The library in `src/` is verified with Verus: each function states what it
returns or changes, and the laws are proof functions.
