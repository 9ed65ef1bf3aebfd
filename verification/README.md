# delinker

Splits a linked 32-bit Windows image back into COFF object files, one for each
translation unit, so that they can be compared with freshly compiled ones.

`src/` is the library, verified with Verus. It takes plain values (the image's
bytes, the functions that the debug information lists, the places that refer to
something) and returns the files to be written.

- `decoration`: the leading underscore of C function names.
- `paths`, `roots`, `keys`: which object file a source file goes to.
- `modules`: the modules of an image, and where their sources lie.
- `relocs`, `symbols`, `code`: what places refer to, and the branches between
  functions.
- `coff`, `object_state`, `object_file`: object files under construction.
- `splitting`, `object_files`: the image as a whole.
- `growth`, `placement`: what holds of every object file and of all of them.

`coff`, `code`, `object_file` and `keys` call outside crates and the standard
library through functions marked `external_body`; the comment above each says
what is taken on trust.

`app/` reads the debug information and writes the files.
