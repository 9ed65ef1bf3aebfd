//! Splits a linked 32-bit Windows image back into COFF object files.
//!
//! The image, the functions that its debug information lists and the places
//! that refer to other symbols go in; one relocatable object per translation
//! unit comes out. Reading the debug information and writing the files is left
//! to the caller: everything here works on plain values.
pub mod bytes;
pub mod decoration;
pub mod paths;
pub mod roots;
pub mod keys;
pub mod coff;
pub mod relocs;
pub mod symbols;
pub mod code;
pub mod modules;
pub mod object_state;
pub mod growth;
pub mod object_file;
pub mod splitting;
pub mod object_files;
pub mod placement;
pub mod laws_of_names;
pub mod laws_of_keys;
pub mod laws_of_code;
pub mod laws_of_objects;
pub mod laws_of_splitting;
