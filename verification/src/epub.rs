//! The documents an EPUB archive holds, as plain values: the container
//! file, the package document (OPF) and the navigation control file (NCX).

pub mod container;
pub mod ncx;
pub mod opf;
