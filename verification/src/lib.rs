//! Authenticated computations over EPUB publications: provers record the
//! projections of the authenticated values they read, verifiers replay those
//! projections against the digests they hold.

pub mod computation;
pub mod prover;
pub mod verifying;
pub mod no_proofs;
pub mod protocol;
pub mod strings;
pub mod pairs;
pub mod order;
pub mod paths;
pub mod publication;
pub mod epub;
pub mod epubarchive;
pub mod epubparser;
pub mod node;
pub mod cfi;
pub mod element;
pub mod preorder;
pub mod lexer;
pub mod api;
pub mod authapi;
pub mod typelist;
pub mod locator;
pub mod xmldoc;
pub mod selection;
pub mod naming;
