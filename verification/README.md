# epubcontract

A verified library for reading EPUB publications and answering questions
about them. Its answers to resource requests and to locators can be
computed as authenticated computations over a publication held as one
authenticated value: a prover records the projection it reads, and a
verifier holding only the digest checks that projection, decodes it and
answers from it (`authapi`).

- `src/` is the library, written in Verus. Its modules cover the
  authenticated computations (`computation`, `prover`, `verifying`,
  `no_proofs`, `protocol`, and the authenticated answers in `authapi`), the EPUB archive and its package files
  (`epubarchive`, `epub`), the publication model and the parser that fills
  it (`publication`, `epubparser`), documents as node trees with CFI paths
  and CSS-style selection (`node`, `element`, `preorder`, `selection`,
  `xmldoc`, `cfi`),
  the modes of the (X)HTML lexer (`lexer`), locators and answers (`locator`,
  `api`), and helpers on texts, pairs and paths.
- `tests/` holds the tests of the library.
- `app/` holds what surrounds it: reading the XML package files, the logos
  lexers, CSS selectors with simplecss, and the JSON manifest.
