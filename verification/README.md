# debian-lsp

A language server for Debian packaging files, whose logic is a library
verified with Verus.

- `src/` is the verified library: text scanning (`text`, `order`,
  `position`), the plain LSP values it computes (`lsp`), and the logic of
  each file kind: debconf templates, lintian overrides, quilt series,
  debhelper line files, `debian/control` and `debian/tests/control`
  definitions, copyright field casing, changelog upload actions, content
  changes of open documents, formatting of deb822 documents, code actions
  (field-casing fixes, fix-all, mark for upload) and the command-line
  report. Every public function states its result in its `ensures`; the
  calls into `debian_control`, `debian_copyright`, `debian_changelog`,
  `deb822_lossless`, `lintian_overrides` and `patchkit` go through a few
  wrappers whose contracts say what the parsers give.
- `tests/` exercises the library on concrete inputs.
- `app/` is the program: the `check` subcommand (files on disk, gcc-style
  or SARIF output) and the language server over stdio.
