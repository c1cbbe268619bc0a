# termedit

A terminal code editor whose logic is verified with Verus.

- `src/` is the library, its functions verified against their contracts (the one call
  into `serde_json` is trusted, under the contract its wrapper states): the text
  model and its edits with undo and redo (`code_tabs`, `edits`, `edit_laws`), tokens and
  syntax colors (`tokens`, `token_info`, `colors`, `recalc`), the key and mouse input
  (`event_handler`, `key_handling`, `code_keys`, `mouse`), scrolling and drawing the code
  (`scroll`, `code_view`), the window registry and terminal rendering (`term_render`,
  `term_app`, `layout`), the file browser (`file_manager`, `main_app`), the Rust linter
  that builds scopes and the outline (`rust_linter`, `rust_defs`, `rust_outline`), the
  language-linter interface and its dispatch by file ending (`linters`), the
  highlighting-script configuration (`syntax_scripts`), completion
  (`completion`, `string_pattern_matching`) and the language-server message handling
  (`lsp`).
- `app/` is the program around it: the terminal, reading files and directories, the
  clipboard, running the Lua highlighting scripts and the floating-point scroll log. It
  carries out what the library decides.
- `tests/` runs the library on concrete inputs.

Adding a language means implementing `linters::LanguageLinterInterface` for it and
naming it in `linters::GenerateScopes`.
