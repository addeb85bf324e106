# code_scanner

Bundles a codebase into a single text report for audits, code reviews and LLM prompts, or
prints a lines/characters/tokens summary of it (LOC mode). The scanning rules, the statistics,
the report lines and the locale handling are a library verified with Verus; the command-line
program around it walks the disk, reads and writes files and formats messages.

Layout:

- `src/` – the verified library:
  - `config` – the filters (`ProjectConfig`), their defaults, `.scanner-config.json` overrides,
    `--ignore` extensions, and the example configuration (`config::EXAMPLE_CONFIG`), to be copied
    into a project as `.scanner-config.json`;
  - `scanner` – what each entry of a walk is, the filter steps on a file, line and character
    counts, the LOC summary, the project analysis, report lines and report parts;
  - `project` – the kind of project a directory's marker files reveal;
  - `i18n` – locale resolution, catalogs, digit grouping and decimal marks, message ids;
  - `ranking` – the top-ten lists and the sorted breakdowns, with their laws;
  - `text`, `utils`, `cli`, `window` – text helpers, sizes, options, window placement.
- `tests/` – tests of the library.
- `app/` – the command-line program (`clap`, `ignore`, `pathdiff`, `fluent-bundle`, `chrono`).

Fluent catalogs (`*.ftl`) are read at run time from an `i18n` directory beside the executable or
in the working directory; without one, messages print as their identifiers.
