# ward

A dashboard of the machine it runs on: processor, memory, storage and uptime,
served as web pages and a small JSON API, with a one-time setup kept in an INI
file (`setup.ini`).

Layout:

- `src/` is the library, written and proved with Verus.
  - `text.rs`: trimming, decimal numerals and their parsing, prefixes.
  - `models.rs`: the theme, the data the dashboard exchanges, and the rules
    that a setup must follow.
  - `ini_file.rs`: the few calls into the `ini` crate, with their contracts.
  - `config.rs`: the setup file's text to a setup and back. The text written
    for a setup is stated exactly: the `[setup]` header and five `key=value`
    lines, the name and background escaped as the `ini` crate escapes them.
    A setup read back from that text is the same setup where its name and
    background are plain (no vertical tab or form feed, no whitespace at
    either end, no leading quote); otherwise they come back trimmed, with a
    vertical tab or form feed read as `v` or `f`. What is read back from a
    name or background that opens with a quote is not stated.
  - `startup.rs`: the port argument, a setup given through the environment,
    and the choice of the port.
  - `web.rs`: which page the root shows, how a setup request is answered,
    how static files are served.
  - `system.rs`: hardware facts to the figures shown, the uptime split, disk
    sums, and the storage model found in tool output.
- `app/` is the server around it: `axum` routes, `askama` pages, embedded
  assets, `sysinfo` readings, the file system and the environment.
- `tests/` exercises the library on concrete values.

The server expects the page templates (`templates/index.html`,
`templates/setup.html`) and the static files (`assets/`) next to it when it
is built.
