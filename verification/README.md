# xbark

Desktop sticker popups: a small daemon shows sticker images in a screen
corner, driven over HTTP by a command-line client.

`src/` is the verified library: every function in it carries a Verus contract,
and the properties that span functions are stated and proved as proof
functions in `src/laws.rs`.

| module          | what it holds                                                        |
|-----------------|----------------------------------------------------------------------|
| `resolver`      | the sticker index: keyword resolution by rule priority, filtered and sorted listing |
| `listing`       | the `xbark list` table: language choice, column widths, rows          |
| `width`         | display width of text, padding and truncation to a column width      |
| `server`        | request decisions of the HTTP API, MIME types, `data:` URLs           |
| `client`        | port and pid files, URLs, status and stop messages, launchd plist     |
| `daemon`        | start checks and the mDNS names                                      |
| `config`        | defaults and the choice of the sticker directory                     |
| `assets`        | the bundled pack's fingerprint and the unpack decision               |
| `release`       | semantic-version bumps and the rewrite of manifest version lines      |
| `version_lines` | lemmas on splitting, joining and trimming lines                      |
| `num`, `text`, `paths` | decimal and hex text, string helpers, path joining            |
| `laws`          | the cross-function properties                                        |

`app/` is the program around the library: argument parsing, files, the HTTP
server and client, mDNS, the overlay window and the release commands. It
hands the library plain values and acts on what comes back.

`tests/` runs the library on concrete values.
