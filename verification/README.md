# AllTheThings

A file-name search engine for NTFS volumes, in the manner of voidtools Everything: it
reads the Master File Table directly, follows the USN change journal, and answers
queries such as `report !draft size:>1mb`, `ext:dll | ext:exe` or `dm:thisweek` over
every volume at once.

The engine under `src/` is verified with Verus. What it decides is stated in the
contracts of its functions; what holds across functions is stated in the proof
functions whose names start with `law_`.

| Modules | What they are about |
|---|---|
| `text`, `wide`, `bytes` | characters, UTF-16, little-endian numbers |
| `query`, `query_laws`, `search`, `matcher`, `matcher_laws` | the query language, and what a query accepts |
| `pattern`, `size`, `dates`, `date_laws`, `content`, `content_laws` | the single tests of a query |
| `mft`, `usn`, `volumes` | what a volume's table and journal say |
| `entry`, `indexer`, `index`, `hit`, `order`, `rank`, `catalog` | the index of a volume, and searches over all of them |
| `cache`, `indexing`, `status`, `error` | the lifecycle of the index |
| `ipc`, `pipe`, `host`, `scm` | the background service and its query-only protocol |
| `commands`, `export`, `icons`, `fileops` | what the UI asks for |
| `settings`, `hotkey`, `window`, `cli`, `startup`, `shellmenu`, `elevation` | the desktop program |

Calls into other crates (`regex`, `chrono`, `rayon`, `png`, `base64`) and into parts of
the standard library stand behind small functions whose contracts are trusted; their
comments say what is claimed of each call.

`app/` is the Windows program around the engine: it reads volumes, talks to the system
and shows the window. `tests/` runs the engine on concrete values.
