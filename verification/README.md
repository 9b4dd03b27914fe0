# iFetch

Downloads MangaKatana chapters as CBZ archives, from the terminal or as a server for comic readers.

- `src/` is the library: the logic of the program, specified and verified with Verus. It does no
  input or output of its own.
- `app/` is the program around it: arguments and prompts, HTTP, files, the database, threads.
- `tests/` runs the library on concrete values.

The modules of the library:

| module | what it holds |
| --- | --- |
| `text`, `sorting` | strings as character sequences, dictionary order |
| `decimal`, `models` | chapter numbers, mangas, chapters |
| `address`, `html`, `site`, `images` | addresses, pages and image lists of the site |
| `select`, `cli`, `config` | chapter selection, terminal output, settings |
| `utils`, `download` | file names, image types, archives, retries |
| `errors`, `rate_limit` | blocks by the site, and the limiter that avoids them |
| `db`, `discord` | the schedule of checks, notifications |
| `server` | caches, endpoints, background downloads |

Times are nanoseconds on a clock that the caller chooses; the database counts seconds.
