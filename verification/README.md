# logseq_sqlite

SQLite in a web worker, on the files of the origin private file system, and the
blocks of a graph in its databases.

The browser opens files asynchronously and reads and writes them synchronously,
while SQLite wants to open and delete files at any time. So a pool of backing
files is opened ahead of time, and a metadata file records which of them stands
behind which path.

The library in `src/` is written in [Verus](https://github.com/verus-lang/verus).
It makes all decisions and performs none of them: it gives requests to the
host's files and to a database as values, and takes what came of them as
values.

| module | what it holds |
| --- | --- |
| `pool`, `pool_laws` | the pool: creating, deleting, reading and writing files |
| `init`, `init_laws` | how the pool is opened, step by step |
| `metadata`, `encoding` | the metadata record and its bytes |
| `backing_file` | the names of backing files, and the search for them |
| `file_action` | requests to files, and what they do to their content |
| `io_methods`, `opfs_vfs`, `codes` | what SQLite asks of a file, and of the file system |
| `support` | whether the host has what is needed |
| `blocks`, `blocks_laws`, `connections`, `trials` | the blocks of a graph in a database |
| `table`, `table_laws` | what the requests do to the table of blocks |
| `row`, `statement` | values, rows and requests of SQLite |
| `name_table`, `flat_folder` | tables from names to values |
| `error`, `random`, `text` | failures; random bytes; how a string begins and ends |

The proof functions whose names begin with `law_` say what holds of the library
as a whole.

`app/` binds the library to the browser and to SQLite. `tests/` runs it, with a
directory of files in memory in place of the browser's.
