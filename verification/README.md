# zrunner

A deterministic build scheduler for shared development machines. Agents submit ordinary commands
over a message board; the runner decides when the host can bear them, keeps them from each other's
caches, and publishes their output and their states.

`src/` is the runner without its surroundings, verified with Verus. It reads nothing and writes
nothing: lines, bytes, process tables and the time come in, and what is to be done comes out.

| module | what it holds |
| --- | --- |
| `protocol`, `environment`, `ids` | the documents, and what makes a job valid |
| `scheduling`, `scheduler`, `laws` | the queue: its model, its code, and what it promises |
| `policy` | who may have the whole host, where Rust jobs build, what a Docker build may be |
| `capacity`, `process` | what `/proc` says of memory, pressure and process groups |
| `json`, `board` | what the board says, and the order in which history is replayed |
| `output`, `events`, `transport` | what the runner tells the board |
| `supervision`, `running`, `daemon`, `daemon_laws` | the runner: its model, its code, and what it promises |
| `cli`, `clock`, `text` | the command line, durations, and texts |

What is trusted rather than proved stands in the functions marked `external_body`, and in one
declaration for `String::push`, and is named in
their comments: ULIDs, JSON, Base64, UTF-8 and the present moment.

`app/` is the program around the library: arguments and files, the board's process, the jobs'
processes, signals, and the serde copies of the documents. Pressures are fractions there and
hundredths of a percent, the precision of the kernel, in the library.
