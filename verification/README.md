# ops-console

A console for operating servers at cloud providers, Alibaba Cloud to begin with: it rotates
snapshots, tells of servers and domains that expire, looks at how full disks are and whether
automatic snapshots are on, over all projects of a configuration, and has a web interface to edit
the configuration and to run the commands.

## Layout

- `src/`: the library, written in Verus. Everything that decides or computes stands here, with
  contracts over mathematical models.
  - `text`, `sort`, `real64`, `time`, `codec`, `json`: texts, sorting, binary64 numbers by their bits,
    instants, signatures and encodings, JSON documents.
  - `config`: projects, providers, notification channel, environment, access token.
  - `cloud`: servers and snapshots, the drivers, and Alibaba Cloud: signed requests, replies, pages,
    regions.
  - `notify`: the DingTalk robot.
  - `ops`: rotation of snapshots, expiry, disks, automatic snapshots.
  - `serve`: access, the configuration form, the task queue and its stream.
  - `cli`: arguments, what the commands gather, how they end.
- `app/`: the program: command line, HTTP, files, processes and the web server, whose pages are read
  from the directory `static/`.
- `tests/`: tests of the library.

Functions named `law_…` state what holds of the library as a whole.

The library calls `chrono`, `hmac` with `sha1` and `sha2`, `base64`, `uuid` and `serde_json` through a
few small functions in `time`, `codec` and `json`. What their contracts say of those crates, and what
`text` says of `String::push`, is taken on trust.
