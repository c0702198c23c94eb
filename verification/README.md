# FurDB

A small database whose tables pack every entry into a fixed number of bits,
column by column, most significant bit first, with no header and no
delimiter. It is served over gRPC (`furdb.FurDb`).

## Layout

- `src/` — the library, verified with Verus:
  - `packing` — the bit layout of entries, with its encode/decode round trips;
  - `decimal`, `text` — values as decimal strings, and the refusal messages
    that echo them (cut at a character boundary);
  - `table`, `engine` — tables, databases and the engine, modelled as maps
    from ids to column widths and entries;
  - `proto`, `response`, `operations`, `server` — the request and response
    messages, and how each request is answered;
  - `laws` — properties that span calls: deletes, queries, inserts, refusals.
- `tests/` — scenario and unit tests.
- `app/` — the program: command line, gRPC transport, and keeping the engine
  on disk under the working directory.

## Running

```sh
furdb --workdir /furdb serve --port 5678
```

`WORKDIR` and `PORT` may be set in the environment instead.
