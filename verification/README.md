# mysqlssl_plugin

A MySQL plugin that speaks JSON-RPC over stdin/stdout, with TLS options for
its connections. The rules of the plugin live in a library verified with
Verus; a thin program around it does the I/O.

- `src/` – the verified library
  - `text.rs`: character-level helpers (decimal text, splitting, trimming,
    searching, upper-casing) with their specifications
  - `common.rs`: the BLOB wire format (`BLOB:<size>:<mime>:<base64>` and
    `BLOB_FILE_REF:<size>:<name>:<path>`), encoding and decoding
  - `config.rs`: plugin configuration, merging of file and runtime settings,
    path resolution
  - `models.rs`: the data types exchanged with the host
  - `pool_manager.rs`: SSL mode selection, pool keys, connection settings
  - `mysql.rs`: SQL statement builders, identifier quoting, query planning
    and pagination, row decoding, grouping of catalogue rows by table
  - `rpc.rs`: method names and error codes of the JSON-RPC surface
- `app/` – the program: stdin/stdout loop, JSON (de)serialisation, database
  access through sqlx, file access
- `tests/` – tests of the library on concrete values
