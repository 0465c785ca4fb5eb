# openapi_fdw

A verified library for an OpenAPI foreign data wrapper for PostgreSQL and its
control plane. The library (`src/`) holds the logic, each function with a
contract proved by Verus:

- `options`, `server`, `table`, `option_map`: reading foreign-server and
  foreign-table options into configurations.
- `openapi`: turning an OpenAPI 3.x document into foreign tables and the SQL
  that creates them.
- `http`, `urls`: request URLs and headers, next-page URLs, retry decisions
  and response checks.
- `response`: finding rows and the next-page token in a response.
- `fdw`: scan planning, paging, row projection and value conversion.
- `control`: the control plane's source definitions, generated SQL,
  credentials and database-operation decisions.
- `json`, `text`, `sorting`, `error`: shared values and text operations.

`app/` is the control-plane service (HTTP routes, PostgreSQL access, pages)
and the HTTP transfers of the wrapper: redirects are judged by
`http::redirect_step`, `IMPORT FOREIGN SCHEMA` on a fetched document is
`fdw::import_schema`, and what a value that PostgreSQL's own parser rejects
becomes is `fdw::settle_cell`. Floating-point parsing stays in `app/`.
`tests/` exercises the library.
