# overload

A load generator for HTTP services that works alone or as a cluster of nodes. A test says what is
sent (a list of requests, a file of them, random data by a schema, a template), how many requests
and connections there are in each second, and what every response has to look like.

The logic is a library that Verus verifies:

- `schema`, `keywords`, `generate`, `pattern`, `external_data`: schemas, and the random data that
  fits them; `schema_laws` shows that schemas survive being written and read again.
- `template`, `template_functions`, `pointer`: JSON templates; `template_laws` shows that filling
  one in changes the expressions and nothing else.
- `request`, `request_specs`, `file_path`, `url_params`, `upload`: tests, and where their requests come
  from.
- `rate_spec`, `generator`, `cycle`: what is sent in which second.
- `distribution`, `split_request`, `session`, `executor`: how nodes share the work.
- `pool`, `pool_metrics`, `exchange`, `metrics`: connections, single requests, and what is measured.
- `response_assert`, `path_safety`, `lua`: checks of responses.
- `jobs`, `job_ids`, `routing`, `http_api`, `config`: what users see.
- `json`, `text`, `text_map`, `serde_bridge`, `random`: what the rest stands on.

`app/` is the program around the library: the HTTP interface, sockets, databases, the cluster, and
everything that needs floating point. `tests/` runs the library.
