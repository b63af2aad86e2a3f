# eusei

An HTTP/JSON gateway to the SOAP web services of the SEI (and of its
permission system, the SIP), for read-only queries.

- `src/` is the library, verified with Verus: the configuration, the Bearer
  check, the SOAP envelopes and the reading of the answers, the cache's
  decisions and keys, the parameters of every query, the plan of a timeline
  query in batches and the merging of their answers, the stream of a
  timeline query, and the documents and publications read off a timeline.
- `app/` is the program around it: the axum server, the HTTP calls with
  reqwest, the moka caches and the request context, the server-sent events.
- `tests/` runs the library on concrete values.
