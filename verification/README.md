# ds_sql_dps

Exposes a local file as a dataspace data offer: the provider side of the
Data Plane Signaling API (START/TERMINATE), a DCAT/ODRL description of the
file kept as RDF triples in an embedded Oxigraph store, and a public
endpoint that re-evaluates the ODRL policy on every request.

The library under `src/` is verified with Verus:

- `graph` — the configuration graph: seeding an offer as triples, and
  reading back its file path, media type and policy document; `rdf` holds
  the plain-value model of terms and triples and the trusted wrappers
  around the store.
- `roundtrip` — what a read gives back of a seeded offer, proved over the
  stored triples; `isolation` — seeding one dataset leaves every read of
  another as it was.
- `json` — the JSON text of the policy document and of a data-offer
  document, as UTF-8 bytes.
- `tokens`, `handler`, `public` — bearer tokens, the signaling decisions,
  and the decisions of the public endpoint.
- `config`, `registration`, `connector` — configuration values, control
  plane registration, and the connector view of the offer.
- `decimal`, `sort`, `vocab`, `offer`, `policy` — supporting pieces.

`app/` is the unverified program around it: environment, HTTP server,
policy engine calls, file reads and the HTTP client.
