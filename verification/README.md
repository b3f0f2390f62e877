# contract_metadata_injection

A gateway policy that makes a data product's output port self-describing. Given the id of a schema
asset in Informatica CDGC, it derives the asset's governed identity from the catalog and stamps it
onto responses as `x-dp-*` headers. It only adds headers, and it fails open: an outage of the catalog
degrades to `x-dp-metadata-status: unavailable`.

`src/` is the verified library:

- `text`, `number`, `ordered`, `fields`: text, decimal numbers, ordered maps and header fields
- `json`: the JSON values that are read and written, over `serde_json`
- `clock`, `config`: the time budget of a refresh, and the configuration
- `cdgc`: request-target encoding, the path resolver and the cached types
- `calls`, `auth`, `search`: what is sent to the catalog, and what is made of its answers
- `summary`, `survey`: the searches behind a summary, and the header fields that follow from them
- `cache`, `single_flight`: the metadata cache and the refresh lock, and their laws under interleaving
- `claims`: the claims of a bearer token, over `pdk`
- `policy`: what is decided on a request and stamped on its response

`app/` is the policy around it: the filters, the HTTP calls and the stores of the gateway.
