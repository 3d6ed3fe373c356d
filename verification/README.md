# pandora_web

Request handling modules of a web server, with contracts that Verus proves:

- standard responses (`standard_response`) for error pages and redirects,
- a rewrite module (`order`, `router`, `configuration`, `handler`) that applies the most specific of a list
  of rules to a request,
- HTTP Basic authentication (`basic`, `encoding`), as a sequence of steps between which the rate
  limits are checked and the login is validated,
- the settings of a server for static content (`static_root`).

`src/` decides what should happen to a request, `app/` performs it on a session. What `src/` takes
from other crates (header collections, address parsing, regular expressions, Base64, escaping) is
called through functions marked `external_body`, each of which says what it expects of the call.
