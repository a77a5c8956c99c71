# rs_ec

The core of RS-EC, a small EC-CUBE style shop back end, written in Verus:
the access rules of the product catalogue, carts, favourites, reviews,
orders, checkout and account requests, each with a contract that Verus
proves.

- `src/` — the verified library (`rs_ec`).
  - `access` — who may view or edit the catalogue; bearer tokens.
  - `accounts` — registered e-mails and requests for access.
  - `email_map` — a map keyed by e-mail (no e-mail twice).
  - `cart`, `checkout` — carts, the cart view, and checkout.
  - `products`, `categories`, `favorites`, `reviews`, `order` — the stores.
  - `query` — the `category=` and `approved_only=true` query parameters.
  - `text` — white space and trimming as `str::trim` does it.
  - `records`, `seq_util` — lookups by id and facts about sequences.
- `tests/` — tests of the library.
- `app/` — the HTTP server (poem), JSON files, sessions, and the average
  rating (floating point).
