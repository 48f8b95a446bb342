# mail_triage

A service that watches Gmail inboxes for priority mail. Users sign in with
Google; keyword rules (a content phrase, a sender address or domain, or both)
decide which unread messages count as priority mail; matches are stored with a
notification and listed through a cursor-paginated API. Clients authenticate
with a session cookie, a bearer JWT or a scoped API key, and the sign-in and
refresh endpoints are rate limited per IP.

## Layout

- `src/` is the verified library (Verus). Each module states its behaviour in
  `requires`/`ensures` contracts over mathematical models and proves it:
  - `keywords`: rule matching and classification;
  - `crawler`: reading Gmail headers and deciding what a matching message stores;
  - `priority_mail`: opaque cursors and pages of newest-first rows;
  - `security`: the per-IP sliding-window rate limiter;
  - `auth`, `middleware`, `api_keys`: signed access tokens, refresh-token issue
    and rotation, session cookies, token selection, API key format and checks;
  - `text`, `ids`, `timestamp`, `codec`, `secrets`, `jwt`: text operations,
    UUIDs, instants, Base64/UTF-8, Argon2/random tokens and JWT signing; the calls
    into `uuid`, `chrono`, `base64`, `rand`, `argon2`, `jsonwebtoken` and
    `serde_json` sit behind small trusted wrappers
    whose contracts say what those crates do.
- `tests/` exercises the library on concrete values.
- `app/` is the HTTP server (axum), the database layer (sqlx), the Gmail and
  Google OAuth clients (reqwest); it calls the library for every decision.
