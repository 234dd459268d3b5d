# actix-login (verified core)

User identification, authentication and authorization for Actix Web, with
its decisions verified in Verus.

- `src/` is the verified library:
  - `form`: form (`x-www-form-urlencoded`) encoding and decoding, and the
    search for a key in a query string;
  - `redirect`: the login URL that carries the requested URI;
  - `response`: the responses given to denied requests (redirects, default
    and simple handlers);
  - `access`: access decisions, the numbering of permissions by `==`,
    permission matching and request routing;
  - `session`: the authentication state of a session (login, logout, and
    resuming a session from its stored data);
  - `store`: the in-memory table of session records with expiry;
  - `service`: the middleware's parts and its session data key.
- `app/` wires the library to Actix Web and `actix-session`: extractors,
  middleware services, the session store trait, the backend traits that
  applications implement, and the route-protection macros.
- `tests/` exercises the library on concrete values.
