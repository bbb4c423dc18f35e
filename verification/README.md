# Sapper

A lightweight web framework. The library under `src/` is verified with Verus;
`app/` runs it on hyper's server.

- `request`, `response`: the values handlers and middleware work on.
- `target`: splitting a request target into path and query.
- `chain`: the middleware pipeline around each route handler (global init,
  application wrapper, module hooks, handler) and the run that stops at the
  first failing hook.
- `router`: the routes a module declares and the application's route table;
  each method's paths go to a `route-recognizer` router, whose patterns read
  `:name` and `*name` parameters from the path.
- `sapp`: the application builder, module registration and listen address.
- `handler`: the decisions of one connection, from request line to the last
  byte of the response body.
- `statics`: where a static file lies and which media type it is sent with.
