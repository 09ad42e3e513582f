# Kirin Gateway

An API gateway: it takes HTTP requests, decides which route each one takes, filters it and
sends it on to a cluster of upstream nodes. The decisions are a Verus library; the server
around them is ordinary Rust.

## Layout

- `src/config` holds the configuration and its validation.
- `src/data_plane` holds what happens to a request: the routing table with its canary
  releases (`router`), the registry of routes (`router/router_white_list`), the filter chain
  (`filter`), token buckets (`rate_limit`), address lists (`ip`), clusters (`upstream`) and
  the stages of a request (`proxy`).
- `src/control_plane` holds the state of the gateway and how a new configuration changes it
  (`gateway_state`, `reload`, `watch`), and the Admin API (`admin_api`).
- `src/outside.rs` holds every statement about `std` and other crates that is taken on trust.
- `app` is the server: configuration files, sockets, load balancers, metrics and logs.
- `tests` runs the library on concrete values.

## What is proved

Each function states what it returns over mathematical views of its arguments (`model.rs`
beside a module, or the module itself). What holds across functions stands in public proof
functions, in `laws.rs` or at the end of a module. Among them:

- a request takes a route that matches its path, with the pattern that comes first: an exact
  path, then the first declared expression, then the longest prefix, whatever canary releases
  there are;
- of several routes with that pattern, the versions of a service, one is chosen by conditions
  first, then by the cookie of the client, then by weights, each version getting its share;
- removing a route undoes adding it, and no other route is affected by either;
- a token bucket never lets more requests through than its capacity and its refills allow,
  and clients do not affect each other;
- a configuration is accepted exactly if it is sound;
- after each change that succeeds the routes, the registry and the clusters are those of the
  configuration, and what has not changed is kept;
- where no prefix is empty, the registry resolves a path to the first route that matches it:
  always one with the pattern of the route that the request takes, and that very route where
  no version of it is a canary release;
- a protected route asks for a token that is signed with RS256, comes from the configured
  issuer and expires, and each configured claim of it is handed on as a header.
