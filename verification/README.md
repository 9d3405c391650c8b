# ikigai-fs

A capability-gated **file/store module** for ikigai, with its decisions verified in Verus.

Files are the most dangerous endpoint in a system, so access is confined by two independent
layers, both required on every request:

1. **The jail (structural, mount-time).** `FileEndpoint::new(root)` never serves a path outside
   `root`: `..` and absolute segments are rejected, and an existing target's canonical path must
   still sit within the canonical root. Where there is no target yet, the same goes for its nearest
   ancestor that is there, and for where a write through a link would make it. Even a root
   capability cannot escape it.
2. **The capability path-ACL (dynamic, per request).** The capability of the invocation must grant
   the action on the resolved path.

## Capability scopes

Carried as `urn:cap:fs:<action>:<path>`, where `<action>` is `read`, `write` or `delete` and
`<path>` is an absolute directory or file. A leading `-` marks a deny.

| scope | effect |
|-------|--------|
| `urn:cap:fs:read:/ws` | read anything under `/ws` |
| `urn:cap:fs:read:/ws/public` (only) | allowlist: read just that subtree |
| `urn:cap:fs:read:/ws` + `urn:cap:fs:read:-/ws/secret` | read `/ws` except `secret` |

Longest prefix wins: the most specific rule whose directory contains the path decides, however the
directory is spelled. A deny breaks ties, and no rule means no.

## Layout

- `src/` holds the verified library: paths (`path`), the ACL (`acl`), the endpoint (`endpoint`),
  representations (`representation`), the browser store's items (`browser`), and the laws (`laws`).
  `kernel` holds what is taken on trust of `ikigai_core`, and `text` the one such item of std.
- `app/` binds the library to the kernel and does the work on the store: `std::fs` on native
  hosts, `localStorage` in the browser.
- `tests/` runs both the library and the kernel on concrete values, and holds paths against
  `std::path`.

Paths are slash-separated UTF-8 text, as on Unix hosts and in the browser. A host with other
separators is refused at mount time.
