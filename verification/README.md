# jellyswarrm

The logic of a proxy that federates several Jellyfin servers behind one
address, written in Verus: what each operation does is stated in `requires` and
`ensures` and proved.

- `src/` is the library. It decides: which backends are asked, how listings are
  merged, which title is the same on two servers, which users are created
  where, who is signed in through an identity provider, and what is answered.
- `app/` is ordinary Rust around it: HTTP, storage, clocks and sessions. It
  performs what the library asks for and hands back how it went.
- `tests/` runs the library on concrete values.

Multi-step operations are state machines. A stage says what is to be done next
and carries what that takes; a reply leads to the next stage. The laws about
them speak of every sequence of replies.

Modules by subject:

| Subject | Modules |
| --- | --- |
| Listings over all backends | `federated`, `merging`, `view_merge`, `items`, `versions` |
| Backends | `client`, `match_key`, `backend_health` |
| Watched state | `watched_sync`, `sync_runs`, `sync_queue` |
| Users on the backends | `federated_users`, `device_sessions` |
| Single sign-on | `oidc`, `oidc_storage`, `sso`, `sso_pages`, `admin_sso` |
| At the boundary | `validation`, `rate_limiter`, `server_nav` |
| Shared | `text`, `json`, `urls`, `sorting` |

Functions marked `#[verifier::external_body]` call another crate; the comment
above each says what is believed of that call.
