# Multiparty Payjoin

The session layer of multiparty Payjoin, verified with Verus.

An initiator invites responders with a BIP-321 URI. Each responder posts a reply key to the
initiator's mailbox in a Payjoin Directory, through an OHTTP relay. A session creator collects the
sessions that await parameters, fixes the session parameters and delivers them to every participant.
A participant then plans its inputs and outputs, and executes the plan action by action. Every role
writes what happens to an event log, from which it is rebuilt.

## Layout

- `src/` is the library. Every function states what it returns in `requires` and `ensures`, and
  functions named `law_..` state what holds of several of them together.
  - `multiparty/` holds the roles, their event logs, session parameters, invitations and the linked
    mailboxes.
  - `append_mailbox.rs` frames and seals messages for append-only mailboxes.
  - `ohttp.rs`, `hpke.rs`, `bech32.rs` and `directory.rs` stand between the library and the crates
    that encrypt, encode and hash. What they claim of those crates is said above each function
    marked `external_body`.
  - `uri.rs`, `url.rs`, `hex.rs`, `text.rs`, `bytes.rs` and `time.rs` hold the formats.
  - `persist.rs` holds transitions and the persisters they are saved to.
  - `reply_error.rs` and `error_codes.rs` hold the errors that are replied as JSON.
  - `nostr_db.rs` keeps mailbox payloads as events of a nostr relay.
  - `ohttp_directory.rs` answers requests as a directory does, for tests.
- `tests/` runs the library with the crates it stands on.
- `app/` is ordinary Rust around the library: HTTP clients, errors as std has them, and stored
  events.
