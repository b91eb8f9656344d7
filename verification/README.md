# codex_switcher

Account and credential storage for the Codex account switcher, written in Verus.

Accounts live in an `AccountsStore`. Their secrets (API keys and ChatGPT OAuth
tokens) are kept in the operating system's credential store through the `keyring`
crate; the accounts file only ever holds metadata and empty credential fields.
ChatGPT tokens are split into chunks that fit one credential entry each, and a
small JSON manifest lists the chunks of the active generation and of the stale
generations still to be removed.

Layout:

- `src/` — the verified library: the store operations (`store`), the disk form
  of the store (`disk`), credential reads and writes (`credentials`,
  `keyring_store`), the manifest format and its JSON codec (`manifest`, `json`), reading records in any
  JSON layout through `serde_json` (`json_items`),
  chunking (`chunks`), entry names (`names`), generation ordering
  (`generations`), id-token claims (`claims`), file locations (`paths`), and
  fresh ids and the clock (`platform`).
- `tests/` — tests of the library, some of which use the platform's credential
  store.
- `app/` — the file-system side: locating the home directory, reading and
  writing `accounts.json` and `settings.json` with serde, and the account
  operations that load the store, change it through the library and save it.
