# pipe_cli

A client library for Pipe Network accounts and prepaid credits, verified with Verus,
and the `pipe` command-line client built on it.

## Layout

- `src/` — the verified library.
  - `text.rs`: trimming and splitting as `str` does them, decimal digit strings.
  - `amount.rs`: USDC amounts typed by the user, exact token amounts, Solana Pay links,
    transaction signatures pasted by the user.
  - `config.rs`: base URLs given by the user, the `config` subcommands, the API base URL
    of a run.
  - `credentials.rs`: the saved credentials, token expiry and refresh, authentication
    headers.
  - `jwt.rs`: the user id in an access token.
  - `wallet.rs`: Ed25519 wallet keys, the keypair file, signing.
  - `siws.rs`: Sign In With Solana requests and the credentials kept afterwards.
  - `credits.rs`: the credits balance endpoints and the user input of a top-up.
  - `types.rs`: the data exchanged with the API and kept in the config file.
- `tests/` — tests of the library on concrete values.
- `app/` — the command-line client: argument parsing, files, HTTP, printing.

Calls into `url`/`reqwest`, `chrono`, `base64`, `serde_json`, `ed25519-dalek`, `rand`
and `bs58` stand behind small functions marked `#[verifier::external_body]`, each with
a doc comment saying what its contract claims of the outside function.
