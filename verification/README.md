# tg_storage

Encrypted file storage on top of a chat service. Files are cut into parts, each part is sealed with
AES-256-GCM under a key derived from a password with Argon2, and sent to a chat. A SQLite catalogue
keeps folders, files, parts and thumbnails.

The library under `src/` is written in Verus. Functions have contracts, all but the call for random
bytes, of which nothing is promised. The laws (public proof functions named `law_*`) state what holds
across functions.

- `chunk`: cutting a file into numbered, hashed chunks and putting them together again.
- `crypto`: deriving keys, sealing and opening chunks.
- `transfer`: sending a file, fetching it, and its thumbnail, step by step.
- `walk`: going through folders on disk and in the catalogue.
- `storage`: the records of the catalogue and the SQL statements put to it.
- `gateway`: what the answers of the chat service mean.
- `gui`: the state of the window, its messages and what it shows.
- `external`: the calls into other crates, with what is trusted of each.
- `text`: numbers and texts.

Reading, sending, fetching and recording are outside of the library: its types say what is to be done
next and take in what came of it. `app/main.rs` is the command line around it, `app/gui.rs` the
window, which needs the `iced` crate (and `rfd` on Windows) besides those in `Cargo.toml`. Both read
`BOT_TOKEN` and `CHAT_ID` from the environment and keep the catalogue in `storage.db`.
