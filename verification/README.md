# chatvault

A chat archive for WhatsApp exports: it imports `.txt` and `.zip` exports
(uploaded, dropped in an import directory, or attached to mails), stores the
files in S3 or a directory tree, keeps the messages in PostgreSQL, and serves
them over an HTTP API.

The logic lives in `src/`, written in Verus and verified:

- `parser` reads chat exports: header lines open messages, other lines
  continue them; dates are read with chrono, lines matched with `regex`.
- `storage` forms object keys and the paths of the file-system store.
- `response` pages listings and sums up months; `datetime` holds dates.
- `routes` decides names, keys, paging windows and import rows.
- `email` and `config` turn settings into configurations and pick the
  attachments of a mail to import.
- `text` holds the character-level helpers the rest is built on.

`app/` is the server around it: environment, database, S3, IMAP, HTTP.

Configuration (environment):

- required: `DATABASE_URL`, `S3_ENDPOINT`, `S3_BUCKET`, `S3_ACCESS_KEY`,
  `S3_SECRET_KEY`
- optional: `BIND` (`0.0.0.0:8080`), `S3_REGION` (`us-east-1`),
  `CHATVAULT_PUBLIC_DIR` (`/app/public`), `CHATVAULT_SCRATCH_DIR`
  (`/tmp/chatvault`), `CHATVAULT_IMPORT_DIR` (`/opt/chatvault/import`),
  `CHATVAULT_BUCKET_PROVIDER` (`s3` or `filesystem`), `CHATVAULT_BUCKET_ROOT`,
  `CHATVAULT_MSGPARSER_DATEFORMAT`, and the `CHATVAULT_EMAIL_*` settings of
  the mail importer.
