# cfdrop

Deploys a directory to Cloudflare Workers: a temporary account by default,
or your own account with `--own`.

The decisions behind a deploy are a Verus-verified library (`src/`); the
command line, files and network around it are ordinary Rust (`app/`).

- `target` – temporary or own account, the token's source, which visible
  account to use, and whether an existing Worker may be replaced.
- `manifest` – the static-assets manifest: hidden files skipped, size and
  count limits, Cloudflare's asset hash, entries sorted by path.
- `stage` and `md` – Markdown to mobile HTML pages, the generated index,
  HTML escaping, code-block rendering.
- `pow` – the proof-of-work checkpoint chain of temporary-account
  provisioning.
- `cf` – upload buckets, the completion token, response envelopes.
- `deploy` and `state` – Worker names, Basic Auth credentials, reuse of the
  cached account, and the small texts of each command.
- `encoding`, `highlight`, `text`, `order` – SHA-256, base64, syntect and
  character-level helpers.

Each public function states its result in its contract, over spec
functions of the library and, where an outside crate computes part of it
(SHA-256, base64, MIME types, lowercasing, Markdown parsing and HTML
writing, syntax highlighting), over names for what that crate returns. The
laws the library keeps across calls are public proof functions (`lemma_*`).
