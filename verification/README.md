# guided_review

Generates one self-contained Guided Review HTML page for one GitHub pull
request, from a review written as JSON.

`src/` is the verified library (Verus):

- `pull_request` — `OWNER/REPO#NUMBER` references: parsing with its exact
  error, `Display` text, GitHub URL, and the proof that parsing what
  `Display` writes gives the reference back.
- `review` — the review types and their rules (no blank text, every claim
  backed by code, excerpts as long as their line ranges, no approval with
  blockers). `GuidedReview::validate` returns the exact list of broken
  rules, each with the path of the offending value.
- `report` — validation reports, paths such as `thesis.evidence[0].code`,
  and the report text.
- `serve` — which file below the served directory a request target names
  (no dot segments, no backslashes) and its content type.
- `generate` — where the review body is read from and where the page goes.
- `text` — whitespace, decimal numbers and `str::lines`, each against a
  short specification.

`app/` is the command-line program around it: argument parsing (clap),
reading the JSON (serde_json, serde), the schema shown by `generate --help`
(schemars), rendering the page (handlebars), writing files, and the local
preview server.
