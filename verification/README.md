# rest_client_lsp

The logic of a language server for `.http` request files, verified with Verus.

- `src/` is the library. Its functions carry contracts over `Seq<char>`, `Map` and the state
  machines that the modules define, and the public `lemma_*` functions state what holds of
  several of them together.
- `tests/` runs the library, with the crates that it calls linked in.
- `app/` is the server and the command line around it: files, the editor, the clock. It is
  generic over an `Engine`, which reads request files, resolves references and speaks HTTP.

| Module | Contents |
| --- | --- |
| `text`, `numbers`, `table` | text, numerals and maps from names to values |
| `json`, `uris` | the calls into `serde_json`, `url` and paths |
| `model`, `protocol` | requests, responses, variables; what an editor is told |
| `formatter` | responses as text |
| `cursor`, `handler` | references under the cursor; documents, lenses, hovers, sending |
| `commands` | the commands of the server and their replies |
| `responses`, `saving` | response files: names, places, addresses; writing and showing them |
| `dependencies`, `session` | references between requests; sending from the command line |
| `cli`, `cache` | arguments and conversions; what is kept between runs |
