# odoo_features

Two features of a language server for Odoo, written in Rust and verified with Verus:

- `override_markers`: for a Python file, which methods of its model classes override methods of
  the same model in the modules that its module depends on, and which are overridden by methods in
  modules that depend on it. The markers are sent to the client.
- `xml_ast_utils`: for an XML data file and a cursor, the classes, fields and records that the
  cursor points at, and the part of the file that is the link to them.

Both read a `session`: the symbols, models and XML records that the server knows, held as tables.

| module | contents |
| --- | --- |
| `session` | what the server knows, and the messages to the client |
| `lsp` | positions in the client's terms |
| `override_markers` | what the markers of a file are, and their computation |
| `xml_node` | XML trees, and how a document parsed by roxmltree becomes one |
| `references` | which references lie under the cursor, and what they refer to |
| `view_model` | the model of an inheriting view |
| `xml_ast_utils` | the search itself |
| `marker_laws`, `search_laws` | what holds of the two features as a whole |
| `text`, `seqs` | strings and sequences |

`app/` holds what talks to the client: the messages as they go over the wire, and the conversion
of markers into them.
