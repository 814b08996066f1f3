# reality

Values, property maps and interning for compiled runmd data, with the
attribute containers, visitors, TOML import and export, menus, packet routes
and blob digests built on them. The library under `src/` is verified with
Verus; `app/` holds the edges that do I/O or speak an outside format.

## Layout of `src/`

- `value`: the `Value` enum (floats held by their bits) and its readers.
- `symbol_set`, `order`: ordered sets of strings (the members of a complex),
  ordered by their UTF-8 bytes.
  Property maps and string sets are sorted vectors with their order as a
  type invariant: with `String` keys, vstd's specifications of `BTreeMap`
  and `BTreeSet` give nothing about the order of the keys to reason with.
- `hashing`: the default hasher's digests that key symbols, complexes and
  references.
- `interner`: symbols and complexes by key; merging; the interner of a
  property map.
- `properties`: `Identifier`, `Property` and `Properties`, a map kept in name
  order.
- `visitor`: the `Visitor` and `Visit` traits and the library's visitors.
- `action`: actions, action buffers, roots and documentation.
- `block`: blocks, packets and the block list that packets build.
- `container`: attribute value containers and comma separated integers.
- `text`, `codec`: string trimming and parsing, base64.
- `toml_value`: values written to and read from TOML, and blob information.
- `document`: building the TOML document of property maps and roots.
- `toml_doc`: TOML properties loaded from the text of a document, with its
  `properties`, `block` and `root` tables made sure of.
- `links`, `thunk`, `menu`, `routes`, `digest`: entity links, thunk types and
  traits, menus and commands, packet routes, SHA-256 blob addresses.
- `laws`: properties that relate several operations, proved.

## `app/`

Reading local blob files and TOML files, converting to and from `toml_edit`, serde records
of values and blobs, digesting files and printing documentation.
