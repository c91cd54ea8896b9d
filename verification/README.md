# solution_view

A "Solution Explorer" for C#/.NET projects, verified with Verus: it reads `.sln`, `.csproj` and
`.asmdef` files, searches a worktree for solutions, and builds the tree that an editor's project
panel shows (solutions, their projects, dependencies and source files). It also resolves the
panel's settings and keeps the registry of view providers.

- `src/` is the library. Every function has a contract, and the laws that relate several functions
  are stated as public proof functions at the end of each module.
- `tests/` runs the library on concrete inputs.
- `app/` hooks the library into the editor: it reads files and worktrees, and hands plain values to
  the library.

## What is trusted

XML and JSON are read by `quick_xml` and `serde_json`. Of the standard library, lower-casing a text
(`str::to_lowercase`) and appending a character to a string (`String::push`) are taken on trust.
The items that call or specify these functions are in `src/xml.rs`, `src/json.rs` and `src/text.rs`,
each with a contract that says what is taken over from the outside function. The rest is proved,
from these contracts and those that Verus's own library gives to the standard library.

Whether a path is acceptable as a relative path is for the editor to say. Nodes are built with the
paths that the files name; `provider::check_paths` and `extension::nodes_from_extension` take the
editor's answers.
