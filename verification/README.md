# naven

A verified library that turns the TOML description of a Maven project
(`pom.toml`) into the XML of a `pom.xml`, and the command line tool around it.

- `src/toml_model.rs`: TOML values and tables; tables keep their entries
  ordered by key.
- `src/xmlwriter.rs`: an indenting XML writer and the model of what each of its
  operations writes; writing of TOML tables as XML elements.
- `src/project.rs`: the project, its properties, repositories, dependencies and
  plugins, and how each is written.
- `src/parse.rs`: reading a project from a table, with the error for every
  refused input.
- `src/laws.rs`: properties of the library as a whole, proved.
- `src/cli.rs`: the decisions and texts of the command line tool.
- `src/text.rs`: character-level helpers.
- `app/main.rs`: the command line tool (files, processes, TOML parsing).
