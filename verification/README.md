# schema_evolution

Changes to the schemas of Delta tables, verified with Verus.

A change adds a nullable column, or lets a column hold nulls. The column may be nested in structs,
arrays and maps. Changes are made in order, each on the schema that the ones before it left, and the
schema that they lead to is checked as a whole. In tables that map their columns, added columns get
column mapping ids and physical names.

- `evolution` makes the changes: `apply_schema_operations` to a schema, `evolve_table_config` to a
  table. Each has a variant that takes the physical names to hand out, with which its result is a
  function of its arguments.
- `schema`, `column_name`, `string_map`, `table_configuration` and `error` hold the data.
- `column_mapping` and `validation` hold the rules.
- `text` holds what is needed of strings.
- The modules whose names end in `_laws` state and prove what holds of changes as a whole.

Not proved, but believed: that `str::to_lowercase` and the `Debug` form of `str` are functions of
the text (with the ASCII case of the former spelled out), and that `uuid::Uuid::new_v4` writes a
version 4 UUID.
