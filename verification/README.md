# gdb_core

Reading and writing ESRI File Geodatabase (`.gdb`) tables, verified with Verus.

## Layout

- `src/` — the verified library:
  - `io` — little-endian words, LEB128 and ESRI variable-length integers, UTF-16 text;
  - `geometry` — geometry blobs in precision-grid units (points, multipoints, polylines,
    polygons);
  - `field`, `value` — field types and definitions, schemas, field values, dates, UUIDs;
  - `table` — the `.gdbtable` / `.gdbtablx` codecs: field descriptions, rows, the index,
    reading a table from its bytes and writing it back; access to rows in memory;
  - `catalog`, `workspace`, `feature_dataset`, `cursor` — the system catalog and item
    registry, the workspace's items, feature datasets, query filters and the walk of a
    cursor through the rows it selects;
  - `builder` — the system tables and registry rows of a new geodatabase;
  - `xml`, `text` — `Definition` XML fragments and text helpers.
- `app/` — the `gdb` command-line tool and what needs files, shared mutable handles or
  floating point: opening and flushing tables on disk, feature class / table / row /
  cursor / edit session handles, real-coordinate geometries.
- `tests/` — tests of the library.

Floating-point values are held by their IEEE-754 bit patterns; geometries are held in
precision-grid integers. The conversions to real numbers live in `app/`.

## Laws proved

- varuint / ESRI varint and UTF-16 round trips (`io`);
- geometry blob round trip (`geometry::roundtrip::law_geometry_roundtrip`);
- value and row round trips (`table::row_roundtrip::law_value_roundtrip`,
  `law_row_roundtrip`);
- field description round trip (`table::desc_roundtrip::law_field_def_roundtrip`);
- schema and whole-table round trips (`table::file_roundtrip`);
- field / geometry type codes (`field`);
- calendar conversions, and every day count gives a valid date (`value`);
- fresh object IDs on insert (`table::access::law_next_oid_fresh`), and an insert keeps
  rows and slots one-to-one with object ID = slot + 1 (`Table::insert_row`);
- every table operation keeps one value per field in each row (`table::rows_fit`, in the
  operations' contracts);
- UUID text read back by a UUID field (`table::uuid_text::law_uuid_text_roundtrip`);
- tables, feature classes and feature datasets registered by the builder are enumerated
  (`catalog_roundtrip`); an item's name is the last part of its path and its feature
  dataset the part before; rows without a path, and workspaces and folders, give no item
  (`catalog_roundtrip::law_item_*`);
- the feature classes, tables and feature datasets of a workspace together number as many
  as its items (`workspace::law_kinds_cover_items`);
- a query selects its matching rows in ascending order, and a cursor walks them one by one
  and then stops (`cursor::law_selected`, `cursor::law_walk`).
