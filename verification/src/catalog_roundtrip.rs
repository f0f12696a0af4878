//! The catalog's round trip: an object that [`crate::builder::CatalogBuilder`] registers is
//! enumerated from the registry row it writes, with its name, path, kind, geometry type,
//! file number and feature dataset.
use vstd::prelude::*;
use crate::catalog::{
    bs_prefix, split_state, segments, classify, types_of, to_map, map_get, CatalogItemType, CatalogItemView,
    ItemColumns, item_of_row, file_id_of, text_of_value, int_of_value, opt_text, col,
};
use crate::text::{trim_start, ws_prefix, starts_with, is_ws};
use crate::field::{GeometryType, geometry_type_of, FieldDef, first_named, opt_index, fields_view};
use crate::value::ValueView;
use crate::builder::{
    item_row, uppercase, items_schema_view, table_definition_text, dataset_definition_text, feature_class_definition_text, type_folder_bytes,
    type_workspace_bytes, type_feature_class_bytes, type_table_bytes, type_feature_dataset_bytes,
};

verus! {

// ---------------------------------------------------------------------------
// Paths
// ---------------------------------------------------------------------------

/// Whether a text holds no backslash.
pub open spec fn no_backslash(s: Seq<char>) -> bool {
    forall|i: int| 0 <= i < s.len() ==> s[i] != '\\'
}

/// Splitting a text without backslashes keeps no part and stays at its start.
proof fn lemma_split_plain(s: Seq<char>, n: nat)
    requires
        n <= s.len(),
        no_backslash(s.subrange(0, n as int)),
    ensures
        split_state(s, n) == (Seq::<Seq<char>>::empty(), 0nat),
    decreases n,
{
    if n > 0 {
        assert(s.subrange(0, n - 1) =~= s.subrange(0, n as int).subrange(0, n - 1));
        lemma_split_plain(s, (n - 1) as nat);
        assert(s.subrange(0, n as int)[n - 1] == s[n - 1]);
    }
}

/// Splitting `pre + t` where `t` has no backslash adds nothing to what splitting `pre`
/// gives.
proof fn lemma_split_tail(s: Seq<char>, m: nat, n: nat)
    requires
        m <= n <= s.len(),
        no_backslash(s.subrange(m as int, n as int)),
    ensures
        split_state(s, n) == split_state(s, m),
    decreases n,
{
    if n > m {
        assert(s.subrange(m as int, n - 1) =~= s.subrange(m as int, n as int).subrange(0, n - 1 - m));
        lemma_split_tail(s, m, (n - 1) as nat);
        assert(s.subrange(m as int, n as int)[n - 1 - m] == s[n - 1]);
    }
}

/// A path of one name: `\name`.
pub proof fn lemma_path_one(name: Seq<char>)
    requires
        name.len() > 0,
        no_backslash(name),
    ensures
        bs_prefix(seq!['\\'] + name) == 1,
        (seq!['\\'] + name).subrange(1, (seq!['\\'] + name).len() as int) == name,
        segments(name) == seq![name],
{
    let p = seq!['\\'] + name;
    assert(p.drop_first() =~= name);
    assert(name[0] != '\\');
    assert(bs_prefix(name) == 0);
    assert(p.subrange(1, p.len() as int) =~= name);
    assert(name.subrange(0, name.len() as int) =~= name);
    lemma_split_plain(name, name.len());
    assert(segments(name) =~= seq![name]);
}

/// A path of a feature dataset and a name: `\dataset\name`.
pub proof fn lemma_path_two(d: Seq<char>, name: Seq<char>)
    requires
        d.len() > 0,
        name.len() > 0,
        no_backslash(d),
        no_backslash(name),
    ensures
        bs_prefix(seq!['\\'] + d + seq!['\\'] + name) == 1,
        (seq!['\\'] + d + seq!['\\'] + name).subrange(1, (seq!['\\'] + d + seq!['\\'] + name).len() as int)
            == d + seq!['\\'] + name,
        segments(d + seq!['\\'] + name) == seq![d, name],
{
    let p = seq!['\\'] + d + seq!['\\'] + name;
    let raw = d + seq!['\\'] + name;
    assert(p.drop_first() =~= raw);
    assert(raw[0] == d[0]);
    assert(bs_prefix(raw) == 0);
    assert(p.subrange(1, p.len() as int) =~= raw);
    let k = d.len();
    assert(raw.subrange(0, k as int) =~= d);
    lemma_split_plain(raw, k);
    assert(raw[k as int] == '\\');
    assert(split_state(raw, k + 1) == (seq![raw.subrange(0, k as int)], k + 1));
    assert(raw.subrange((k + 1) as int, raw.len() as int) =~= name);
    lemma_split_tail(raw, k + 1, raw.len());
    assert(segments(raw) =~= seq![d, name]);
}

// ---------------------------------------------------------------------------
// Definitions and item types
// ---------------------------------------------------------------------------

/// A definition that starts with `<` has no leading whitespace.
proof fn lemma_trim_start_tag(def: Seq<char>)
    requires
        def.len() > 0,
        def[0] == '<',
    ensures
        trim_start(def) == def,
{
    assert(!is_ws('<'));
    assert(ws_prefix(def) == 0);
    assert(def.subrange(0, def.len() as int) =~= def);
}

/// A stand-alone table's definition classifies it as a table.
pub proof fn lemma_classify_table(name: Seq<char>, ds2: i32)
    ensures
        classify(table_definition_text(name), "Table"@, ds2) == Some((CatalogItemType::Table, GeometryType::NoGeometry)),
{
    reveal_strlit("<DETable><Name>");
    reveal_strlit("</Name></DETable>");
    reveal_strlit("<DEFeatureDataset");
    reveal_strlit("<DEFeatureClass");
    reveal_strlit("<DETable");
    reveal_strlit("Table");
    reveal_strlit("Feature Dataset");
    reveal_strlit("Feature Class");
    let def = table_definition_text(name);
    assert(def[0] == '<');
    lemma_trim_start_tag(def);
    assert(!starts_with(def, "<DEFeatureDataset"@)) by {
        if def.len() >= 17 {
            assert(def.subrange(0, 17)[3] == 'T');
        }
    }
    assert(!starts_with(def, "<DEFeatureClass"@)) by {
        if def.len() >= 15 {
            assert(def.subrange(0, 15)[3] == 'T');
        }
    }
    assert(def.subrange(0, 8) =~= "<DETable"@);
    assert("Table"@ != "Feature Dataset"@) by {
        assert("Table"@.len() != "Feature Dataset"@.len());
    }
    assert("Table"@ != "Feature Class"@) by {
        assert("Table"@.len() != "Feature Class"@.len());
    }
}

/// A feature dataset's definition classifies it as a feature dataset.
pub proof fn lemma_classify_dataset(name: Seq<char>, ds2: i32)
    ensures
        classify(dataset_definition_text(name), "Feature Dataset"@, ds2)
            == Some((CatalogItemType::FeatureDataset, GeometryType::NoGeometry)),
{
    reveal_strlit("<DEFeatureDataset><Name>");
    reveal_strlit("<DEFeatureDataset");
    let def = dataset_definition_text(name);
    assert(def[0] == '<');
    lemma_trim_start_tag(def);
    assert(def.subrange(0, 17) =~= "<DEFeatureDataset"@);
}

/// A feature class's definition classifies it as a feature class of the geometry type of
/// its subtype.
pub proof fn lemma_classify_feature_class(name: Seq<char>, gname: Seq<char>, srs: Seq<char>, ds2: i32)
    ensures
        classify(feature_class_definition_text(name, gname, srs), "Feature Class"@, ds2)
            == Some((CatalogItemType::FeatureClass, geometry_type_of(ds2))),
{
    reveal_strlit("<DEFeatureClassInfo><Name>");
    reveal_strlit("<DEFeatureDataset");
    reveal_strlit("<DEFeatureClass");
    reveal_strlit("Feature Dataset");
    reveal_strlit("Feature Class");
    let def = feature_class_definition_text(name, gname, srs);
    assert(def[0] == '<');
    lemma_trim_start_tag(def);
    assert(!starts_with(def, "<DEFeatureDataset"@)) by {
        if def.len() >= 17 {
            assert(def.subrange(0, 17)[10] == 'C');
        }
    }
    assert(def.subrange(0, 15) =~= "<DEFeatureClass"@);
    assert("Feature Class"@ != "Feature Dataset"@) by {
        assert("Feature Class"@.len() != "Feature Dataset"@.len());
    }
}

/// The rows of `GDB_ItemTypes` that the builder writes.
pub open spec fn standard_type_rows() -> Seq<Seq<ValueView>> {
    seq![
        seq![ValueView::ObjectId(1), ValueView::Uuid(type_folder_bytes()), ValueView::Uuid(seq![0u8; 16]), ValueView::Text("Folder"@)],
        seq![ValueView::ObjectId(2), ValueView::Uuid(type_workspace_bytes()), ValueView::Uuid(seq![0u8; 16]), ValueView::Text("Workspace"@)],
        seq![ValueView::ObjectId(3), ValueView::Uuid(type_feature_class_bytes()), ValueView::Uuid(seq![0u8; 16]), ValueView::Text("Feature Class"@)],
        seq![ValueView::ObjectId(4), ValueView::Uuid(type_table_bytes()), ValueView::Uuid(seq![0u8; 16]), ValueView::Text("Table"@)],
        seq![ValueView::ObjectId(5), ValueView::Uuid(type_feature_dataset_bytes()), ValueView::Uuid(seq![0u8; 16]), ValueView::Text("Feature Dataset"@)],
    ]
}

/// The type names that those rows give.
pub open spec fn standard_types() -> Seq<(Seq<u8>, Seq<char>)> {
    seq![
        (type_folder_bytes(), "Folder"@),
        (type_workspace_bytes(), "Workspace"@),
        (type_feature_class_bytes(), "Feature Class"@),
        (type_table_bytes(), "Table"@),
        (type_feature_dataset_bytes(), "Feature Dataset"@),
    ]
}

/// The builder's item types table gives the standard type names, and each standard type
/// is found by its UUID.
pub proof fn lemma_standard_types()
    ensures
        types_of(standard_type_rows(), 1, 3) == standard_types(),
        map_get(to_map(standard_types()), type_table_bytes()) == Some("Table"@),
        map_get(to_map(standard_types()), type_feature_class_bytes()) == Some("Feature Class"@),
        map_get(to_map(standard_types()), type_feature_dataset_bytes()) == Some("Feature Dataset"@),
{
    let r = standard_type_rows();
    reveal_with_fuel(types_of, 6);
    assert(r.drop_last().drop_last().drop_last().drop_last().drop_last() =~= Seq::<Seq<ValueView>>::empty());
    assert(types_of(r, 1, 3) =~= standard_types());
    let t = standard_types();
    reveal_with_fuel(to_map, 6);
    assert(t.drop_last() =~= seq![t[0], t[1], t[2], t[3]]);
    assert(t.drop_last().drop_last() =~= seq![t[0], t[1], t[2]]);
    assert(t.drop_last().drop_last().drop_last() =~= seq![t[0], t[1]]);
    assert(t.drop_last().drop_last().drop_last().drop_last() =~= seq![t[0]]);
    assert(type_table_bytes()[0] != type_feature_dataset_bytes()[0]);
    assert(type_feature_class_bytes()[0] != type_feature_dataset_bytes()[0]);
    assert(type_feature_class_bytes()[0] != type_table_bytes()[0]);
    assert(type_table_bytes() != type_feature_dataset_bytes());
    assert(type_feature_class_bytes() != type_feature_dataset_bytes());
    assert(type_feature_class_bytes() != type_table_bytes());
}

// ---------------------------------------------------------------------------
// Registered items
// ---------------------------------------------------------------------------

/// The registry columns of `GDB_Items` as the builder writes it: `Type` 2, `Name` 3,
/// `PhysicalName` 4, `Path` 5, `DatasetSubtype2` 7, `Definition` 11.
pub open spec fn builder_columns() -> ItemColumns {
    ItemColumns { name: Some(3), physical: Some(4), path: Some(5), type_: Some(2), ds2: Some(7), def: Some(11) }
}

/// What enumerating a registered row gives: the item with the file number that the
/// catalog lookup finds for its name; a table or feature class without one is left out,
/// a feature dataset gets 0.
pub open spec fn registered_item(name: Seq<char>, path: Seq<char>, it: CatalogItemType, gt: GeometryType,
    parent: Option<Seq<char>>, ids: Seq<(Seq<char>, u32)>, lower: Seq<(Seq<char>, u32)>) -> Option<CatalogItemView>
{
    match file_id_of(ids, lower, uppercase(name), name) {
        Some(fid) => Some(CatalogItemView { name, path, item_type: it, geometry_type: gt, file_id: fid, parent_dataset: parent }),
        None => if it == CatalogItemType::FeatureDataset {
            Some(CatalogItemView { name, path, item_type: it, geometry_type: gt, file_id: 0, parent_dataset: parent })
        } else {
            None
        },
    }
}

/// The values of a registered row that enumeration reads.
proof fn lemma_row_reads(uuid: Seq<u8>, type_guid: Seq<u8>, name: Seq<char>, s1: i32, s2: i32, def: Seq<char>, path: Seq<char>)
    ensures
        ({
            let row = item_row(uuid, type_guid, name, s1, s2, def).update(5, ValueView::Text(path));
            &&& text_of_value(row[3]) == name
            &&& text_of_value(row[4]) == uppercase(name)
            &&& text_of_value(row[5]) == path
            &&& text_of_value(row[11]) == def
            &&& (int_of_value(row[7]) as i32) == s2
            &&& row[2] == ValueView::Uuid(type_guid)
        }),
{
}

/// A stand-alone table that the builder registers (path `\name`) is enumerated as a table
/// with its name and path.
pub proof fn law_registered_table(uuid: Seq<u8>, name: Seq<char>, ids: Seq<(Seq<char>, u32)>, lower: Seq<(Seq<char>, u32)>)
    requires
        name.len() > 0,
        no_backslash(name),
    ensures
        item_of_row(
            item_row(uuid, type_table_bytes(), name, 2, 0, table_definition_text(name)).update(5, ValueView::Text(seq!['\\'] + name)),
            builder_columns(), ids, lower, standard_types(),
        ) == registered_item(name, seq!['\\'] + name, CatalogItemType::Table, GeometryType::NoGeometry, None, ids, lower),
{
    let path = seq!['\\'] + name;
    lemma_row_reads(uuid, type_table_bytes(), name, 2, 0, table_definition_text(name), path);
    lemma_standard_types();
    lemma_path_one(name);
    lemma_classify_table(name, 0);
    reveal_strlit("Table");
    reveal_strlit("Workspace");
    reveal_strlit("Folder");
    assert("Table"@ != "Workspace"@) by { assert("Table"@.len() != "Workspace"@.len()); }
    assert("Table"@ != "Folder"@) by { assert("Table"@[0] != "Folder"@[0]); }
}

/// A feature class that the builder registers, stand-alone (path `\name`) or in a feature
/// dataset (path `\dataset\name`), is enumerated as a feature class with its name, path,
/// the geometry type of its subtype and its feature dataset.
pub proof fn law_registered_feature_class(uuid: Seq<u8>, name: Seq<char>, dataset: Option<Seq<char>>, gname: Seq<char>,
    srs: Seq<char>, code: i32, ids: Seq<(Seq<char>, u32)>, lower: Seq<(Seq<char>, u32)>)
    requires
        name.len() > 0,
        no_backslash(name),
        dataset matches Some(d) ==> d.len() > 0 && no_backslash(d),
    ensures
        ({
            let path = match dataset {
                Some(d) => seq!['\\'] + d + seq!['\\'] + name,
                None => seq!['\\'] + name,
            };
            item_of_row(
                item_row(uuid, type_feature_class_bytes(), name, 1, code, feature_class_definition_text(name, gname, srs))
                    .update(5, ValueView::Text(path)),
                builder_columns(), ids, lower, standard_types(),
            ) == registered_item(name, path, CatalogItemType::FeatureClass, geometry_type_of(code), dataset, ids, lower)
        }),
{
    let path = match dataset {
        Some(d) => seq!['\\'] + d + seq!['\\'] + name,
        None => seq!['\\'] + name,
    };
    lemma_row_reads(uuid, type_feature_class_bytes(), name, 1, code, feature_class_definition_text(name, gname, srs), path);
    lemma_standard_types();
    match dataset {
        Some(d) => lemma_path_two(d, name),
        None => lemma_path_one(name),
    }
    lemma_classify_feature_class(name, gname, srs, code);
    reveal_strlit("Feature Class");
    reveal_strlit("Workspace");
    reveal_strlit("Folder");
    assert("Feature Class"@ != "Workspace"@) by { assert("Feature Class"@.len() != "Workspace"@.len()); }
    assert("Feature Class"@ != "Folder"@) by { assert("Feature Class"@.len() != "Folder"@.len()); }
}

/// A feature dataset that the builder registers (path `\name`) is enumerated as a feature
/// dataset with its name and path.
pub proof fn law_registered_dataset(uuid: Seq<u8>, name: Seq<char>, ids: Seq<(Seq<char>, u32)>, lower: Seq<(Seq<char>, u32)>)
    requires
        name.len() > 0,
        no_backslash(name),
    ensures
        item_of_row(
            item_row(uuid, type_feature_dataset_bytes(), name, 0, 0, dataset_definition_text(name)),
            builder_columns(), ids, lower, standard_types(),
        ) == registered_item(name, seq!['\\'] + name, CatalogItemType::FeatureDataset, GeometryType::NoGeometry, None, ids, lower),
{
    let path = seq!['\\'] + name;
    let row = item_row(uuid, type_feature_dataset_bytes(), name, 0, 0, dataset_definition_text(name));
    assert(row.update(5, ValueView::Text(path)) =~= row);
    lemma_row_reads(uuid, type_feature_dataset_bytes(), name, 0, 0, dataset_definition_text(name), path);
    lemma_standard_types();
    lemma_path_one(name);
    lemma_classify_dataset(name, 0);
    reveal_strlit("Feature Dataset");
    reveal_strlit("Workspace");
    reveal_strlit("Folder");
    assert("Feature Dataset"@ != "Workspace"@) by { assert("Feature Dataset"@.len() != "Workspace"@.len()); }
    assert("Feature Dataset"@ != "Folder"@) by { assert("Feature Dataset"@.len() != "Folder"@.len()); }
}

/// The names of the builder's `GDB_Items` fields, in order.
pub open spec fn items_field_names() -> Seq<Seq<char>> {
    seq![
        "OBJECTID"@, "UUID"@, "Type"@, "Name"@, "PhysicalName"@, "Path"@, "DatasetSubtype1"@, "DatasetSubtype2"@,
        "DatasetInfo1"@, "DatasetInfo2"@, "URL"@, "Definition"@, "Documentation"@, "ItemInfo"@, "Properties"@,
        "Defaults"@, "Shape"@,
    ]
}

/// The field at `k` is the first one named `n`.
proof fn lemma_first_named_at(fields: Seq<FieldDef>, n: Seq<char>, k: nat)
    requires
        k < fields.len(),
        fields[k as int].name@ == n,
        forall|j: int| 0 <= j < k ==> fields[j].name@ != n,
    ensures
        first_named(fields, n) == Some(k),
{
    let i = choose|i: nat| i < fields.len() && fields[i as int].name@ == n
        && forall|j: int| 0 <= j < i ==> fields[j].name@ != n;
    assert(fields[k as int].name@ == n);
    if i < k {
        assert(fields[i as int].name@ != n);
    } else if i > k {
        assert(fields[k as int].name@ != n);
    }
}

/// The columns that enumeration finds in the builder's `GDB_Items` schema are
/// [`builder_columns`].
pub proof fn lemma_items_columns(fields: Seq<FieldDef>)
    requires
        fields_view(fields) == items_schema_view().fields,
    ensures
        (ItemColumns {
            name: opt_index(first_named(fields, "Name"@)),
            physical: opt_index(first_named(fields, "PhysicalName"@)),
            path: opt_index(first_named(fields, "Path"@)),
            type_: opt_index(first_named(fields, "Type"@)),
            ds2: opt_index(first_named(fields, "DatasetSubtype2"@)),
            def: opt_index(first_named(fields, "Definition"@)),
        }) == builder_columns(),
{
    let names = items_field_names();
    reveal_strlit("OBJECTID");
    reveal_strlit("UUID");
    reveal_strlit("Type");
    reveal_strlit("Name");
    reveal_strlit("PhysicalName");
    reveal_strlit("Path");
    reveal_strlit("DatasetSubtype1");
    reveal_strlit("DatasetSubtype2");
    reveal_strlit("DatasetInfo1");
    reveal_strlit("DatasetInfo2");
    reveal_strlit("URL");
    reveal_strlit("Definition");
    reveal_strlit("Documentation");
    reveal_strlit("ItemInfo");
    reveal_strlit("Properties");
    reveal_strlit("Defaults");
    reveal_strlit("Shape");
    assert(fields.len() == 17) by {
        assert(fields_view(fields).len() == fields.len());
    }
    assert forall|i: int| 0 <= i < 17 implies #[trigger] fields[i].name@ == names[i] by {
        assert(fields_view(fields)[i] == fields[i]@);
    }
    assert("UUID"@ != "Type"@) by { assert("UUID"@[0] != "Type"@[0]); }
    assert("OBJECTID"@ != "Type"@) by { assert("OBJECTID"@.len() != "Type"@.len()); }
    lemma_first_named_at(fields, "Type"@, 2);
    assert("UUID"@ != "Name"@) by { assert("UUID"@[0] != "Name"@[0]); }
    assert("Type"@ != "Name"@) by { assert("Type"@[0] != "Name"@[0]); }
    assert("OBJECTID"@ != "Name"@) by { assert("OBJECTID"@.len() != "Name"@.len()); }
    lemma_first_named_at(fields, "Name"@, 3);
    assert(forall|j: int| 0 <= j < 4 ==> names[j].len() != 12);
    lemma_first_named_at(fields, "PhysicalName"@, 4);
    assert("UUID"@ != "Path"@) by { assert("UUID"@[0] != "Path"@[0]); }
    assert("Type"@ != "Path"@) by { assert("Type"@[0] != "Path"@[0]); }
    assert("Name"@ != "Path"@) by { assert("Name"@[0] != "Path"@[0]); }
    assert("OBJECTID"@ != "Path"@) by { assert("OBJECTID"@.len() != "Path"@.len()); }
    assert("PhysicalName"@ != "Path"@) by { assert("PhysicalName"@.len() != "Path"@.len()); }
    lemma_first_named_at(fields, "Path"@, 5);
    assert("DatasetSubtype1"@ != "DatasetSubtype2"@) by { assert("DatasetSubtype1"@[14] != "DatasetSubtype2"@[14]); }
    assert(forall|j: int| 0 <= j < 6 ==> names[j].len() != 15);
    lemma_first_named_at(fields, "DatasetSubtype2"@, 7);
    assert(forall|j: int| 0 <= j < 11 && j != 9 && j != 8 ==> names[j].len() != 10);
    assert("DatasetInfo2"@ != "Definition"@) by { assert("DatasetInfo2"@.len() != "Definition"@.len()); }
    assert("DatasetInfo1"@ != "Definition"@) by { assert("DatasetInfo1"@.len() != "Definition"@.len()); }
    lemma_first_named_at(fields, "Definition"@, 11);
}

// ---------------------------------------------------------------------------
// Names, feature datasets and skipped rows
// ---------------------------------------------------------------------------

/// The type name that a registry row's type UUID has (empty when unknown).
pub open spec fn kind_name_of(row: Seq<ValueView>, c: ItemColumns, types: Seq<(Seq<u8>, Seq<char>)>) -> Seq<char> {
    match c.type_ {
        Some(k) => match row[k as int] {
            ValueView::Uuid(u) => match map_get(to_map(types), u) {
                Some(t) => t,
                None => Seq::empty(),
            },
            _ => Seq::empty(),
        },
        None => Seq::empty(),
    }
}

/// A text of backslashes only is all leading backslashes.
proof fn lemma_bs_all(s: Seq<char>)
    requires
        forall|i: int| 0 <= i < s.len() ==> s[i] == '\\',
    ensures
        bs_prefix(s) == s.len(),
    decreases s.len(),
{
    if s.len() > 0 {
        lemma_bs_all(s.drop_first());
    }
}

/// A stand-alone object registered at `\name` is enumerated, if at all, under that name,
/// outside any feature dataset, with that path.
pub proof fn law_item_at_top(row: Seq<ValueView>, c: ItemColumns, ids: Seq<(Seq<char>, u32)>,
    lower: Seq<(Seq<char>, u32)>, types: Seq<(Seq<u8>, Seq<char>)>, name: Seq<char>)
    requires
        c.path matches Some(k) && k < row.len() && row[k as int] == ValueView::Text(seq!['\\'] + name),
        name.len() > 0,
        no_backslash(name),
    ensures
        item_of_row(row, c, ids, lower, types) matches Some(it) ==> {
            &&& it.name == name
            &&& it.parent_dataset is None
            &&& it.path == seq!['\\'] + name
        },
{
    lemma_path_one(name);
}

/// An object registered in a feature dataset, at `\dataset\name`, is enumerated, if at
/// all, under its own name, with the feature dataset as its parent and that path.
pub proof fn law_item_in_dataset(row: Seq<ValueView>, c: ItemColumns, ids: Seq<(Seq<char>, u32)>,
    lower: Seq<(Seq<char>, u32)>, types: Seq<(Seq<u8>, Seq<char>)>, dataset: Seq<char>, name: Seq<char>)
    requires
        c.path matches Some(k) && k < row.len() && row[k as int] == ValueView::Text(seq!['\\'] + dataset + seq!['\\'] + name),
        dataset.len() > 0,
        name.len() > 0,
        no_backslash(dataset),
        no_backslash(name),
    ensures
        item_of_row(row, c, ids, lower, types) matches Some(it) ==> {
            &&& it.name == name
            &&& it.parent_dataset == Some(dataset)
            &&& it.path == seq!['\\'] + dataset + seq!['\\'] + name
        },
{
    lemma_path_two(dataset, name);
}

/// Whether a text holds backslashes only (the empty text too).
pub open spec fn only_backslashes(s: Seq<char>) -> bool {
    forall|i: int| 0 <= i < s.len() ==> s[i] == '\\'
}

/// A registry row without a path (none, or backslashes only), or registering a workspace
/// or a folder, gives no catalog item.
pub proof fn law_item_skipped(row: Seq<ValueView>, c: ItemColumns, ids: Seq<(Seq<char>, u32)>,
    lower: Seq<(Seq<char>, u32)>, types: Seq<(Seq<u8>, Seq<char>)>)
    requires
        c.path matches Some(k) ==> k < row.len(),
        only_backslashes(opt_text(row, col(c.path)))
            || kind_name_of(row, c, types) == "Workspace"@
            || kind_name_of(row, c, types) == "Folder"@,
    ensures
        item_of_row(row, c, ids, lower, types) is None,
{
    let path = opt_text(row, col(c.path));
    if only_backslashes(path) {
        lemma_bs_all(path);
        assert(path.subrange(bs_prefix(path) as int, path.len() as int).len() == 0);
    }
}

} // verus!
