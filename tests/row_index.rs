use oxen::error::OxenError;
use oxen::frame::{row_hash, schema_hash, DataFrame, Field, Schema};
use oxen::hashing::hash_buffer;
use oxen::row_index::CommitSchemaRowIndex;

fn bbox_fields() -> Vec<Field> {
    vec![
        Field::new("file", "str"),
        Field::new("min_x", "f64"),
        Field::new("min_y", "f64"),
        Field::new("width", "i64"),
        Field::new("height", "i64"),
    ]
}

fn parse_rows(text: &str) -> Vec<Vec<String>> {
    text.lines()
        .filter(|l| !l.trim().is_empty())
        .skip(1)
        .map(|l| l.split(',').map(|c| c.to_string()).collect())
        .collect()
}

const BBOX: &str = "
file,min_x,min_y,width,height
train/dog_1.jpg,101.5,32.0,385,330
train/dog_2.jpg,7.0,29.5,246,247
train/dog_3.jpg,19.0,63.5,376,421
train/cat_1.jpg,57.0,35.5,304,427
train/cat_2.jpg,30.5,44.0,333,396
";

fn bbox_df() -> DataFrame {
    DataFrame { fields: bbox_fields(), rows: parse_rows(BBOX) }
}

fn committed() -> (CommitSchemaRowIndex, DataFrame) {
    let schema = Schema::from_fields(&bbox_fields());
    let mut index = CommitSchemaRowIndex::new(&schema);
    let df = bbox_df();
    index.index_new_rows(&df);
    (index, df)
}

#[test]
fn test_commit_tabular_data_first_commit_can_fetch_content() {
    let (index, og_df) = committed();
    let version_df = index.content_df();
    assert_eq!(og_df.height(), version_df.height());
    let rows = index.entry_df();
    assert_eq!(og_df.height(), rows.height());
}

#[test]
fn test_commit_tabular_data_add_data_different_file_can_fetch_file_content() {
    let (index, og_df) = committed();
    let my_df = DataFrame {
        fields: bbox_fields(),
        rows: parse_rows(
            "
file,min_x,min_y,width,height
train/dog_1.jpg,101.5,32.0,385,330
train/dog_2.jpg,7.0,29.5,246,247
train/new.jpg,1.0,1.5,100,20
",
        ),
    };
    let mut index = index.for_next_file();
    index.index_new_rows(&my_df);
    let version_df = index.content_df();
    assert_eq!(og_df.height() + 1, version_df.height());
    let rows = index.entry_df();
    assert_eq!(my_df.height(), rows.height());
}

#[test]
fn test_tabular_diff_added_rows() {
    let (index, mut df) = committed();
    df.rows.push(parse_rows("h\ntrain/cat_3.jpg,41.0,31.5,410,427").remove(0));
    let diff = index.diff_current(&df).unwrap();
    assert!(diff.added_rows.is_some());
    assert!(diff.removed_rows.is_none());
    assert!(diff.added_cols.is_none());
    assert!(diff.removed_cols.is_none());
    let added_row = diff.added_rows.unwrap();
    assert_eq!(added_row.height(), 1);
    assert_eq!(added_row.width(), 5);
}

#[test]
fn test_tabular_diff_added_cols() {
    let (index, mut df) = committed();
    df.fields.push(Field::new("is_fluffy", "str"));
    for row in df.rows.iter_mut() {
        row.push(String::from("unknown"));
    }
    let diff = index.diff_current(&df).unwrap();
    assert!(diff.added_rows.is_none());
    assert!(diff.removed_rows.is_none());
    assert!(diff.added_cols.is_some());
    assert!(diff.removed_cols.is_none());
    let added = diff.added_cols.unwrap();
    assert_eq!(added.height(), 5);
    assert_eq!(added.width(), 1);
    assert_eq!(added.rows[0], vec![String::from("unknown")]);
}

#[test]
fn test_tabular_diff_removed_rows() {
    let (index, _) = committed();
    let df = DataFrame {
        fields: bbox_fields(),
        rows: parse_rows(
            "
file,min_x,min_y,width,height
train/dog_1.jpg,101.5,32.0,385,330
train/dog_2.jpg,7.0,29.5,246,247
train/cat_2.jpg,30.5,44.0,333,396
",
        ),
    };
    let diff = index.diff_current(&df).unwrap();
    assert!(diff.removed_rows.is_some());
    let removed_row = diff.removed_rows.unwrap();
    assert!(diff.added_rows.is_none());
    assert!(diff.added_cols.is_none());
    assert!(diff.removed_cols.is_none());
    assert_eq!(removed_row.height(), 2);
    assert_eq!(removed_row.width(), 5);
}

#[test]
fn test_tabular_diff_removed_cols() {
    let (index, og) = committed();
    let fields = vec![
        Field { name: String::from("file"), dtype: String::from("str") },
        Field { name: String::from("min_x"), dtype: String::from("f64") },
        Field { name: String::from("min_y"), dtype: String::from("f64") },
    ];
    let df = og.select(&fields).unwrap();
    let diff = index.diff_current(&df).unwrap();
    assert!(diff.added_rows.is_none());
    assert!(diff.removed_rows.is_none());
    assert!(diff.added_cols.is_none());
    assert!(diff.removed_cols.is_some());
    let removed = diff.removed_cols.unwrap();
    assert_eq!(removed.height(), 5);
    assert_eq!(removed.width(), 2);
    assert_eq!(removed.fields[0].name, "width");
    assert_eq!(removed.fields[1].name, "height");
}

#[test]
fn unchanged_file_has_an_empty_diff() {
    let (index, df) = committed();
    let diff = index.diff_current(&df).unwrap();
    assert!(diff.added_rows.is_none());
    assert!(diff.removed_rows.is_none());
    assert!(diff.added_cols.is_none());
    assert!(diff.removed_cols.is_none());
}

#[test]
fn removing_one_row_removes_exactly_that_row() {
    let (index, mut df) = committed();
    let gone = df.rows.remove(2);
    let diff = index.diff_current(&df).unwrap();
    let removed = diff.removed_rows.unwrap();
    assert_eq!(removed.height(), 1);
    assert_eq!(removed.width(), 5);
    assert_eq!(removed.rows[0], gone);
    assert!(diff.added_rows.is_none());
    assert!(diff.added_cols.is_none());
    assert!(diff.removed_cols.is_none());
}

#[test]
fn reconstruct_restores_rows_in_file_order() {
    let (index, df) = committed();
    let rebuilt = index.entry_df();
    assert_eq!(rebuilt.rows, df.rows);
    assert_eq!(rebuilt.width(), df.width());
    let (sorted, _) = index.sorted_entry_df_with_row_hash();
    let locals: Vec<usize> = sorted.iter().map(|e| e.local).collect();
    assert_eq!(locals, vec![0, 1, 2, 3, 4]);
}

#[test]
fn shared_rows_are_stored_once() {
    let (index, _) = committed();
    let mut index = index.for_next_file();
    let df = DataFrame {
        fields: bbox_fields(),
        rows: parse_rows(
            "
file,min_x,min_y,width,height
train/new.jpg,1.0,1.5,100,20
train/dog_1.jpg,101.5,32.0,385,330
",
        ),
    };
    let new_rows = index.compute_new_rows(&df);
    assert_eq!(new_rows.height(), 1);
    assert_eq!(new_rows.rows[0][0], "train/new.jpg");
    let entries = index.list_file_indices();
    assert_eq!(entries.len(), 2);
    assert_eq!(entries[0].local, 0);
    assert_eq!(entries[0].global, 5);
    assert_eq!(entries[1].local, 1);
    assert_eq!(entries[1].global, 0);
    let global = index.list_global_indices();
    assert_eq!(global.len(), 6);
    assert_eq!(global[5].1, 5);
    let rebuilt = index.entry_df();
    assert_eq!(rebuilt.rows, df.rows);
}

#[test]
fn global_and_file_keys_are_row_hashes() {
    let (index, df) = committed();
    let h = row_hash(&df.rows[0]);
    assert!(index.has_global_key(&h));
    assert!(index.has_file_key(&h));
    let other = row_hash(&vec![String::from("x")]);
    assert!(!index.has_global_key(&other));
    assert!(!index.has_file_key(&other));
}

#[test]
fn duplicate_rows_in_a_file_collapse_to_one_entry() {
    let schema = Schema::from_fields(&bbox_fields());
    let mut index = CommitSchemaRowIndex::new(&schema);
    let mut df = bbox_df();
    df.rows.push(df.rows[0].clone());
    index.index_new_rows(&df);
    assert_eq!(index.content_df().height(), 5);
    assert_eq!(index.list_file_indices().len(), 5);
    let entries = index.list_file_indices();
    assert_eq!(entries[0].local, 5);
}

#[test]
fn row_hash_depends_on_cell_boundaries() {
    let a = row_hash(&vec![String::from("ab"), String::from("c")]);
    let b = row_hash(&vec![String::from("a"), String::from("bc")]);
    assert_ne!(a, b);
    assert_eq!(a, row_hash(&vec![String::from("ab"), String::from("c")]));
    assert!(!a.is_empty());
}

#[test]
fn schema_hash_changes_with_columns() {
    let mut fields = bbox_fields();
    let before = schema_hash(&fields);
    fields.push(Field::new("is_fluffy", "str"));
    assert_ne!(before, schema_hash(&fields));
    assert_eq!(Schema::from_fields(&bbox_fields()).hash, before);
}

#[test]
fn select_of_a_missing_column_is_not_found() {
    let df = bbox_df();
    let r = df.select(&vec![Field::new("nope", "str")]);
    assert_eq!(r.unwrap_err(), OxenError::NotFound);
    let picked = df.select(&vec![Field::new("width", "i64")]).unwrap();
    assert_eq!(picked.rows[0], vec![String::from("385")]);
}

#[test]
fn same_hash_but_missing_column_is_not_found() {
    let schema = Schema { hash: schema_hash(&vec![Field::new("a", "str")]), fields: bbox_fields() };
    let index = CommitSchemaRowIndex::new(&schema);
    let df = DataFrame { fields: vec![Field::new("a", "str")], rows: vec![vec![String::from("1")]] };
    assert_eq!(index.diff_current(&df).unwrap_err(), OxenError::NotFound);
}

#[test]
fn take_returns_rows_in_the_given_order() {
    let df = bbox_df();
    let t = df.take(&vec![4, 0]);
    assert_eq!(t.rows[0][0], "train/cat_2.jpg");
    assert_eq!(t.rows[1][0], "train/dog_1.jpg");
}

#[test]
fn stored_parts_that_fit_give_the_same_index() {
    let (index, df) = committed();
    let rows = index.content_df().rows;
    let entries = index.list_file_indices();
    let schema = Schema::from_fields(&bbox_fields());
    let loaded = CommitSchemaRowIndex::from_parts(&schema, rows, entries).unwrap();
    assert_eq!(loaded.entry_df().rows, df.rows);
    assert!(loaded.diff_current(&df).unwrap().added_rows.is_none());
}

#[test]
fn entry_naming_a_missing_row_is_corrupt() {
    let (index, _) = committed();
    let rows = index.content_df().rows;
    let mut entries = index.list_file_indices();
    entries[0].global = 99;
    let schema = Schema::from_fields(&bbox_fields());
    let r = CommitSchemaRowIndex::from_parts(&schema, rows, entries);
    assert_eq!(r.err().unwrap(), OxenError::IndexCorrupt);
}

#[test]
fn entry_with_a_wrong_hash_is_corrupt() {
    let (index, _) = committed();
    let rows = index.content_df().rows;
    let mut entries = index.list_file_indices();
    entries[1].hash = String::from("0");
    let schema = Schema::from_fields(&bbox_fields());
    assert_eq!(CommitSchemaRowIndex::from_parts(&schema, rows, entries).err().unwrap(), OxenError::IndexCorrupt);
}

#[test]
fn duplicate_stored_rows_are_corrupt() {
    let (index, _) = committed();
    let mut rows = index.content_df().rows;
    rows.push(rows[0].clone());
    let schema = Schema::from_fields(&bbox_fields());
    assert_eq!(CommitSchemaRowIndex::from_parts(&schema, rows, vec![]).err().unwrap(), OxenError::IndexCorrupt);
}

#[test]
fn stored_row_of_the_wrong_width_is_corrupt() {
    let schema = Schema::from_fields(&bbox_fields());
    let rows = vec![vec![String::from("only one cell")]];
    assert_eq!(CommitSchemaRowIndex::from_parts(&schema, rows, vec![]).err().unwrap(), OxenError::IndexCorrupt);
}

#[test]
fn index_locations_on_disk() {
    let schema = Schema::from_fields(&bbox_fields());
    let rows = CommitSchemaRowIndex::row_db_path("/repo", &schema);
    assert_eq!(rows, format!("/repo/.oxen/versions/schemas/{}/rows", schema.hash));
    let file = CommitSchemaRowIndex::file_db_path("/repo", "c1", &schema, "annotations/train/bounding_box.csv");
    let h = hash_buffer("annotations/train/bounding_box.csv".as_bytes());
    assert_eq!(file, format!("/repo/.oxen/history/c1/indices/{}/files/{}", schema.hash, h));
}
