use oxen::staged_data::{
    MergeConflict, StagedData, StagedDirStats, StagedEntry, StagedEntryStatus, StyledText,
    TextStyle, MSG_CLEAN_REPO, MSG_OXEN_ADD_DIR_EXAMPLE, MSG_OXEN_ADD_FILE_EXAMPLE,
};
use oxen::commit_entry::CommitEntry;

fn styled(text: &str, style: TextStyle) -> StyledText {
    StyledText::new(text, style)
}

#[test]
fn test_staged_data_collect_clean_repo() {
    let staged_data = StagedData::empty();
    let outputs = staged_data.__collect_outputs(0, 10);
    assert_eq!(outputs.len(), 1);
    assert_eq!(outputs[0].text, MSG_CLEAN_REPO);
}

#[test]
fn test_staged_data_collect_added_files() {
    let mut staged_data = StagedData::empty();
    for name in ["file_1.jpg", "file_2.jpg", "file_3.jpg", "file_4.jpg", "file_5.jpg"] {
        staged_data.add_file(name, StagedEntry::empty_status(StagedEntryStatus::Added));
    }
    let num_to_collapse = 3;
    let outputs = staged_data.__collect_outputs(0, num_to_collapse);
    assert_eq!(outputs[0], StyledText::normal("Files to be committed:\n"));
    assert_eq!(outputs[1], styled("  new file: ", TextStyle::Green));
    assert_eq!(outputs[2], styled("file_1.jpg\n", TextStyle::GreenBold));
    assert_eq!(outputs[3], styled("  new file: ", TextStyle::Green));
    assert_eq!(outputs[4], styled("file_2.jpg\n", TextStyle::GreenBold));
    assert_eq!(outputs[5], styled("  new file: ", TextStyle::Green));
    assert_eq!(outputs[6], styled("file_3.jpg\n", TextStyle::GreenBold));
    assert_eq!(outputs[7], StyledText::normal("  ... and 2 others\n"));
}

#[test]
fn test_staged_data_collect_untracked_files() {
    let mut staged_data = StagedData::empty();
    for name in ["file_1.jpg", "file_2.jpg", "file_3.jpg", "file_4.jpg", "file_5.jpg"] {
        staged_data.untracked_files.push(String::from(name));
    }
    let num_to_collapse = 3;
    let outputs = staged_data.__collect_outputs(0, num_to_collapse);
    assert_eq!(outputs[0], StyledText::normal("Untracked Files\n"));
    assert_eq!(outputs[1], StyledText::normal(MSG_OXEN_ADD_FILE_EXAMPLE));
    assert_eq!(outputs[2], styled("  file_1.jpg\n", TextStyle::RedBold));
    assert_eq!(outputs[3], styled("  file_2.jpg\n", TextStyle::RedBold));
    assert_eq!(outputs[4], styled("  file_3.jpg\n", TextStyle::RedBold));
    assert_eq!(outputs[5], StyledText::normal("  ... and 2 others\n"));
}

#[test]
fn test_staged_data_collect_untracked_dirs() {
    let mut staged_data = StagedData::empty();
    staged_data.untracked_dirs.push((String::from("train"), 10));
    staged_data.untracked_dirs.push((String::from("test"), 4));
    staged_data.untracked_dirs.push((String::from("annotations"), 1));
    let num_to_collapse = 3;
    let outputs = staged_data.__collect_outputs(0, num_to_collapse);
    assert_eq!(outputs[0], StyledText::normal("Untracked Directories\n"));
    assert_eq!(outputs[1], StyledText::normal(MSG_OXEN_ADD_DIR_EXAMPLE));
    assert_eq!(outputs[2], styled("  train/       ", TextStyle::RedBold));
    assert_eq!(outputs[3], StyledText::normal("(10 items)\n"));
    assert_eq!(outputs[4], styled("  test/        ", TextStyle::RedBold));
    assert_eq!(outputs[5], StyledText::normal("(4 items)\n"));
    assert_eq!(outputs[6], styled("  annotations/ ", TextStyle::RedBold));
    assert_eq!(outputs[7], StyledText::normal("(1 item)\n"));
}

#[test]
fn sections_come_in_order_and_end_with_a_blank_line() {
    let mut s = StagedData::empty();
    s.modified_files.push(String::from("a.txt"));
    s.added_dirs.paths.push((
        String::from("train"),
        vec![StagedDirStats { path: String::from("train"), num_files_staged: 2 }],
    ));
    let head = CommitEntry::from_path("c.txt");
    s.merge_conflicts.push(MergeConflict { lca_entry: head.clone(), head_entry: head.clone(), merge_entry: head });
    let out = s.__collect_outputs(0, 10);
    let texts: Vec<&str> = out.iter().map(|t| t.text.as_str()).collect();
    assert_eq!(
        texts,
        vec![
            "Directories to be committed\n",
            "  added: ",
            "train",
            "with added 2 files\n",
            "\n",
            "Modified files:",
            "    (use \"oxen add <file>...\" to update what will be committed)\n",
            "  modified: ",
            "a.txt\n",
            "\n",
            "Merge conflicts:",
            "    (use \"oxen add <file>...\" to mark resolution)\n",
            "  both modified: ",
            "c.txt\n",
            "\n",
        ]
    );
    assert!(s.has_added_entries());
    assert!(s.has_modified_entries());
    assert!(s.has_merge_conflicts());
    assert!(!s.has_removed_entries());
    assert!(!s.has_untracked_entries());
    assert!(!s.is_clean());
}

#[test]
fn a_later_page_skips_earlier_items() {
    let mut s = StagedData::empty();
    for name in ["a", "b", "c", "d"] {
        s.untracked_files.push(String::from(name));
    }
    let out = s.__collect_outputs(2, 1);
    let texts: Vec<&str> = out.iter().map(|t| t.text.as_str()).collect();
    assert_eq!(texts, vec!["Untracked Files\n", MSG_OXEN_ADD_FILE_EXAMPLE, "  c\n", "  ... and 1 others\n", "\n"]);
}

#[test]
fn plural_and_spaces() {
    assert_eq!(StagedData::item_str_plural(1), "item");
    assert_eq!(StagedData::item_str_plural(0), "items");
    assert_eq!(StagedData::item_str_plural(2), "items");
    assert_eq!(StagedData::spaces(3), "   ");
    assert_eq!(StagedData::spaces(0), "");
}

#[test]
fn removed_files_make_the_tree_unclean() {
    let mut s = StagedData::empty();
    assert!(s.is_clean());
    s.removed_files.push(String::from("gone.txt"));
    assert!(!s.is_clean());
    assert!(s.has_removed_entries());
}

#[test]
fn staged_files_are_kept_in_path_order() {
    let mut s = StagedData::empty();
    s.add_file("b.txt", StagedEntry::empty_status(StagedEntryStatus::Added));
    s.add_file("a.txt", StagedEntry::empty_status(StagedEntryStatus::Modified));
    s.add_file("c.txt", StagedEntry::empty_status(StagedEntryStatus::Removed));
    s.add_file("b.txt", StagedEntry::empty_status(StagedEntryStatus::Removed));
    let paths: Vec<&str> = s.added_files.iter().map(|(p, _)| p.as_str()).collect();
    assert_eq!(paths, vec!["a.txt", "b.txt", "c.txt"]);
    assert_eq!(s.added_files[1].1.status, StagedEntryStatus::Removed);
    let out = s.__collect_outputs(0, 10);
    assert_eq!(out[1], styled("  modified: ", TextStyle::Green));
    assert_eq!(out[3], styled("  removed: ", TextStyle::Green));
}
