//! What is staged, modified and untracked in a working copy, and the lines
//! that describe it. A line part carries a style; painting it is left to
//! whoever prints it.

use vstd::prelude::*;
use vstd::string::StringExecFns;
use vstd::string::StrSliceExecFns;
use crate::commit_entry::CommitEntry;
use crate::text::{decimal, decimal_of, lemma_text_lt_total, lemma_text_lt_transitive, text_less, text_lt};

verus! {

pub const MSG_CLEAN_REPO: &'static str = "nothing to commit, working tree clean\n";
pub const MSG_OXEN_ADD_FILE_EXAMPLE: &'static str = "  (use \"oxen add <file>...\" to update what will be committed)\n";
pub const MSG_OXEN_ADD_DIR_EXAMPLE: &'static str = "  (use \"oxen add <dir>...\" to update what will be committed)\n";
pub const MSG_OXEN_ADD_FILE_RESOLVE_CONFLICT: &'static str = "  (use \"oxen add <file>...\" to mark resolution)\n";
pub const MSG_OXEN_RESTORE_FILE: &'static str = "  (use \"oxen restore <file>...\" to discard changes in working directory)";

/// How a part of a line is painted.
#[derive(Debug, Clone, Copy, PartialEq, Eq, Structural)]
pub enum TextStyle {
    Normal,
    Green,
    GreenBold,
    Red,
    RedBold,
    Yellow,
    YellowBold,
}

/// A part of a line with its style.
#[derive(Debug, Clone, PartialEq, Eq)]
pub struct StyledText {
    pub text: String,
    pub style: TextStyle,
}

impl View for StyledText {
    type V = (Seq<char>, TextStyle);

    open spec fn view(&self) -> (Seq<char>, TextStyle) {
        (self.text@, self.style)
    }
}

impl StyledText {
    pub fn new(text: &str, style: TextStyle) -> (r: StyledText)
        ensures
            r@ == (text@, style),
    {
        StyledText { text: text.to_owned(), style }
    }

    pub fn normal(text: &str) -> (r: StyledText)
        ensures
            r@ == (text@, TextStyle::Normal),
    {
        StyledText::new(text, TextStyle::Normal)
    }

    pub fn copied(&self) -> (r: StyledText)
        ensures
            r@ == self@,
    {
        StyledText { text: self.text.clone(), style: self.style }
    }
}

/// The status of a staged file.
#[derive(Debug, Clone, Copy, PartialEq, Eq, Structural)]
pub enum StagedEntryStatus {
    Added,
    Modified,
    Removed,
}

/// A staged file: the hash of its content and what happened to it.
#[derive(Debug, Clone)]
pub struct StagedEntry {
    pub hash: String,
    pub status: StagedEntryStatus,
}

impl StagedEntry {
    /// An entry with a status and no hash.
    pub fn empty_status(status: StagedEntryStatus) -> (r: StagedEntry)
        ensures
            r.status == status,
            r.hash@ == Seq::<char>::empty(),
    {
        StagedEntry { hash: String::new(), status }
    }
}

/// A staged directory and how many of its files are staged.
#[derive(Debug, Clone)]
pub struct StagedDirStats {
    pub path: String,
    pub num_files_staged: usize,
}

/// The staged directories, grouped under the path they were added by.
#[derive(Debug, Clone)]
pub struct SummarizedStagedDirStats {
    pub paths: Vec<(String, Vec<StagedDirStats>)>,
}

impl SummarizedStagedDirStats {
    pub fn new() -> (r: SummarizedStagedDirStats)
        ensures
            r.paths@.len() == 0,
    {
        SummarizedStagedDirStats { paths: Vec::new() }
    }

    pub fn is_empty(&self) -> (r: bool)
        ensures
            r == (self.paths@.len() == 0),
    {
        self.paths.len() == 0
    }
}

/// A file changed on both sides of a merge: its versions at the common
/// ancestor, at the head and on the merged branch.
#[derive(Debug, Clone)]
pub struct MergeConflict {
    pub lca_entry: CommitEntry,
    pub head_entry: CommitEntry,
    pub merge_entry: CommitEntry,
}

/// The state of a working copy against its last commit.
#[derive(Debug, Clone)]
pub struct StagedData {
    pub added_dirs: SummarizedStagedDirStats,
    pub added_files: Vec<(String, StagedEntry)>,
    pub untracked_dirs: Vec<(String, usize)>,
    pub untracked_files: Vec<String>,
    pub modified_files: Vec<String>,
    pub removed_files: Vec<String>,
    pub merge_conflicts: Vec<MergeConflict>,
}

/// The concatenation of a sequence of sequences.
pub open spec fn concat_all<A>(items: Seq<Seq<A>>) -> Seq<A>
    decreases items.len(),
{
    if items.len() == 0 { Seq::empty() } else { concat_all(items.drop_last()) + items.last() }
}

/// The views of a list of line parts.
pub open spec fn styled_views(v: Seq<StyledText>) -> Seq<(Seq<char>, TextStyle)> {
    v.map_values(|t: StyledText| t@)
}

/// The views of a list of items, each a list of line parts.
pub open spec fn item_views(v: Seq<Vec<StyledText>>) -> Seq<Seq<(Seq<char>, TextStyle)>> {
    v.map_values(|t: Vec<StyledText>| styled_views(t@))
}

pub open spec fn min_nat(a: nat, b: nat) -> nat {
    if a <= b { a } else { b }
}

/// The line that stands for the items left out.
pub open spec fn others_line(n: nat) -> Seq<char> {
    "  ... and "@ + decimal_of(n) + " others\n"@
}

/// A list of items, showing those from `start` up to `start + skip`, then
/// how many were left out after them, then an empty line. Nothing at all
/// for no items.
pub open spec fn collapsed(items: Seq<Seq<(Seq<char>, TextStyle)>>, start: nat, skip: nat) -> Seq<(Seq<char>, TextStyle)> {
    if items.len() == 0 {
        Seq::empty()
    } else {
        let total = start + skip;
        concat_all(items.subrange(min_nat(start, items.len()) as int, min_nat(total, items.len()) as int))
            + (if items.len() > total { seq![(others_line((items.len() - total) as nat), TextStyle::Normal)] } else { Seq::empty() })
            + seq![("\n"@, TextStyle::Normal)]
    }
}

/// `"item"` for one, `"items"` otherwise.
pub open spec fn item_word(n: nat) -> Seq<char> {
    if n == 1 { "item"@ } else { "items"@ }
}

/// `n` spaces.
pub open spec fn spaces_of(n: nat) -> Seq<char> {
    Seq::new(n, |i: int| ' ')
}

/// The length of a path in characters.
pub open spec fn text_len(s: Seq<char>) -> nat {
    s.len()
}

/// The longest length among the first `n` untracked directories.
pub open spec fn max_dir_len(dirs: Seq<(String, usize)>, n: nat) -> nat
    decreases n,
{
    if n == 0 {
        0
    } else {
        let m = max_dir_len(dirs, (n - 1) as nat);
        let l = text_len(dirs[n - 1].0@);
        if l > m { l } else { m }
    }
}

proof fn lemma_max_dir_len(dirs: Seq<(String, usize)>, n: nat)
    requires
        n <= dirs.len(),
    ensures
        forall|i: int| 0 <= i < n ==> text_len((#[trigger] dirs[i]).0@) <= max_dir_len(dirs, n),
    decreases n,
{
    if n > 0 {
        lemma_max_dir_len(dirs, (n - 1) as nat);
    }
}

/// The parts of one added file.
pub open spec fn added_file_item(path: Seq<char>, status: StagedEntryStatus) -> Seq<(Seq<char>, TextStyle)> {
    let word = match status {
        StagedEntryStatus::Removed => "  removed: "@,
        StagedEntryStatus::Modified => "  modified: "@,
        StagedEntryStatus::Added => "  new file: "@,
    };
    seq![(word, TextStyle::Green), (path + "\n"@, TextStyle::GreenBold)]
}

/// The parts of one staged directory.
pub open spec fn added_dir_parts(path: Seq<char>, n: nat) -> Seq<(Seq<char>, TextStyle)> {
    seq![
        ("  added: "@, TextStyle::Green),
        (path, TextStyle::GreenBold),
        (if n == 1 {
            "with added "@ + decimal_of(n) + " file\n"@
        } else if n == 0 {
            "\n"@
        } else {
            "with added "@ + decimal_of(n) + " files\n"@
        }, TextStyle::Normal),
    ]
}

/// The parts of the directories staged under one path.
pub open spec fn added_dir_row(dirs: Seq<StagedDirStats>) -> Seq<(Seq<char>, TextStyle)> {
    concat_all(dirs.map_values(|d: StagedDirStats| added_dir_parts(d.path@, d.num_files_staged as nat)))
}

/// The parts of one untracked directory, padded to the longest.
pub open spec fn untracked_dir_item(path: Seq<char>, size: nat, pad: nat) -> Seq<(Seq<char>, TextStyle)> {
    seq![
        ("  "@ + path + "/ "@ + spaces_of(pad), TextStyle::RedBold),
        ("("@ + decimal_of(size) + " "@ + item_word(size) + ")\n"@, TextStyle::Normal),
    ]
}

impl StagedData {
    /// Nothing staged, modified, removed, untracked or conflicting.
    pub fn empty() -> (r: StagedData)
        ensures
            r.added_dirs.paths@.len() == 0,
            r.added_files@.len() == 0,
            r.untracked_dirs@.len() == 0,
            r.untracked_files@.len() == 0,
            r.modified_files@.len() == 0,
            r.removed_files@.len() == 0,
            r.merge_conflicts@.len() == 0,
    {
        StagedData {
            added_dirs: SummarizedStagedDirStats::new(),
            added_files: Vec::new(),
            untracked_dirs: Vec::new(),
            untracked_files: Vec::new(),
            modified_files: Vec::new(),
            removed_files: Vec::new(),
            merge_conflicts: Vec::new(),
        }
    }

    /// Whether there is nothing to report.
    pub open spec fn clean(&self) -> bool {
        &&& self.added_dirs.paths@.len() == 0
        &&& self.added_files@.len() == 0
        &&& self.untracked_files@.len() == 0
        &&& self.untracked_dirs@.len() == 0
        &&& self.modified_files@.len() == 0
        &&& self.removed_files@.len() == 0
        &&& self.merge_conflicts@.len() == 0
    }

    pub fn is_clean(&self) -> (r: bool)
        ensures
            r == self.clean(),
    {
        self.added_dirs.is_empty() && self.added_files.len() == 0 && self.untracked_files.len() == 0
            && self.untracked_dirs.len() == 0 && self.modified_files.len() == 0
            && self.removed_files.len() == 0 && self.merge_conflicts.len() == 0
    }

    pub fn has_added_entries(&self) -> (r: bool)
        ensures
            r == (self.added_dirs.paths@.len() > 0 || self.added_files@.len() > 0),
    {
        !self.added_dirs.is_empty() || self.added_files.len() > 0
    }

    pub fn has_modified_entries(&self) -> (r: bool)
        ensures
            r == (self.modified_files@.len() > 0),
    {
        self.modified_files.len() > 0
    }

    pub fn has_removed_entries(&self) -> (r: bool)
        ensures
            r == (self.removed_files@.len() > 0),
    {
        self.removed_files.len() > 0
    }

    pub fn has_untracked_entries(&self) -> (r: bool)
        ensures
            r == (self.untracked_dirs@.len() > 0 || self.untracked_files@.len() > 0),
    {
        self.untracked_dirs.len() > 0 || self.untracked_files.len() > 0
    }

    pub fn has_merge_conflicts(&self) -> (r: bool)
        ensures
            r == (self.merge_conflicts@.len() > 0),
    {
        self.merge_conflicts.len() > 0
    }

    /// `"item"` for one, `"items"` otherwise.
    pub fn item_str_plural(n: usize) -> (r: String)
        ensures
            r@ == item_word(n as nat),
    {
        if n == 1 { String::from_str("item") } else { String::from_str("items") }
    }

    /// A string of `n` spaces.
    pub fn spaces(n: usize) -> (r: String)
        ensures
            r@ == spaces_of(n as nat),
    {
        let mut ret = String::new();
        let mut i: usize = 0;
        while i < n
            invariant
                i <= n,
                ret@ == spaces_of(i as nat),
            decreases n - i,
        {
            proof {
                reveal_strlit(" ");
            }
            ret.append(" ");
            i = i + 1;
            assert(ret@ =~= spaces_of(i as nat));
        }
        ret
    }
}

impl StagedData {
    /// The section on staged directories.
    pub open spec fn added_dirs_section(&self, start: nat, skip: nat) -> Seq<(Seq<char>, TextStyle)> {
        let rows = self.added_dirs.paths@.map_values(|p: (String, Vec<StagedDirStats>)| added_dir_row(p.1@));
        if rows.len() == 0 {
            Seq::empty()
        } else {
            seq![("Directories to be committed\n"@, TextStyle::Normal)] + collapsed(rows, start, skip)
        }
    }

    /// The section on staged files.
    pub open spec fn added_files_section(&self, start: nat, skip: nat) -> Seq<(Seq<char>, TextStyle)> {
        let items = self.added_files@.map_values(|e: (String, StagedEntry)| added_file_item(e.0@, e.1.status));
        if items.len() == 0 {
            Seq::empty()
        } else {
            seq![("Files to be committed:\n"@, TextStyle::Normal)] + collapsed(items, start, skip)
        }
    }

    /// The section on modified files.
    pub open spec fn modified_section(&self, start: nat, skip: nat) -> Seq<(Seq<char>, TextStyle)> {
        let items = self.modified_files@.map_values(|f: String|
            seq![("  modified: "@, TextStyle::Yellow), (f@ + "\n"@, TextStyle::YellowBold)]);
        if items.len() == 0 {
            Seq::empty()
        } else {
            seq![("Modified files:"@, TextStyle::Normal), ("  "@ + MSG_OXEN_ADD_FILE_EXAMPLE@, TextStyle::Normal)]
                + collapsed(items, start, skip)
        }
    }

    /// The section on merge conflicts.
    pub open spec fn conflicts_section(&self, start: nat, skip: nat) -> Seq<(Seq<char>, TextStyle)> {
        let items = self.merge_conflicts@.map_values(|c: MergeConflict|
            seq![("  both modified: "@, TextStyle::Red), (c.head_entry.path@ + "\n"@, TextStyle::RedBold)]);
        if items.len() == 0 {
            Seq::empty()
        } else {
            seq![("Merge conflicts:"@, TextStyle::Normal), ("  "@ + MSG_OXEN_ADD_FILE_RESOLVE_CONFLICT@, TextStyle::Normal)]
                + collapsed(items, start, skip)
        }
    }

    /// The section on untracked directories, each padded to the longest.
    pub open spec fn untracked_dirs_section(&self, start: nat, skip: nat) -> Seq<(Seq<char>, TextStyle)> {
        let dirs = self.untracked_dirs@;
        let m = max_dir_len(dirs, dirs.len());
        let items = dirs.map_values(|d: (String, usize)|
            untracked_dir_item(d.0@, d.1 as nat, (m - text_len(d.0@)) as nat));
        if items.len() == 0 {
            Seq::empty()
        } else {
            seq![("Untracked Directories\n"@, TextStyle::Normal), (MSG_OXEN_ADD_DIR_EXAMPLE@, TextStyle::Normal)]
                + collapsed(items, start, skip)
        }
    }

    /// The section on untracked files.
    pub open spec fn untracked_files_section(&self, start: nat, skip: nat) -> Seq<(Seq<char>, TextStyle)> {
        let items = self.untracked_files@.map_values(|f: String| seq![("  "@ + f@ + "\n"@, TextStyle::RedBold)]);
        if items.len() == 0 {
            Seq::empty()
        } else {
            seq![("Untracked Files\n"@, TextStyle::Normal), (MSG_OXEN_ADD_FILE_EXAMPLE@, TextStyle::Normal)]
                + collapsed(items, start, skip)
        }
    }

    /// Everything that the status shows: a clean tree says so; otherwise the
    /// sections on staged directories, staged files, modified files,
    /// conflicts, untracked directories and untracked files, in that order,
    /// each showing its items from `start` up to `start + skip`.
    pub open spec fn outputs(&self, start: nat, skip: nat) -> Seq<(Seq<char>, TextStyle)> {
        if self.clean() {
            seq![(MSG_CLEAN_REPO@, TextStyle::Normal)]
        } else {
            self.added_dirs_section(start, skip) + self.added_files_section(start, skip)
                + self.modified_section(start, skip) + self.conflicts_section(start, skip)
                + self.untracked_dirs_section(start, skip) + self.untracked_files_section(start, skip)
        }
    }
}

/// Appends copies of the parts.
fn push_parts(outputs: &mut Vec<StyledText>, parts: &Vec<StyledText>)
    ensures
        styled_views(final(outputs)@) == styled_views(old(outputs)@) + styled_views(parts@),
{
    let ghost start = styled_views(outputs@);
    let mut i: usize = 0;
    while i < parts.len()
        invariant
            i <= parts@.len(),
            styled_views(outputs@) == start + styled_views(parts@.subrange(0, i as int)),
        decreases parts@.len() - i,
    {
        let ghost prev = outputs@;
        outputs.push(parts[i].copied());
        proof {
            assert(styled_views(outputs@) =~= styled_views(prev).push(parts@[i as int]@));
            assert(styled_views(parts@.subrange(0, i + 1)) =~= styled_views(parts@.subrange(0, i as int)).push(parts@[i as int]@));
        }
        i = i + 1;
    }
    assert(parts@.subrange(0, i as int) =~= parts@);
}

/// A line part from a string.
fn part(text: String, style: TextStyle) -> (r: StyledText)
    ensures
        r@ == (text@, style),
{
    StyledText { text, style }
}

/// `a` followed by `b`.
fn joined(a: &str, b: &str) -> (r: String)
    ensures
        r@ == a@ + b@,
{
    let mut s = String::from_str(a);
    s.append(b);
    s
}

/// Appends the items from `start` up to `start + skip`, then how many were
/// left out after them, then an empty line; nothing for no items.
pub fn __collapse_outputs(items: &Vec<Vec<StyledText>>, outputs: &mut Vec<StyledText>, start: usize, skip: usize)
    requires
        start + skip <= usize::MAX,
    ensures
        styled_views(final(outputs)@) == styled_views(old(outputs)@) + collapsed(item_views(items@), start as nat, skip as nat),
{
    let ghost iv = item_views(items@);
    if items.len() == 0 {
        assert(styled_views(outputs@) =~= styled_views(outputs@) + collapsed(iv, start as nat, skip as nat));
        return;
    }
    let ghost base = styled_views(outputs@);
    let total = start + skip;
    let n = items.len();
    let lo = if start < n { start } else { n };
    let hi = if total < n { total } else { n };
    let mut i = lo;
    assert(iv.subrange(lo as int, lo as int) =~= Seq::<Seq<(Seq<char>, TextStyle)>>::empty());
    assert(base + concat_all(iv.subrange(lo as int, lo as int)) =~= base);
    while i < hi
        invariant
            lo <= i <= hi <= n,
            n == items@.len(),
            iv == item_views(items@),
            styled_views(outputs@) == base + concat_all(iv.subrange(lo as int, i as int)),
        decreases hi - i,
    {
        push_parts(outputs, &items[i]);
        proof {
            assert(iv.subrange(lo as int, i + 1).drop_last() =~= iv.subrange(lo as int, i as int));
            assert(iv.subrange(lo as int, i + 1).last() == iv[i as int]);
        }
        i = i + 1;
    }
    let ghost mid = styled_views(outputs@);
    assert(lo as nat == min_nat(start as nat, n as nat));
    assert(hi as nat == min_nat(total as nat, n as nat));
    let ghost extra = if n > total { seq![(others_line((n - total) as nat), TextStyle::Normal)] } else { Seq::<(Seq<char>, TextStyle)>::empty() };
    if n > total {
        let mut line = String::from_str("  ... and ");
        line.append(decimal(n - total).as_str());
        line.append(" others\n");
        assert(line@ == others_line((n - total) as nat));
        outputs.push(part(line, TextStyle::Normal));
        assert(styled_views(outputs@) =~= mid + extra);
    } else {
        assert(styled_views(outputs@) =~= mid + extra);
    }
    let ghost mid2 = styled_views(outputs@);
    outputs.push(StyledText::normal("\n"));
    assert(styled_views(outputs@) =~= mid2 + seq![("\n"@, TextStyle::Normal)]);
    assert(collapsed(iv, start as nat, skip as nat) == concat_all(iv.subrange(lo as int, hi as int)) + extra + seq![("\n"@, TextStyle::Normal)]);
    assert(styled_views(outputs@) =~= base + collapsed(iv, start as nat, skip as nat));
}

impl StagedData {
    fn __collect_added_dirs(&self, outputs: &mut Vec<StyledText>, start: usize, skip: usize)
        requires
            start + skip <= usize::MAX,
        ensures
            styled_views(final(outputs)@) == styled_views(old(outputs)@) + self.added_dirs_section(start as nat, skip as nat),
    {
        let ghost rows = self.added_dirs.paths@.map_values(|p: (String, Vec<StagedDirStats>)| added_dir_row(p.1@));
        let mut dirs: Vec<Vec<StyledText>> = Vec::new();
        let mut i: usize = 0;
        while i < self.added_dirs.paths.len()
            invariant
                i <= self.added_dirs.paths@.len(),
                rows == self.added_dirs.paths@.map_values(|p: (String, Vec<StagedDirStats>)| added_dir_row(p.1@)),
                dirs@.len() == i,
                forall|j: int| 0 <= j < i ==> styled_views((#[trigger] dirs@[j])@) == rows[j],
            decreases self.added_dirs.paths@.len() - i,
        {
            let staged = &self.added_dirs.paths[i].1;
            let ghost parts = staged@.map_values(|d: StagedDirStats| added_dir_parts(d.path@, d.num_files_staged as nat));
            let mut row: Vec<StyledText> = Vec::new();
            let mut k: usize = 0;
            while k < staged.len()
                invariant
                    k <= staged@.len(),
                    parts == staged@.map_values(|d: StagedDirStats| added_dir_parts(d.path@, d.num_files_staged as nat)),
                    styled_views(row@) == concat_all(parts.subrange(0, k as int)),
                decreases staged@.len() - k,
            {
                let d = &staged[k];
                let ghost before = styled_views(row@);
                row.push(StyledText::new("  added: ", TextStyle::Green));
                row.push(StyledText::new(d.path.as_str(), TextStyle::GreenBold));
                if d.num_files_staged == 1 {
                    let mut t = String::from_str("with added ");
                    t.append(decimal(d.num_files_staged).as_str());
                    t.append(" file\n");
                    row.push(part(t, TextStyle::Normal));
                } else if d.num_files_staged == 0 {
                    row.push(StyledText::normal("\n"));
                } else {
                    let mut t = String::from_str("with added ");
                    t.append(decimal(d.num_files_staged).as_str());
                    t.append(" files\n");
                    row.push(part(t, TextStyle::Normal));
                }
                proof {
                    assert(parts.subrange(0, k + 1).drop_last() =~= parts.subrange(0, k as int));
                    assert(styled_views(row@) =~= before + parts[k as int]);
                }
                k = k + 1;
            }
            assert(parts.subrange(0, k as int) =~= parts);
            assert(styled_views(row@) == rows[i as int]);
            dirs.push(row);
            i = i + 1;
        }
        assert(item_views(dirs@) =~= rows);
        if dirs.len() == 0 {
            assert(styled_views(outputs@) =~= styled_views(outputs@) + self.added_dirs_section(start as nat, skip as nat));
            return;
        }
        outputs.push(StyledText::normal("Directories to be committed\n"));
        __collapse_outputs(&dirs, outputs, start, skip);
        assert(styled_views(outputs@) =~= styled_views(old(outputs)@) + self.added_dirs_section(start as nat, skip as nat));
    }

    fn __collect_added_files(&self, outputs: &mut Vec<StyledText>, start: usize, skip: usize)
        requires
            start + skip <= usize::MAX,
        ensures
            styled_views(final(outputs)@) == styled_views(old(outputs)@) + self.added_files_section(start as nat, skip as nat),
    {
        if self.added_files.len() == 0 {
            assert(styled_views(outputs@) =~= styled_views(outputs@) + self.added_files_section(start as nat, skip as nat));
            return;
        }
        let ghost all = self.added_files@.map_values(|e: (String, StagedEntry)| added_file_item(e.0@, e.1.status));
        let mut items: Vec<Vec<StyledText>> = Vec::new();
        let mut i: usize = 0;
        while i < self.added_files.len()
            invariant
                i <= self.added_files@.len(),
                all == self.added_files@.map_values(|e: (String, StagedEntry)| added_file_item(e.0@, e.1.status)),
                items@.len() == i,
                forall|j: int| 0 <= j < i ==> styled_views((#[trigger] items@[j])@) == all[j],
            decreases self.added_files@.len() - i,
        {
            let path = &self.added_files[i].0;
            let word = match self.added_files[i].1.status {
                StagedEntryStatus::Removed => "  removed: ",
                StagedEntryStatus::Modified => "  modified: ",
                StagedEntryStatus::Added => "  new file: ",
            };
            let mut v: Vec<StyledText> = Vec::new();
            v.push(StyledText::new(word, TextStyle::Green));
            v.push(part(joined(path.as_str(), "\n"), TextStyle::GreenBold));
            assert(styled_views(v@) =~= all[i as int]);
            items.push(v);
            i = i + 1;
        }
        assert(item_views(items@) =~= all);
        outputs.push(StyledText::normal("Files to be committed:\n"));
        __collapse_outputs(&items, outputs, start, skip);
        assert(styled_views(outputs@) =~= styled_views(old(outputs)@) + self.added_files_section(start as nat, skip as nat));
    }

    fn __collect_modified_files(&self, outputs: &mut Vec<StyledText>, start: usize, skip: usize)
        requires
            start + skip <= usize::MAX,
        ensures
            styled_views(final(outputs)@) == styled_views(old(outputs)@) + self.modified_section(start as nat, skip as nat),
    {
        if self.modified_files.len() == 0 {
            assert(styled_views(outputs@) =~= styled_views(outputs@) + self.modified_section(start as nat, skip as nat));
            return;
        }
        let ghost all = self.modified_files@.map_values(|f: String|
            seq![("  modified: "@, TextStyle::Yellow), (f@ + "\n"@, TextStyle::YellowBold)]);
        let mut items: Vec<Vec<StyledText>> = Vec::new();
        let mut i: usize = 0;
        while i < self.modified_files.len()
            invariant
                i <= self.modified_files@.len(),
                all == self.modified_files@.map_values(|f: String|
                    seq![("  modified: "@, TextStyle::Yellow), (f@ + "\n"@, TextStyle::YellowBold)]),
                items@.len() == i,
                forall|j: int| 0 <= j < i ==> styled_views((#[trigger] items@[j])@) == all[j],
            decreases self.modified_files@.len() - i,
        {
            let mut v: Vec<StyledText> = Vec::new();
            v.push(StyledText::new("  modified: ", TextStyle::Yellow));
            v.push(part(joined(self.modified_files[i].as_str(), "\n"), TextStyle::YellowBold));
            assert(styled_views(v@) =~= all[i as int]);
            items.push(v);
            i = i + 1;
        }
        assert(item_views(items@) =~= all);
        outputs.push(StyledText::normal("Modified files:"));
        outputs.push(part(joined("  ", MSG_OXEN_ADD_FILE_EXAMPLE), TextStyle::Normal));
        __collapse_outputs(&items, outputs, start, skip);
        assert(styled_views(outputs@) =~= styled_views(old(outputs)@) + self.modified_section(start as nat, skip as nat));
    }

    /// Appends the section on merge conflicts.
    pub fn __collect_merge_conflicts(&self, outputs: &mut Vec<StyledText>, start: usize, skip: usize)
        requires
            start + skip <= usize::MAX,
        ensures
            styled_views(final(outputs)@) == styled_views(old(outputs)@) + self.conflicts_section(start as nat, skip as nat),
    {
        if self.merge_conflicts.len() == 0 {
            assert(styled_views(outputs@) =~= styled_views(outputs@) + self.conflicts_section(start as nat, skip as nat));
            return;
        }
        let ghost all = self.merge_conflicts@.map_values(|c: MergeConflict|
            seq![("  both modified: "@, TextStyle::Red), (c.head_entry.path@ + "\n"@, TextStyle::RedBold)]);
        let mut items: Vec<Vec<StyledText>> = Vec::new();
        let mut i: usize = 0;
        while i < self.merge_conflicts.len()
            invariant
                i <= self.merge_conflicts@.len(),
                all == self.merge_conflicts@.map_values(|c: MergeConflict|
                    seq![("  both modified: "@, TextStyle::Red), (c.head_entry.path@ + "\n"@, TextStyle::RedBold)]),
                items@.len() == i,
                forall|j: int| 0 <= j < i ==> styled_views((#[trigger] items@[j])@) == all[j],
            decreases self.merge_conflicts@.len() - i,
        {
            let mut v: Vec<StyledText> = Vec::new();
            v.push(StyledText::new("  both modified: ", TextStyle::Red));
            v.push(part(joined(self.merge_conflicts[i].head_entry.path.as_str(), "\n"), TextStyle::RedBold));
            assert(styled_views(v@) =~= all[i as int]);
            items.push(v);
            i = i + 1;
        }
        assert(item_views(items@) =~= all);
        outputs.push(StyledText::normal("Merge conflicts:"));
        outputs.push(part(joined("  ", MSG_OXEN_ADD_FILE_RESOLVE_CONFLICT), TextStyle::Normal));
        __collapse_outputs(&items, outputs, start, skip);
        assert(styled_views(outputs@) =~= styled_views(old(outputs)@) + self.conflicts_section(start as nat, skip as nat));
    }

    fn __collect_untracked_dirs(&self, outputs: &mut Vec<StyledText>, start: usize, skip: usize)
        requires
            start + skip <= usize::MAX,
        ensures
            styled_views(final(outputs)@) == styled_views(old(outputs)@) + self.untracked_dirs_section(start as nat, skip as nat),
    {
        if self.untracked_dirs.len() == 0 {
            assert(styled_views(outputs@) =~= styled_views(outputs@) + self.untracked_dirs_section(start as nat, skip as nat));
            return;
        }
        let ghost dirs = self.untracked_dirs@;
        let mut max_len: usize = 0;
        let mut i: usize = 0;
        while i < self.untracked_dirs.len()
            invariant
                dirs == self.untracked_dirs@,
                i <= dirs.len(),
                max_len as nat == max_dir_len(dirs, i as nat),
            decreases dirs.len() - i,
        {
            let l = self.untracked_dirs[i].0.as_str().unicode_len();
            if l > max_len {
                max_len = l;
            }
            i = i + 1;
        }
        proof {
            lemma_max_dir_len(dirs, dirs.len());
        }
        let ghost m = max_dir_len(dirs, dirs.len());
        let ghost all = dirs.map_values(|d: (String, usize)|
            untracked_dir_item(d.0@, d.1 as nat, (m - text_len(d.0@)) as nat));
        let mut items: Vec<Vec<StyledText>> = Vec::new();
        let mut i: usize = 0;
        while i < self.untracked_dirs.len()
            invariant
                dirs == self.untracked_dirs@,
                i <= dirs.len(),
                max_len as nat == m,
                forall|j: int| 0 <= j < dirs.len() ==> text_len((#[trigger] dirs[j]).0@) <= m,
                all == dirs.map_values(|d: (String, usize)|
                    untracked_dir_item(d.0@, d.1 as nat, (m - text_len(d.0@)) as nat)),
                items@.len() == i,
                forall|j: int| 0 <= j < i ==> styled_views((#[trigger] items@[j])@) == all[j],
            decreases dirs.len() - i,
        {
            let path = &self.untracked_dirs[i].0;
            let size = self.untracked_dirs[i].1;
            assert(text_len(dirs[i as int].0@) <= m);
            let pad = max_len - path.as_str().unicode_len();
            let mut first = String::from_str("  ");
            first.append(path.as_str());
            first.append("/ ");
            first.append(StagedData::spaces(pad).as_str());
            let mut second = String::from_str("(");
            second.append(decimal(size).as_str());
            second.append(" ");
            second.append(StagedData::item_str_plural(size).as_str());
            second.append(")\n");
            let mut v: Vec<StyledText> = Vec::new();
            v.push(part(first, TextStyle::RedBold));
            v.push(part(second, TextStyle::Normal));
            assert(styled_views(v@) =~= all[i as int]);
            items.push(v);
            i = i + 1;
        }
        assert(item_views(items@) =~= all);
        outputs.push(StyledText::normal("Untracked Directories\n"));
        outputs.push(StyledText::normal(MSG_OXEN_ADD_DIR_EXAMPLE));
        __collapse_outputs(&items, outputs, start, skip);
        assert(styled_views(outputs@) =~= styled_views(old(outputs)@) + self.untracked_dirs_section(start as nat, skip as nat));
    }

    fn __collect_untracked_files(&self, outputs: &mut Vec<StyledText>, start: usize, skip: usize)
        requires
            start + skip <= usize::MAX,
        ensures
            styled_views(final(outputs)@) == styled_views(old(outputs)@) + self.untracked_files_section(start as nat, skip as nat),
    {
        if self.untracked_files.len() == 0 {
            assert(styled_views(outputs@) =~= styled_views(outputs@) + self.untracked_files_section(start as nat, skip as nat));
            return;
        }
        let ghost all = self.untracked_files@.map_values(|f: String| seq![("  "@ + f@ + "\n"@, TextStyle::RedBold)]);
        let mut items: Vec<Vec<StyledText>> = Vec::new();
        let mut i: usize = 0;
        while i < self.untracked_files.len()
            invariant
                i <= self.untracked_files@.len(),
                all == self.untracked_files@.map_values(|f: String| seq![("  "@ + f@ + "\n"@, TextStyle::RedBold)]),
                items@.len() == i,
                forall|j: int| 0 <= j < i ==> styled_views((#[trigger] items@[j])@) == all[j],
            decreases self.untracked_files@.len() - i,
        {
            let mut t = String::from_str("  ");
            t.append(self.untracked_files[i].as_str());
            t.append("\n");
            let mut v: Vec<StyledText> = Vec::new();
            v.push(part(t, TextStyle::RedBold));
            assert(styled_views(v@) =~= all[i as int]);
            items.push(v);
            i = i + 1;
        }
        assert(item_views(items@) =~= all);
        outputs.push(StyledText::normal("Untracked Files\n"));
        outputs.push(StyledText::normal(MSG_OXEN_ADD_FILE_EXAMPLE));
        __collapse_outputs(&items, outputs, start, skip);
        assert(styled_views(outputs@) =~= styled_views(old(outputs)@) + self.untracked_files_section(start as nat, skip as nat));
    }

    /// The parts of the status, showing the items of each section from
    /// `start` up to `start + skip`.
    pub fn __collect_outputs(&self, start: usize, skip: usize) -> (r: Vec<StyledText>)
        requires
            start + skip <= usize::MAX,
        ensures
            styled_views(r@) == self.outputs(start as nat, skip as nat),
    {
        let mut outputs: Vec<StyledText> = Vec::new();
        if self.is_clean() {
            outputs.push(StyledText::normal(MSG_CLEAN_REPO));
            assert(styled_views(outputs@) =~= self.outputs(start as nat, skip as nat));
            return outputs;
        }
        assert(styled_views(outputs@) =~= Seq::<(Seq<char>, TextStyle)>::empty());
        self.__collect_added_dirs(&mut outputs, start, skip);
        self.__collect_added_files(&mut outputs, start, skip);
        self.__collect_modified_files(&mut outputs, start, skip);
        self.__collect_merge_conflicts(&mut outputs, start, skip);
        self.__collect_untracked_dirs(&mut outputs, start, skip);
        self.__collect_untracked_files(&mut outputs, start, skip);
        assert(styled_views(outputs@) =~= self.outputs(start as nat, skip as nat));
        outputs
    }
}

/// Staged files in strictly ascending order of their paths.
pub open spec fn paths_sorted(fs: Seq<(String, StagedEntry)>) -> bool {
    forall|i: int, j: int| 0 <= i < j < fs.len() ==> text_lt(fs[i].0@, fs[j].0@)
}

/// The staged files by path.
pub open spec fn staged_files(fs: Seq<(String, StagedEntry)>) -> Map<Seq<char>, StagedEntry> {
    Map::new(
        |p: Seq<char>| exists|i: int| 0 <= i < fs.len() && fs[i].0@ == p,
        |p: Seq<char>| fs[choose|i: int| 0 <= i < fs.len() && fs[i].0@ == p].1,
    )
}

proof fn lemma_files_at(fs: Seq<(String, StagedEntry)>, i: int)
    requires
        paths_sorted(fs),
        0 <= i < fs.len(),
    ensures
        staged_files(fs).contains_key(fs[i].0@),
        staged_files(fs)[fs[i].0@] == fs[i].1,
{
    let k = fs[i].0@;
    assert(staged_files(fs).dom().contains(k));
    let j = choose|j: int| 0 <= j < fs.len() && fs[j].0@ == k;
    lemma_text_lt_total(k, k);
    assert(j == i) by {
        if j < i {
            assert(text_lt(fs[j].0@, fs[i].0@));
        } else if j > i {
            assert(text_lt(fs[i].0@, fs[j].0@));
        }
    }
}

impl StagedData {
    /// Stages a file, keeping the staged files in ascending order of their
    /// paths; a file staged before under the same path is replaced.
    pub fn add_file(&mut self, path: &str, entry: StagedEntry)
        requires
            paths_sorted(old(self).added_files@),
        ensures
            paths_sorted(final(self).added_files@),
            staged_files(final(self).added_files@) == staged_files(old(self).added_files@).insert(path@, entry),
            final(self).added_dirs.paths@ == old(self).added_dirs.paths@,
            final(self).untracked_dirs@ == old(self).untracked_dirs@,
            final(self).untracked_files@ == old(self).untracked_files@,
            final(self).modified_files@ == old(self).modified_files@,
            final(self).removed_files@ == old(self).removed_files@,
            final(self).merge_conflicts@ == old(self).merge_conflicts@,
    {
        let ghost fs = self.added_files@;
        let ghost before = staged_files(fs);
        let mut p: usize = 0;
        while p < self.added_files.len() && text_less(self.added_files[p].0.as_str(), path)
            invariant
                fs == self.added_files@,
                p <= fs.len(),
                forall|i: int| 0 <= i < p ==> text_lt(fs[i].0@, path@),
            decreases fs.len() - p,
        {
            p = p + 1;
        }
        let key = path.to_owned();
        if p < self.added_files.len() && self.added_files[p].0 == key {
            self.added_files.set(p, (key, entry));
            proof {
                let nf = self.added_files@;
                assert(paths_sorted(nf)) by {
                    assert forall|i: int, j: int| 0 <= i < j < nf.len() implies text_lt(nf[i].0@, nf[j].0@) by {
                        assert(nf[i].0@ == fs[i].0@);
                        assert(nf[j].0@ == fs[j].0@);
                    }
                }
                assert forall|k: Seq<char>| #[trigger] staged_files(nf).contains_key(k)
                    == before.insert(path@, entry).contains_key(k) by {
                    if before.contains_key(k) {
                        let j = choose|j: int| 0 <= j < fs.len() && fs[j].0@ == k;
                        assert(nf[j].0@ == k);
                    }
                    if staged_files(nf).contains_key(k) {
                        let j = choose|j: int| 0 <= j < nf.len() && nf[j].0@ == k;
                        assert(fs[j].0@ == k);
                    }
                    if k == path@ {
                        assert(nf[p as int].0@ == k);
                    }
                }
                assert forall|k: Seq<char>| #[trigger] staged_files(nf).contains_key(k)
                    implies staged_files(nf)[k] == before.insert(path@, entry)[k] by {
                    let j = choose|j: int| 0 <= j < nf.len() && nf[j].0@ == k;
                    lemma_files_at(nf, j);
                    if k != path@ {
                        lemma_files_at(fs, j);
                        assert(fs[j] == nf[j]);
                    }
                }
                assert(staged_files(nf) =~= before.insert(path@, entry));
            }
        } else {
            let ghost x = (key, entry);
            proof {
                if p < fs.len() {
                    lemma_text_lt_total(fs[p as int].0@, path@);
                    assert(text_lt(path@, fs[p as int].0@));
                }
            }
            self.added_files.insert(p, (key, entry));
            proof {
                let nf = self.added_files@;
                assert(nf =~= fs.insert(p as int, x));
                assert(paths_sorted(nf)) by {
                    assert forall|i: int, j: int| 0 <= i < j < nf.len() implies text_lt(nf[i].0@, nf[j].0@) by {
                        if j < p {
                        } else if j == p {
                            assert(text_lt(fs[i].0@, path@));
                        } else if i < p {
                            assert(text_lt(fs[i].0@, path@));
                            assert(text_lt(path@, fs[p as int].0@));
                            if j - 1 > p {
                                lemma_text_lt_transitive(path@, fs[p as int].0@, fs[j - 1].0@);
                            }
                            lemma_text_lt_transitive(fs[i].0@, path@, fs[j - 1].0@);
                        } else if i == p {
                            assert(text_lt(path@, fs[p as int].0@));
                            if j - 1 > p {
                                lemma_text_lt_transitive(path@, fs[p as int].0@, fs[j - 1].0@);
                            }
                        } else {
                            assert(text_lt(fs[i - 1].0@, fs[j - 1].0@));
                        }
                    }
                }
                assert forall|k: Seq<char>| #[trigger] staged_files(nf).contains_key(k)
                    == before.insert(path@, entry).contains_key(k) by {
                    if before.contains_key(k) {
                        let j = choose|j: int| 0 <= j < fs.len() && fs[j].0@ == k;
                        if j < p {
                            assert(nf[j].0@ == k);
                        } else {
                            assert(nf[j + 1].0@ == k);
                        }
                    }
                    if staged_files(nf).contains_key(k) && k != path@ {
                        let j = choose|j: int| 0 <= j < nf.len() && nf[j].0@ == k;
                        if j < p {
                            assert(fs[j].0@ == k);
                        } else if j > p {
                            assert(fs[j - 1].0@ == k);
                        }
                    }
                    if k == path@ {
                        assert(nf[p as int].0@ == k);
                    }
                }
                assert forall|k: Seq<char>| #[trigger] staged_files(nf).contains_key(k)
                    implies staged_files(nf)[k] == before.insert(path@, entry)[k] by {
                    let j = choose|j: int| 0 <= j < nf.len() && nf[j].0@ == k;
                    lemma_files_at(nf, j);
                    if k == path@ {
                        lemma_files_at(nf, p as int);
                        assert(nf[p as int] == x);
                    } else {
                        if j < p {
                            assert(nf[j] == fs[j]);
                            lemma_files_at(fs, j);
                        } else {
                            assert(j != p);
                            assert(nf[j] == fs[j - 1]);
                            lemma_files_at(fs, j - 1);
                        }
                    }
                }
                assert(staged_files(nf) =~= before.insert(path@, entry));
            }
        }
    }
}

} // verus!
