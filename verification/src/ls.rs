//! Listing directories: which entries to show, and how a long listing
//! is laid out.
//!
//! Nothing here looks at the file system. What was found there comes
//! in as plain values.

use vstd::prelude::*;
use vstd::string::StringExecFns;
use crate::text::{chars_of, decimal_digits, decimal_text};

verus! {

/// An entry of a directory.
#[derive(Debug)]
pub struct DirItem {
    /// The name of the entry within its directory.
    pub file_name: String,
    /// The path of the entry: that of the directory, and the name.
    pub path: String,
}

/// What a path turned out to be.
#[derive(Debug)]
pub enum PathKind {
    /// Its metadata could not be read, for the reason given.
    Unknown(String),
    /// Something other than a directory.
    File,
    /// A directory, with its entries in the order in which they were
    /// read; `None` stands for an entry that could not be read.
    Dir(Vec<Option<DirItem>>),
    /// A directory that could not be read, for the reason given.
    UnreadableDir(String),
}

/// A path given to list, and what was found at it.
#[derive(Debug)]
pub struct PathInfo {
    pub path: String,
    pub kind: PathKind,
}

/// The paths to show, and what to say of the paths that could not be
/// looked at.
#[derive(Debug)]
pub struct Found {
    pub paths: Vec<String>,
    pub warnings: Vec<String>,
}

/// Whether an entry of this name is hidden: its name begins with a dot.
pub open spec fn is_hidden(file_name: Seq<char>) -> bool {
    file_name.len() > 0 && file_name[0] == '.'
}

/// The paths of the entries to show: of those that could be read, all
/// if hidden ones are shown, else those that are not hidden.
pub open spec fn shown_entries(entries: Seq<Option<DirItem>>, show_hidden: bool) -> Seq<String>
    decreases entries.len(),
{
    if entries.len() == 0 {
        Seq::empty()
    } else {
        let before = shown_entries(entries.drop_last(), show_hidden);
        match entries.last() {
            Some(item) => if show_hidden || !is_hidden(item.file_name@) {
                before.push(item.path)
            } else {
                before
            },
            None => before,
        }
    }
}

/// The paths to show for one path given: a directory stands for its
/// entries, anything else for itself.
pub open spec fn shown_for(info: PathInfo, show_hidden: bool) -> Seq<String> {
    match info.kind {
        PathKind::File => seq![info.path],
        PathKind::Dir(entries) => shown_entries(entries@, show_hidden),
        _ => Seq::empty(),
    }
}

/// The paths to show for the paths given, in their order.
pub open spec fn shown(infos: Seq<PathInfo>, show_hidden: bool) -> Seq<String>
    decreases infos.len(),
{
    if infos.len() == 0 {
        Seq::empty()
    } else {
        shown(infos.drop_last(), show_hidden) + shown_for(infos.last(), show_hidden)
    }
}

/// What to say of a path that could not be looked at.
pub open spec fn warning_text(path: Seq<char>, reason: Seq<char>) -> Seq<char> {
    "ls: "@ + path + ": "@ + reason
}

/// What to say of the paths given that could not be looked at, in their
/// order.
pub open spec fn warned(infos: Seq<PathInfo>) -> Seq<Seq<char>>
    decreases infos.len(),
{
    if infos.len() == 0 {
        Seq::empty()
    } else {
        let before = warned(infos.drop_last());
        match infos.last().kind {
            PathKind::Unknown(reason) => before.push(warning_text(infos.last().path@, reason@)),
            PathKind::UnreadableDir(reason) => before.push(
                warning_text(infos.last().path@, reason@),
            ),
            _ => before,
        }
    }
}

/// Whether an entry of this name is hidden.
pub fn hidden(file_name: &str) -> (r: bool)
    ensures
        r == is_hidden(file_name@),
{
    let chars = chars_of(file_name);
    chars.len() > 0 && chars[0] == '.'
}

/// What to say of `path`, which could not be looked at for `reason`.
fn warning(path: &String, reason: &String) -> (s: String)
    ensures
        s@ == warning_text(path@, reason@),
{
    String::from_str("ls: ").concat(path.as_str()).concat(": ").concat(reason.as_str())
}

/// The paths to show for the paths given: each directory stands for its
/// entries, without the hidden ones unless `show_hidden` is set, and
/// anything else for itself. A path that could not be looked at is left
/// out, with a warning.
pub fn find_files(paths: &[PathInfo], show_hidden: bool) -> (found: Found)
    ensures
        found.paths@ == shown(paths@, show_hidden),
        found.warnings.deep_view() == warned(paths@),
{
    let mut result: Vec<String> = Vec::new();
    let mut warnings: Vec<String> = Vec::new();
    let mut k: usize = 0;
    assert(warnings.deep_view() =~= Seq::<Seq<char>>::empty());
    while k < paths.len()
        invariant
            k <= paths.len(),
            result@ == shown(paths@.take(k as int), show_hidden),
            warnings.deep_view() == warned(paths@.take(k as int)),
        decreases paths.len() - k,
    {
        let info = &paths[k];
        let ghost before = result@;
        let ghost warned_before = warnings.deep_view();
        proof {
            assert(paths@.take(k + 1).drop_last() =~= paths@.take(k as int));
            assert(paths@.take(k + 1).last() == paths@[k as int]);
        }
        match &info.kind {
            PathKind::Unknown(reason) => {
                warnings.push(warning(&info.path, reason));
                assert(warnings.deep_view() =~= warned_before.push(
                    warning_text(info.path@, reason@),
                ));
                assert(result@ =~= before + shown_for(*info, show_hidden));
            },
            PathKind::UnreadableDir(reason) => {
                warnings.push(warning(&info.path, reason));
                assert(warnings.deep_view() =~= warned_before.push(
                    warning_text(info.path@, reason@),
                ));
                assert(result@ =~= before + shown_for(*info, show_hidden));
            },
            PathKind::File => {
                result.push(info.path.clone());
                assert(result@ =~= before + shown_for(*info, show_hidden));
            },
            PathKind::Dir(entries) => {
                let mut i: usize = 0;
                while i < entries.len()
                    invariant
                        i <= entries.len(),
                        result@ == before + shown_entries(entries@.take(i as int), show_hidden),
                    decreases entries.len() - i,
                {
                    proof {
                        assert(entries@.take(i + 1).drop_last() =~= entries@.take(i as int));
                        assert(entries@.take(i + 1).last() == entries@[i as int]);
                    }
                    match &entries[i] {
                        Some(item) => {
                            if show_hidden || !hidden(item.file_name.as_str()) {
                                result.push(item.path.clone());
                            }
                        },
                        None => {},
                    }
                    i = i + 1;
                }
                assert(entries@.take(entries.len() as int) =~= entries@);
            },
        }
        k = k + 1;
    }
    assert(paths@.take(paths.len() as int) =~= paths@);
    Found { paths: result, warnings }
}

/// Two to the power `k`.
pub open spec fn two_to(k: nat) -> nat
    decreases k,
{
    if k == 0 {
        1
    } else {
        2 * two_to((k - 1) as nat)
    }
}

/// A power of two is positive.
pub proof fn lemma_two_to_positive(k: nat)
    ensures
        two_to(k) > 0,
    decreases k,
{
    if k > 0 {
        lemma_two_to_positive((k - 1) as nat);
    }
}

/// Whether bit `k` of `mode` is set, bit 0 being the lowest.
pub open spec fn mode_bit(mode: u32, k: nat) -> bool {
    (mode as nat / two_to(k)) % 2 == 1
}

/// The letter of the permission at place `i` of nine, from the left:
/// read, write and execute, three times.
pub open spec fn permission_letter(i: int) -> char {
    if i % 3 == 0 {
        'r'
    } else if i % 3 == 1 {
        'w'
    } else {
        'x'
    }
}

/// The nine characters that show the permissions of `mode`: those of
/// the owner, of the group and of the others, each as `rwx` with a dash
/// for a permission that is not granted. The owner's read permission is
/// bit 8 of the mode, and the others' execute permission is bit 0.
pub open spec fn permissions_text(mode: u32) -> Seq<char> {
    Seq::new(
        9,
        |i: int|
            if mode_bit(mode, (8 - i) as nat) {
                permission_letter(i)
            } else {
                '-'
            },
    )
}

/// The permissions of `mode`, as nine characters.
pub fn format_permissions(mode: u32) -> (s: String)
    ensures
        s@ == permissions_text(mode),
{
    let mut s = String::new();
    let mut weight: u32 = 256;
    let mut i: u32 = 0;
    assert(two_to(8) == 256) by {
        reveal_with_fuel(two_to, 9);
    }
    while i < 9
        invariant
            i <= 9,
            i < 9 ==> weight == two_to((8 - i) as nat),
            s@ == permissions_text(mode).take(i as int),
        decreases 9 - i,
    {
        proof {
            lemma_two_to_positive((8 - i) as nat);
        }
        let granted = (mode / weight) % 2 == 1;
        let letter = if i % 3 == 0 {
            'r'
        } else if i % 3 == 1 {
            'w'
        } else {
            'x'
        };
        s.push(if granted {
            letter
        } else {
            '-'
        });
        assert(s@ =~= permissions_text(mode).take(i + 1));
        if i < 8 {
            weight = weight / 2;
        }
        i = i + 1;
    }
    assert(permissions_text(mode).take(9) =~= permissions_text(mode));
    s
}

/// What a long listing shows of one path.
#[derive(Debug)]
pub struct LongEntry {
    pub path: String,
    pub is_dir: bool,
    /// The permission bits, and whatever else the mode holds above them.
    pub mode: u32,
    pub nlink: u64,
    pub uid: u32,
    /// The name of the user `uid`, if there is one.
    pub user: Option<String>,
    pub gid: u32,
    /// The name of the group `gid`, if there is one.
    pub group: Option<String>,
    pub size: u64,
    /// The time of the last change, as it is to be shown.
    pub modified: String,
}

/// How an owner is shown: by name, or by number if there is no name.
pub open spec fn owner_text(name: Option<String>, id: u32) -> Seq<char> {
    match name {
        Some(name) => name@,
        None => decimal_digits(id as nat),
    }
}

/// The eight cells that a long listing shows of `entry`: whether it is
/// a directory, its permissions, the number of links to it, its user and
/// its group, its size, the time of its last change, its path.
pub open spec fn long_row(entry: LongEntry) -> Seq<Seq<char>> {
    seq![
        if entry.is_dir {
            "d"@
        } else {
            "-"@
        },
        permissions_text(entry.mode),
        decimal_digits(entry.nlink as nat),
        owner_text(entry.user, entry.uid),
        owner_text(entry.group, entry.gid),
        decimal_digits(entry.size as nat),
        entry.modified@,
        entry.path@,
    ]
}

/// The rows that a long listing shows of `entries`.
pub open spec fn long_rows_spec(entries: Seq<LongEntry>) -> Seq<Seq<Seq<char>>> {
    Seq::new(entries.len(), |i: int| long_row(entries[i]))
}

/// How an owner is shown.
fn owner(name: &Option<String>, id: u32) -> (s: String)
    ensures
        s@ == owner_text(*name, id),
{
    match name {
        Some(name) => name.clone(),
        None => decimal_text(id as u64),
    }
}

/// The rows that a long listing shows of `entries`, eight cells each.
pub fn long_rows(entries: &[LongEntry]) -> (rows: Vec<Vec<String>>)
    ensures
        rows.deep_view() == long_rows_spec(entries@),
        forall|i: int| 0 <= i < rows.len() ==> (#[trigger] rows[i]).len() == 8,
{
    let mut rows: Vec<Vec<String>> = Vec::new();
    let mut k: usize = 0;
    while k < entries.len()
        invariant
            k <= entries.len(),
            rows.len() == k,
            forall|i: int| 0 <= i < k ==> (#[trigger] rows[i]).len() == 8,
            forall|i: int| 0 <= i < k ==> (#[trigger] rows[i]).deep_view() == long_row(entries[i]),
        decreases entries.len() - k,
    {
        let entry = &entries[k];
        let mut row: Vec<String> = Vec::new();
        row.push(String::from_str(if entry.is_dir {
            "d"
        } else {
            "-"
        }));
        row.push(format_permissions(entry.mode));
        row.push(decimal_text(entry.nlink));
        row.push(owner(&entry.user, entry.uid));
        row.push(owner(&entry.group, entry.gid));
        row.push(decimal_text(entry.size));
        row.push(entry.modified.clone());
        row.push(entry.path.clone());
        assert(row.deep_view() =~= long_row(*entry));
        rows.push(row);
        k = k + 1;
    }
    assert(rows.deep_view() =~= long_rows_spec(entries@));
    rows
}

/// The text of a table with the rows `rows`, as `tabular` lays it out
/// for the format `layout`: a line for each row, with the cells of a
/// column padded to the width of its widest cell where the format has a
/// column, and what the format holds between its columns in between.
pub uninterp spec fn table_text(layout: Seq<char>, rows: Seq<Seq<Seq<char>>>) -> Seq<char>;

/// The format of a long listing: eight columns. The first two stand
/// side by side and the others two spaces apart; the number of links
/// and the size are aligned to the right, the rest to the left.
pub open spec fn long_layout() -> Seq<char> {
    "{:<}{:<}  {:>}  {:<}  {:<}  {:>}  {:<}  {:<}"@
}

/// `tabular::Table::new` for the format `layout`, filled with `rows` by
/// `add_row` and written out by its `Display`: the text is a function of
/// the format and the cells alone, named `table_text`. A format that is
/// not well formed makes `new` panic, and a row with another number of
/// cells than the format has columns makes `add_row` panic: the format is
/// that of the long listing, and each row has its eight cells.
#[verifier::external_body]
fn render_table(layout: &str, rows: &Vec<Vec<String>>) -> (text: String)
    requires
        layout@ == long_layout(),
        forall|i: int| 0 <= i < rows.len() ==> (#[trigger] rows[i]).len() == 8,
    ensures
        text@ == table_text(layout@, rows.deep_view()),
{
    let mut table = tabular::Table::new(layout);
    for row in rows {
        table.add_row(tabular::Row::from_cells(row.iter()));
    }
    table.to_string()
}

/// The long listing of `entries`: a table in the format of the long
/// listing, with a row for each.
pub fn format_output(entries: &[LongEntry]) -> (text: String)
    ensures
        text@ == table_text(long_layout(), long_rows_spec(entries@)),
{
    let fmt = "{:<}{:<}  {:>}  {:<}  {:<}  {:>}  {:<}  {:<}";
    let rows = long_rows(entries);
    render_table(fmt, &rows)
}

} // verus!
