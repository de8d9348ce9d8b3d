//! The file tree of the desktop client.

use crate::gui::theme::DeepSeekColors;
use crate::text;
use vstd::prelude::*;
use vstd::relations::*;
use vstd::seq_lib::*;
use vstd::string::*;

verus! {

/// How many entries of a directory are shown.
pub const MAX_TREE_ENTRIES: usize = 200;

/// Whether a text comes before another or equals it: texts are ordered by their first difference,
/// and a text comes before any that it starts.
pub open spec fn text_le(a: Seq<char>, b: Seq<char>) -> bool
    decreases a.len(),
{
    if a.len() == 0 {
        true
    } else if b.len() == 0 {
        false
    } else if a[0] == b[0] {
        text_le(a.drop_first(), b.drop_first())
    } else {
        a[0] < b[0]
    }
}

proof fn lemma_text_le_reflexive(a: Seq<char>)
    ensures
        text_le(a, a),
    decreases a.len(),
{
    if a.len() > 0 {
        lemma_text_le_reflexive(a.drop_first());
    }
}

proof fn lemma_text_le_antisymmetric(a: Seq<char>, b: Seq<char>)
    requires
        text_le(a, b),
        text_le(b, a),
    ensures
        a == b,
    decreases a.len(),
{
    if a.len() > 0 {
        lemma_text_le_antisymmetric(a.drop_first(), b.drop_first());
        assert(a =~= seq![a[0]] + a.drop_first());
        assert(b =~= seq![b[0]] + b.drop_first());
    } else {
        assert(a =~= b);
    }
}

proof fn lemma_text_le_transitive(a: Seq<char>, b: Seq<char>, c: Seq<char>)
    requires
        text_le(a, b),
        text_le(b, c),
    ensures
        text_le(a, c),
    decreases a.len(),
{
    if a.len() > 0 && a[0] == b[0] && b[0] == c[0] {
        lemma_text_le_transitive(a.drop_first(), b.drop_first(), c.drop_first());
    }
}

proof fn lemma_text_le_total(a: Seq<char>, b: Seq<char>)
    ensures
        text_le(a, b) || text_le(b, a),
    decreases a.len(),
{
    if a.len() > 0 && b.len() > 0 && a[0] == b[0] {
        lemma_text_le_total(a.drop_first(), b.drop_first());
    }
}

/// Whether a text comes before another or equals it.
pub fn is_text_le(a: &str, b: &str) -> (r: bool)
    ensures
        r == text_le(a@, b@),
{
    let left: Vec<char> = text::chars_of(a);
    let right: Vec<char> = text::chars_of(b);
    let mut i: usize = 0;
    assert(a@.skip(0) =~= a@ && b@.skip(0) =~= b@);
    while i < left.len() && i < right.len()
        invariant
            left@ == a@,
            right@ == b@,
            i <= left@.len(),
            i <= right@.len(),
            text_le(a@, b@) == text_le(a@.skip(i as int), b@.skip(i as int)),
        decreases left@.len() - i,
    {
        assert(a@.skip(i as int).drop_first() =~= a@.skip(i + 1));
        assert(b@.skip(i as int).drop_first() =~= b@.skip(i + 1));
        assert(a@.skip(i as int)[0] == a@[i as int] && b@.skip(i as int)[0] == b@[i as int]);
        if left[i] != right[i] {
            return left[i] < right[i];
        }
        i += 1;
    }
    i == left.len()
}

/// One entry of a directory.
#[derive(Debug)]
pub struct FileEntry {
    pub name: String,
    pub is_dir: bool,
}

/// The value of a [`FileEntry`].
pub struct FileEntryView {
    pub name: Seq<char>,
    pub is_dir: bool,
}

impl View for FileEntry {
    type V = FileEntryView;

    open spec fn view(&self) -> FileEntryView {
        FileEntryView { name: self.name@, is_dir: self.is_dir }
    }
}

impl Clone for FileEntry {
    fn clone(&self) -> (r: Self)
        ensures
            r@ == self@,
    {
        FileEntry { name: self.name.clone(), is_dir: self.is_dir }
    }
}

/// The values of a list of entries.
pub open spec fn entry_views(entries: Seq<FileEntry>) -> Seq<FileEntryView> {
    entries.map_values(|entry: FileEntry| entry@)
}

/// Whether an entry stands before another in the tree: directories come first, and each kind is
/// ordered by name.
pub open spec fn entry_le(a: FileEntryView, b: FileEntryView) -> bool {
    if a.is_dir == b.is_dir {
        text_le(a.name, b.name)
    } else {
        a.is_dir
    }
}

/// The order of the entries in the tree.
pub open spec fn entry_order() -> spec_fn(FileEntryView, FileEntryView) -> bool {
    |a: FileEntryView, b: FileEntryView| entry_le(a, b)
}

/// The order of the entries is total: no two different entries are tied.
pub proof fn entry_order_is_total()
    ensures
        total_ordering(entry_order()),
{
    let leq = entry_order();
    assert forall|a: FileEntryView| #[trigger] leq(a, a) by {
        lemma_text_le_reflexive(a.name);
    }
    assert forall|a: FileEntryView, b: FileEntryView| #[trigger] leq(a, b) && #[trigger] leq(
        b,
        a,
    ) implies a == b by {
        lemma_text_le_antisymmetric(a.name, b.name);
    }
    assert forall|a: FileEntryView, b: FileEntryView, c: FileEntryView| #[trigger]
        leq(a, b) && #[trigger] leq(b, c) implies leq(a, c) by {
        if a.is_dir == b.is_dir && b.is_dir == c.is_dir {
            lemma_text_le_transitive(a.name, b.name, c.name);
        }
    }
    assert forall|a: FileEntryView, b: FileEntryView| #[trigger] leq(a, b) || #[trigger] leq(
        b,
        a,
    ) by {
        lemma_text_le_total(a.name, b.name);
    }
}

fn is_entry_le(a: &FileEntry, b: &FileEntry) -> (r: bool)
    ensures
        r == entry_le(a@, b@),
{
    if a.is_dir == b.is_dir {
        is_text_le(a.name.as_str(), b.name.as_str())
    } else {
        a.is_dir
    }
}

/// Merges two sorted lists.
fn merge_entries(left: &Vec<FileEntry>, right: &Vec<FileEntry>) -> (r: Vec<FileEntry>)
    requires
        sorted_by(entry_views(left@), entry_order()),
        sorted_by(entry_views(right@), entry_order()),
    ensures
        sorted_by(entry_views(r@), entry_order()),
        entry_views(r@).to_multiset() == entry_views(left@).to_multiset().add(
            entry_views(right@).to_multiset(),
        ),
{
    let ghost ls = entry_views(left@);
    let ghost rs = entry_views(right@);
    let ghost leq = entry_order();
    proof {
        entry_order_is_total();
    }
    let mut out: Vec<FileEntry> = Vec::new();
    let mut i: usize = 0;
    let mut j: usize = 0;
    proof {
        broadcast use group_to_multiset_ensures;

        assert(entry_views(out@) =~= Seq::<FileEntryView>::empty());
        assert(ls.take(0) =~= Seq::<FileEntryView>::empty());
        assert(rs.take(0) =~= Seq::<FileEntryView>::empty());
        assert(entry_views(out@).to_multiset() =~= ls.take(0).to_multiset().add(
            rs.take(0).to_multiset(),
        ));
    }
    while i < left.len() || j < right.len()
        invariant
            i <= left@.len(),
            j <= right@.len(),
            ls == entry_views(left@),
            rs == entry_views(right@),
            leq == entry_order(),
            total_ordering(leq),
            sorted_by(ls, leq),
            sorted_by(rs, leq),
            sorted_by(entry_views(out@), leq),
            forall|k: int, m: int|
                0 <= k < out@.len() && i <= m < ls.len() ==> #[trigger] leq(
                    entry_views(out@)[k],
                    #[trigger] ls[m],
                ),
            forall|k: int, m: int|
                0 <= k < out@.len() && j <= m < rs.len() ==> #[trigger] leq(
                    entry_views(out@)[k],
                    #[trigger] rs[m],
                ),
            entry_views(out@).to_multiset() == ls.take(i as int).to_multiset().add(
                rs.take(j as int).to_multiset(),
            ),
        decreases left@.len() - i + right@.len() - j,
    {
        let from_left: bool = if i == left.len() {
            false
        } else if j == right.len() {
            true
        } else {
            is_entry_le(&left[i], &right[j])
        };
        let ghost before = entry_views(out@);
        let next: FileEntry = if from_left {
            left[i].clone()
        } else {
            right[j].clone()
        };
        let ghost value = next@;
        out.push(next);
        proof {
            broadcast use group_to_multiset_ensures;

            let after = entry_views(out@);
            assert(after =~= before.push(value));
            assert(i < ls.len() ==> ls[i as int] == left@[i as int]@);
            assert(j < rs.len() ==> rs[j as int] == right@[j as int]@);
            if from_left {
                assert(ls.take(i + 1) =~= ls.take(i as int).push(value));
                assert(leq(value, ls[i as int]));
                assert forall|m: int| i < m < ls.len() implies leq(value, #[trigger] ls[m]) by {
                    assert(leq(ls[i as int], ls[m]));
                }
                assert forall|m: int| j <= m < rs.len() implies leq(value, #[trigger] rs[m]) by {
                    assert(leq(value, rs[j as int]));
                    if m > j {
                        assert(leq(rs[j as int], rs[m]));
                    }
                }
                assert(after.to_multiset() =~= ls.take(i + 1).to_multiset().add(
                    rs.take(j as int).to_multiset(),
                ));
            } else {
                assert(rs.take(j + 1) =~= rs.take(j as int).push(value));
                assert forall|m: int| j < m < rs.len() implies leq(value, #[trigger] rs[m]) by {
                    assert(leq(rs[j as int], rs[m]));
                }
                assert forall|m: int| i <= m < ls.len() implies leq(value, #[trigger] ls[m]) by {
                    assert(!leq(ls[i as int], rs[j as int]));
                    assert(leq(rs[j as int], ls[i as int]));
                    if m > i {
                        assert(leq(ls[i as int], ls[m]));
                    }
                }
                assert(after.to_multiset() =~= ls.take(i as int).to_multiset().add(
                    rs.take(j + 1).to_multiset(),
                ));
            }
            assert forall|a: int, b: int| 0 <= a < b < after.len() implies #[trigger] leq(
                after[a],
                after[b],
            ) by {
                if b == before.len() {
                    assert(after[a] == before[a]);
                    if from_left {
                        assert(leq(before[a], ls[i as int]));
                    } else {
                        assert(leq(before[a], rs[j as int]));
                    }
                } else {
                    assert(leq(before[a], before[b]));
                }
            }
        }
        if from_left {
            i += 1;
        } else {
            j += 1;
        }
    }
    assert(ls.take(i as int) =~= ls);
    assert(rs.take(j as int) =~= rs);
    out
}

/// The entries of a directory in the order of the tree.
pub fn sort_entries(entries: &[FileEntry]) -> (r: Vec<FileEntry>)
    ensures
        entry_views(r@) == entry_views(entries@).sort_by(entry_order()),
    decreases entries@.len(),
{
    let ghost views = entry_views(entries@);
    proof {
        entry_order_is_total();
        views.lemma_sort_by_ensures(entry_order());
    }
    if entries.len() <= 1 {
        let mut out: Vec<FileEntry> = Vec::new();
        if entries.len() == 1 {
            out.push(entries[0].clone());
        }
        proof {
            assert(entry_views(out@) =~= views);
            lemma_sorted_unique(views, views.sort_by(entry_order()), entry_order());
        }
        return out;
    }
    let half: usize = entries.len() / 2;
    let front: &[FileEntry] = vstd::slice::slice_subrange(entries, 0, half);
    let back: &[FileEntry] = vstd::slice::slice_subrange(entries, half, entries.len());
    let left: Vec<FileEntry> = sort_entries(front);
    let right: Vec<FileEntry> = sort_entries(back);
    proof {
        entry_views(front@).lemma_sort_by_ensures(entry_order());
        entry_views(back@).lemma_sort_by_ensures(entry_order());
    }
    let out: Vec<FileEntry> = merge_entries(&left, &right);
    proof {
        assert(views =~= entry_views(front@) + entry_views(back@));
        lemma_multiset_commutative(entry_views(front@), entry_views(back@));
        lemma_sorted_unique(entry_views(out@), views.sort_by(entry_order()), entry_order());
    }
    out
}

/// The entries of a directory that the tree shows, in order.
pub open spec fn shown_entries(entries: Seq<FileEntryView>) -> Seq<FileEntryView> {
    let sorted = entries.sort_by(entry_order());
    if sorted.len() <= MAX_TREE_ENTRIES {
        sorted
    } else {
        sorted.take(MAX_TREE_ENTRIES as int)
    }
}

/// The entries of a directory that the tree shows, in order.
pub fn tree_entries(entries: &[FileEntry]) -> (r: Vec<FileEntry>)
    ensures
        entry_views(r@) == shown_entries(entry_views(entries@)),
{
    let mut sorted: Vec<FileEntry> = sort_entries(entries);
    let ghost all = sorted@;
    if sorted.len() > MAX_TREE_ENTRIES {
        sorted.truncate(MAX_TREE_ENTRIES);
        assert(entry_views(sorted@) =~= entry_views(all).take(MAX_TREE_ENTRIES as int));
    }
    assert(entry_views(all).len() == all.len());
    sorted
}

/// The tree shows only entries of the directory, directories before files and each kind by name;
/// in a directory of at most as many entries as are shown it shows every one.
pub proof fn tree_shows_the_directory(entries: Seq<FileEntryView>)
    ensures
        sorted_by(shown_entries(entries), entry_order()),
        forall|i: int|
            0 <= i < shown_entries(entries).len() ==> entries.contains(
                #[trigger] shown_entries(entries)[i],
            ),
        shown_entries(entries).len() <= MAX_TREE_ENTRIES,
        entries.len() <= MAX_TREE_ENTRIES ==> shown_entries(entries).to_multiset()
            == entries.to_multiset(),
{
    broadcast use group_to_multiset_ensures;

    entry_order_is_total();
    entries.lemma_sort_by_ensures(entry_order());
    let sorted = entries.sort_by(entry_order());
    assert(sorted.len() == entries.len()) by {
        assert(sorted.to_multiset().len() == entries.to_multiset().len());
    }
    let shown = shown_entries(entries);
    assert forall|i: int| 0 <= i < shown.len() implies entries.contains(#[trigger] shown[i]) by {
        assert(sorted.contains(sorted[i]));
    }
    assert forall|i: int, j: int| 0 <= i < j < shown.len() implies #[trigger] entry_order()(
        shown[i],
        shown[j],
    ) by {
        assert(entry_order()(sorted[i], sorted[j]));
    }
}

/// The directories that the tree leaves out.
pub open spec fn is_skipped_name(name: Seq<char>) -> bool {
    name == "target"@ || name == "node_modules"@ || name == ".git"@ || name == "dist"@ || name
        == "build"@
}

/// Whether the tree leaves out a directory of this name.
pub fn is_skipped_dir(name: &str) -> (r: bool)
    ensures
        r == is_skipped_name(name@),
{
    text::same_text(name, "target") || text::same_text(name, "node_modules") || text::same_text(
        name,
        ".git",
    ) || text::same_text(name, "dist") || text::same_text(name, "build")
}

/// The header of a directory in the tree: an arrow, down where it is open, and the name.
pub fn directory_header(name: &str, is_open: bool) -> (r: String)
    ensures
        r@ == (if is_open {
            "▾ "@
        } else {
            "▸ "@
        }) + name@,
{
    let mut header: String = if is_open {
        "▾ ".to_string()
    } else {
        "▸ ".to_string()
    };
    header.append(name);
    header
}

/// The extension of a file name: what follows its last dot, if the dot is not its first
/// character.
pub open spec fn extension(name: Seq<char>) -> Option<Seq<char>> {
    if name == ".."@ || !name.contains('.') || text::after_last(name, '.').len() + 1 == name.len() {
        None
    } else {
        Some(text::after_last(name, '.'))
    }
}

/// The extension of a file name.
pub fn extension_of<'a>(name: &'a str) -> (r: Option<&'a str>)
    ensures
        match r {
            Some(ext) => extension(name@) == Some(ext@),
            None => extension(name@) is None,
        },
{
    if text::same_text(name, "..") || !text::has_char(name, '.') {
        return None;
    }
    let ext: &str = text::tail_after_last(name, '.');
    proof {
        text::lemma_after_last_len(name@, '.');
    }
    if ext.unicode_len() == name.unicode_len() - 1 {
        None
    } else {
        Some(ext)
    }
}

/// The icon of a file with an extension.
pub open spec fn icon(ext: Option<Seq<char>>) -> Seq<char> {
    match ext {
        Some(e) => if e == "rs"@ {
            "\u{e7a8}"@
        } else if e == "toml"@ {
            "\u{e615}"@
        } else if e == "md"@ {
            "\u{e73e}"@
        } else if e == "json"@ {
            "\u{e60b}"@
        } else if e == "yaml"@ || e == "yml"@ {
            "\u{e6a8}"@
        } else if e == "py"@ {
            "\u{e73c}"@
        } else if e == "js"@ {
            "\u{e74e}"@
        } else if e == "ts"@ {
            "\u{e628}"@
        } else if e == "html"@ {
            "\u{e736}"@
        } else if e == "css"@ {
            "\u{e749}"@
        } else if e == "dockerfile"@ {
            "\u{e7b0}"@
        } else if e == "sh"@ || e == "ps1"@ || e == "bat"@ {
            "\u{e795}"@
        } else if e == "lock"@ {
            "\u{e615}"@
        } else {
            "\u{ea7b}"@
        },
        None => "\u{ea7b}"@,
    }
}

/// The icon of a file.
pub fn file_type_icon(name: &str) -> (r: &'static str)
    ensures
        r@ == icon(extension(name@)),
{
    match extension_of(name) {
        Some(e) => {
            if text::same_text(e, "rs") {
                "\u{e7a8}"
            } else if text::same_text(e, "toml") {
                "\u{e615}"
            } else if text::same_text(e, "md") {
                "\u{e73e}"
            } else if text::same_text(e, "json") {
                "\u{e60b}"
            } else if text::same_text(e, "yaml") || text::same_text(e, "yml") {
                "\u{e6a8}"
            } else if text::same_text(e, "py") {
                "\u{e73c}"
            } else if text::same_text(e, "js") {
                "\u{e74e}"
            } else if text::same_text(e, "ts") {
                "\u{e628}"
            } else if text::same_text(e, "html") {
                "\u{e736}"
            } else if text::same_text(e, "css") {
                "\u{e749}"
            } else if text::same_text(e, "dockerfile") {
                "\u{e7b0}"
            } else if text::same_text(e, "sh") || text::same_text(e, "ps1") || text::same_text(
                e,
                "bat",
            ) {
                "\u{e795}"
            } else if text::same_text(e, "lock") {
                "\u{e615}"
            } else {
                "\u{ea7b}"
            }
        },
        None => "\u{ea7b}",
    }
}

/// The color of a file with an extension, as `0xRRGGBB`.
pub open spec fn type_color(ext: Option<Seq<char>>) -> u32 {
    match ext {
        Some(e) => if e == "rs"@ {
            0xdea584
        } else if e == "toml"@ || e == "lock"@ {
            0x9ca3af
        } else if e == "md"@ {
            0x60a5fa
        } else if e == "json"@ || e == "yaml"@ || e == "yml"@ {
            0xfacc15
        } else if e == "py"@ {
            0x60a5fa
        } else if e == "js"@ {
            0xfaf089
        } else if e == "ts"@ {
            0x3178c6
        } else if e == "html"@ {
            0xe34c26
        } else if e == "css"@ {
            0x1572b6
        } else if e == "dockerfile"@ {
            0x0d62b4
        } else if e == "sh"@ || e == "ps1"@ || e == "bat"@ {
            0x89e051
        } else {
            0x9ca3af
        },
        None => 0x9ca3af,
    }
}

/// The color of a file, as `0xRRGGBB`.
pub fn file_type_color(name: &str) -> (r: u32)
    ensures
        r == type_color(extension(name@)),
{
    match extension_of(name) {
        Some(e) => {
            if text::same_text(e, "rs") {
                0xdea584
            } else if text::same_text(e, "toml") || text::same_text(e, "lock") {
                0x9ca3af
            } else if text::same_text(e, "md") {
                0x60a5fa
            } else if text::same_text(e, "json") || text::same_text(e, "yaml") || text::same_text(
                e,
                "yml",
            ) {
                0xfacc15
            } else if text::same_text(e, "py") {
                0x60a5fa
            } else if text::same_text(e, "js") {
                0xfaf089
            } else if text::same_text(e, "ts") {
                0x3178c6
            } else if text::same_text(e, "html") {
                0xe34c26
            } else if text::same_text(e, "css") {
                0x1572b6
            } else if text::same_text(e, "dockerfile") {
                0x0d62b4
            } else if text::same_text(e, "sh") || text::same_text(e, "ps1") || text::same_text(
                e,
                "bat",
            ) {
                0x89e051
            } else {
                0x9ca3af
            }
        },
        None => 0x9ca3af,
    }
}

/// How a file is shown in the tree.
#[derive(Debug)]
pub struct FileRow {
    pub display: String,
    pub color: u32,
    /// Whether the row is marked as the file in the editor.
    pub is_active: bool,
}

/// How a file is shown in the tree: its icon and name, and as marked where it is the file in the
/// editor.
pub fn file_row(name: &str, is_active: bool) -> (r: FileRow)
    ensures
        r.display@ == icon(extension(name@)) + " "@ + name@,
        r.color == (if is_active {
            DeepSeekColors::TEXT_PRIMARY
        } else {
            type_color(extension(name@))
        }),
        r.is_active == is_active,
{
    let mut display: String = file_type_icon(name).to_string();
    display.append(" ");
    display.append(name);
    let color: u32 = if is_active {
        DeepSeekColors::TEXT_PRIMARY
    } else {
        file_type_color(name)
    };
    FileRow { display, color, is_active }
}

/// A file that is not shown stands behind every one that is.
pub proof fn the_first_entries_are_shown(entries: Seq<FileEntryView>)
    ensures
        shown_entries(entries).len() == (if entries.len() <= 200 {
            entries.len() as int
        } else {
            200int
        }),
        exists|rest: Seq<FileEntryView>| #[trigger]
            (shown_entries(entries) + rest).to_multiset() == entries.to_multiset() && forall|
                i: int,
                j: int,
            |
                0 <= i < shown_entries(entries).len() && 0 <= j < rest.len() ==> entry_le(
                    #[trigger] shown_entries(entries)[i],
                    #[trigger] rest[j],
                ),
{
    broadcast use group_to_multiset_ensures;

    entry_order_is_total();
    entries.lemma_sort_by_ensures(entry_order());
    let sorted = entries.sort_by(entry_order());
    assert(sorted.len() == entries.len()) by {
        assert(sorted.to_multiset().len() == entries.to_multiset().len());
    }
    let shown = shown_entries(entries);
    let rest = sorted.skip(shown.len() as int);
    assert(shown + rest =~= sorted);
    assert forall|i: int, j: int| 0 <= i < shown.len() && 0 <= j < rest.len() implies entry_le(
        #[trigger] shown[i],
        #[trigger] rest[j],
    ) by {
        assert(entry_order()(sorted[i], sorted[shown.len() + j]));
    }
}

/// A directory stands before every file, and within a kind the name decides: a name stands before
/// another that it begins, and before one that has a later character where they first differ.
pub proof fn entries_stand_in_order(a: FileEntryView, b: FileEntryView, k: int)
    requires
        0 <= k <= a.name.len(),
        k <= b.name.len(),
        forall|i: int| 0 <= i < k ==> a.name[i] == b.name[i],
    ensures
        a.is_dir && !b.is_dir ==> entry_le(a, b) && !entry_le(b, a),
        a.is_dir == b.is_dir && k == a.name.len() ==> entry_le(a, b),
        a.is_dir == b.is_dir && k < a.name.len() && k < b.name.len() && a.name[k] < b.name[k]
            ==> entry_le(a, b) && !entry_le(b, a),
        a.is_dir == b.is_dir && k == a.name.len() && k < b.name.len() ==> !entry_le(b, a),
    decreases k,
{
    if k > 0 {
        let c = FileEntryView { name: a.name.drop_first(), is_dir: a.is_dir };
        let d = FileEntryView { name: b.name.drop_first(), is_dir: b.is_dir };
        assert forall|i: int| 0 <= i < k - 1 implies c.name[i] == d.name[i] by {
            assert(a.name[i + 1] == b.name[i + 1]);
        }
        entries_stand_in_order(c, d, k - 1);
        assert(a.name[0] == b.name[0]);
    }
}

/// A file name ends in its extension: what stands behind its last dot, where something stands in
/// front of that dot.
pub proof fn names_end_in_their_extension(stem: Seq<char>, ext: Seq<char>)
    requires
        !ext.contains('.'),
    ensures
        stem.len() > 0 && (stem.len() > 1 || stem[0] != '.' || ext.len() > 0) ==> extension(
            stem.push('.') + ext,
        ) == Some(ext),
        stem.len() == 0 ==> extension(stem.push('.') + ext) is None,
        extension(ext) is None,
{
    reveal_strlit("..");
    let name = stem.push('.') + ext;
    assert(name[stem.len() as int] == '.');
    lemma_after_last(name, stem.len() as int);
    assert(name.skip(stem.len() as int + 1) =~= ext);
    if name == ".."@ {
        assert(name.len() == 2);
        assert(name[0] == '.' && name[1] == '.');
        if stem.len() == 0 {
            assert(ext[0] == '.');
        }
    }
}

proof fn lemma_after_last(s: Seq<char>, at: int)
    requires
        0 <= at < s.len(),
        s[at] == '.',
        forall|i: int| at < i < s.len() ==> s[i] != '.',
    ensures
        text::after_last(s, '.') == s.skip(at + 1),
    decreases s.len(),
{
    if at == s.len() - 1 {
        assert(s.skip(at + 1) =~= Seq::<char>::empty());
    } else {
        lemma_after_last(s.drop_last(), at);
        assert(s.drop_last().skip(at + 1).push(s.last()) =~= s.skip(at + 1));
    }
}

/// The icon and the color of a file are fixed by its extension. Files of related kinds look alike,
/// and a file of no known kind is gray.
pub proof fn kinds_of_files_have_their_look(name: Seq<char>)
    ensures
        extension(name) == Some("rs"@) ==> icon(extension(name)) == "\u{e7a8}"@ && type_color(
            extension(name),
        ) == 0xdea584,
        extension(name) == Some("toml"@) || extension(name) == Some("lock"@) ==> icon(
            extension(name),
        ) == "\u{e615}"@ && type_color(extension(name)) == 0x9ca3af,
        extension(name) == Some("md"@) ==> icon(extension(name)) == "\u{e73e}"@ && type_color(
            extension(name),
        ) == 0x60a5fa,
        extension(name) == Some("json"@) ==> icon(extension(name)) == "\u{e60b}"@ && type_color(
            extension(name),
        ) == 0xfacc15,
        extension(name) == Some("yaml"@) || extension(name) == Some("yml"@) ==> icon(
            extension(name),
        ) == "\u{e6a8}"@ && type_color(extension(name)) == 0xfacc15,
        extension(name) == Some("py"@) ==> icon(extension(name)) == "\u{e73c}"@ && type_color(
            extension(name),
        ) == 0x60a5fa,
        extension(name) == Some("js"@) ==> icon(extension(name)) == "\u{e74e}"@ && type_color(
            extension(name),
        ) == 0xfaf089,
        extension(name) == Some("ts"@) ==> icon(extension(name)) == "\u{e628}"@ && type_color(
            extension(name),
        ) == 0x3178c6,
        extension(name) == Some("html"@) ==> icon(extension(name)) == "\u{e736}"@ && type_color(
            extension(name),
        ) == 0xe34c26,
        extension(name) == Some("css"@) ==> icon(extension(name)) == "\u{e749}"@ && type_color(
            extension(name),
        ) == 0x1572b6,
        extension(name) == Some("dockerfile"@) ==> icon(extension(name)) == "\u{e7b0}"@
            && type_color(extension(name)) == 0x0d62b4,
        extension(name) == Some("sh"@) || extension(name) == Some("ps1"@) || extension(name)
            == Some("bat"@) ==> icon(extension(name)) == "\u{e795}"@ && type_color(
            extension(name),
        ) == 0x89e051,
        extension(name) is None ==> icon(extension(name)) == "\u{ea7b}"@ && type_color(
            extension(name),
        ) == 0x9ca3af,
{
    lemma_extensions_differ();
}

proof fn lemma_extensions_differ()
    ensures
        "rs"@.len() == 2 && "md"@.len() == 2 && "py"@.len() == 2 && "js"@.len() == 2,
        "ts"@.len() == 2 && "sh"@.len() == 2 && "yml"@.len() == 3 && "css"@.len() == 3,
        "ps1"@.len() == 3 && "bat"@.len() == 3 && "toml"@.len() == 4 && "json"@.len() == 4,
        "yaml"@.len() == 4 && "html"@.len() == 4 && "lock"@.len() == 4,
        "dockerfile"@.len() == 10,
        "rs"@[0] == 'r' && "md"@[0] == 'm' && "py"@[0] == 'p' && "js"@[0] == 'j',
        "ts"@[0] == 't' && "sh"@[0] == 's' && "yml"@[0] == 'y' && "css"@[0] == 'c',
        "ps1"@[0] == 'p' && "bat"@[0] == 'b' && "toml"@[0] == 't' && "json"@[0] == 'j',
        "yaml"@[0] == 'y' && "html"@[0] == 'h' && "lock"@[0] == 'l',
{
    reveal_strlit("rs");
    reveal_strlit("md");
    reveal_strlit("py");
    reveal_strlit("js");
    reveal_strlit("ts");
    reveal_strlit("sh");
    reveal_strlit("yml");
    reveal_strlit("css");
    reveal_strlit("ps1");
    reveal_strlit("bat");
    reveal_strlit("toml");
    reveal_strlit("json");
    reveal_strlit("yaml");
    reveal_strlit("html");
    reveal_strlit("lock");
    reveal_strlit("dockerfile");
}

/// The tree leaves out what is built or fetched, and nothing else.
pub proof fn artifacts_are_left_out(name: Seq<char>)
    ensures
        is_skipped_name(name) <==> name == "target"@ || name == "build"@ || name == "dist"@ || name
            == "node_modules"@ || name == ".git"@,
{
}

} // verus!
