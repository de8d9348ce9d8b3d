//! The tabs of the editor.

use crate::gui::highlight;
use crate::gui::highlight::{CodeColors, TextRun, TextRunView};
use crate::gui::theme::DeepSeekColors;
use crate::text;
use vstd::prelude::*;
use vstd::string::*;

verus! {

/// With this many tabs, a clean one is closed to make room for another.
pub const MAX_TABS: usize = 12;

/// A file in a tab.
#[derive(Debug)]
pub struct OpenFile {
    pub path: String,
    pub content: String,
    /// Whether there are changes that were not saved.
    pub dirty: bool,
    /// A text and how it is shown.
    pub highlight_cache: Option<(String, Vec<TextRun>)>,
}

/// The value of an [`OpenFile`].
#[verifier::ext_equal]
pub struct OpenFileView {
    pub path: Seq<char>,
    pub content: Seq<char>,
    pub dirty: bool,
    pub highlight_cache: Option<(Seq<char>, Seq<TextRunView>)>,
}

impl View for OpenFile {
    type V = OpenFileView;

    open spec fn view(&self) -> OpenFileView {
        OpenFileView {
            path: self.path@,
            content: self.content@,
            dirty: self.dirty,
            highlight_cache: match self.highlight_cache {
                Some((content, runs)) => Some((content@, highlight::run_views(runs@))),
                None => None,
            },
        }
    }
}

/// The values of a list of files.
pub open spec fn file_views(files: Seq<OpenFile>) -> Seq<OpenFileView> {
    files.map_values(|file: OpenFile| file@)
}

/// A file that was just read.
pub open spec fn fresh_file(path: Seq<char>, content: Seq<char>) -> OpenFileView {
    OpenFileView { path, content, dirty: false, highlight_cache: None }
}

/// The position of the first file that passes a test, if there is one.
pub open spec fn first_file(files: Seq<OpenFileView>, test: spec_fn(OpenFileView) -> bool) -> Option<
    int,
>
    decreases files.len(),
{
    if files.len() == 0 {
        None
    } else {
        match first_file(files.drop_last(), test) {
            Some(k) => Some(k),
            None => if test(files.last()) {
                Some(files.len() - 1)
            } else {
                None
            },
        }
    }
}

/// The first file that passes a test passes it, and none in front of it does.
proof fn lemma_first_file(files: Seq<OpenFileView>, test: spec_fn(OpenFileView) -> bool)
    ensures
        match first_file(files, test) {
            Some(k) => 0 <= k < files.len() && test(files[k]) && forall|j: int|
                0 <= j < k ==> !test(#[trigger] files[j]),
            None => forall|j: int| 0 <= j < files.len() ==> !test(#[trigger] files[j]),
        },
    decreases files.len(),
{
    if files.len() > 0 {
        let front = files.drop_last();
        lemma_first_file(front, test);
        match first_file(front, test) {
            Some(k) => {
                assert(files[k] == front[k]);
                assert forall|j: int| 0 <= j < k implies !test(#[trigger] files[j]) by {
                    assert(front[j] == files[j]);
                }
            },
            None => {
                assert forall|j: int| 0 <= j < front.len() implies !test(#[trigger] files[j]) by {
                    assert(front[j] == files[j]);
                }
            },
        }
    }
}

pub open spec fn path_test(path: Seq<char>) -> spec_fn(OpenFileView) -> bool {
    |file: OpenFileView| file.path == path
}

pub open spec fn clean_test() -> spec_fn(OpenFileView) -> bool {
    |file: OpenFileView| !file.dirty
}

/// The tabs, and what was asked for while they were drawn.
#[derive(Debug)]
pub struct Editor {
    open_files: Vec<OpenFile>,
    active_file_index: usize,
    pending_close_all: bool,
    pending_close_others: Option<usize>,
    pending_auto_save: bool,
}

/// The value of an [`Editor`].
#[verifier::ext_equal]
pub struct EditorView {
    pub files: Seq<OpenFileView>,
    pub active: int,
    pub pending_close_all: bool,
    pub pending_close_others: Option<usize>,
    pub pending_auto_save: bool,
}

impl View for Editor {
    type V = EditorView;

    closed spec fn view(&self) -> EditorView {
        EditorView {
            files: file_views(self.open_files@),
            active: self.active_file_index as int,
            pending_close_all: self.pending_close_all,
            pending_close_others: self.pending_close_others,
            pending_auto_save: self.pending_auto_save,
        }
    }
}

impl EditorView {
    /// The editor without tabs.
    pub open spec fn blank() -> EditorView {
        EditorView {
            files: seq![],
            active: 0,
            pending_close_all: false,
            pending_close_others: None,
            pending_auto_save: false,
        }
    }

    /// The invariant of the tabs: one of them is active, if there are any, and no file is open
    /// twice.
    pub open spec fn inv(self) -> bool {
        &&& 0 <= self.active
        &&& self.files.len() > 0 ==> self.active < self.files.len()
        &&& self.files.len() == 0 ==> self.active == 0
        &&& forall|i: int, j: int|
            0 <= i < j < self.files.len() ==> #[trigger] self.files[i].path
                != #[trigger] self.files[j].path
    }

    /// The tab that shows a file, if one does.
    pub open spec fn position(self, path: Seq<char>) -> Option<int> {
        first_file(self.files, path_test(path))
    }

    /// The files that make room for one more: where there are too many tabs, the first clean one
    /// is closed.
    pub open spec fn with_room(self) -> Seq<OpenFileView> {
        if self.files.len() >= MAX_TABS {
            match first_file(self.files, clean_test()) {
                Some(k) => self.files.remove(k),
                None => self.files,
            }
        } else {
            self.files
        }
    }

    /// The editor after a file was read into a new tab, which is active.
    pub open spec fn opened(self, path: Seq<char>, content: Seq<char>) -> EditorView {
        EditorView {
            files: self.with_room().push(fresh_file(path, content)),
            active: self.with_room().len() as int,
            ..self
        }
    }

    /// The editor with another active tab.
    pub open spec fn activated(self, index: int) -> EditorView {
        EditorView { active: index, ..self }
    }

    /// The editor after a tab was closed.
    pub open spec fn closed(self, index: int) -> EditorView {
        let left = self.files.remove(index);
        EditorView {
            files: left,
            active: if self.active >= left.len() && left.len() > 0 {
                left.len() - 1
            } else {
                self.active
            },
            ..self
        }
    }

    /// The editor after the text in the active tab was changed.
    pub open spec fn edited(self, content: Seq<char>) -> EditorView {
        EditorView {
            files: self.files.update(
                self.active,
                OpenFileView {
                    content,
                    dirty: true,
                    highlight_cache: None,
                    ..self.files[self.active]
                },
            ),
            pending_auto_save: true,
            ..self
        }
    }

    /// The editor after the active file was saved.
    pub open spec fn saved(self) -> EditorView {
        EditorView {
            files: self.files.update(
                self.active,
                OpenFileView { dirty: false, ..self.files[self.active] },
            ),
            ..self
        }
    }

    /// The editor after the shown text of the active tab was brought up to date.
    pub open spec fn refreshed(
        self,
        ext: Seq<char>,
        set: syntect::parsing::SyntaxSet,
        theme: syntect::highlighting::Theme,
    ) -> EditorView {
        let file = self.files[self.active];
        if has_valid_cache(file) {
            self
        } else {
            EditorView {
                files: self.files.update(
                    self.active,
                    OpenFileView {
                        highlight_cache: Some(
                            (file.content, highlight::shown(file.content, ext, set, theme)),
                        ),
                        ..file
                    },
                ),
                ..self
            }
        }
    }

    /// The editor after all tabs were closed, if that was asked for.
    pub open spec fn without_all(self) -> EditorView {
        if self.pending_close_all {
            EditorView { files: seq![], active: 0, pending_close_all: false, ..self }
        } else {
            self
        }
    }

    /// The editor after all tabs but one were closed, if that was asked for and the tab exists.
    pub open spec fn without_others(self) -> EditorView {
        match self.pending_close_others {
            Some(index) => if index < self.files.len() {
                EditorView {
                    files: seq![self.files[index as int]],
                    active: 0,
                    pending_close_others: None,
                    ..self
                }
            } else {
                EditorView { pending_close_others: None, ..self }
            },
            None => self,
        }
    }

    /// The editor at the end of a frame: what was asked for is done, and the active file is due to
    /// be saved if it was changed.
    pub open spec fn settled(self) -> EditorView {
        EditorView { pending_auto_save: false, ..self.without_all().without_others() }
    }
}

impl Editor {
    /// The invariant of the tabs.
    pub open spec fn wf(self) -> bool {
        self@.inv()
    }

    /// An editor without tabs.
    pub fn new() -> (editor: Editor)
        ensures
            editor.wf(),
            editor@ == EditorView::blank(),
    {
        let editor: Editor = Editor {
            open_files: Vec::new(),
            active_file_index: 0,
            pending_close_all: false,
            pending_close_others: None,
            pending_auto_save: false,
        };
        assert(editor@ =~= EditorView::blank());
        editor
    }

    /// The number of tabs.
    pub fn len(&self) -> (n: usize)
        ensures
            n == self@.files.len(),
    {
        self.open_files.len()
    }

    /// The position of the active tab.
    pub fn active_index(&self) -> (index: usize)
        ensures
            index == self@.active,
    {
        self.active_file_index
    }

    /// The file in a tab.
    pub fn file(&self, index: usize) -> (file: &OpenFile)
        requires
            index < self@.files.len(),
        ensures
            file@ == self@.files[index as int],
    {
        &self.open_files[index]
    }

    /// The file in the active tab.
    pub fn active_file(&self) -> (file: Option<&OpenFile>)
        requires
            self.wf(),
        ensures
            match file {
                Some(file) => self@.files.len() > 0 && file@ == self@.files[self@.active],
                None => self@.files.len() == 0,
            },
    {
        if self.active_file_index < self.open_files.len() {
            Some(&self.open_files[self.active_file_index])
        } else {
            None
        }
    }

    /// The tab that shows a file, if one does.
    pub fn position(&self, path: &str) -> (index: Option<usize>)
        ensures
            match index {
                Some(k) => self@.position(path@) == Some(k as int) && k < self@.files.len(),
                None => self@.position(path@) is None,
            },
    {
        let ghost views = self@.files;
        let ghost test = path_test(path@);
        let mut i: usize = 0;
        assert(views.take(0) =~= Seq::<OpenFileView>::empty());
        while i < self.open_files.len()
            invariant
                i <= self.open_files@.len(),
                views == file_views(self.open_files@),
                test == path_test(path@),
                first_file(views.take(i as int), test) is None,
            decreases self.open_files@.len() - i,
        {
            assert(views.take(i + 1).drop_last() =~= views.take(i as int));
            assert(views.take(i + 1).last() == self.open_files@[i as int]@);
            if text::same_text(self.open_files[i].path.as_str(), path) {
                proof {
                    lemma_first_file_prefix(views, test, i + 1);
                }
                return Some(i);
            }
            i += 1;
        }
        assert(views.take(i as int) =~= views);
        None
    }

    /// The position of the first clean tab, if there is one.
    fn first_clean(&self) -> (index: Option<usize>)
        ensures
            match index {
                Some(k) => first_file(self@.files, clean_test()) == Some(k as int) && k
                    < self@.files.len(),
                None => first_file(self@.files, clean_test()) is None,
            },
    {
        let ghost views = self@.files;
        let ghost test = clean_test();
        let mut i: usize = 0;
        assert(views.take(0) =~= Seq::<OpenFileView>::empty());
        while i < self.open_files.len()
            invariant
                i <= self.open_files@.len(),
                views == file_views(self.open_files@),
                test == clean_test(),
                first_file(views.take(i as int), test) is None,
            decreases self.open_files@.len() - i,
        {
            assert(views.take(i + 1).drop_last() =~= views.take(i as int));
            assert(views.take(i + 1).last() == self.open_files@[i as int]@);
            if !self.open_files[i].dirty {
                proof {
                    lemma_first_file_prefix(views, test, i + 1);
                }
                return Some(i);
            }
            i += 1;
        }
        assert(views.take(i as int) =~= views);
        None
    }

    /// Shows a file in the tab that it is open in. Where it is open in none, nothing changes, and
    /// the file has to be read.
    pub fn activate_path(&mut self, path: &str) -> (found: bool)
        requires
            old(self).wf(),
        ensures
            final(self).wf(),
            found == (old(self)@.position(path@) is Some),
            found ==> final(self)@ == old(self)@.activated(old(self)@.position(path@)->0),
            !found ==> final(self)@ == old(self)@,
    {
        match self.position(path) {
            Some(index) => {
                self.active_file_index = index;
                assert(self@ =~= old(self)@.activated(index as int));
                true
            },
            None => false,
        }
    }

    /// Opens a file that was read in a new tab.
    pub fn open_file(&mut self, path: String, content: String)
        requires
            old(self).wf(),
            old(self)@.position(path@) is None,
        ensures
            final(self).wf(),
            final(self)@ == old(self)@.opened(path@, content@),
    {
        let ghost before = self@;
        let ghost name = path@;
        let ghost shown = content@;
        proof {
            lemma_first_file(before.files, path_test(name));
            lemma_first_file(before.files, clean_test());
        }
        if self.open_files.len() >= MAX_TABS {
            if let Some(index) = self.first_clean() {
                let ghost all = self.open_files@;
                let removed: OpenFile = self.open_files.remove(index);
                assert(file_views(self.open_files@) =~= file_views(all).remove(index as int));
            }
        }
        assert(file_views(self.open_files@) == before.with_room());
        let ghost kept = self.open_files@;
        self.open_files.push(OpenFile { path, content, dirty: false, highlight_cache: None });
        assert(file_views(self.open_files@) =~= file_views(kept).push(fresh_file(name, shown)));
        self.active_file_index = self.open_files.len() - 1;
        proof {
            assert(self@ =~= before.opened(name, shown));
            opening_keeps_the_tabs_sound(before, name, shown);
        }
    }

    /// Makes a tab the active one.
    pub fn select(&mut self, index: usize)
        requires
            old(self).wf(),
            index < old(self)@.files.len(),
        ensures
            final(self).wf(),
            final(self)@ == old(self)@.activated(index as int),
    {
        self.active_file_index = index;
        assert(self@ =~= old(self)@.activated(index as int));
    }

    /// Closes a tab.
    pub fn close_tab(&mut self, index: usize)
        requires
            old(self).wf(),
            index < old(self)@.files.len(),
        ensures
            final(self).wf(),
            final(self)@ == old(self)@.closed(index as int),
    {
        let ghost before = self@;
        let ghost all = self.open_files@;
        let removed: OpenFile = self.open_files.remove(index);
        assert(file_views(self.open_files@) =~= file_views(all).remove(index as int));
        let left: usize = self.open_files.len();
        if self.active_file_index >= left && left > 0 {
            self.active_file_index = left - 1;
        }
        proof {
            assert(self@ =~= before.closed(index as int));
            closing_keeps_the_tabs_sound(before, index as int);
        }
    }

    /// Takes the changed text of the active tab.
    pub fn edit(&mut self, content: String)
        requires
            old(self).wf(),
            old(self)@.files.len() > 0,
        ensures
            final(self).wf(),
            final(self)@ == old(self)@.edited(content@),
    {
        let ghost before = self@;
        let ghost shown = content@;
        let index: usize = self.active_file_index;
        let path: String = self.open_files[index].path.clone();
        self.open_files.set(
            index,
            OpenFile { path, content, dirty: true, highlight_cache: None },
        );
        self.pending_auto_save = true;
        assert(self@ =~= before.edited(shown));
    }

    /// Takes note that the active file was saved.
    pub fn mark_saved(&mut self)
        requires
            old(self).wf(),
            old(self)@.files.len() > 0,
        ensures
            final(self).wf(),
            final(self)@ == old(self)@.saved(),
    {
        let ghost before = self@;
        let index: usize = self.active_file_index;
        self.open_files[index].dirty = false;
        assert(self@ =~= before.saved());
    }

    /// Asks for all tabs to be closed at the end of the frame.
    pub fn request_close_all(&mut self)
        ensures
            final(self)@ == (EditorView { pending_close_all: true, ..old(self)@ }),
    {
        self.pending_close_all = true;
    }

    /// Asks for all tabs but one to be closed at the end of the frame.
    pub fn request_close_others(&mut self, index: usize)
        ensures
            final(self)@ == (EditorView { pending_close_others: Some(index), ..old(self)@ }),
    {
        self.pending_close_others = Some(index);
    }

    /// Ends a frame: closes the tabs that were asked to be closed, and says whether the active file
    /// is due to be saved.
    pub fn settle(&mut self) -> (save: bool)
        requires
            old(self).wf(),
        ensures
            final(self).wf(),
            final(self)@ == old(self)@.settled(),
            save == old(self)@.pending_auto_save,
    {
        let ghost before = self@;
        if self.pending_close_all {
            self.open_files.clear();
            self.active_file_index = 0;
            self.pending_close_all = false;
        }
        assert(self@ =~= before.without_all());
        if let Some(index) = self.pending_close_others {
            self.pending_close_others = None;
            if index < self.open_files.len() {
                let ghost all = self.open_files@;
                let kept: OpenFile = self.open_files.swap_remove(index);
                assert(kept@ == file_views(all)[index as int]);
                self.open_files.clear();
                self.open_files.push(kept);
                self.active_file_index = 0;
                assert(file_views(self.open_files@) =~= seq![file_views(all)[index as int]]);
            }
        }
        assert(self@ =~= before.without_all().without_others());
        let save: bool = self.pending_auto_save;
        self.pending_auto_save = false;
        assert(self@ =~= before.settled());
        save
    }

    /// Brings the shown text of the active tab up to date, if it is not.
    pub fn refresh_highlight(&mut self, ext: &str, colors: &CodeColors)
        requires
            old(self).wf(),
            old(self)@.files.len() > 0,
        ensures
            final(self).wf(),
            final(self)@ == old(self)@.refreshed(ext@, colors.syntaxes(), colors.colors()),
    {
        let ghost before = self@;
        let index: usize = self.active_file_index;
        let valid: bool = match &self.open_files[index].highlight_cache {
            Some((cached, _)) => text::same_text(
                cached.as_str(),
                self.open_files[index].content.as_str(),
            ),
            None => false,
        };
        assert(valid == has_valid_cache(before.files[before.active]));
        if !valid {
            let content: String = self.open_files[index].content.clone();
            let runs: Vec<TextRun> = highlight::layout_file(content.as_str(), ext, colors);
            self.open_files[index].highlight_cache = Some((content, runs));
        }
        assert(self@ =~= before.refreshed(ext@, colors.syntaxes(), colors.colors()));
    }
}

/// Whether what is shown of a file belongs to its text.
pub open spec fn has_valid_cache(file: OpenFileView) -> bool {
    match file.highlight_cache {
        Some((content, _)) => content == file.content,
        None => false,
    }
}

/// A search that ends in a prefix ends there in the whole list.
proof fn lemma_first_file_prefix(
    files: Seq<OpenFileView>,
    test: spec_fn(OpenFileView) -> bool,
    n: int,
)
    requires
        0 <= n <= files.len(),
        first_file(files.take(n), test) is Some,
    ensures
        first_file(files, test) == first_file(files.take(n), test),
    decreases files.len(),
{
    if n < files.len() {
        assert(files.drop_last().take(n) =~= files.take(n));
        lemma_first_file_prefix(files.drop_last(), test, n);
    } else {
        assert(files.take(n) =~= files);
    }
}

/// The label of a tab: the name of the file, marked where there are changes that were not saved.
pub fn tab_label(name: &str, dirty: bool) -> (r: String)
    ensures
        r@ == (if dirty {
            "● "@ + name@
        } else {
            name@
        }),
{
    if dirty {
        let mut label: String = "● ".to_string();
        label.append(name);
        label
    } else {
        name.to_string()
    }
}

/// The color of the label of a tab.
pub fn tab_color(is_active: bool) -> (r: u32)
    ensures
        r == (if is_active {
            DeepSeekColors::TEXT_PRIMARY
        } else {
            DeepSeekColors::TEXT_SECONDARY
        }),
{
    if is_active {
        DeepSeekColors::TEXT_PRIMARY
    } else {
        DeepSeekColors::TEXT_SECONDARY
    }
}

/// A file that is read is in the active tab afterwards, and the tabs stay sound.
pub proof fn opening_keeps_the_tabs_sound(
    editor: EditorView,
    path: Seq<char>,
    content: Seq<char>,
)
    requires
        editor.inv(),
        editor.position(path) is None,
    ensures
        editor.opened(path, content).inv(),
        editor.opened(path, content).files[editor.opened(path, content).active] == fresh_file(
            path,
            content,
        ),
{
    let after = editor.opened(path, content);
    lemma_first_file(editor.files, path_test(path));
    lemma_first_file(editor.files, clean_test());
    let room = editor.with_room();
    let gone: int = if room.len() < editor.files.len() {
        first_file(editor.files, clean_test())->0
    } else {
        editor.files.len() as int
    };
    assert forall|i: int, j: int| 0 <= i < j < after.files.len() implies #[trigger] after.files[i].path
        != #[trigger] after.files[j].path by {
        let a = if i >= gone {
            i + 1
        } else {
            i
        };
        let b = if j >= gone {
            j + 1
        } else {
            j
        };
        assert(after.files[i] == editor.files[a]);
        if j == room.len() {
            assert(!path_test(path)(editor.files[a]));
        } else {
            assert(after.files[j] == editor.files[b]);
            assert(editor.files[a].path != editor.files[b].path);
        }
    }
}

/// Closing a tab leaves the tabs sound.
pub proof fn closing_keeps_the_tabs_sound(editor: EditorView, index: int)
    requires
        editor.inv(),
        0 <= index < editor.files.len(),
    ensures
        editor.closed(index).inv(),
{
    let after = editor.closed(index);
    assert forall|i: int, j: int| 0 <= i < j < after.files.len() implies #[trigger] after.files[i].path
        != #[trigger] after.files[j].path by {
        let a = if i >= index {
            i + 1
        } else {
            i
        };
        let b = if j >= index {
            j + 1
        } else {
            j
        };
        assert(after.files[i] == editor.files[a] && after.files[j] == editor.files[b]);
        assert(editor.files[a].path != editor.files[b].path);
    }
}

/// Opening a file never closes a tab with unsaved changes.
pub proof fn unsaved_changes_are_kept(
    editor: EditorView,
    path: Seq<char>,
    content: Seq<char>,
    file: OpenFileView,
)
    requires
        editor.files.contains(file),
        file.dirty,
    ensures
        editor.opened(path, content).files.contains(file),
{
    let after = editor.opened(path, content);
    lemma_first_file(editor.files, clean_test());
    let k = choose|k: int| 0 <= k < editor.files.len() && editor.files[k] == file;
    let room = editor.with_room();
    if room.len() < editor.files.len() {
        let c = first_file(editor.files, clean_test())->0;
        assert(clean_test()(editor.files[c]));
        assert(k != c);
        if k < c {
            assert(after.files[k] == file);
        } else {
            assert(after.files[k - 1] == file);
        }
    } else {
        assert(after.files[k] == file);
    }
}

/// There are never more tabs than the limit, unless all the others hold unsaved changes.
pub proof fn tabs_are_limited(editor: EditorView, path: Seq<char>, content: Seq<char>)
    requires
        editor.files.len() <= MAX_TABS,
    ensures
        ({
            let after = editor.opened(path, content);
            after.files.len() <= MAX_TABS || forall|i: int|
                0 <= i < editor.files.len() ==> (#[trigger] editor.files[i]).dirty
        }),
{
    lemma_first_file(editor.files, clean_test());
    if editor.opened(path, content).files.len() > MAX_TABS {
        assert forall|i: int| 0 <= i < editor.files.len() implies (#[trigger] editor.files[i]).dirty by {
            assert(!clean_test()(editor.files[i]));
        }
    }
}

/// What is asked for while the tabs are drawn is done by the end of the frame: when all tabs were
/// to be closed none is left, and when all others were to be closed exactly that one is.
pub proof fn requests_are_met(editor: EditorView)
    requires
        editor.inv(),
    ensures
        editor.settled().inv(),
        !editor.settled().pending_close_all,
        editor.settled().pending_close_others is None,
        !editor.settled().pending_auto_save,
        editor.pending_close_all ==> editor.settled().files.len() == 0,
        !editor.pending_close_all && editor.pending_close_others is None ==> editor.settled().files
            == editor.files,
        !editor.pending_close_all ==> match editor.pending_close_others {
            Some(index) => index < editor.files.len() ==> editor.settled().files
                == seq![editor.files[index as int]],
            None => true,
        },
{
}

/// A file that is opened joins the others at the end, as it was read and without changes. The others
/// stay as they are and in their order, but for the first one without changes, which makes room for
/// it where there are twelve tabs already.
pub proof fn opened_files_join_the_others(editor: EditorView, path: Seq<char>, content: Seq<char>)
    ensures
        ({
            let after = editor.opened(path, content);
            let new = after.files.last();
            &&& after.active == after.files.len() - 1
            &&& new.path == path && new.content == content && !new.dirty
                && new.highlight_cache is None
            &&& editor.files.len() < 12 ==> after.files.drop_last() == editor.files
            &&& editor.files.len() >= 12 && (forall|i: int|
                0 <= i < editor.files.len() ==> (#[trigger] editor.files[i]).dirty)
                ==> after.files.drop_last() == editor.files
            &&& forall|k: int|
                editor.files.len() >= 12 && 0 <= k < editor.files.len() && !(
                #[trigger] editor.files[k]).dirty && (forall|i: int|
                    0 <= i < k ==> (#[trigger] editor.files[i]).dirty) ==> after.files.drop_last()
                    == editor.files.remove(k)
            &&& after.pending_auto_save == editor.pending_auto_save
        }),
{
    let after = editor.opened(path, content);
    lemma_first_file(editor.files, clean_test());
    assert(after.files.drop_last() =~= editor.with_room());
    if editor.files.len() >= 12 {
        match first_file(editor.files, clean_test()) {
            Some(c) => {
                assert(clean_test()(editor.files[c]));
                assert forall|k: int|
                    0 <= k < editor.files.len() && !(#[trigger] editor.files[k]).dirty && (forall|
                        i: int,
                    |
                        0 <= i < k ==> (
                        #[trigger] editor.files[i]).dirty) implies after.files.drop_last()
                    == editor.files.remove(k) by {
                    if k < c {
                        assert(!clean_test()(editor.files[k]));
                    }
                    assert(k == c);
                }
            },
            None => {
                assert forall|k: int| 0 <= k < editor.files.len() implies (
                #[trigger] editor.files[k]).dirty by {
                    assert(!clean_test()(editor.files[k]));
                }
            },
        }
    }
}

/// A file is found in the tab that shows it, and only there.
pub proof fn open_files_are_found(editor: EditorView, path: Seq<char>, k: int)
    requires
        editor.inv(),
    ensures
        0 <= k < editor.files.len() && editor.files[k].path == path ==> editor.position(path)
            == Some(k),
        editor.position(path) matches Some(at) ==> 0 <= at < editor.files.len()
            && editor.files[at].path == path,
{
    lemma_first_file(editor.files, path_test(path));
    if 0 <= k < editor.files.len() && editor.files[k].path == path {
        assert(path_test(path)(editor.files[k]));
        let at = editor.position(path)->0;
        assert(path_test(path)(editor.files[at]));
        assert(editor.files[at].path == editor.files[k].path);
    }
}

/// An edit changes the text of the active tab and of no other, marks it as changed, and has it saved
/// by the end of the frame.
pub proof fn edits_change_the_active_tab(editor: EditorView, content: Seq<char>, i: int)
    requires
        editor.inv(),
        0 <= i < editor.files.len(),
    ensures
        ({
            let after = editor.edited(content);
            &&& after.files.len() == editor.files.len()
            &&& after.active == editor.active
            &&& after.pending_auto_save
            &&& i != editor.active ==> after.files[i] == editor.files[i]
            &&& i == editor.active ==> after.files[i].content == content && after.files[i].dirty
                && after.files[i].path == editor.files[i].path
                && after.files[i].highlight_cache is None
        }),
{
}

/// Saving marks the active tab as unchanged, and leaves its text and all other tabs as they are.
pub proof fn saving_keeps_the_text(editor: EditorView, i: int)
    requires
        editor.inv(),
        0 <= i < editor.files.len(),
    ensures
        ({
            let after = editor.saved();
            &&& after.files.len() == editor.files.len()
            &&& after.active == editor.active
            &&& i != editor.active ==> after.files[i] == editor.files[i]
            &&& i == editor.active ==> !after.files[i].dirty
            &&& after.files[i].content == editor.files[i].content
            &&& after.files[i].path == editor.files[i].path
            &&& after.files[i].highlight_cache == editor.files[i].highlight_cache
        }),
{
}

/// Closing a tab takes out that tab alone. The active tab stays at its position, or moves to the last
/// one where its position is gone.
pub proof fn closing_takes_out_one_tab(editor: EditorView, index: int, i: int)
    requires
        editor.inv(),
        0 <= index < editor.files.len(),
        0 <= i < editor.files.len(),
    ensures
        ({
            let after = editor.closed(index);
            &&& after.files.len() == editor.files.len() - 1
            &&& i < index ==> after.files[i] == editor.files[i]
            &&& i > index ==> after.files[i - 1] == editor.files[i]
            &&& editor.active < after.files.len() ==> after.active == editor.active
            &&& editor.active >= after.files.len() && after.files.len() > 0 ==> after.active
                == after.files.len() - 1
            &&& after.pending_auto_save == editor.pending_auto_save
        }),
{
}

/// Bringing the shown text up to date changes no text, and what is shown is that of the text as it
/// is; it is worked out anew only after a change.
pub proof fn shown_text_is_up_to_date(
    editor: EditorView,
    ext: Seq<char>,
    set: syntect::parsing::SyntaxSet,
    theme: syntect::highlighting::Theme,
    i: int,
)
    requires
        editor.inv(),
        0 <= i < editor.files.len(),
    ensures
        ({
            let after = editor.refreshed(ext, set, theme);
            let cache = after.files[editor.active].highlight_cache;
            &&& after.files.len() == editor.files.len()
            &&& after.files[i].path == editor.files[i].path
            &&& after.files[i].content == editor.files[i].content
            &&& after.files[i].dirty == editor.files[i].dirty
            &&& i != editor.active ==> after.files[i] == editor.files[i]
            &&& cache matches Some(kept) && kept.0 == editor.files[editor.active].content
            &&& after.refreshed(ext, set, theme) == after
        }),
{
}

} // verus!
