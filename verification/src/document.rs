//! The editor's document engine: content with undo and redo history,
//! find and replace (case-sensitive or folded), selection, cursor
//! arithmetic, and text statistics. Positions and ranges are character
//! indices into the content. Reading and writing files and the clipboard
//! are the hosting process's job.

use vstd::prelude::*;

use crate::textscan::{
    blank_seps_in_str, count_blank_seps, count_char, count_char_in_str, count_non_ws, count_words,
    eq_ignore_ascii, find_from, find_in_str, last_char_idx, lowercased, non_ws_in_str,
    rfind_char_in_str, str_eq_ignore_ascii_case, to_lowercase, words_in_str,
};
use std::collections::VecDeque;

verus! {

/// One open document.
pub struct Document {
    pub title: String,
    pub content: String,
    pub path: Option<String>,
    pub modified: bool,
    pub undo_stack: VecDeque<String>,
    pub redo_stack: VecDeque<String>,
    pub max_undo_steps: usize,
    pub find_text: String,
    pub replace_text: String,
    pub match_case: bool,
    pub whole_word: bool,
    pub current_find_pos: usize,
    pub cursor_position: usize,
    pub selection: Option<(usize, usize)>,
}

/// The document's text statistics.
#[derive(Clone, Copy, PartialEq, Eq, Structural, Debug)]
pub struct DocumentStats {
    pub pages: usize,
    pub words: usize,
    pub characters: usize,
    pub characters_no_spaces: usize,
    pub lines: usize,
    pub paragraphs: usize,
}

impl Document {
    /// The file path the document was last saved to or loaded from.
    pub open spec fn spec_path(&self) -> Option<Seq<char>> {
        match self.path {
            Some(p) => Some(p@),
            None => None,
        }
    }

    /// Whether the content has unsaved changes.
    pub open spec fn spec_modified(&self) -> bool {
        self.modified
    }

    /// The undo history, oldest state first.
    pub open spec fn undo_view(&self) -> Seq<Seq<char>> {
        Seq::new(self.undo_stack@.len(), |i: int| self.undo_stack@[i]@)
    }

    /// The redo history, oldest state first.
    pub open spec fn redo_view(&self) -> Seq<Seq<char>> {
        Seq::new(self.redo_stack@.len(), |i: int| self.redo_stack@[i]@)
    }

    /// The undo history's capacity.
    pub open spec fn spec_max_undo(&self) -> int {
        self.max_undo_steps as int
    }

    /// The cursor's character position.
    pub open spec fn spec_cursor(&self) -> int {
        self.cursor_position as int
    }

    /// The selected character range, if any.
    pub open spec fn spec_selection(&self) -> Option<(int, int)> {
        match self.selection {
            Some((a, b)) => Some((a as int, b as int)),
            None => None,
        }
    }

    /// A new, empty, unmodified document with the given title and a
    /// hundred-step undo capacity.
    pub fn new(title: &str) -> (r: Self)
        ensures
            r.title@ == title@,
            r.content@ == Seq::<char>::empty(),
            r.spec_path() is None,
            !r.spec_modified(),
            r.undo_view() == Seq::<Seq<char>>::empty(),
            r.redo_view() == Seq::<Seq<char>>::empty(),
            r.spec_max_undo() == 100,
            r.find_text@ == Seq::<char>::empty(),
            r.replace_text@ == Seq::<char>::empty(),
            !r.match_case,
            !r.whole_word,
            r.current_find_pos == 0,
            r.spec_cursor() == 0,
            r.spec_selection() is None,
    {
        let r = Self {
            title: String::from_str(title),
            content: String::new(),
            path: None,
            modified: false,
            undo_stack: VecDeque::new(),
            redo_stack: VecDeque::new(),
            max_undo_steps: 100,
            find_text: String::new(),
            replace_text: String::new(),
            match_case: false,
            whole_word: false,
            current_find_pos: 0,
            cursor_position: 0,
            selection: None,
        };
        proof {
            assert(r.undo_view() =~= Seq::<Seq<char>>::empty());
            assert(r.redo_view() =~= Seq::<Seq<char>>::empty());
        }
        r
    }

    /// Records a completed save: the document now lives at `path`, is
    /// unmodified, and takes its title from the path's file name. The
    /// hosting process writes the content to the file first.
    pub fn save_as(&mut self, path: &str)
        ensures
            final(self).spec_path() == Some(path@),
            !final(self).spec_modified(),
            final(self).title@ == spec_title_of_path(path@),
            final(self).content == old(self).content,
            final(self).undo_view() == old(self).undo_view(),
            final(self).redo_view() == old(self).redo_view(),
            final(self).spec_max_undo() == old(self).spec_max_undo(),
            final(self).find_text == old(self).find_text,
            final(self).replace_text == old(self).replace_text,
            final(self).match_case == old(self).match_case,
            final(self).whole_word == old(self).whole_word,
            final(self).current_find_pos == old(self).current_find_pos,
            final(self).spec_cursor() == old(self).spec_cursor(),
            final(self).spec_selection() == old(self).spec_selection(),
    {
        self.title = title_of_path(path);
        self.path = Some(String::from_str(path));
        self.modified = false;
    }

    /// The document's title.
    pub fn title(&self) -> (r: &str)
        ensures
            r@ == self.title@,
    {
        self.title.as_str()
    }

    /// The document's file path, if it has been saved or loaded.
    pub fn path(&self) -> (r: Option<&String>)
        ensures
            match r {
                Some(p) => self.spec_path() == Some(p@),
                None => self.spec_path() is None,
            },
    {
        match &self.path {
            Some(p) => Some(p),
            None => None,
        }
    }

    pub fn is_modified(&self) -> (r: bool)
        ensures
            r == self.spec_modified(),
    {
        self.modified
    }

    pub fn set_modified(&mut self, modified: bool)
        ensures
            final(self).spec_modified() == modified,
            final(self).content == old(self).content,
            final(self).title == old(self).title,
            final(self).spec_path() == old(self).spec_path(),
            final(self).undo_view() == old(self).undo_view(),
            final(self).redo_view() == old(self).redo_view(),
    {
        self.modified = modified;
    }

    /// Pushes the current content onto the undo history, dropping the
    /// oldest state when the history is full, and clears the redo
    /// history.
    pub fn push_undo_state(&mut self)
        ensures
            final(self).undo_view() == (if old(self).undo_view().len() >= old(
                self,
            ).spec_max_undo() && old(self).undo_view().len() > 0 {
                old(self).undo_view().drop_first()
            } else {
                old(self).undo_view()
            }).push(old(self).content@),
            final(self).redo_view() == Seq::<Seq<char>>::empty(),
            final(self).content == old(self).content,
            final(self).title == old(self).title,
            final(self).spec_path() == old(self).spec_path(),
            final(self).spec_modified() == old(self).spec_modified(),
            final(self).spec_max_undo() == old(self).spec_max_undo(),
            final(self).spec_selection() == old(self).spec_selection(),
            final(self).spec_cursor() == old(self).spec_cursor(),
            final(self).current_find_pos == old(self).current_find_pos,
            final(self).find_text == old(self).find_text,
            final(self).replace_text == old(self).replace_text,
            final(self).match_case == old(self).match_case,
            final(self).whole_word == old(self).whole_word,
    {
        if self.undo_stack.len() >= self.max_undo_steps {
            let _ = self.undo_stack.pop_front();
        }
        self.undo_stack.push_back(self.content.clone());
        self.redo_stack.clear();
        proof {
            assert(final(self).undo_view() =~= (if old(self).undo_view().len() >= old(
                self,
            ).spec_max_undo() && old(self).undo_view().len() > 0 {
                old(self).undo_view().drop_first()
            } else {
                old(self).undo_view()
            }).push(old(self).content@));
            assert(final(self).redo_view() =~= Seq::<Seq<char>>::empty());
        }
    }

    /// Restores the newest undo state, if one exists, moving the current
    /// content to the redo history and marking the document modified.
    pub fn undo(&mut self)
        ensures
            old(self).undo_view().len() == 0 ==> {
                &&& final(self).content == old(self).content
                &&& final(self).undo_view() == old(self).undo_view()
                &&& final(self).redo_view() == old(self).redo_view()
                &&& final(self).spec_modified() == old(self).spec_modified()
            },
            old(self).undo_view().len() > 0 ==> {
                &&& final(self).content@ == old(self).undo_view().last()
                &&& final(self).undo_view() == old(self).undo_view().drop_last()
                &&& final(self).redo_view() == old(self).redo_view().push(old(self).content@)
                &&& final(self).spec_modified()
            },
            final(self).title == old(self).title,
            final(self).spec_path() == old(self).spec_path(),
            final(self).spec_max_undo() == old(self).spec_max_undo(),
            final(self).spec_selection() == old(self).spec_selection(),
            final(self).spec_cursor() == old(self).spec_cursor(),
            final(self).current_find_pos == old(self).current_find_pos,
            final(self).find_text == old(self).find_text,
            final(self).replace_text == old(self).replace_text,
            final(self).match_case == old(self).match_case,
            final(self).whole_word == old(self).whole_word,
    {
        match self.undo_stack.pop_back() {
            Some(previous_state) => {
                self.redo_stack.push_back(self.content.clone());
                self.content = previous_state;
                self.modified = true;
                proof {
                    assert(final(self).undo_view() =~= old(self).undo_view().drop_last());
                    assert(final(self).redo_view() =~= old(self).redo_view().push(
                        old(self).content@,
                    ));
                }
            },
            None => {
                proof {
                    assert(final(self).undo_view() =~= old(self).undo_view());
                    assert(final(self).redo_view() =~= old(self).redo_view());
                }
            },
        }
    }

    /// Restores the newest redo state, if one exists, moving the current
    /// content back to the undo history and marking the document
    /// modified.
    pub fn redo(&mut self)
        ensures
            old(self).redo_view().len() == 0 ==> {
                &&& final(self).content == old(self).content
                &&& final(self).undo_view() == old(self).undo_view()
                &&& final(self).redo_view() == old(self).redo_view()
                &&& final(self).spec_modified() == old(self).spec_modified()
            },
            old(self).redo_view().len() > 0 ==> {
                &&& final(self).content@ == old(self).redo_view().last()
                &&& final(self).redo_view() == old(self).redo_view().drop_last()
                &&& final(self).undo_view() == old(self).undo_view().push(old(self).content@)
                &&& final(self).spec_modified()
            },
            final(self).title == old(self).title,
            final(self).spec_path() == old(self).spec_path(),
            final(self).spec_max_undo() == old(self).spec_max_undo(),
            final(self).spec_selection() == old(self).spec_selection(),
            final(self).spec_cursor() == old(self).spec_cursor(),
            final(self).current_find_pos == old(self).current_find_pos,
            final(self).find_text == old(self).find_text,
            final(self).replace_text == old(self).replace_text,
            final(self).match_case == old(self).match_case,
            final(self).whole_word == old(self).whole_word,
    {
        match self.redo_stack.pop_back() {
            Some(next_state) => {
                self.undo_stack.push_back(self.content.clone());
                self.content = next_state;
                self.modified = true;
                proof {
                    assert(final(self).redo_view() =~= old(self).redo_view().drop_last());
                    assert(final(self).undo_view() =~= old(self).undo_view().push(
                        old(self).content@,
                    ));
                }
            },
            None => {
                proof {
                    assert(final(self).undo_view() =~= old(self).undo_view());
                    assert(final(self).redo_view() =~= old(self).redo_view());
                }
            },
        }
    }

    /// The selected text, for the host to hand to the clipboard; nothing
    /// when no selection is in bounds. Does not change the document.
    pub fn copy(&self) -> (r: Option<String>)
        ensures
            match self.spec_selection() {
                Some((a, b)) => if 0 <= a <= b <= self.content@.len() {
                    r matches Some(s) && s@ == self.content@.subrange(a, b)
                } else {
                    r is None
                },
                None => r is None,
            },
    {
        match self.selection {
            Some((start, end)) => {
                let n = self.content.as_str().unicode_len();
                if start <= end && end <= n {
                    Some(String::from_str(self.content.as_str().substring_char(start, end)))
                } else {
                    None
                }
            },
            None => None,
        }
    }

    /// Removes the selected text and returns it, for the host to hand to
    /// the clipboard, pushing one undo state, marking the document
    /// modified and clearing the selection; nothing happens when no
    /// selection is in bounds.
    pub fn cut(&mut self) -> (r: Option<String>)
        ensures
            match old(self).spec_selection() {
                Some((a, b)) => if 0 <= a <= b <= old(self).content@.len() {
                    &&& r matches Some(s) && s@ == old(self).content@.subrange(a, b)
                    &&& final(self).content@ == old(self).content@.subrange(0, a) + old(
                        self,
                    ).content@.subrange(b, old(self).content@.len() as int)
                    &&& final(self).spec_selection() is None
                    &&& final(self).spec_modified()
                    &&& final(self).undo_view() == pushed_undo(*old(self))
                    &&& final(self).redo_view() == Seq::<Seq<char>>::empty()
                } else {
                    r is None && *final(self) == *old(self)
                },
                None => r is None && *final(self) == *old(self),
            },
            final(self).title == old(self).title,
            final(self).spec_path() == old(self).spec_path(),
            final(self).find_text == old(self).find_text,
            final(self).replace_text == old(self).replace_text,
            final(self).match_case == old(self).match_case,
            final(self).whole_word == old(self).whole_word,
            final(self).spec_cursor() == old(self).spec_cursor(),
            final(self).current_find_pos == old(self).current_find_pos,
            final(self).spec_max_undo() == old(self).spec_max_undo(),
    {
        match self.selection {
            Some((start, end)) => {
                let n = self.content.as_str().unicode_len();
                if start <= end && end <= n {
                    let removed = String::from_str(
                        self.content.as_str().substring_char(start, end),
                    );
                    self.push_undo_state();
                    let mut new_content = String::from_str(
                        self.content.as_str().substring_char(0, start),
                    );
                    new_content.append(self.content.as_str().substring_char(end, n));
                    self.content = new_content;
                    self.modified = true;
                    self.selection = None;
                    Some(removed)
                } else {
                    None
                }
            },
            None => None,
        }
    }

    /// Selects the whole content.
    pub fn select_all(&mut self)
        ensures
            final(self).spec_selection() == Some((0int, old(self).content@.len() as int)),
            final(self).content == old(self).content,
            final(self).title == old(self).title,
            final(self).spec_path() == old(self).spec_path(),
            final(self).spec_modified() == old(self).spec_modified(),
            final(self).undo_view() == old(self).undo_view(),
            final(self).redo_view() == old(self).redo_view(),
            final(self).current_find_pos == old(self).current_find_pos,
            final(self).spec_cursor() == old(self).spec_cursor(),
    {
        let n = self.content.as_str().unicode_len();
        self.selection = Some((0, n));
    }

    /// The 1-based line the cursor is on: one more than the newlines
    /// before it, saturating at the machine limit.
    pub fn cursor_line(&self) -> (r: usize)
        ensures
            r == ({
                let c = count_char(self.content@.take(cursor_clamped(self)), '\n');
                if c == usize::MAX {
                    usize::MAX as int
                } else {
                    c + 1
                }
            }),
    {
        let n = self.content.as_str().unicode_len();
        let pos = if self.cursor_position <= n {
            self.cursor_position
        } else {
            n
        };
        let prefix = self.content.as_str().substring_char(0, pos);
        proof {
            assert(prefix@ =~= self.content@.take(cursor_clamped(self)));
            crate::textscan::lemma_count_char_bound(prefix@, '\n');
        }
        let c = count_char_in_str(prefix, '\n');
        if c == usize::MAX {
            c
        } else {
            c + 1
        }
    }

    /// The cursor's 0-based column: the characters since the last
    /// newline before it, or since the start of the content.
    pub fn cursor_column(&self) -> (r: usize)
        ensures
            match last_char_idx(self.content@.take(cursor_clamped(self)), '\n') {
                Some(i) => r == cursor_clamped(self) - i - 1,
                None => r == cursor_clamped(self),
            },
    {
        let n = self.content.as_str().unicode_len();
        let pos = if self.cursor_position <= n {
            self.cursor_position
        } else {
            n
        };
        let prefix = self.content.as_str().substring_char(0, pos);
        proof {
            assert(prefix@ =~= self.content@.take(cursor_clamped(self)));
        }
        proof {
            lemma_last_char_idx_in_range(prefix@, '\n');
        }
        match rfind_char_in_str(prefix, '\n') {
            Some(i) => pos - i - 1,
            None => pos,
        }
    }

    /// The document's statistics: characters, characters without white
    /// space, white-space-separated words, lines, blank-line-separated
    /// paragraphs, and pages at five hundred words each, rounded up.
    pub fn calculate_stats(&self) -> (r: DocumentStats)
        ensures
            r.characters == self.content@.len(),
            r.characters_no_spaces == count_non_ws(self.content@),
            r.words == count_words(self.content@),
            r.lines == count_char(self.content@, '\n') + (if self.content@.len() > 0
                && self.content@.last() != '\n' {
                1int
            } else {
                0int
            }),
            r.paragraphs == count_blank_seps(self.content@) + 1,
            r.pages == (count_words(self.content@) + 499) / 500,
    {
        let s = self.content.as_str();
        let characters = s.unicode_len();
        let characters_no_spaces = non_ws_in_str(s);
        let words = words_in_str(s);
        let newlines = count_char_in_str(s, '\n');
        proof {
            crate::textscan::lemma_count_char_bound(s@, '\n');
            crate::textscan::lemma_count_words_bound(s@);
            crate::textscan::lemma_count_blank_seps_bound(s@);
        }
        let last_is_newline = characters > 0 && s.get_char(characters - 1) == '\n';
        proof {
            if s@.len() > 0 && s@.last() != '\n' {
                crate::textscan::lemma_count_char_bound(s@.drop_last(), '\n');
                assert(count_char(s@, '\n') == count_char(s@.drop_last(), '\n'));
            }
        }
        let lines = if characters > 0 && !last_is_newline {
            newlines + 1
        } else {
            newlines
        };
        let seps = blank_seps_in_str(s);
        let paragraphs = seps + 1;
        let pages = if words == 0 {
            0
        } else {
            (words - 1) / 500 + 1
        };
        proof {
            if words > 0 {
                assert((words - 1) / 500 + 1 == (words + 499) / 500) by (nonlinear_arith)
                    requires
                        words >= 1,
                ;
            }
        }
        DocumentStats { pages, words, characters, characters_no_spaces, lines, paragraphs }
    }
}

/// The undo history after one push: the capacity-trimmed history with the
/// current content on top.
pub open spec fn pushed_undo(pre: Document) -> Seq<Seq<char>> {
    (if pre.undo_view().len() >= pre.spec_max_undo() && pre.undo_view().len() > 0 {
        pre.undo_view().drop_first()
    } else {
        pre.undo_view()
    }).push(pre.content@)
}

/// The text a search runs over: the content itself with `match_case`, its
/// case folding otherwise.
pub open spec fn search_text(d: Document) -> Seq<char> {
    if d.match_case {
        d.content@
    } else {
        lowercased(d.content@)
    }
}

/// The pattern a search looks for: the find text, case-folded unless
/// `match_case`.
pub open spec fn search_pattern(d: Document) -> Seq<char> {
    if d.match_case {
        d.find_text@
    } else {
        lowercased(d.find_text@)
    }
}

/// How `find_next` transforms the document and what it returns: with an
/// empty find text, nothing and `false`; otherwise the first occurrence
/// of the pattern in the searched text at or after `current_find_pos`
/// becomes the selection and the next search start, or the search start
/// wraps to 0 on failure. A search start past the end finds nothing.
pub open spec fn find_next_post(pre: Document, post: Document, r: bool) -> bool {
    &&& post.content == pre.content
    &&& post.title == pre.title
    &&& post.spec_path() == pre.spec_path()
    &&& post.spec_modified() == pre.spec_modified()
    &&& post.undo_view() == pre.undo_view()
    &&& post.redo_view() == pre.redo_view()
    &&& post.spec_max_undo() == pre.spec_max_undo()
    &&& post.find_text == pre.find_text
    &&& post.replace_text == pre.replace_text
    &&& post.match_case == pre.match_case
    &&& post.whole_word == pre.whole_word
    &&& post.spec_cursor() == pre.spec_cursor()
    &&& if pre.find_text@.len() == 0 {
        &&& r == false
        &&& post.current_find_pos == pre.current_find_pos
        &&& post.spec_selection() == pre.spec_selection()
    } else {
        match find_from(search_text(pre), search_pattern(pre), pre.current_find_pos as int) {
            Some(i) => {
                &&& r == true
                &&& post.spec_selection() == Some((i, i + search_pattern(pre).len()))
                &&& post.current_find_pos == i + search_pattern(pre).len()
            },
            None => {
                &&& r == false
                &&& post.current_find_pos == 0
                &&& post.spec_selection() == pre.spec_selection()
            },
        }
    }
}

/// Whether `replace_next` replaces in place: a selection within bounds
/// whose text is the find text, exactly or — without `match_case` — up to
/// ASCII case.
pub open spec fn replace_applies(d: Document) -> bool {
    match d.spec_selection() {
        Some((a, b)) => 0 <= a <= b <= d.content@.len() && {
            let sel = d.content@.subrange(a, b);
            sel == d.find_text@ || (!d.match_case && eq_ignore_ascii(sel, d.find_text@))
        },
        None => false,
    }
}

impl Document {
    /// Finds the next occurrence of the find text at or after the current
    /// search position, selecting it and moving the position past it;
    /// wraps the position to 0 when nothing is found. Case-insensitive
    /// unless `match_case`: both content and pattern are case-folded
    /// first, and positions index the folded text.
    pub fn find_next(&mut self) -> (r: bool)
        ensures
            find_next_post(*old(self), *final(self), r),
    {
        if self.find_text.as_str().is_empty() {
            return false;
        }
        let content_s: String = if self.match_case {
            self.content.clone()
        } else {
            to_lowercase(self.content.as_str())
        };
        let find_s: String = if self.match_case {
            self.find_text.clone()
        } else {
            to_lowercase(self.find_text.as_str())
        };
        match find_in_str(content_s.as_str(), find_s.as_str(), self.current_find_pos) {
            Some(pos) => {
                proof {
                    crate::textscan::lemma_find_from_in_range(
                        content_s@,
                        find_s@,
                        self.current_find_pos as int,
                        pos as int,
                    );
                }
                let plen = find_s.as_str().unicode_len();
                let cn = content_s.as_str().unicode_len();
                proof {
                    assert(pos + plen <= cn);
                }
                let end = pos + plen;
                self.selection = Some((pos, end));
                self.current_find_pos = end;
                true
            },
            None => {
                self.current_find_pos = 0;
                false
            },
        }
    }

    /// Replaces the selection with the replace text when it matches the
    /// find text (up to ASCII case unless `match_case`), pushing an undo
    /// state, selecting the replacement and moving the search position
    /// past it; otherwise — also when the selection is stale and out of
    /// bounds — searches for the next occurrence instead.
    pub fn replace_next(&mut self) -> (r: bool)
        ensures
            replace_applies(*old(self)) ==> {
                let (a, b) = old(self).spec_selection()->0;
                &&& r == true
                &&& final(self).content@ == old(self).content@.subrange(0, a)
                    + old(self).replace_text@ + old(self).content@.subrange(
                    b,
                    old(self).content@.len() as int,
                )
                &&& final(self).spec_selection() == Some(
                    (a, a + old(self).replace_text@.len()),
                )
                &&& final(self).current_find_pos == a + old(self).replace_text@.len()
                &&& final(self).spec_modified()
                &&& final(self).undo_view() == pushed_undo(*old(self))
                &&& final(self).redo_view() == Seq::<Seq<char>>::empty()
                &&& final(self).title == old(self).title
                &&& final(self).spec_path() == old(self).spec_path()
                &&& final(self).find_text == old(self).find_text
                &&& final(self).replace_text == old(self).replace_text
                &&& final(self).match_case == old(self).match_case
                &&& final(self).whole_word == old(self).whole_word
                &&& final(self).spec_cursor() == old(self).spec_cursor()
                &&& final(self).spec_max_undo() == old(self).spec_max_undo()
            },
            !replace_applies(*old(self)) ==> find_next_post(*old(self), *final(self), r),
    {
        match self.selection {
            Some((start, end)) => {
                let n = self.content.as_str().unicode_len();
                if start <= end && end <= n {
                    let selected = self.content.as_str().substring_char(start, end);
                    let same = String::from_str(selected) == self.find_text;
                    let folded_same = !self.match_case && str_eq_ignore_ascii_case(
                        selected,
                        self.find_text.as_str(),
                    );
                    if same || folded_same {
                        self.push_undo_state();
                        let pre_part = String::from_str(
                            self.content.as_str().substring_char(0, start),
                        );
                        let mut new_content = pre_part;
                        new_content.append(self.replace_text.as_str());
                        new_content.append(self.content.as_str().substring_char(end, n));
                        let _total = new_content.as_str().unicode_len();
                        self.content = new_content;
                        self.modified = true;
                        let rlen = self.replace_text.as_str().unicode_len();
                        let sel_end = start + rlen;
                        self.selection = Some((start, sel_end));
                        self.current_find_pos = sel_end;
                        return true;
                    }
                }
            },
            None => {},
        }
        self.find_next()
    }
}

/// The content after replacing, from position `i` on, every occurrence
/// of `pat` found in the parallel folded text by `rep`, scanning left to
/// right and skipping past each match. Meaningful when the folded text is
/// the content position for position, as case folding leaves it for ASCII
/// text.
pub open spec fn spec_replace_all(
    content: Seq<char>,
    folded: Seq<char>,
    pat: Seq<char>,
    rep: Seq<char>,
    i: int,
) -> Seq<char>
    decreases content.len() - i
        when 0 <= i <= content.len() && folded.len() == content.len() && pat.len() >= 1
        via spec_replace_all_decreases
{
    match find_from(folded, pat, i) {
        None => content.skip(i),
        Some(start) => content.subrange(i, start) + rep + spec_replace_all(
            content,
            folded,
            pat,
            rep,
            start + pat.len(),
        ),
    }
}

#[via_fn]
proof fn spec_replace_all_decreases(
    content: Seq<char>,
    folded: Seq<char>,
    pat: Seq<char>,
    rep: Seq<char>,
    i: int,
) {
    match find_from(folded, pat, i) {
        Some(start) => {
            crate::textscan::lemma_find_from_in_range(folded, pat, i, start);
        },
        None => {},
    }
}

impl Document {
    /// Replaces every occurrence of the find text by the replace text,
    /// scanning left to right without overlap, after pushing one undo
    /// state; does nothing with an empty find text. Case-insensitive
    /// unless `match_case`: occurrences are found in the case-folded
    /// content, and each match skips the find text's own length. The
    /// content is pinned exactly whenever folding preserves the lengths,
    /// which it always does for ASCII text. Marks the document modified
    /// exactly when something matched.
    pub fn replace_all(&mut self)
        ensures
            old(self).find_text@.len() == 0 ==> {
                &&& final(self).content == old(self).content
                &&& final(self).undo_view() == old(self).undo_view()
                &&& final(self).redo_view() == old(self).redo_view()
                &&& final(self).spec_modified() == old(self).spec_modified()
                &&& final(self).spec_selection() == old(self).spec_selection()
                &&& final(self).current_find_pos == old(self).current_find_pos
            },
            old(self).find_text@.len() > 0 ==> {
                &&& final(self).undo_view() == pushed_undo(*old(self))
                &&& final(self).redo_view() == Seq::<Seq<char>>::empty()
                &&& final(self).spec_modified() == (old(self).spec_modified() || (find_from(
                    search_text(*old(self)),
                    search_pattern(*old(self)),
                    0,
                ) is Some))
                &&& ({
                    let aligned = search_text(*old(self)).len() == old(self).content@.len()
                        && search_pattern(*old(self)).len() == old(self).find_text@.len();
                    aligned ==> final(self).content@ == spec_replace_all(
                        old(self).content@,
                        search_text(*old(self)),
                        search_pattern(*old(self)),
                        old(self).replace_text@,
                        0,
                    )
                })
                &&& final(self).spec_selection() == old(self).spec_selection()
                &&& final(self).current_find_pos == old(self).current_find_pos
            },
            final(self).title == old(self).title,
            final(self).spec_path() == old(self).spec_path(),
            final(self).find_text == old(self).find_text,
            final(self).replace_text == old(self).replace_text,
            final(self).match_case == old(self).match_case,
            final(self).whole_word == old(self).whole_word,
            final(self).spec_cursor() == old(self).spec_cursor(),
            final(self).spec_max_undo() == old(self).spec_max_undo(),
    {
        if self.find_text.as_str().is_empty() {
            return ;
        }
        self.push_undo_state();
        let ghost pre = *old(self);
        let folded: String = if self.match_case {
            self.content.clone()
        } else {
            to_lowercase(self.content.as_str())
        };
        let pat: String = if self.match_case {
            self.find_text.clone()
        } else {
            to_lowercase(self.find_text.as_str())
        };
        let n = self.content.as_str().unicode_len();
        let fl = folded.as_str().unicode_len();
        let pl = pat.as_str().unicode_len();
        let adv = self.find_text.as_str().unicode_len();
        let ghost aligned = fl == n && pl == adv;
        let ghost c = pre.content@;
        let ghost f = search_text(pre);
        let ghost p = search_pattern(pre);
        let ghost rep = pre.replace_text@;
        let mut result = String::new();
        let mut last_end: usize = 0;
        let mut found_any = false;
        let mut cur = find_in_str(folded.as_str(), pat.as_str(), 0);
        while cur.is_some()
            invariant
                n == c.len(),
                fl == f.len(),
                pl == p.len(),
                adv == pre.find_text@.len(),
                adv >= 1,
                folded@ == f,
                pat@ == p,
                self.content@ == c,
                self.replace_text@ == rep,
                last_end <= fl + adv,
                (cur matches Some(s) ==> find_from(f, p, last_end as int) == Some(s as int)),
                aligned ==> ((cur is None) ==> (find_from(f, p, last_end as int) is None)),
                !found_any ==> ((cur is None) ==> (find_from(f, p, last_end as int) is None)),
                found_any ==> find_from(f, p, 0) is Some,
                !found_any ==> last_end == 0 && result@ =~= Seq::<char>::empty(),
                aligned ==> fl == n && pl == adv,
                aligned ==> last_end <= n,
                aligned ==> spec_replace_all(c, f, p, rep, 0) =~= result@ + spec_replace_all(
                    c,
                    f,
                    p,
                    rep,
                    last_end as int,
                ),
            decreases fl + adv - last_end, (if cur is Some {
                1int
            } else {
                0int
            }),
        {
            let start = match cur {
                Some(s) => s,
                None => 0,
            };
            proof {
                crate::textscan::lemma_find_from_in_range(f, p, last_end as int, start as int);
            }
            let a = if last_end <= n {
                last_end
            } else {
                n
            };
            let b0 = if start <= n {
                start
            } else {
                n
            };
            let b = if a <= b0 {
                b0
            } else {
                a
            };
            result.append(self.content.as_str().substring_char(a, b));
            result.append(self.replace_text.as_str());
            found_any = true;
            proof {
                if aligned {
                    assert(a == last_end && b == start);
                    assert(spec_replace_all(c, f, p, rep, last_end as int) =~= c.subrange(
                        last_end as int,
                        start as int,
                    ) + rep + spec_replace_all(c, f, p, rep, start + p.len()));
                }
            }
            if start <= usize::MAX - adv {
                last_end = start + adv;
                cur = find_in_str(folded.as_str(), pat.as_str(), last_end);
            } else {
                proof {
                    assert(!aligned);
                }
                cur = None;
            }
        }
        let tail_start = if last_end <= n {
            last_end
        } else {
            n
        };
        result.append(self.content.as_str().substring_char(tail_start, n));
        proof {
            if aligned {
                assert(spec_replace_all(c, f, p, rep, last_end as int) =~= c.skip(
                    last_end as int,
                ));
                assert(c.skip(last_end as int) =~= c.subrange(last_end as int, n as int));
                assert(result@ =~= spec_replace_all(c, f, p, rep, 0));
            }
            if !found_any {
                assert(find_from(f, p, 0) is None);
            }
        }
        self.content = result;
        if found_any {
            self.modified = true;
        }
    }

    /// Inserts the simulated clipboard text — the clipboard itself is the
    /// hosting process's concern — over the selection when one is within
    /// bounds, leaving the stale selection in place as the interactive
    /// editor does, or at the cursor otherwise; pushes one undo state and
    /// marks the document modified.
    pub fn paste(&mut self)
        ensures
            final(self).spec_modified(),
            final(self).undo_view() == pushed_undo(*old(self)),
            final(self).redo_view() == Seq::<Seq<char>>::empty(),
            (match old(self).spec_selection() {
                Some((a, b)) => {
                    if 0 <= a <= b <= old(self).content@.len() {
                        final(self).content@ == old(self).content@.subrange(0, a)
                            + "pasted_text"@ + old(self).content@.subrange(
                            b,
                            old(self).content@.len() as int,
                        )
                    } else {
                        final(self).content@ == old(self).content@.take(cursor_clamped(old(self)))
                            + "pasted_text"@ + old(self).content@.skip(cursor_clamped(old(self)))
                    }
                },
                None => final(self).content@ == old(self).content@.take(
                    cursor_clamped(old(self)),
                ) + "pasted_text"@ + old(self).content@.skip(cursor_clamped(old(self))),
            }),
            final(self).spec_selection() == old(self).spec_selection(),
            final(self).title == old(self).title,
            final(self).spec_path() == old(self).spec_path(),
            final(self).find_text == old(self).find_text,
            final(self).replace_text == old(self).replace_text,
            final(self).match_case == old(self).match_case,
            final(self).whole_word == old(self).whole_word,
            final(self).spec_cursor() == old(self).spec_cursor(),
            final(self).current_find_pos == old(self).current_find_pos,
            final(self).spec_max_undo() == old(self).spec_max_undo(),
    {
        let text = "pasted_text";
        let n = self.content.as_str().unicode_len();
        let (start, end) = match self.selection {
            Some((a, b)) => {
                if a <= b && b <= n {
                    (a, b)
                } else {
                    let pos = if self.cursor_position <= n {
                        self.cursor_position
                    } else {
                        n
                    };
                    (pos, pos)
                }
            },
            None => {
                let pos = if self.cursor_position <= n {
                    self.cursor_position
                } else {
                    n
                };
                (pos, pos)
            },
        };
        self.push_undo_state();
        let pre_part = String::from_str(self.content.as_str().substring_char(0, start));
        let mut new_content = pre_part;
        new_content.append(text);
        new_content.append(self.content.as_str().substring_char(end, n));
        self.content = new_content;
        self.modified = true;
        proof {
            assert(old(self).content@.take(cursor_clamped(old(self))) =~= old(
                self,
            ).content@.subrange(0, cursor_clamped(old(self))));
            assert(old(self).content@.skip(cursor_clamped(old(self))) =~= old(
                self,
            ).content@.subrange(cursor_clamped(old(self)), old(self).content@.len() as int));
        }
    }
}

/// The cursor position, clamped to the content's length.
pub open spec fn cursor_clamped(d: &Document) -> int {
    if d.spec_cursor() <= d.content@.len() {
        d.spec_cursor()
    } else {
        d.content@.len() as int
    }
}

/// The title a path gives a document: the text after the last path
/// separator, or `Untitled` when that text is empty.
pub open spec fn spec_title_of_path(p: Seq<char>) -> Seq<char> {
    let tail = match spec_last_sep(p) {
        Some(i) => p.skip(i + 1),
        None => p,
    };
    if tail.len() == 0 {
        "Untitled"@
    } else {
        tail
    }
}

/// The last index holding a path separator, `/` or `\`.
pub open spec fn spec_last_sep(p: Seq<char>) -> Option<int> {
    match (last_char_idx(p, '/'), last_char_idx(p, '\\')) {
        (Some(i), Some(j)) => Some(if i >= j {
            i
        } else {
            j
        }),
        (Some(i), None) => Some(i),
        (None, Some(j)) => Some(j),
        (None, None) => None,
    }
}

/// The file-name part of a path, as a document title.
pub fn title_of_path(p: &str) -> (r: String)
    ensures
        r@ == spec_title_of_path(p@),
{
    let n = p.unicode_len();
    let slash = rfind_char_in_str(p, '/');
    let back = rfind_char_in_str(p, '\\');
    let sep: Option<usize> = match (slash, back) {
        (Some(i), Some(j)) => Some(
            if i >= j {
                i
            } else {
                j
            },
        ),
        (Some(i), None) => Some(i),
        (None, Some(j)) => Some(j),
        (None, None) => None,
    };
    let start: usize = match sep {
        Some(i) => {
            proof {
                lemma_last_char_idx_in_range(p@, '/');
                lemma_last_char_idx_in_range(p@, '\\');
            }
            i + 1
        },
        None => 0,
    };
    proof {
        assert(p@.skip(start as int) =~= p@.subrange(start as int, n as int));
    }
    if start == n {
        let r = String::from_str("Untitled");
        proof {
            if sep is None {
                assert(p@.skip(0) =~= p@);
            }
        }
        r
    } else {
        let tail = p.substring_char(start, n);
        proof {
            if sep is None {
                assert(p@.skip(0) =~= p@);
            }
        }
        String::from_str(tail)
    }
}

/// A found last occurrence lies inside the text.
pub proof fn lemma_last_char_idx_in_range(s: Seq<char>, c: char)
    ensures
        match last_char_idx(s, c) {
            Some(i) => 0 <= i < s.len(),
            None => true,
        },
    decreases s.len(),
{
    if s.len() > 0 && s.last() != c {
        lemma_last_char_idx_in_range(s.drop_last(), c);
    }
}

} // verus!
