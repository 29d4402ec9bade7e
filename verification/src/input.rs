//! The launcher's single-line query buffer, with selection and input-method
//! composition. Positions are counted in characters; the platform counts in
//! UTF-16 units.

use core::ops::Range;

use vstd::prelude::*;

use crate::text::{byte_len, chars_of, string_of, utf8_len};

verus! {

/// The query buffer.
#[derive(Debug)]
pub struct SearchInput {
    pub query: String,
    /// Caret (or selection head) position in characters.
    pub cursor: usize,
    /// Active composition range in characters.
    pub marked: Option<Range<usize>>,
    /// Active selection in characters, with `start <= end`. The caret is the
    /// selection head.
    pub selection: Option<Range<usize>>,
}

/// What a [`SearchInput`] is.
pub struct InputView {
    pub query: Seq<char>,
    pub cursor: int,
    pub marked: Option<(int, int)>,
    pub selection: Option<(int, int)>,
}

/// The ends of an optional range.
pub open spec fn range_view(r: Option<Range<usize>>) -> Option<(int, int)> {
    match r {
        Some(r) => Some((r.start as int, r.end as int)),
        None => None,
    }
}

impl View for SearchInput {
    type V = InputView;

    open spec fn view(&self) -> InputView {
        InputView {
            query: self.query@,
            cursor: self.cursor as int,
            marked: range_view(self.marked),
            selection: range_view(self.selection),
        }
    }
}

impl InputView {
    /// The caret and the selection lie within the query, the caret within the
    /// selection, and ranges are not inverted.
    pub open spec fn valid(self) -> bool {
        &&& 0 <= self.cursor <= self.query.len()
        &&& self.selection matches Some((a, b)) ==> 0 <= a <= self.cursor <= b <= self.query.len()
        &&& self.marked matches Some((a, b)) ==> 0 <= a <= b
    }

    /// The input with the characters from `a` to `b` replaced by `text`, and
    /// the caret behind it.
    pub open spec fn replaced(self, a: int, b: int, text: Seq<char>) -> InputView {
        InputView {
            query: self.query.take(a) + text + self.query.skip(b),
            cursor: a + text.len(),
            ..self
        }
    }

    /// Whether some text is selected.
    pub open spec fn has_selection(self) -> bool {
        self.selection matches Some((a, b)) && a < b
    }

    /// The input with the selected text deleted, and the caret where it began.
    pub open spec fn unselected(self) -> InputView {
        match self.selection {
            Some((a, b)) => InputView { selection: None, ..self.replaced(a, b, Seq::empty()) },
            None => self,
        }
    }

    /// The input with `text` put in at the caret, in place of any selection.
    pub open spec fn inserted(self, text: Seq<char>) -> InputView {
        let s = self.unselected();
        s.replaced(s.cursor, s.cursor, text)
    }
}

/// The input without the selected text, or else without the character before
/// the caret.
pub open spec fn backspaced(s: InputView) -> InputView {
    let t = s.unselected();
    if s.has_selection() || t.cursor <= 0 {
        t
    } else {
        t.replaced(t.cursor - 1, t.cursor, Seq::empty())
    }
}

/// The input without the selected text, or else without the character after
/// the caret.
pub open spec fn deleted(s: InputView) -> InputView {
    let t = s.unselected();
    if s.has_selection() || t.cursor >= t.query.len() {
        t
    } else {
        t.replaced(t.cursor, t.cursor + 1, Seq::empty())
    }
}

/// The input with all of the query selected, and the caret behind it. In an
/// empty query there is nothing to select.
pub open spec fn all_selected(s: InputView) -> InputView {
    let n = s.query.len() as int;
    InputView {
        cursor: n,
        selection: if n > 0 {
            Some((0, n))
        } else {
            None
        },
        ..s
    }
}

/// The selected text; `None` where there is none.
pub open spec fn text_selected(s: InputView) -> Option<Seq<char>> {
    match s.selection {
        Some((a, b)) => if a < b {
            Some(s.query.subrange(a, b))
        } else {
            None
        },
        None => None,
    }
}

/// The smaller of two numbers.
pub open spec fn smaller(a: int, b: int) -> int {
    if a <= b {
        a
    } else {
        b
    }
}

/// The larger of two numbers.
pub open spec fn larger(a: int, b: int) -> int {
    if a >= b {
        a
    } else {
        b
    }
}

/// The number of UTF-16 units that `c` takes.
pub open spec fn char_units(c: char) -> nat {
    if c as u32 >= 0x10000 {
        2
    } else {
        1
    }
}

/// The number of UTF-16 units that `s` takes.
pub open spec fn units(s: Seq<char>) -> nat
    decreases s.len(),
{
    if s.len() == 0 {
        0
    } else {
        units(s.drop_last()) + char_units(s.last())
    }
}

/// The first character, from the `i`th on, at whose end `s` has taken at least
/// `n` UTF-16 units.
pub open spec fn reaching(s: Seq<char>, n: int, i: int) -> Option<int>
    decreases s.len() - i,
{
    if i < 0 || i >= s.len() {
        None
    } else if units(s.take(i + 1)) >= n {
        Some(i)
    } else {
        reaching(s, n, i + 1)
    }
}

/// The place of a UTF-16 offset: how many characters end at it or before it.
/// `None` for one behind the end.
pub open spec fn place_at(s: Seq<char>, n: int) -> Option<int> {
    match reaching(s, n + 1, 0) {
        Some(a) => Some(a),
        None => if n == units(s) {
            Some(s.len() as int)
        } else {
            None
        },
    }
}

/// The characters that a range of UTF-16 units touches: from the first that
/// ends behind `start` to the first that ends at `end` or behind it. An empty
/// range touches none, at its place.
pub open spec fn touched(s: Seq<char>, start: int, end: int) -> Option<(int, int)> {
    if start == end {
        empty_at(place_at(s, start))
    } else {
        touched_some(s, start, end)
    }
}

/// The empty range at a place.
pub open spec fn empty_at(place: Option<int>) -> Option<(int, int)> {
    match place {
        Some(k) => Some((k, k)),
        None => None,
    }
}

/// The characters that a range of UTF-16 units touches, where it is not empty.
pub open spec fn touched_some(s: Seq<char>, start: int, end: int) -> Option<(int, int)> {
    match (reaching(s, start + 1, 0), reaching(s, end, 0)) {
        (Some(a), Some(b)) => if a <= b {
            Some((a, b + 1))
        } else {
            None
        },
        _ => None,
    }
}

proof fn lemma_units_step(s: Seq<char>, k: int)
    requires
        0 <= k < s.len(),
    ensures
        units(s.take(k + 1)) == units(s.take(k)) + char_units(s[k]),
{
    assert(s.take(k + 1).drop_last() =~= s.take(k));
}

proof fn lemma_units_grow(s: Seq<char>, a: int, b: int)
    requires
        0 <= a <= b <= s.len(),
    ensures
        units(s.take(a)) + (b - a) <= units(s.take(b)),
    decreases b - a,
{
    if a < b {
        lemma_units_grow(s, a, b - 1);
        lemma_units_step(s, b - 1);
    }
}

proof fn lemma_bytes_push(s: Seq<char>, c: char)
    ensures
        byte_len(s.push(c)) == byte_len(s) + vstd::utf8::encode_scalar(c as u32).len(),
    decreases s.len(),
{
    let t = s.push(c);
    if s.len() == 0 {
        assert(t.drop_first() =~= Seq::<char>::empty());
        assert(vstd::utf8::encode_utf8(t.drop_first()).len() == 0);
    } else {
        assert(t.drop_first() =~= s.drop_first().push(c));
        lemma_bytes_push(s.drop_first(), c);
    }
}

proof fn lemma_units_bound(s: Seq<char>)
    ensures
        units(s) <= byte_len(s),
    decreases s.len(),
{
    if s.len() > 0 {
        lemma_units_bound(s.drop_last());
        assert(s.drop_last().push(s.last()) =~= s);
        lemma_bytes_push(s.drop_last(), s.last());
    }
}

/// The number of UTF-16 units that `c` takes.
fn units_of(c: char) -> (r: usize)
    ensures
        r == char_units(c),
{
    if c as u32 >= 0x10000 {
        2
    } else {
        1
    }
}

/// `v` with the characters from `a` to `b` replaced by `text`.
fn splice(v: &Vec<char>, a: usize, b: usize, text: &str) -> (r: String)
    requires
        a <= b <= v.len(),
    ensures
        r@ == v@.take(a as int) + text@ + v@.skip(b as int),
{
    let mut r = string_of(v, 0, a);
    r.append(text);
    r.append(string_of(v, b, v.len()).as_str());
    assert(r@ =~= v@.take(a as int) + text@ + v@.skip(b as int));
    r
}

impl SearchInput {
    /// The number of characters in the query.
    pub fn char_count(&self) -> (r: usize)
        ensures
            r == self@.query.len(),
    {
        self.query.as_str().unicode_len()
    }

    /// The byte offset of the caret; the end of the query where the caret is behind it.
    pub fn byte_index(&self) -> (r: usize)
        ensures
            r == byte_len(self@.query.take(smaller(self@.cursor, self@.query.len() as int))),
    {
        self.byte_at_char(self.cursor)
    }

    /// The byte offset of a character; the end of the query where there is none.
    pub fn byte_at_char(&self, char_index: usize) -> (r: usize)
        ensures
            r == byte_len(self@.query.take(smaller(char_index as int, self@.query.len() as int))),
    {
        let v = chars_of(self.query.as_str());
        let n: usize = if char_index <= v.len() {
            char_index
        } else {
            v.len()
        };
        let s = string_of(&v, 0, n);
        assert(s@ =~= self@.query.take(n as int));
        utf8_len(s.as_str())
    }

    /// Replaces the characters from `a` to `b`, and puts the caret behind `text`.
    fn replace(&mut self, a: usize, b: usize, text: &str)
        requires
            a <= b <= old(self)@.query.len(),
        ensures
            final(self)@ == old(self)@.replaced(a as int, b as int, text@),
    {
        let v = chars_of(self.query.as_str());
        let added: usize = text.unicode_len();
        self.query = splice(&v, a, b, text);
        let n: usize = self.query.as_str().unicode_len();
        assert(n == a + added + (v.len() - b));
        self.cursor = a + added;
    }

    /// Deletes the selected text and moves the caret to where it began. Tells
    /// whether there was some: an empty selection goes, but nothing with it.
    pub fn delete_selection(&mut self) -> (r: bool)
        requires
            old(self)@.valid(),
        ensures
            final(self)@ == old(self)@.unselected(),
            final(self)@.valid(),
            r == old(self)@.has_selection(),
    {
        if let Some(range) = self.selection.take() {
            self.replace(range.start, range.end, "");
            proof {
                reveal_strlit("");
                assert(""@ =~= Seq::<char>::empty());
            }
            range.start < range.end
        } else {
            false
        }
    }

    /// Puts a character in at the caret, in place of any selection.
    pub fn insert_char(&mut self, ch: char)
        requires
            old(self)@.valid(),
        ensures
            final(self)@ == old(self)@.inserted(seq![ch]),
            final(self)@.valid(),
    {
        let _ = self.delete_selection();
        let mut text = String::new();
        text.push(ch);
        assert(text@ =~= seq![ch]);
        self.replace(self.cursor, self.cursor, text.as_str());
    }

    /// Puts `text` in at the caret, in place of any selection. An empty text
    /// changes nothing.
    pub fn insert_str(&mut self, text: &str)
        requires
            old(self)@.valid(),
        ensures
            final(self)@ == (if text@.len() == 0 {
                old(self)@
            } else {
                old(self)@.inserted(text@)
            }),
            final(self)@.valid(),
    {
        if text.is_empty() {
            return ;
        }
        let _ = self.delete_selection();
        self.replace(self.cursor, self.cursor, text);
    }

    /// Deletes the selection, or the character before the caret.
    pub fn backspace(&mut self)
        requires
            old(self)@.valid(),
        ensures
            final(self)@ == backspaced(old(self)@),
            final(self)@.valid(),
    {
        if self.delete_selection() {
            return ;
        }
        if self.cursor > 0 {
            proof {
                reveal_strlit("");
                assert(""@ =~= Seq::<char>::empty());
            }
            self.replace(self.cursor - 1, self.cursor, "");
        }
    }

    /// Deletes the selection, or the character after the caret.
    pub fn delete(&mut self)
        requires
            old(self)@.valid(),
        ensures
            final(self)@ == deleted(old(self)@),
            final(self)@.valid(),
    {
        if self.delete_selection() {
            return ;
        }
        if self.cursor < self.char_count() {
            proof {
                reveal_strlit("");
                assert(""@ =~= Seq::<char>::empty());
            }
            self.replace(self.cursor, self.cursor + 1, "");
        }
    }

    /// Moves the caret by `delta` characters, within the query, and drops the selection.
    pub fn move_cursor(&mut self, delta: i32)
        ensures
            old(self)@.valid() ==> final(self)@.valid(),
            final(self)@ == (InputView {
                cursor: larger(
                    0,
                    smaller(old(self)@.cursor + delta, old(self)@.query.len() as int),
                ),
                selection: None,
                ..old(self)@
            }),
    {
        let n: usize = self.char_count();
        let target: i128 = self.cursor as i128 + delta as i128;
        if target < 0 {
            self.cursor = 0;
        } else if target > n as i128 {
            self.cursor = n;
        } else {
            self.cursor = target as usize;
        }
        self.selection = None;
    }

    /// Moves the caret to a position, within the query, and drops the selection.
    pub fn set_cursor(&mut self, index: usize)
        ensures
            old(self)@.valid() ==> final(self)@.valid(),
            final(self)@ == (InputView {
                cursor: smaller(index as int, old(self)@.query.len() as int),
                selection: None,
                ..old(self)@
            }),
    {
        let n: usize = self.char_count();
        self.cursor = if index <= n {
            index
        } else {
            n
        };
        self.selection = None;
    }

    /// Selects the whole query, with the caret behind it.
    pub fn select_all(&mut self)
        ensures
            old(self)@.valid() ==> final(self)@.valid(),
            final(self)@ == all_selected(old(self)@),
    {
        let n: usize = self.char_count();
        self.selection = if n > 0 {
            Some(0..n)
        } else {
            None
        };
        self.cursor = n;
    }

    /// Selects from a fixed `anchor` to `head`, where the caret goes. An empty
    /// range is no selection.
    pub fn select_anchor_to(&mut self, anchor: usize, head: usize)
        ensures
            old(self)@.valid() ==> final(self)@.valid(),
            ({
                let n = old(self)@.query.len() as int;
                let a = smaller(anchor as int, n);
                let h = smaller(head as int, n);
                final(self)@ == (InputView {
                    cursor: h,
                    selection: if a == h {
                        None
                    } else {
                        Some((smaller(a, h), larger(a, h)))
                    },
                    ..old(self)@
                })
            }),
    {
        let n: usize = self.char_count();
        let anchor: usize = if anchor <= n {
            anchor
        } else {
            n
        };
        let head: usize = if head <= n {
            head
        } else {
            n
        };
        self.cursor = head;
        self.selection = if anchor == head {
            None
        } else if anchor < head {
            Some(anchor..head)
        } else {
            Some(head..anchor)
        };
    }

    /// Selects a range, whichever end comes first, with the caret at its end.
    /// An empty range is no selection.
    pub fn set_selection(&mut self, range: Range<usize>)
        ensures
            old(self)@.valid() ==> final(self)@.valid(),
            ({
                let n = old(self)@.query.len() as int;
                let a = smaller(range.start as int, n);
                let b = smaller(range.end as int, n);
                final(self)@ == (InputView {
                    cursor: larger(a, b),
                    selection: if a == b {
                        None
                    } else {
                        Some((smaller(a, b), larger(a, b)))
                    },
                    ..old(self)@
                })
            }),
    {
        let n: usize = self.char_count();
        let a: usize = if range.start <= n {
            range.start
        } else {
            n
        };
        let b: usize = if range.end <= n {
            range.end
        } else {
            n
        };
        let (start, end) = if a <= b {
            (a, b)
        } else {
            (b, a)
        };
        self.selection = if start == end {
            None
        } else {
            Some(start..end)
        };
        self.cursor = end;
    }

    /// The selected text.
    pub fn selected_text(&self) -> (r: Option<String>)
        requires
            self@.valid(),
        ensures
            crate::text::opt_view(r) == text_selected(self@),
    {
        match &self.selection {
            Some(range) => if range.start < range.end {
                let v = chars_of(self.query.as_str());
                Some(string_of(&v, range.start, range.end))
            } else {
                None
            },
            None => None,
        }
    }

    /// The number of UTF-16 units in the query.
    pub fn utf16_len(&self) -> (r: usize)
        ensures
            r == units(self@.query),
    {
        let n: usize = self.char_count();
        let r = self.char_to_utf16(n);
        assert(self@.query.take(n as int) =~= self@.query);
        r
    }

    /// The UTF-16 offset of a character; the end of the query where there is none.
    pub fn char_to_utf16(&self, char_index: usize) -> (r: usize)
        ensures
            r == units(self@.query.take(smaller(char_index as int, self@.query.len() as int))),
    {
        let v = chars_of(self.query.as_str());
        let limit: usize = utf8_len(self.query.as_str());
        let ghost q = self@.query;
        let mut n: usize = 0;
        let mut i: usize = 0;
        while i < v.len() && i < char_index
            invariant
                i <= v.len(),
                i <= char_index,
                v@ == q,
                q == self@.query,
                limit == byte_len(q),
                n == units(q.take(i as int)),
            decreases v.len() - i,
        {
            proof {
                lemma_units_step(q, i as int);
                lemma_units_grow(q, i + 1, q.len() as int);
                assert(q.take(q.len() as int) =~= q);
                lemma_units_bound(q);
            }
            n = n + units_of(v[i]);
            i += 1;
        }
        n
    }

    /// The character at a UTF-16 offset, or `None` where the offset is inside a
    /// character or behind the end.
    pub fn utf16_to_char_index(&self, utf16_index: usize) -> (r: Option<usize>)
        ensures
            match r {
                Some(k) => k <= self@.query.len() && units(self@.query.take(k as int))
                    == utf16_index,
                None => forall|k: int|
                    0 <= k <= self@.query.len() ==> units(#[trigger] self@.query.take(k))
                        != utf16_index,
            },
    {
        let v = chars_of(self.query.as_str());
        let limit: usize = utf8_len(self.query.as_str());
        let ghost q = self@.query;
        let mut n: usize = 0;
        let mut i: usize = 0;
        while i < v.len()
            invariant
                i <= v.len(),
                v@ == q,
                q == self@.query,
                limit == byte_len(q),
                n == units(q.take(i as int)),
                forall|k: int| 0 <= k < i ==> units(#[trigger] q.take(k)) != utf16_index,
            decreases v.len() - i,
        {
            if n == utf16_index {
                return Some(i);
            }
            proof {
                lemma_units_step(q, i as int);
                lemma_units_grow(q, i + 1, q.len() as int);
                assert(q.take(q.len() as int) =~= q);
                lemma_units_bound(q);
            }
            n = n + units_of(v[i]);
            i += 1;
        }
        if n == utf16_index {
            Some(i)
        } else {
            None
        }
    }

    /// The characters that a range of UTF-16 units touches; none, at its place,
    /// for an empty range.
    pub fn utf16_to_chars(&self, utf16: Range<usize>) -> (r: Option<Range<usize>>)
        ensures
            range_view(r) == touched(self@.query, utf16.start as int, utf16.end as int),
            r matches Some(range) ==> range.start <= range.end <= self@.query.len(),
    {
        let v = chars_of(self.query.as_str());
        let limit: usize = utf8_len(self.query.as_str());
        let ghost q = self@.query;
        let empty = utf16.start == utf16.end;
        let ghost from = utf16.start as int + 1;
        let ghost to = utf16.end as int;
        let mut n: usize = 0;
        let mut start: Option<usize> = None;
        let mut i: usize = 0;
        while i < v.len()
            invariant
                i <= v.len(),
                v@ == q,
                q == self@.query,
                limit == byte_len(q),
                n == units(q.take(i as int)),
                from == utf16.start as int + 1,
                to == utf16.end as int,
                empty == (utf16.start == utf16.end),
                empty ==> start is None,
                match start {
                    Some(a) => a < i && reaching(q, from, 0) == Some(a as int),
                    None => reaching(q, from, 0) == reaching(q, from, i as int),
                },
                !empty ==> reaching(q, to, 0) == reaching(q, to, i as int),
            decreases v.len() - i,
        {
            proof {
                lemma_units_step(q, i as int);
                lemma_units_grow(q, i + 1, q.len() as int);
                assert(q.take(q.len() as int) =~= q);
                lemma_units_bound(q);
            }
            n = n + units_of(v[i]);
            if empty && n > utf16.start {
                return Some(i..i);
            }
            if start.is_none() && n > utf16.start {
                start = Some(i);
            }
            if !empty && n >= utf16.end {
                return match start {
                    Some(a) => Some(a..i + 1),
                    None => {
                        proof {
                            lemma_reaching_from(q, from, i + 1);
                        }
                        None
                    },
                };
            }
            i += 1;
        }
        assert(q.take(i as int) =~= q);
        if empty && n == utf16.start {
            Some(i..i)
        } else {
            None
        }
    }

    /// Replaces a range of UTF-16 units by `text` and puts the caret behind it.
    /// Where no range is given, or it is not within the query, the composition
    /// is replaced, or else the selection, or else `text` is put in at the
    /// caret. The composition and the selection end.
    pub fn replace_utf16(&mut self, range: Option<Range<usize>>, text: &str)
        requires
            old(self)@.valid(),
        ensures
            final(self)@ == committed(old(self)@, range_view(range), text@),
            final(self)@.valid(),
    {
        let chars = match range {
            Some(utf16) => self.utf16_to_chars(utf16),
            None => None,
        };
        match chars {
            Some(range) => {
                self.replace(range.start, range.end, text);
            },
            None => {
                match &self.marked {
                    Some(marked) => {
                        let n: usize = self.char_count();
                        let a: usize = if marked.start <= n {
                            marked.start
                        } else {
                            n
                        };
                        let b: usize = if marked.end <= n {
                            marked.end
                        } else {
                            n
                        };
                        self.replace(a, b, text);
                    },
                    None => {
                        let _ = self.delete_selection();
                        self.replace(self.cursor, self.cursor, text);
                    },
                }
            },
        }
        self.marked = None;
        self.selection = None;
    }

    /// Replaces text as [`SearchInput::replace_utf16`] does and marks it as the
    /// composition. Where a selection within it is given, in UTF-16 units, the
    /// caret goes to its first character.
    pub fn replace_and_mark_utf16(
        &mut self,
        range: Option<Range<usize>>,
        text: &str,
        new_selected: Option<Range<usize>>,
    )
        requires
            old(self)@.valid(),
        ensures
            final(self)@ == composed(
                old(self)@,
                range_view(range),
                text@,
                range_view(new_selected),
            ),
            final(self)@.valid(),
    {
        self.replace_utf16(range, text);
        let added: usize = text.unicode_len();
        let end: usize = self.cursor;
        proof {
            lemma_committed_caret(old(self)@, range_view(range), text@);
        }
        let start: usize = end - added;
        self.marked = Some(start..end);
        if let Some(selected) = new_selected {
            let before: usize = self.char_to_utf16(start);
            let ghost q = self@.query;
            match (before.checked_add(selected.start), before.checked_add(selected.end)) {
                (Some(a), Some(b)) => {
                    if let Some(chars) = self.utf16_to_chars(a..b) {
                        self.cursor = chars.start;
                    }
                },
                _ => {
                    let limit: usize = utf8_len(self.query.as_str());
                    proof {
                        lemma_units_bound(q);
                        lemma_reaching_none(q, before + selected.start + 1, 0);
                        lemma_reaching_none(q, before + selected.end, 0);
                    }
                },
            }
        }
    }
}

/// The UTF-16 offset of a character; the end of the query where there is none.
pub open spec fn offset_of(q: Seq<char>, index: int) -> int {
    units(q.take(smaller(index, q.len() as int))) as int
}

impl SearchInput {
    /// The selection in UTF-16 units, and whether the caret is at its start. A
    /// caret by itself is an empty selection.
    pub fn selected_text_range(&self) -> (r: (Range<usize>, bool))
        ensures
            ({
                let (a, b) = match self@.selection {
                    Some(range) => range,
                    None => (self@.cursor, self@.cursor),
                };
                &&& r.0.start == offset_of(self@.query, a)
                &&& r.0.end == offset_of(self@.query, b)
                &&& r.1 == (self@.selection is Some && self@.cursor == a)
            }),
    {
        match &self.selection {
            Some(range) => {
                let start: usize = self.char_to_utf16(range.start);
                let end: usize = self.char_to_utf16(range.end);
                (start..end, self.cursor == range.start)
            },
            None => {
                let caret: usize = self.char_to_utf16(self.cursor);
                (caret..caret, false)
            },
        }
    }

    /// The composition in UTF-16 units.
    pub fn marked_text_range(&self) -> (r: Option<Range<usize>>)
        ensures
            range_view(r) == (match self@.marked {
                Some((a, b)) => Some((offset_of(self@.query, a), offset_of(self@.query, b))),
                None => None,
            }),
    {
        match &self.marked {
            Some(range) => {
                let start: usize = self.char_to_utf16(range.start);
                let end: usize = self.char_to_utf16(range.end);
                Some(start..end)
            },
            None => None,
        }
    }

    /// The text of the characters that a range of UTF-16 units touches, and
    /// the range of exactly these characters.
    pub fn text_for_range(&self, utf16: Range<usize>) -> (r: Option<(String, Range<usize>)>)
        ensures
            match r {
                Some((text, range)) => touched(
                    self@.query,
                    utf16.start as int,
                    utf16.end as int,
                ) matches Some((a, b)) && text@ == self@.query.subrange(a, b) && range.start
                    == offset_of(self@.query, a) && range.end == offset_of(self@.query, b),
                None => touched(self@.query, utf16.start as int, utf16.end as int) is None,
            },
    {
        match self.utf16_to_chars(utf16) {
            Some(chars) => {
                let v = chars_of(self.query.as_str());
                let text = string_of(&v, chars.start, chars.end);
                let start: usize = self.char_to_utf16(chars.start);
                let end: usize = self.char_to_utf16(chars.end);
                Some((text, start..end))
            },
            None => None,
        }
    }

    /// Moves the selection as the platform asks, in UTF-16 units. An empty range
    /// moves the caret; what is not within the query changes nothing.
    pub fn set_selected_text_range(&mut self, utf16: Range<usize>)
        ensures
            old(self)@.valid() ==> final(self)@.valid(),
            final(self)@ == selected_by_platform(
                old(self)@,
                utf16.start as int,
                utf16.end as int,
            ),
    {
        if utf16.start == utf16.end {
            if let Some(index) = self.utf16_to_char_index(utf16.start) {
                proof {
                    let q = self@.query;
                    assert(units(q.take(index as int)) == utf16.start);
                    let k = choose|k: int|
                        0 <= k <= q.len() && units(#[trigger] q.take(k)) == utf16.start;
                    utf16_offsets_are_unique(q, index as int, k);
                }
                self.set_cursor(index);
            }
        } else if let Some(range) = self.utf16_to_chars(utf16) {
            self.set_selection(range);
        }
    }

    /// Ends the composition.
    pub fn unmark_text(&mut self)
        ensures
            old(self)@.valid() ==> final(self)@.valid(),
            final(self)@ == (InputView { marked: None, ..old(self)@ }),
    {
        self.marked = None;
    }

    /// Empties the query.
    pub fn clear(&mut self)
        ensures
            old(self)@.valid() ==> final(self)@.valid(),
            final(self)@ == (InputView {
                query: Seq::empty(),
                cursor: 0,
                marked: None,
                selection: None,
            }),
    {
        self.query = String::new();
        self.cursor = 0;
        self.marked = None;
        self.selection = None;
        assert(self.query@ =~= Seq::<char>::empty());
    }
}

/// The input after the platform moved the selection.
pub open spec fn selected_by_platform(s: InputView, start: int, end: int) -> InputView {
    if start == end {
        if exists|k: int| 0 <= k <= s.query.len() && units(#[trigger] s.query.take(k)) == start {
            InputView {
                cursor: choose|k: int|
                    0 <= k <= s.query.len() && units(#[trigger] s.query.take(k)) == start,
                selection: None,
                ..s
            }
        } else {
            s
        }
    } else {
        match touched(s.query, start, end) {
            Some((a, b)) => InputView { cursor: b, selection: Some((a, b)), ..s },
            None => s,
        }
    }
}

/// A piece of the query as it is shown.
#[derive(Debug, PartialEq, Eq)]
pub enum Segment {
    Plain(String),
    /// Text that is being composed.
    Composed(String),
    Selected(String),
    Caret,
}

/// What a [`Segment`] is.
pub enum SegmentView {
    Plain(Seq<char>),
    Composed(Seq<char>),
    Selected(Seq<char>),
    Caret,
}

impl View for Segment {
    type V = SegmentView;

    open spec fn view(&self) -> SegmentView {
        match *self {
            Segment::Plain(s) => SegmentView::Plain(s@),
            Segment::Composed(s) => SegmentView::Composed(s@),
            Segment::Selected(s) => SegmentView::Selected(s@),
            Segment::Caret => SegmentView::Caret,
        }
    }
}

/// The views of a list of segments.
pub open spec fn segment_views(v: Seq<Segment>) -> Seq<SegmentView> {
    v.map_values(|s: Segment| s@)
}

/// A plain segment, left out where it is empty.
pub open spec fn plain(s: Seq<char>) -> Seq<SegmentView> {
    if s.len() > 0 {
        seq![SegmentView::Plain(s)]
    } else {
        Seq::empty()
    }
}

/// How the query is shown: the composition with the caret behind it; else the
/// selection with the caret at its head; else the caret alone.
pub open spec fn shown_segments(s: InputView) -> Seq<SegmentView> {
    let n = s.query.len() as int;
    match s.marked {
        Some((x, y)) => {
            let a = smaller(x, n);
            let b = smaller(y, n);
            plain(s.query.take(a)) + seq![
                SegmentView::Composed(s.query.subrange(a, b)),
                SegmentView::Caret,
            ] + plain(s.query.skip(b))
        },
        None => match s.selection {
            Some((a, b)) => {
                let c = s.cursor;
                plain(s.query.take(a)) + (if c == a {
                    seq![SegmentView::Caret, SegmentView::Selected(s.query.subrange(a, b))]
                } else {
                    seq![
                        SegmentView::Selected(s.query.subrange(a, c)),
                        SegmentView::Caret,
                        SegmentView::Selected(s.query.subrange(c, b)),
                    ]
                }) + plain(s.query.skip(b))
            },
            None => plain(s.query.take(s.cursor)) + seq![SegmentView::Caret] + plain(
                s.query.skip(s.cursor),
            ),
        },
    }
}

/// Appends `v[from..to]` as a plain segment, where it is not empty.
fn push_plain(r: &mut Vec<Segment>, v: &Vec<char>, from: usize, to: usize)
    requires
        from <= to <= v.len(),
    ensures
        segment_views(final(r)@) == segment_views(old(r)@) + plain(
            v@.subrange(from as int, to as int),
        ),
{
    if from < to {
        r.push(Segment::Plain(string_of(v, from, to)));
    }
    assert(segment_views(r@) =~= segment_views(old(r)@) + plain(
        v@.subrange(from as int, to as int),
    ));
}

/// Appends a segment.
fn push_segment(r: &mut Vec<Segment>, s: Segment)
    ensures
        segment_views(final(r)@) == segment_views(old(r)@).push(s@),
{
    r.push(s);
    assert(segment_views(r@) =~= segment_views(old(r)@).push(s@));
}

impl SearchInput {
    /// How the query is shown.
    pub fn segments(&self) -> (r: Vec<Segment>)
        requires
            self@.valid(),
        ensures
            segment_views(r@) == shown_segments(self@),
    {
        let v = chars_of(self.query.as_str());
        let n: usize = v.len();
        let mut r: Vec<Segment> = Vec::new();
        assert(segment_views(r@) =~= Seq::<SegmentView>::empty());
        if let Some(range) = &self.marked {
            let a: usize = if range.start <= n {
                range.start
            } else {
                n
            };
            let b: usize = if range.end <= n {
                range.end
            } else {
                n
            };
            push_plain(&mut r, &v, 0, a);
            push_segment(&mut r, Segment::Composed(string_of(&v, a, b)));
            push_segment(&mut r, Segment::Caret);
            push_plain(&mut r, &v, b, n);
            proof {
                assert(v@.subrange(0, a as int) =~= v@.take(a as int));
                assert(v@.subrange(b as int, n as int) =~= v@.skip(b as int));
                assert(segment_views(r@) =~= shown_segments(self@));
            }
            return r;
        }
        if let Some(range) = &self.selection {
            let a: usize = range.start;
            let b: usize = range.end;
            let c: usize = self.cursor;
            push_plain(&mut r, &v, 0, a);
            if c == a {
                push_segment(&mut r, Segment::Caret);
                push_segment(&mut r, Segment::Selected(string_of(&v, a, b)));
            } else {
                push_segment(&mut r, Segment::Selected(string_of(&v, a, c)));
                push_segment(&mut r, Segment::Caret);
                push_segment(&mut r, Segment::Selected(string_of(&v, c, b)));
            }
            push_plain(&mut r, &v, b, n);
            proof {
                assert(v@.subrange(0, a as int) =~= v@.take(a as int));
                assert(v@.subrange(b as int, n as int) =~= v@.skip(b as int));
                assert(segment_views(r@) =~= shown_segments(self@));
            }
            return r;
        }
        let c: usize = self.cursor;
        push_plain(&mut r, &v, 0, c);
        push_segment(&mut r, Segment::Caret);
        push_plain(&mut r, &v, c, n);
        proof {
            assert(v@.subrange(0, c as int) =~= v@.take(c as int));
            assert(v@.subrange(c as int, n as int) =~= v@.skip(c as int));
            assert(segment_views(r@) =~= shown_segments(self@));
        }
        r
    }
}

proof fn lemma_reaching_from(s: Seq<char>, n: int, i: int)
    ensures
        reaching(s, n, i) matches Some(k) ==> k >= i,
    decreases s.len() - i,
{
    if 0 <= i < s.len() && units(s.take(i + 1)) < n {
        lemma_reaching_from(s, n, i + 1);
    }
}

proof fn lemma_reaching_none(s: Seq<char>, n: int, i: int)
    requires
        0 <= i,
    ensures
        n > units(s) ==> reaching(s, n, i) is None,
    decreases s.len() - i,
{
    if i < s.len() {
        lemma_reaching_none(s, n, i + 1);
        lemma_units_grow(s, i + 1, s.len() as int);
        assert(s.take(s.len() as int) =~= s);
    }
}

/// The input after the platform replaced text: a range of UTF-16 units that is
/// within the query, or else the composition, or else the selection, or else
/// nothing at the caret.
pub open spec fn committed(s: InputView, range: Option<(int, int)>, text: Seq<char>) -> InputView {
    let n = s.query.len() as int;
    let chars = match range {
        Some((a, b)) => touched(s.query, a, b),
        None => None,
    };
    let next = match chars {
        Some((a, b)) => s.replaced(a, b, text),
        None => match s.marked {
            Some((a, b)) => s.replaced(smaller(a, n), smaller(b, n), text),
            None => s.inserted(text),
        },
    };
    InputView { marked: None, selection: None, ..next }
}

/// The input after the platform replaced text and marked it as the composition.
pub open spec fn composed(
    s: InputView,
    range: Option<(int, int)>,
    text: Seq<char>,
    selected: Option<(int, int)>,
) -> InputView {
    let next = committed(s, range, text);
    let start = next.cursor - text.len();
    let before = units(next.query.take(start)) as int;
    let cursor = match selected {
        Some((a, b)) => match touched(next.query, before + a, before + b) {
            Some((first, _)) => first,
            None => next.cursor,
        },
        None => next.cursor,
    };
    InputView { marked: Some((start, next.cursor)), cursor, ..next }
}

proof fn lemma_committed_caret(s: InputView, range: Option<(int, int)>, text: Seq<char>)
    requires
        s.valid(),
    ensures
        committed(s, range, text).cursor >= text.len(),
{
    match range {
        Some((a, b)) => {
            if let Some((x, y)) = touched(s.query, a, b) {
                lemma_reaching_from(s.query, a + 1, 0);
            }
        },
        None => {},
    }
}

/// Typing a character and deleting it backwards leaves the input as it was.
pub proof fn backspace_undoes_typing(s: InputView, ch: char)
    requires
        s.valid(),
        s.selection is None,
    ensures
        ({
            let typed = s.inserted(seq![ch]);
            &&& typed.cursor == s.cursor + 1
            &&& typed.query[s.cursor] == ch
            &&& typed.replaced(typed.cursor - 1, typed.cursor, Seq::empty()) == s
        }),
{
    let typed = s.inserted(seq![ch]);
    let back = typed.replaced(typed.cursor - 1, typed.cursor, Seq::empty());
    assert(back.query =~= s.query);
}

/// Deleting after selecting everything leaves nothing, with the caret at the start.
pub proof fn deleting_everything_leaves_nothing(s: InputView)
    ensures
        ({
            let n = s.query.len() as int;
            let all = InputView { cursor: n, selection: Some((0, n)), ..s };
            &&& all.unselected().query == Seq::<char>::empty()
            &&& all.unselected().cursor == 0
            &&& all.unselected().selection is None
        }),
{
    let n = s.query.len() as int;
    let all = InputView { cursor: n, selection: Some((0, n)), ..s };
    assert(all.unselected().query =~= Seq::<char>::empty());
}

/// A composition stands for itself alone: whatever was composed at the caret,
/// committing a text gives what putting that text in at once would have given.
pub proof fn commit_replaces_the_composition(
    s: InputView,
    composition: Seq<char>,
    selected: Option<(int, int)>,
    text: Seq<char>,
)
    requires
        s.valid(),
        s.marked is None,
    ensures
        committed(composed(s, None, composition, selected), None, text) == committed(s, None, text),
{
    let c = composed(s, None, composition, selected);
    let u = s.unselected();
    let start = u.cursor;
    assert(c.query =~= u.query.take(start) + composition + u.query.skip(start));
    assert(c.marked == Some((start, start + composition.len() as int)));
    let a = committed(c, None, text);
    let b = committed(s, None, text);
    assert(c.query.take(start) =~= u.query.take(start));
    assert(c.query.skip(start + composition.len()) =~= u.query.skip(start));
    assert(a.query =~= b.query);
}

/// Cancelling a composition, that is committing an empty text, restores the
/// query and the caret.
pub proof fn cancel_removes_only_the_composition(
    s: InputView,
    composition: Seq<char>,
    selected: Option<(int, int)>,
)
    requires
        s.valid(),
        s.marked is None,
        s.selection is None,
    ensures
        committed(composed(s, None, composition, selected), None, Seq::empty()) == s,
{
    commit_replaces_the_composition(s, composition, selected, Seq::empty());
    assert(committed(s, None, Seq::empty()).query =~= s.query);
}

/// A character's UTF-16 offset belongs to that character alone.
pub proof fn utf16_offsets_are_unique(q: Seq<char>, a: int, b: int)
    requires
        0 <= a <= q.len(),
        0 <= b <= q.len(),
        units(q.take(a)) == units(q.take(b)),
    ensures
        a == b,
{
    if a < b {
        lemma_units_grow(q, a, b);
    } else {
        lemma_units_grow(q, b, a);
    }
}

} // verus!
