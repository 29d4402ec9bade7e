//! What editing the query does to it.

use vstd::prelude::*;

use crate::input::{
    all_selected, backspaced, char_units, committed, composed, deleted, larger, offset_of, place_at,
    plain, reaching, selected_by_platform, shown_segments, smaller, text_selected, touched, units,
    InputView, SegmentView,
};

verus! {

/// Whether the selected text is `middle`, or nothing is selected and the caret is
/// between `before` and `after`.
pub open spec fn parted(
    s: InputView,
    before: Seq<char>,
    middle: Seq<char>,
    after: Seq<char>,
) -> bool {
    let a = before.len() as int;
    let b = a + middle.len();
    &&& s.query == before + middle + after
    &&& match s.selection {
        Some(range) => range == (a, b) && a <= s.cursor <= b,
        None => middle.len() == 0 && s.cursor == a,
    }
}

/// What is typed takes the place of the selected text, or goes in at the caret; the
/// caret is then behind it, and nothing is selected any more.
pub proof fn typing_replaces_the_selection(
    s: InputView,
    before: Seq<char>,
    middle: Seq<char>,
    after: Seq<char>,
    text: Seq<char>,
)
    requires
        parted(s, before, middle, after),
    ensures
        s.inserted(text) == (InputView {
            query: before + text + after,
            cursor: before.len() + text.len() as int,
            selection: None,
            marked: s.marked,
        }),
        s.unselected() == (InputView {
            query: before + after,
            cursor: before.len() as int,
            selection: None,
            marked: s.marked,
        }),
        s.has_selection() <==> middle.len() > 0,
{
    let u = s.unselected();
    assert(s.query.take(before.len() as int) =~= before);
    assert(s.query.skip((before.len() + middle.len()) as int) =~= after);
    assert(u.query =~= before + after);
    assert(u.query.take(before.len() as int) =~= before);
    assert(u.query.skip(before.len() as int) =~= after);
    assert(s.inserted(text).query =~= before + text + after);
}

/// Deleting takes the selected text, and nothing else; where nothing is selected, the
/// character before the caret, or behind it; at the end of the query nothing.
pub proof fn deleting_takes_one_or_the_selection(
    s: InputView,
    before: Seq<char>,
    middle: Seq<char>,
    after: Seq<char>,
)
    requires
        parted(s, before, middle, after),
    ensures
        middle.len() > 0 ==> backspaced(s) == (InputView {
            query: before + after,
            cursor: before.len() as int,
            selection: None,
            marked: s.marked,
        }) && deleted(s) == backspaced(s),
        middle.len() == 0 && before.len() > 0 ==> backspaced(s) == (InputView {
            query: before.drop_last() + after,
            cursor: before.len() - 1,
            selection: None,
            marked: s.marked,
        }),
        middle.len() == 0 && before.len() == 0 ==> backspaced(s) == (InputView {
            query: s.query,
            cursor: 0,
            selection: None,
            marked: s.marked,
        }),
        middle.len() == 0 && after.len() > 0 ==> deleted(s) == (InputView {
            query: before + after.drop_first(),
            cursor: before.len() as int,
            selection: None,
            marked: s.marked,
        }),
        middle.len() == 0 && after.len() == 0 ==> deleted(s) == (InputView {
            query: s.query,
            cursor: before.len() as int,
            selection: None,
            marked: s.marked,
        }),
{
    typing_replaces_the_selection(s, before, middle, after, Seq::empty());
    let t = s.unselected();
    let n = before.len() as int;
    if middle.len() == 0 {
        assert(s.query =~= before + after);
        if before.len() > 0 {
            assert(backspaced(s).query =~= before.drop_last() + after);
        }
        if after.len() > 0 {
            assert(deleted(s).query =~= before + after.drop_first());
        }
    }
}

/// Selecting everything selects the query from its start to its end, with the caret
/// behind it; what is then selected is the query.
pub proof fn selecting_everything_selects_the_query(s: InputView)
    ensures
        all_selected(s).query == s.query,
        all_selected(s).marked == s.marked,
        all_selected(s).cursor == s.query.len(),
        s.query.len() == 0 ==> all_selected(s).selection is None && text_selected(
            all_selected(s),
        ) is None,
        s.query.len() > 0 ==> all_selected(s).selection == Some((0int, s.query.len() as int))
            && text_selected(all_selected(s)) == Some(s.query),
{
    if s.query.len() > 0 {
        assert(s.query.subrange(0, s.query.len() as int) =~= s.query);
    }
}

/// The selected text is the one between the ends of the selection.
pub proof fn selected_text_is_the_middle(
    s: InputView,
    before: Seq<char>,
    middle: Seq<char>,
    after: Seq<char>,
)
    requires
        parted(s, before, middle, after),
    ensures
        text_selected(s) == (if middle.len() > 0 {
            Some(middle)
        } else {
            None
        }),
{
    if middle.len() > 0 {
        let a = before.len() as int;
        assert(s.query.subrange(a, a + middle.len()) =~= middle);
    }
}

/// Of two numbers one is the smaller and one the larger.
pub proof fn bounds_hold(a: int, b: int)
    ensures
        smaller(a, b) <= a && smaller(a, b) <= b && (smaller(a, b) == a || smaller(a, b) == b),
        larger(a, b) >= a && larger(a, b) >= b && (larger(a, b) == a || larger(a, b) == b),
{
}

/// UTF-16 units add up: a character takes one, and two where it is beyond the first
/// 65536.
pub proof fn utf16_units_add_up(a: Seq<char>, b: Seq<char>, c: char)
    ensures
        units(a + b) == units(a) + units(b),
        units(seq![c]) == if c as u32 >= 65536 {
            2int
        } else {
            1
        },
        units(Seq::empty()) == 0,
    decreases b.len(),
{
    reveal_with_fuel(units, 2);
    assert(seq![c].drop_last() =~= Seq::<char>::empty());
    if b.len() == 0 {
        assert(a + b =~= a);
    } else {
        utf16_units_add_up(a, b.drop_last(), c);
        assert((a + b).drop_last() =~= a + b.drop_last());
    }
}

proof fn lemma_step(s: Seq<char>, k: int)
    requires
        0 <= k < s.len(),
    ensures
        units(s.take(k + 1)) == units(s.take(k)) + char_units(s[k]),
        1 <= char_units(s[k]) <= 2,
{
    assert(s.take(k + 1).drop_last() =~= s.take(k));
}

proof fn lemma_grow(s: Seq<char>, a: int, b: int)
    requires
        0 <= a <= b <= s.len(),
    ensures
        units(s.take(a)) + (b - a) <= units(s.take(b)),
    decreases b - a,
{
    if a < b {
        lemma_grow(s, a, b - 1);
        lemma_step(s, b - 1);
    }
}

proof fn lemma_reaching(s: Seq<char>, n: int, i: int)
    requires
        0 <= i,
        i <= s.len(),
        i > 0 ==> units(s.take(i)) < n,
    ensures
        match reaching(s, n, i) {
            Some(k) => i <= k < s.len() && units(s.take(k + 1)) >= n && (k > 0 ==> units(s.take(k))
                < n),
            None => units(s) < n || s.len() == 0,
        },
    decreases s.len() - i,
{
    if i < s.len() {
        if units(s.take(i + 1)) < n {
            lemma_reaching(s, n, i + 1);
        }
    } else {
        assert(s.take(i) =~= s);
    }
}

proof fn lemma_empty_units(s: Seq<char>)
    ensures
        units(s.take(0)) == 0,
        units(s.take(s.len() as int)) == units(s),
{
    assert(s.take(0) =~= Seq::<char>::empty());
    assert(s.take(s.len() as int) =~= s);
}

/// A range of UTF-16 units that is not empty stands for the characters that it
/// touches: from the one in which it begins to the one in which it ends. One that
/// goes beyond the end stands for none.
pub proof fn utf16_ranges_touch_characters(q: Seq<char>, start: int, end: int)
    requires
        0 <= start < end,
    ensures
        match touched(q, start, end) {
            Some((a, b)) => {
                &&& 0 <= a < b <= q.len()
                &&& units(q.take(a)) <= start < units(q.take(a + 1))
                &&& units(q.take(b - 1)) < end <= units(q.take(b))
            },
            None => end > units(q),
        },
{
    lemma_empty_units(q);
    lemma_reaching(q, start + 1, 0);
    lemma_reaching(q, end, 0);
    if let (Some(a), Some(b)) = (reaching(q, start + 1, 0), reaching(q, end, 0)) {
        if a > b {
            lemma_grow(q, b + 1, a);
        }
    }
}

/// The place of a character is found back from its UTF-16 offset, and so is a range
/// of characters from its two offsets.
#[verifier::rlimit(40)]
pub proof fn utf16_offsets_are_read_back(q: Seq<char>, i: int, j: int)
    requires
        0 <= i <= j <= q.len(),
    ensures
        touched(q, units(q.take(i)) as int, units(q.take(j)) as int) == Some((i, j)),
{
    let start = units(q.take(i)) as int;
    let end = units(q.take(j)) as int;
    lemma_empty_units(q);
    lemma_grow(q, i, j);
    if i == j {
        lemma_reaching(q, start + 1, 0);
        match reaching(q, start + 1, 0) {
            Some(k) => {
                if k < i {
                    lemma_grow(q, k + 1, i);
                } else if k > i {
                    lemma_grow(q, i, k);
                }
            },
            None => {
                if i < q.len() {
                    lemma_grow(q, i, q.len() as int);
                }
            },
        }
        assert(place_at(q, start) == Some(i));
    } else {
        utf16_ranges_touch_characters(q, start, end);
        lemma_grow(q, j, q.len() as int);
        let (a, b) = touched(q, start, end)->0;
        if a < i {
            lemma_grow(q, a + 1, i);
        }
        if i < a {
            lemma_grow(q, i, a);
            lemma_step(q, i);
            lemma_grow(q, i + 1, a);
        }
        if b < j {
            lemma_grow(q, b, j);
        }
        if j < b {
            lemma_grow(q, j, b - 1);
        }
    }
}

/// What the platform puts in takes the place of the range it names, where that is
/// within the query; the caret is then behind it, and nothing is composed or selected
/// any more.
pub proof fn named_ranges_are_replaced(
    s: InputView,
    before: Seq<char>,
    middle: Seq<char>,
    after: Seq<char>,
    text: Seq<char>,
)
    requires
        s.query == before + middle + after,
    ensures
        committed(
            s,
            Some((units(before) as int, units(before + middle) as int)),
            text,
        ) == (InputView {
            query: before + text + after,
            cursor: before.len() + text.len() as int,
            selection: None,
            marked: None,
        }),
{
    let i = before.len() as int;
    let j = i + middle.len();
    assert(s.query.take(i) =~= before);
    assert(s.query.take(j) =~= before + middle);
    utf16_offsets_are_read_back(s.query, i, j);
    assert(s.query.skip(j) =~= after);
    assert(s.query.take(i) + text + s.query.skip(j) =~= before + text + after);
}

/// Where the platform names no range, what it puts in takes the place of the
/// composition; where nothing is composed, of the selected text, or it goes in at the
/// caret.
pub proof fn unnamed_ranges_are_the_composition_or_the_selection(
    s: InputView,
    before: Seq<char>,
    middle: Seq<char>,
    after: Seq<char>,
    text: Seq<char>,
)
    requires
        match s.marked {
            Some(range) => s.query == before + middle + after && range == (
                before.len() as int,
                (before.len() + middle.len()) as int,
            ),
            None => parted(s, before, middle, after),
        },
    ensures
        committed(s, None, text) == (InputView {
            query: before + text + after,
            cursor: before.len() + text.len() as int,
            selection: None,
            marked: None,
        }),
{
    match s.marked {
        Some(range) => {
            let i = before.len() as int;
            let j = i + middle.len();
            assert(s.query.take(i) =~= before);
            assert(s.query.skip(j) =~= after);
        },
        None => {
            typing_replaces_the_selection(s, before, middle, after, text);
        },
    }
}

/// A range that goes beyond the query counts as none.
pub proof fn ranges_beyond_the_query_count_as_none(
    s: InputView,
    start: int,
    end: int,
    text: Seq<char>,
)
    requires
        0 <= start < end,
        end > units(s.query),
    ensures
        committed(s, Some((start, end)), text) == committed(s, None, text),
{
    utf16_ranges_touch_characters(s.query, start, end);
    if let Some((a, b)) = touched(s.query, start, end) {
        lemma_grow(s.query, b, s.query.len() as int);
        lemma_empty_units(s.query);
    }
}

proof fn lemma_spliced(q: Seq<char>, a: int, b: int, text: Seq<char>)
    requires
        0 <= a <= q.len(),
        0 <= b <= q.len(),
    ensures
        ({
            let t = q.take(a) + text + q.skip(b);
            a + text.len() <= t.len() && t.subrange(a, a + text.len()) == text
        }),
{
    let t = q.take(a) + text + q.skip(b);
    assert(t.subrange(a, a + text.len()) =~= text);
}

proof fn lemma_put_in(s: InputView, range: Option<(int, int)>, text: Seq<char>)
    requires
        s.valid(),
    ensures
        ({
            let put = committed(s, range, text);
            &&& text.len() <= put.cursor <= put.query.len()
            &&& put.query.subrange(put.cursor - text.len(), put.cursor) == text
        }),
{
    let n = s.query.len() as int;
    let chars = match range {
        Some((a, b)) => touched(s.query, a, b),
        None => None,
    };
    match chars {
        Some((a, b)) => {
            let (x, y) = range->0;
            lemma_reaching(s.query, x + 1, 0);
            lemma_reaching(s.query, y, 0);
            assert(0 <= a <= n && 0 <= b <= n);
            lemma_spliced(s.query, a, b, text);
        },
        None => match s.marked {
            Some((a, b)) => {
                lemma_spliced(s.query, smaller(a, n), smaller(b, n), text);
            },
            None => {
                let t = s.unselected();
                lemma_spliced(t.query, t.cursor, t.cursor, text);
            },
        },
    }
}

/// What is composed is put in like any text, and is marked: the composition is exactly
/// that text. The caret is behind it, or where the platform wants it within the text.
pub proof fn compositions_are_marked(
    s: InputView,
    range: Option<(int, int)>,
    text: Seq<char>,
    k: int,
)
    requires
        s.valid(),
        0 <= k <= text.len(),
    ensures
        ({
            let put = committed(s, range, text);
            &&& text.len() <= put.cursor <= put.query.len()
            &&& put.query.subrange(put.cursor - text.len(), put.cursor) == text
        }),
        ({
            let put = committed(s, range, text);
            let c = composed(s, range, text, None);
            &&& c.query == put.query && c.cursor == put.cursor && c.selection == put.selection
            &&& c.marked == Some((put.cursor - text.len(), put.cursor))
        }),
        ({
            let put = committed(s, range, text);
            let at = units(text.take(k)) as int;
            let c = composed(s, range, text, Some((at, at)));
            &&& c.query == put.query && c.selection == put.selection
            &&& c.marked == Some((put.cursor - text.len(), put.cursor))
            &&& c.cursor == put.cursor - text.len() + k
        }),
{
    lemma_put_in(s, range, text);
    let put = committed(s, range, text);
    let q = put.query;
    let start = put.cursor - text.len();
    let head = q.take(start);
    assert(q.take(start + k) =~= head + text.take(k)) by {
        assert forall|i: int| 0 <= i < start + k implies q.take(start + k)[i] == (head + text.take(
            k,
        ))[i] by {
            if i >= start {
                assert(q.subrange(start, put.cursor)[i - start] == q[i]);
            }
        }
    }
    utf16_units_add_up(head, text.take(k), ' ');
    utf16_offsets_are_read_back(q, start + k, start + k);
}

/// The platform selects the characters between two offsets, with the caret at the end
/// of them, or puts the caret at one offset and selects nothing.
pub proof fn platform_selects_characters(s: InputView, i: int, j: int)
    requires
        0 <= i <= j <= s.query.len(),
    ensures
        selected_by_platform(s, units(s.query.take(i)) as int, units(s.query.take(j)) as int) == (
        InputView {
            query: s.query,
            cursor: j,
            selection: if i < j {
                Some((i, j))
            } else {
                None
            },
            marked: s.marked,
        }),
{
    lemma_grow(s.query, i, j);
    utf16_offsets_are_read_back(s.query, i, j);
    if i == j {
        let start = units(s.query.take(i)) as int;
        let k = choose|k: int|
            0 <= k <= s.query.len() && units(#[trigger] s.query.take(k)) == start;
        assert(units(s.query.take(i)) == start);
        crate::input::utf16_offsets_are_unique(s.query, k, i);
    }
}

/// The text of a piece of the query as it is shown.
pub open spec fn piece_text(p: SegmentView) -> Seq<char> {
    match p {
        SegmentView::Plain(s) => s,
        SegmentView::Composed(s) => s,
        SegmentView::Selected(s) => s,
        SegmentView::Caret => Seq::empty(),
    }
}

/// The text of all pieces.
pub open spec fn pieces_text(ps: Seq<SegmentView>) -> Seq<char>
    decreases ps.len(),
{
    if ps.len() == 0 {
        Seq::empty()
    } else {
        pieces_text(ps.drop_last()) + piece_text(ps.last())
    }
}

/// The text that is shown as selected, or as being composed.
pub open spec fn marked_text(ps: Seq<SegmentView>, composed: bool) -> Seq<char>
    decreases ps.len(),
{
    if ps.len() == 0 {
        Seq::empty()
    } else {
        marked_text(ps.drop_last(), composed) + (match ps.last() {
            SegmentView::Composed(s) => if composed {
                s
            } else {
                Seq::empty()
            },
            SegmentView::Selected(s) => if composed {
                Seq::empty()
            } else {
                s
            },
            _ => Seq::empty(),
        })
    }
}

proof fn lemma_text_sum(a: Seq<SegmentView>, b: Seq<SegmentView>, composed: bool)
    ensures
        pieces_text(a + b) == pieces_text(a) + pieces_text(b),
        marked_text(a + b, composed) == marked_text(a, composed) + marked_text(b, composed),
    decreases b.len(),
{
    if b.len() == 0 {
        assert(a + b =~= a);
        assert(pieces_text(a) + Seq::<char>::empty() =~= pieces_text(a));
        assert(marked_text(a, composed) + Seq::<char>::empty() =~= marked_text(a, composed));
    } else {
        lemma_text_sum(a, b.drop_last(), composed);
        assert((a + b).drop_last() =~= a + b.drop_last());
        assert(pieces_text(a + b) =~= pieces_text(a) + pieces_text(b));
        assert(marked_text(a + b, composed) =~= marked_text(a, composed) + marked_text(
            b,
            composed,
        ));
    }
}

proof fn lemma_one_piece(p: SegmentView, composed: bool)
    ensures
        pieces_text(seq![p]) == piece_text(p),
        marked_text(seq![p], composed) == (match p {
            SegmentView::Composed(s) => if composed {
                s
            } else {
                Seq::empty()
            },
            SegmentView::Selected(s) => if composed {
                Seq::empty()
            } else {
                s
            },
            _ => Seq::empty(),
        }),
{
    reveal_with_fuel(pieces_text, 2);
    reveal_with_fuel(marked_text, 2);
    assert(seq![p].drop_last() =~= Seq::<SegmentView>::empty());
    assert(pieces_text(seq![p]) =~= piece_text(p));
    assert(marked_text(seq![p], composed) =~= match p {
        SegmentView::Composed(s) => if composed {
            s
        } else {
            Seq::empty()
        },
        SegmentView::Selected(s) => if composed {
            Seq::empty()
        } else {
            s
        },
        _ => Seq::empty(),
    });
}

proof fn lemma_plain(s: Seq<char>, composed: bool)
    ensures
        pieces_text(plain(s)) == s,
        marked_text(plain(s), composed) == Seq::<char>::empty(),
        !plain(s).contains(SegmentView::Caret),
{
    if s.len() > 0 {
        lemma_one_piece(SegmentView::Plain(s), composed);
        assert forall|i: int| 0 <= i < plain(s).len() implies plain(s)[i] != SegmentView::Caret by {}
    } else {
        assert(s =~= Seq::<char>::empty());
    }
}

/// Whether the pieces have the caret at place `n` and nowhere else, with the text
/// `before` in front of it and `after` behind it.
pub open spec fn caret_between(
    ps: Seq<SegmentView>,
    n: int,
    before: Seq<char>,
    after: Seq<char>,
) -> bool {
    &&& 0 <= n < ps.len()
    &&& ps[n] is Caret
    &&& forall|i: int| 0 <= i < ps.len() && (#[trigger] ps[i]) is Caret ==> i == n
    &&& pieces_text(ps.take(n)) == before
    &&& pieces_text(ps.skip(n + 1)) == after
}

/// The query is shown whole, with one caret in it: behind the composition while
/// something is composed, else where the caret is. What is composed, or else selected,
/// is shown as such, and nothing else is.
#[verifier::rlimit(80)]
#[verifier::spinoff_prover]
pub proof fn query_is_shown_whole(s: InputView) -> (n: int)
    requires
        s.valid(),
        s.marked matches Some((a, b)) ==> b <= s.query.len(),
    ensures
        ({
            let at = match s.marked {
                Some((a, b)) => b,
                None => s.cursor,
            };
            caret_between(shown_segments(s), n, s.query.take(at), s.query.skip(at))
        }),
        marked_text(shown_segments(s), true) == (match s.marked {
            Some((a, b)) => s.query.subrange(a, b),
            None => Seq::empty(),
        }),
        marked_text(shown_segments(s), false) == (match (s.marked, s.selection) {
            (None, Some((a, b))) => s.query.subrange(a, b),
            _ => Seq::empty(),
        }),
{
    let q = s.query;
    let all = shown_segments(s);
    let caret = seq![SegmentView::Caret];
    lemma_one_piece(SegmentView::Caret, true);
    lemma_one_piece(SegmentView::Caret, false);
    match s.marked {
        Some((a, b)) => {
            let head = plain(q.take(a)) + seq![SegmentView::Composed(q.subrange(a, b))];
            let tail = plain(q.skip(b));
            lemma_parts(q.take(a), SegmentView::Composed(q.subrange(a, b)), true);
            lemma_parts(q.take(a), SegmentView::Composed(q.subrange(a, b)), false);
            lemma_shown(all, head, tail, true);
            lemma_shown(all, head, tail, false);
            lemma_plain(q.skip(b), true);
            lemma_plain(q.skip(b), false);
            assert(all =~= head + caret + tail);
            assert(q.take(a) + q.subrange(a, b) =~= q.take(b));
            assert(marked_text(all, true) =~= q.subrange(a, b));
            assert(marked_text(all, false) =~= Seq::<char>::empty());
            lemma_caret(all, head, tail);
            head.len() as int
        },
        None => match s.selection {
            Some((a, b)) => {
                let c = s.cursor;
                let rest = SegmentView::Selected(q.subrange(c, b));
                let tail = seq![rest] + plain(q.skip(b));
                lemma_one_piece(rest, true);
                lemma_one_piece(rest, false);
                lemma_plain(q.skip(b), true);
                lemma_plain(q.skip(b), false);
                lemma_text_sum(seq![rest], plain(q.skip(b)), true);
                lemma_text_sum(seq![rest], plain(q.skip(b)), false);
                assert(q.subrange(c, b) + q.skip(b) =~= q.skip(c));
                assert(marked_text(tail, true) =~= Seq::<char>::empty());
                assert(marked_text(tail, false) =~= q.subrange(c, b));
                if c == a {
                    let head = plain(q.take(a));
                    lemma_plain(q.take(a), true);
                    lemma_plain(q.take(a), false);
                    assert(all =~= head + caret + tail);
                    lemma_shown(all, head, tail, true);
                    lemma_shown(all, head, tail, false);
                    assert(marked_text(all, true) =~= Seq::<char>::empty());
                    assert(marked_text(all, false) =~= q.subrange(a, b));
                    lemma_caret(all, head, tail);
                    head.len() as int
                } else {
                    let first = SegmentView::Selected(q.subrange(a, c));
                    let head = plain(q.take(a)) + seq![first];
                    lemma_parts(q.take(a), first, true);
                    lemma_parts(q.take(a), first, false);
                    assert(all =~= head + caret + tail);
                    lemma_shown(all, head, tail, true);
                    lemma_shown(all, head, tail, false);
                    assert(q.take(a) + q.subrange(a, c) =~= q.take(c));
                    assert(marked_text(all, true) =~= Seq::<char>::empty());
                    assert(marked_text(all, false) =~= q.subrange(a, b));
                    lemma_caret(all, head, tail);
                    head.len() as int
                }
            },
            None => {
                let head = plain(q.take(s.cursor));
                let tail = plain(q.skip(s.cursor));
                lemma_plain(q.take(s.cursor), true);
                lemma_plain(q.take(s.cursor), false);
                lemma_plain(q.skip(s.cursor), true);
                lemma_plain(q.skip(s.cursor), false);
                assert(all =~= head + caret + tail);
                lemma_shown(all, head, tail, true);
                lemma_shown(all, head, tail, false);
                assert(marked_text(all, true) =~= Seq::<char>::empty());
                assert(marked_text(all, false) =~= Seq::<char>::empty());
                lemma_caret(all, head, tail);
                head.len() as int
            },
        },
    }
}

proof fn lemma_parts(s: Seq<char>, p: SegmentView, composed: bool)
    requires
        !(p is Caret),
    ensures
        pieces_text(plain(s) + seq![p]) == s + piece_text(p),
        marked_text(plain(s) + seq![p], composed) == (match p {
            SegmentView::Composed(t) => if composed {
                t
            } else {
                Seq::empty()
            },
            SegmentView::Selected(t) => if composed {
                Seq::empty()
            } else {
                t
            },
            _ => Seq::empty(),
        }),
{
    lemma_plain(s, composed);
    lemma_one_piece(p, composed);
    lemma_text_sum(plain(s), seq![p], composed);
    assert(Seq::<char>::empty() + marked_text(seq![p], composed) =~= marked_text(
        seq![p],
        composed,
    ));
}

proof fn lemma_shown(
    all: Seq<SegmentView>,
    head: Seq<SegmentView>,
    tail: Seq<SegmentView>,
    composed: bool,
)
    ensures
        all == head + seq![SegmentView::Caret] + tail ==> marked_text(all, composed) == marked_text(
            head,
            composed,
        ) + marked_text(tail, composed),
{
    lemma_one_piece(SegmentView::Caret, composed);
    lemma_text_sum(head, seq![SegmentView::Caret], composed);
    lemma_text_sum(head + seq![SegmentView::Caret], tail, composed);
    assert(marked_text(head, composed) + Seq::<char>::empty() =~= marked_text(head, composed));
}

proof fn lemma_caret(all: Seq<SegmentView>, head: Seq<SegmentView>, tail: Seq<SegmentView>)
    requires
        all == head + seq![SegmentView::Caret] + tail,
        forall|i: int| 0 <= i < head.len() ==> !((#[trigger] head[i]) is Caret),
        forall|i: int| 0 <= i < tail.len() ==> !((#[trigger] tail[i]) is Caret),
    ensures
        caret_between(all, head.len() as int, pieces_text(head), pieces_text(tail)),
{
    let n = head.len() as int;
    assert(all.take(n) =~= head);
    assert(all.skip(n + 1) =~= tail);
    assert forall|i: int| 0 <= i < all.len() && (#[trigger] all[i]) is Caret implies i == n by {
        if i < n {
            assert(all[i] == head[i]);
        } else if i > n {
            assert(all[i] == tail[i - n - 1]);
        }
    }
}

/// The platform is told where a character is by the UTF-16 units before it: two for each
/// character beyond the basic plane, one for any other. What is beyond the query is at its
/// end.
pub proof fn characters_are_placed_by_their_units(q: Seq<char>, i: int)
    requires
        0 <= i,
    ensures
        offset_of(q, 0) == 0,
        i < q.len() ==> offset_of(q, i + 1) == offset_of(q, i) + (if q[i] as u32 >= 0x10000 {
            2int
        } else {
            1
        }),
        i >= q.len() ==> offset_of(q, i) == offset_of(q, q.len() as int),
{
    assert(q.take(0) =~= Seq::<char>::empty());
    lemma_empty_units(q.take(0));
    if i < q.len() {
        lemma_step(q, i);
        assert(q.take(i + 1).drop_last() =~= q.take(i));
    }
}

} // verus!
