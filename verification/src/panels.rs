//! The state of the interactive panes: the text with its word cursor,
//! the properties of the current word, the log, the menu and the status
//! line. Drawing them and reading keys is the caller's.

use vstd::prelude::*;

use crate::dictionary::{cleaned_words, strip_unkept, strip_word};
use crate::feature_map::FeatureMap;
use crate::keys::Key;
use crate::text::{
    byte_len, chars_of, decimal, is_white_space, is_ws, lemma_utf8_len_push, push_decimal, str_eq,
    string_of_range, utf8_len, utf8_width,
};

verus! {

/// Actions that panes can trigger.
#[derive(Debug, Clone, PartialEq)]
pub enum Action {
    Nothing,
    Quit,
    Save,
    OpenFile,
    SwitchLanguage(String),
    EditWord { word_index: usize },
    SwitchFocus(usize),
    Help,
}

// ---------------------------------------------------------------------
// Words of a text.
// ---------------------------------------------------------------------

/// The character ranges of the words of `s` (its maximal runs of
/// characters that are not white space), scanning from index `i` where
/// the current word began at `start` (`start == i` when none has).
pub open spec fn spans_from(s: Seq<char>, i: int, start: int) -> Seq<(int, int)>
    decreases s.len() - i,
{
    if i >= s.len() {
        if start < i {
            seq![(start, i)]
        } else {
            Seq::empty()
        }
    } else if is_ws(s[i]) {
        (if start < i {
            seq![(start, i)]
        } else {
            Seq::<(int, int)>::empty()
        }) + spans_from(s, i + 1, i + 1)
    } else {
        spans_from(s, i + 1, start)
    }
}

/// The character ranges of the words of `s`, in order
/// (the words of `str::split_whitespace`).
pub open spec fn word_ranges(s: Seq<char>) -> Seq<(int, int)> {
    spans_from(s, 0, 0)
}

/// A word of the text and where its bytes lie.
struct WordSpan {
    word: String,
    start_byte: usize,
    end_byte: usize,
}

/// The span of the word at character range `r` of `s`: its characters,
/// and its byte offsets in the UTF-8 encoding of `s`.
pub open spec fn span_matches(s: Seq<char>, r: (int, int), word: Seq<char>, start: int, end: int) -> bool {
    &&& 0 <= r.0 < r.1 <= s.len()
    &&& word == s.subrange(r.0, r.1)
    &&& start == utf8_len(s.take(r.0))
    &&& end == utf8_len(s.take(r.1))
}

spec fn spans_match(s: Seq<char>, spans: Seq<WordSpan>, ranges: Seq<(int, int)>) -> bool {
    &&& spans.len() == ranges.len()
    &&& forall|k: int|
        0 <= k < spans.len() ==> span_matches(
            s,
            #[trigger] ranges[k],
            spans[k].word@,
            spans[k].start_byte as int,
            spans[k].end_byte as int,
        )
}

/// The ranges among `rs` whose characters in `s` do not clean to
/// nothing, in order.
pub open spec fn kept_ranges(s: Seq<char>, rs: Seq<(int, int)>) -> Seq<(int, int)>
    decreases rs.len(),
{
    if rs.len() == 0 {
        Seq::empty()
    } else if strip_unkept(s.subrange(rs.last().0, rs.last().1)).len() > 0 {
        kept_ranges(s, rs.drop_last()).push(rs.last())
    } else {
        kept_ranges(s, rs.drop_last())
    }
}

/// The pane's word at token range `r` of `s`: the token cleaned, with the
/// byte offsets of the token in the UTF-8 encoding of `s`.
pub open spec fn pane_span_matches(s: Seq<char>, r: (int, int), word: Seq<char>, start: int, end: int) -> bool {
    &&& 0 <= r.0 < r.1 <= s.len()
    &&& word == strip_unkept(s.subrange(r.0, r.1))
    &&& start == utf8_len(s.take(r.0))
    &&& end == utf8_len(s.take(r.1))
}

spec fn pane_spans_match(s: Seq<char>, spans: Seq<WordSpan>, ranges: Seq<(int, int)>) -> bool {
    &&& spans.len() == ranges.len()
    &&& forall|k: int|
        0 <= k < spans.len() ==> pane_span_matches(
            s,
            #[trigger] ranges[k],
            spans[k].word@,
            spans[k].start_byte as int,
            spans[k].end_byte as int,
        )
}

proof fn lemma_kept_words(s: Seq<char>, rs: Seq<(int, int)>)
    ensures
        kept_ranges(s, rs).map_values(|r: (int, int)| strip_unkept(s.subrange(r.0, r.1)))
            == cleaned_words(rs.map_values(|r: (int, int)| s.subrange(r.0, r.1))),
    decreases rs.len(),
{
    if rs.len() > 0 {
        lemma_kept_words(s, rs.drop_last());
        let ws = rs.map_values(|r: (int, int)| s.subrange(r.0, r.1));
        assert(ws.drop_last() =~= rs.drop_last().map_values(|r: (int, int)| s.subrange(r.0, r.1)));
        assert(ws.last() == s.subrange(rs.last().0, rs.last().1));
        let k = kept_ranges(s, rs.drop_last());
        if strip_unkept(s.subrange(rs.last().0, rs.last().1)).len() > 0 {
            assert(k.push(rs.last()).map_values(|r: (int, int)| strip_unkept(s.subrange(r.0, r.1)))
                =~= k.map_values(|r: (int, int)| strip_unkept(s.subrange(r.0, r.1))).push(
                strip_unkept(s.subrange(rs.last().0, rs.last().1)),
            ));
        }
    }
}

proof fn lemma_utf8_len_mono(s: Seq<char>, i: int, j: int)
    requires
        0 <= i <= j <= s.len(),
    ensures
        utf8_len(s.take(i)) <= utf8_len(s.take(j)),
    decreases j - i,
{
    if i < j {
        lemma_utf8_len_mono(s, i, j - 1);
        assert(s.take(j) =~= s.take(j - 1).push(s[j - 1]));
        lemma_utf8_len_push(s.take(j - 1), s[j - 1]);
    }
}

/// The words of `text` with their byte offsets.
fn parse_words(text: &str) -> (words: Vec<WordSpan>)
    ensures
        spans_match(text@, words@, word_ranges(text@)),
{
    let total_bytes = byte_len(text);
    let v = chars_of(text);
    let ghost s = v@;
    let n = v.len();
    let mut words: Vec<WordSpan> = Vec::new();
    let mut i: usize = 0;
    let mut start: usize = 0;
    let mut byte_i: usize = 0;
    let mut byte_start: usize = 0;
    proof {
        assert(s.take(0) =~= Seq::<char>::empty());
        assert(words@ =~= Seq::<WordSpan>::empty());
        let e = Seq::<(int, int)>::empty();
        assert(word_ranges(s) =~= e + spans_from(s, 0, 0));
        assert(spans_match(s, words@, e));
        assert(forall|k: int| 0 <= k < e.len() ==> (#[trigger] e[k]).1 <= start);
    }
    while i < n
        invariant
            n == s.len(),
            v@ == s,
            s == text@,
            utf8_len(s) == total_bytes,
            start <= i <= n,
            byte_i == utf8_len(s.take(i as int)),
            byte_start == utf8_len(s.take(start as int)),
            forall|t: int| start <= t < i ==> !is_ws(#[trigger] s[t]),
            exists|done: Seq<(int, int)>|
                word_ranges(s) == done + spans_from(s, i as int, start as int) && spans_match(
                    s,
                    words@,
                    done,
                ) && forall|k: int| 0 <= k < done.len() ==> (#[trigger] done[k]).1 <= start,
        decreases n - i,
    {
        let c = v[i];
        let w = utf8_width(c);
        proof {
            assert(s.take(i + 1) =~= s.take(i as int).push(c));
            lemma_utf8_len_push(s.take(i as int), c);
            lemma_utf8_len_mono(s, i + 1, n as int);
            assert(s.take(n as int) =~= s);
        }
        let ghost done = choose|done: Seq<(int, int)>|
            word_ranges(s) == done + spans_from(s, i as int, start as int) && spans_match(
                s,
                words@,
                done,
            ) && forall|k: int| 0 <= k < done.len() ==> (#[trigger] done[k]).1 <= start;
        if is_white_space(c) {
            let ghost new_done = if start < i {
                done.push((start as int, i as int))
            } else {
                done
            };
            if start < i {
                let word = string_of_range(&v, start, i);
                let ghost before = words@;
                words.push(WordSpan { word, start_byte: byte_start, end_byte: byte_i });
                proof {
                    assert(words@ == before.push(words@.last()));
                    assert forall|k: int| 0 <= k < words@.len() implies span_matches(
                        s,
                        #[trigger] new_done[k],
                        words@[k].word@,
                        words@[k].start_byte as int,
                        words@[k].end_byte as int,
                    ) by {
                        if k < before.len() {
                            assert(new_done[k] == done[k]);
                            assert(words@[k] == before[k]);
                        }
                    }
                }
            }
            proof {
                assert(word_ranges(s) =~= new_done + spans_from(s, i + 1, i + 1));
                assert(spans_match(s, words@, new_done));
                assert forall|k: int| 0 <= k < new_done.len() implies (#[trigger] new_done[k]).1
                    <= i + 1 by {
                    if k < done.len() {
                        assert(new_done[k] == done[k]);
                    }
                }
            }
            start = i + 1;
            byte_start = byte_i + w;
        } else {
            proof {
                assert(word_ranges(s) == done + spans_from(s, i + 1, start as int));
            }
        }
        byte_i = byte_i + w;
        i = i + 1;
    }
    let ghost done = choose|done: Seq<(int, int)>|
        word_ranges(s) == done + spans_from(s, i as int, start as int) && spans_match(
            s,
            words@,
            done,
        ) && forall|k: int| 0 <= k < done.len() ==> (#[trigger] done[k]).1 <= start;
    if start < i {
        let word = string_of_range(&v, start, i);
        let ghost before = words@;
        let ghost new_done = done.push((start as int, i as int));
        words.push(WordSpan { word, start_byte: byte_start, end_byte: byte_i });
        proof {
            assert(word_ranges(s) =~= new_done);
            assert forall|k: int| 0 <= k < words@.len() implies span_matches(
                s,
                #[trigger] new_done[k],
                words@[k].word@,
                words@[k].start_byte as int,
                words@[k].end_byte as int,
            ) by {
                if k < before.len() {
                    assert(new_done[k] == done[k]);
                    assert(words@[k] == before[k]);
                }
            }
        }
    } else {
        proof {
            assert(word_ranges(s) =~= done);
        }
    }
    words
}

/// The words of `s`: its maximal runs of characters that are not white
/// space, in order.
pub open spec fn ws_words(s: Seq<char>) -> Seq<Seq<char>> {
    word_ranges(s).map_values(|r: (int, int)| s.subrange(r.0, r.1))
}

/// The words of `text` (`str::split_whitespace`).
pub fn split_whitespace(text: &str) -> (words: Vec<String>)
    ensures
        words@.map_values(|w: String| w@) == ws_words(text@),
{
    let spans = parse_words(text);
    let mut words: Vec<String> = Vec::new();
    let mut i: usize = 0;
    while i < spans.len()
        invariant
            i <= spans@.len(),
            spans_match(text@, spans@, word_ranges(text@)),
            words@.map_values(|w: String| w@) == ws_words(text@).take(i as int),
        decreases spans@.len() - i,
    {
        proof {
            assert(span_matches(
                text@,
                word_ranges(text@)[i as int],
                spans@[i as int].word@,
                spans@[i as int].start_byte as int,
                spans@[i as int].end_byte as int,
            ));
            assert(ws_words(text@)[i as int] == spans@[i as int].word@);
        }
        let ghost before = words@;
        let w = spans[i].word.clone();
        words.push(w);
        proof {
            assert(words@.map_values(|w: String| w@) =~= before.map_values(|w: String| w@).push(
                w@,
            ));
            assert(ws_words(text@).take(i + 1) =~= ws_words(text@).take(i as int).push(
                ws_words(text@)[i as int],
            ));
            assert(words@.map_values(|w: String| w@) =~= ws_words(text@).take(i + 1));
        }
        i = i + 1;
    }
    proof {
        assert(ws_words(text@).take(spans@.len() as int) =~= ws_words(text@));
    }
    words
}

// ---------------------------------------------------------------------
// The text pane.
// ---------------------------------------------------------------------

/// The number of words a line move skips.
pub const LINE_WIDTH: usize = 20;

/// Where a cursor at `cur` among `n` words goes when moved `delta`
/// words: there, if that is a word, else nowhere.
pub open spec fn moved_by_words(n: int, cur: int, delta: int) -> int {
    if 0 <= cur + delta < n {
        cur + delta
    } else {
        cur
    }
}

/// Where a cursor at `cur` among `n` words goes when moved `delta`
/// lines: a move past either end stops at that end.
pub open spec fn moved_by_lines(n: int, cur: int, delta: int) -> int {
    let target = cur + delta * LINE_WIDTH;
    if 0 <= target < n {
        target
    } else if target < 0 {
        0
    } else if n > 0 {
        n - 1
    } else {
        0
    }
}

/// Where `key` moves a cursor at `cur` among `n` words: right, `l` and
/// `w` one word on; left, `h` and `b` one word back; down and `j` one
/// line on; up and `k` one line back; `0` and `g` to the first word; `$`
/// and `G` to the last. Other keys leave it.
pub open spec fn cursor_after_key(n: int, cur: int, key: Key) -> int {
    match key {
        Key::Right | Key::Char('l') | Key::Char('w') => moved_by_words(n, cur, 1),
        Key::Left | Key::Char('h') | Key::Char('b') => moved_by_words(n, cur, -1),
        Key::Down | Key::Char('j') => moved_by_lines(n, cur, 1),
        Key::Up | Key::Char('k') => moved_by_lines(n, cur, -1),
        Key::Char('0') | Key::Char('g') => 0,
        Key::Char('$') | Key::Char('G') => if n > 0 {
            n - 1
        } else {
            cur
        },
        _ => cur,
    }
}

/// A move one word on and one word back (or back, then on) returns the
/// cursor to where it was, whenever the first move stays in the text.
pub proof fn law_word_moves_undo(n: int, cur: int)
    requires
        0 <= cur < n,
    ensures
        cur + 1 < n ==> moved_by_words(n, moved_by_words(n, cur, 1), -1) == cur,
        0 < cur ==> moved_by_words(n, moved_by_words(n, cur, -1), 1) == cur,
        moved_by_words(n, cur, 1) == cur <==> cur + 1 == n,
{
}

/// The main text display with word-by-word cursor navigation.
pub struct TextPane {
    text: String,
    words: Vec<WordSpan>,
    cursor_word_index: usize,
    scroll_offset: usize,
}

impl TextPane {
    /// The words of the text, in order.
    pub closed spec fn spec_words(&self) -> Seq<Seq<char>> {
        self.words@.map_values(|w: WordSpan| w.word@)
    }

    /// The index of the word under the cursor.
    pub closed spec fn spec_cursor(&self) -> int {
        self.cursor_word_index as int
    }

    /// The text shown.
    pub closed spec fn spec_text(&self) -> Seq<char> {
        self.text@
    }

    /// The first word of the text in view.
    pub closed spec fn spec_scroll_offset(&self) -> int {
        self.scroll_offset as int
    }

    /// The cursor is on a word, or at 0 when there is none; the words are
    /// the text's tokens cleaned, those that clean to nothing left out,
    /// each with the byte offsets of its token.
    #[verifier::type_invariant]
    pub closed spec fn wf(&self) -> bool {
        &&& (self.words@.len() == 0 ==> self.cursor_word_index == 0)
        &&& (self.words@.len() > 0 ==> self.cursor_word_index < self.words@.len())
        &&& pane_spans_match(
            self.text@,
            self.words@,
            kept_ranges(self.text@, word_ranges(self.text@)),
        )
    }

    /// An empty pane.
    pub fn new() -> (p: TextPane)
        ensures
            p.wf(),
            p.spec_text() == Seq::<char>::empty(),
            p.spec_words() == Seq::<Seq<char>>::empty(),
            p.spec_cursor() == 0,
            p.spec_scroll_offset() == 0,
    {
        let p = TextPane { text: String::new(), words: Vec::new(), cursor_word_index: 0, scroll_offset: 0 };
        proof {
            assert(p.words@.map_values(|w: WordSpan| w.word@) =~= Seq::<Seq<char>>::empty());
            assert(word_ranges(Seq::<char>::empty()) =~= Seq::<(int, int)>::empty());
            assert(kept_ranges(Seq::<char>::empty(), Seq::<(int, int)>::empty())
                =~= Seq::<(int, int)>::empty());
        }
        p
    }

    /// Shows `text`, with the cursor on its first word and the view at its
    /// start. The words are the white-space-separated tokens of the text,
    /// each without the characters at either end that are neither
    /// alphanumeric nor `-`; tokens that clean to nothing are left out.
    pub fn set_text(&mut self, text: &str)
        ensures
            final(self).wf(),
            final(self).spec_text() == text@,
            final(self).spec_words() == cleaned_words(ws_words(text@)),
            final(self).spec_cursor() == 0,
            final(self).spec_scroll_offset() == 0,
    {
        let raw = parse_words(text);
        let ghost s = text@;
        let ghost rs = word_ranges(s);
        let mut words: Vec<WordSpan> = Vec::new();
        let mut i: usize = 0;
        proof {
            assert(rs.take(0) =~= Seq::<(int, int)>::empty());
        }
        while i < raw.len()
            invariant
                i <= raw@.len(),
                s == text@,
                rs == word_ranges(s),
                spans_match(s, raw@, rs),
                pane_spans_match(s, words@, kept_ranges(s, rs.take(i as int))),
            decreases raw@.len() - i,
        {
            proof {
                assert(rs.take(i + 1).drop_last() =~= rs.take(i as int));
                assert(rs.take(i + 1).last() == rs[i as int]);
                assert(span_matches(
                    s,
                    rs[i as int],
                    raw@[i as int].word@,
                    raw@[i as int].start_byte as int,
                    raw@[i as int].end_byte as int,
                ));
            }
            let cleaned = strip_word(raw[i].word.as_str());
            proof {
                assert(cleaned@ == strip_unkept(s.subrange(rs[i as int].0, rs[i as int].1)));
            }
            if !cleaned.as_str().is_empty() {
                let ghost before = words@;
                let ghost kb = kept_ranges(s, rs.take(i as int));
                words.push(
                    WordSpan { word: cleaned, start_byte: raw[i].start_byte, end_byte: raw[i].end_byte },
                );
                proof {
                    let ka = kept_ranges(s, rs.take(i + 1));
                    assert(ka == kb.push(rs[i as int]));
                    assert forall|k: int| 0 <= k < words@.len() implies pane_span_matches(
                        s,
                        #[trigger] ka[k],
                        words@[k].word@,
                        words@[k].start_byte as int,
                        words@[k].end_byte as int,
                    ) by {
                        if k < before.len() {
                            assert(ka[k] == kb[k]);
                            assert(words@[k] == before[k]);
                        }
                    }
                }
            } else {
                proof {
                    assert(kept_ranges(s, rs.take(i + 1)) == kept_ranges(s, rs.take(i as int)));
                }
            }
            i = i + 1;
        }
        proof {
            assert(rs.take(raw@.len() as int) =~= rs);
            lemma_kept_words(s, rs);
            let kr = kept_ranges(s, rs);
            assert(words@.map_values(|w: WordSpan| w.word@) =~= kr.map_values(
                |r: (int, int)| strip_unkept(s.subrange(r.0, r.1)),
            )) by {
                assert forall|k: int| 0 <= k < words@.len() implies #[trigger] words@[k].word@
                    == strip_unkept(s.subrange(kr[k].0, kr[k].1)) by {
                    assert(pane_span_matches(
                        s,
                        kr[k],
                        words@[k].word@,
                        words@[k].start_byte as int,
                        words@[k].end_byte as int,
                    ));
                }
            }
        }
        *self = TextPane { text: String::from_str(text), words, cursor_word_index: 0, scroll_offset: 0 };
    }

    /// The word under the cursor, if the text has any word.
    pub fn current_word(&self) -> (w: Option<&str>)
        ensures
            self.spec_words().len() == 0 ==> w is None,
            self.spec_words().len() > 0 ==> (w matches Some(s) && s@ == self.spec_words()[self.spec_cursor()]),
    {
        proof {
            use_type_invariant(self);
        }
        if self.cursor_word_index < self.words.len() {
            Some(self.words[self.cursor_word_index].word.as_str())
        } else {
            None
        }
    }

    /// The index of the word under the cursor: always a word of the text,
    /// or 0 when it has none.
    pub fn cursor_word_index(&self) -> (i: usize)
        ensures
            i == self.spec_cursor(),
            self.spec_words().len() > 0 ==> i < self.spec_words().len(),
            self.spec_words().len() == 0 ==> i == 0,
    {
        proof {
            use_type_invariant(self);
        }
        self.cursor_word_index
    }

    /// The number of words of the text.
    pub fn word_count(&self) -> (n: usize)
        ensures
            n == self.spec_words().len(),
    {
        self.words.len()
    }

    /// The word at index `i`, if there is one.
    pub fn word_at(&self, i: usize) -> (w: Option<&str>)
        ensures
            i < self.spec_words().len() ==> (w matches Some(s) && s@ == self.spec_words()[i as int]),
            i >= self.spec_words().len() ==> w is None,
    {
        if i < self.words.len() {
            Some(self.words[i].word.as_str())
        } else {
            None
        }
    }

    /// Moves the cursor `delta` words on, unless that leaves the text.
    pub fn move_cursor(&mut self, delta: isize)
        ensures
            final(self).wf(),
            final(self).spec_words() == old(self).spec_words(),
            final(self).spec_text() == old(self).spec_text(),
            final(self).spec_cursor() == moved_by_words(
                old(self).spec_words().len() as int,
                old(self).spec_cursor(),
                delta as int,
            ),
    {
        proof {
            use_type_invariant(&*self);
        }
        let target: i128 = self.cursor_word_index as i128 + delta as i128;
        if target >= 0 && target < self.words.len() as i128 {
            self.cursor_word_index = target as usize;
        }
    }

    /// Moves the cursor `delta` lines on, a line being [`LINE_WIDTH`]
    /// words; a move past either end stops at that end.
    pub fn move_to_line(&mut self, delta: isize)
        ensures
            final(self).wf(),
            final(self).spec_words() == old(self).spec_words(),
            final(self).spec_text() == old(self).spec_text(),
            final(self).spec_cursor() == moved_by_lines(
                old(self).spec_words().len() as int,
                old(self).spec_cursor(),
                delta as int,
            ),
    {
        proof {
            use_type_invariant(&*self);
        }
        let target: i128 = self.cursor_word_index as i128 + delta as i128 * LINE_WIDTH as i128;
        if target >= 0 && target < self.words.len() as i128 {
            self.cursor_word_index = target as usize;
        } else if target < 0 {
            self.cursor_word_index = 0;
        } else if self.words.len() > 0 {
            self.cursor_word_index = self.words.len() - 1;
        } else {
            self.cursor_word_index = 0;
        }
    }

    /// Moves the cursor to the first word.
    pub fn goto_start(&mut self)
        ensures
            final(self).wf(),
            final(self).spec_words() == old(self).spec_words(),
            final(self).spec_text() == old(self).spec_text(),
            final(self).spec_cursor() == 0,
    {
        proof {
            use_type_invariant(&*self);
        }
        self.cursor_word_index = 0;
    }

    /// Moves the cursor to the last word, if there is one.
    pub fn goto_end(&mut self)
        ensures
            final(self).wf(),
            final(self).spec_words() == old(self).spec_words(),
            final(self).spec_text() == old(self).spec_text(),
            final(self).spec_cursor() == if old(self).spec_words().len() > 0 {
                old(self).spec_words().len() - 1
            } else {
                old(self).spec_cursor()
            },
    {
        proof {
            use_type_invariant(&*self);
        }
        if self.words.len() > 0 {
            self.cursor_word_index = self.words.len() - 1;
        }
    }

    /// Moves the cursor as [`cursor_after_key`] says for `key`.
    pub fn handle_key(&mut self, key: Key) -> (a: Action)
        ensures
            final(self).wf(),
            final(self).spec_words() == old(self).spec_words(),
            final(self).spec_text() == old(self).spec_text(),
            final(self).spec_cursor() == cursor_after_key(
                old(self).spec_words().len() as int,
                old(self).spec_cursor(),
                key,
            ),
            a is Nothing,
    {
        proof {
            use_type_invariant(&*self);
        }
        match key {
            Key::Right | Key::Char('l') | Key::Char('w') => self.move_cursor(1),
            Key::Left | Key::Char('h') | Key::Char('b') => self.move_cursor(-1),
            Key::Down | Key::Char('j') => self.move_to_line(1),
            Key::Up | Key::Char('k') => self.move_to_line(-1),
            Key::Char('0') | Key::Char('g') => self.goto_start(),
            Key::Char('$') | Key::Char('G') => self.goto_end(),
            _ => {},
        }
        Action::Nothing
    }
}

// ---------------------------------------------------------------------
// The properties pane.
// ---------------------------------------------------------------------

/// The feature name under which the part of speech is shown.
pub open spec fn pos_key() -> Seq<char> {
    "Часть речи"@
}

/// The morphological properties of the word under the cursor.
pub struct PropsPane {
    word: String,
    lemma: String,
    upostag: String,
    features: FeatureMap,
}

impl PropsPane {
    pub closed spec fn spec_word(&self) -> Seq<char> {
        self.word@
    }

    pub closed spec fn spec_lemma(&self) -> Seq<char> {
        self.lemma@
    }

    pub closed spec fn spec_upostag(&self) -> Seq<char> {
        self.upostag@
    }

    pub closed spec fn spec_features(&self) -> Map<Seq<char>, Seq<char>> {
        self.features@
    }

    /// An empty pane.
    pub fn new() -> (p: PropsPane)
        ensures
            p.spec_word() == Seq::<char>::empty(),
            p.spec_lemma() == Seq::<char>::empty(),
            p.spec_upostag() == Seq::<char>::empty(),
            p.spec_features() == Map::<Seq<char>, Seq<char>>::empty(),
    {
        PropsPane {
            word: String::new(),
            lemma: String::new(),
            upostag: String::new(),
            features: FeatureMap::new(),
        }
    }

    /// Shows `word` with `lemma` and `features`; the part of speech is
    /// the feature named `Часть речи`, empty when there is none.
    pub fn update(&mut self, word: &str, lemma: &str, features: &FeatureMap)
        ensures
            final(self).spec_word() == word@,
            final(self).spec_lemma() == lemma@,
            final(self).spec_upostag() == if features@.contains_key(pos_key()) {
                features@[pos_key()]
            } else {
                Seq::<char>::empty()
            },
            final(self).spec_features() == features@,
    {
        self.word = String::from_str(word);
        self.lemma = String::from_str(lemma);
        self.upostag = match features.get("Часть речи") {
            Some(p) => p.clone(),
            None => String::new(),
        };
        self.features = features.duplicate();
    }

    /// Shows nothing.
    pub fn clear(&mut self)
        ensures
            final(self).spec_word() == Seq::<char>::empty(),
            final(self).spec_lemma() == Seq::<char>::empty(),
            final(self).spec_upostag() == Seq::<char>::empty(),
            final(self).spec_features() == Map::<Seq<char>, Seq<char>>::empty(),
    {
        self.word = String::new();
        self.lemma = String::new();
        self.upostag = String::new();
        self.features.clear();
    }

    /// The word shown (empty when none is).
    pub fn word(&self) -> (s: &str)
        ensures
            s@ == self.spec_word(),
    {
        self.word.as_str()
    }

    /// The lemma shown.
    pub fn lemma(&self) -> (s: &str)
        ensures
            s@ == self.spec_lemma(),
    {
        self.lemma.as_str()
    }

    /// The part of speech shown.
    pub fn upostag(&self) -> (s: &str)
        ensures
            s@ == self.spec_upostag(),
    {
        self.upostag.as_str()
    }

    /// The features shown.
    pub fn features(&self) -> (m: &FeatureMap)
        ensures
            m@ == self.spec_features(),
    {
        &self.features
    }

    /// Shows a dictionary entry: its form and lemma, and the features
    /// [`props_features`] gives for its part of speech and the names and
    /// aliases of its grammemes.
    pub fn show_entry(&mut self, entry: &crate::dictionary::DictEntry)
        ensures
            final(self).spec_word() == entry.form@,
            final(self).spec_lemma() == entry.lemma@,
            final(self).spec_features() == spec_props_features(
                entry@.pos,
                name_alias_pairs(entry@.grammemes),
            ),
            final(self).spec_upostag() == if final(self).spec_features().contains_key(pos_key()) {
                final(self).spec_features()[pos_key()]
            } else {
                Seq::<char>::empty()
            },
    {
        let ghost gv = crate::dictionary::grammeme_views(entry.grammemes@);
        let mut pairs: Vec<(String, String)> = Vec::new();
        let mut i: usize = 0;
        while i < entry.grammemes.len()
            invariant
                i <= entry.grammemes@.len(),
                gv == crate::dictionary::grammeme_views(entry.grammemes@),
                pairs@.map_values(|p: (String, String)| (p.0@, p.1@)) == name_alias_pairs(
                    gv.take(i as int),
                ),
            decreases entry.grammemes@.len() - i,
        {
            let g = &entry.grammemes[i];
            let ghost before = pairs@;
            pairs.push((g.name.clone(), g.alias.clone()));
            proof {
                assert(gv[i as int] == g@);
                assert(pairs@.map_values(|p: (String, String)| (p.0@, p.1@)) =~= before.map_values(
                    |p: (String, String)| (p.0@, p.1@),
                ).push((g.name@, g.alias@)));
                assert(name_alias_pairs(gv.take(i + 1)) =~= name_alias_pairs(gv.take(i as int)).push(
                    (gv[i as int].name, gv[i as int].alias),
                ));
            }
            i = i + 1;
        }
        proof {
            assert(gv.take(entry.grammemes@.len() as int) =~= gv);
        }
        let features = props_features(&entry.pos, &pairs);
        proof {
            assert(entry@.pos == match entry.pos {
                Some(p) => Some(p@),
                None => None::<Seq<char>>,
            });
        }
        self.update(entry.form.as_str(), entry.lemma.as_str(), &features);
    }

    /// `e` asks to edit the word shown (the caller fills in its index);
    /// other keys do nothing.
    pub fn handle_key(&self, key: Key) -> (a: Action)
        ensures
            key == Key::Char('e') ==> (a matches Action::EditWord { word_index } && word_index
                == 0),
            key != Key::Char('e') ==> a is Nothing,
    {
        if key == Key::Char('e') {
            Action::EditWord { word_index: 0 }
        } else {
            Action::Nothing
        }
    }
}

/// The (name, alias) pairs of grammemes.
pub open spec fn name_alias_pairs(gs: Seq<crate::dictionary::GrammemeView>) -> Seq<
    (Seq<char>, Seq<char>),
> {
    gs.map_values(|g: crate::dictionary::GrammemeView| (g.name, g.alias))
}

/// The features shown for a dictionary entry: `Часть речи` for the part
/// of speech when there is one, then each grammeme's name for its alias,
/// a later name overriding an earlier one.
pub open spec fn spec_props_features(pos: Option<Seq<char>>, gs: Seq<(Seq<char>, Seq<char>)>) -> Map<
    Seq<char>,
    Seq<char>,
>
    decreases gs.len(),
{
    if gs.len() == 0 {
        match pos {
            Some(p) => Map::<Seq<char>, Seq<char>>::empty().insert(pos_key(), p),
            None => Map::empty(),
        }
    } else {
        spec_props_features(pos, gs.drop_last()).insert(gs.last().0, gs.last().1)
    }
}

/// The features shown for an entry whose part of speech is `pos` and whose
/// grammemes are the `(name, alias)` pairs `grammemes`.
pub fn props_features(pos: &Option<String>, grammemes: &Vec<(String, String)>) -> (m: FeatureMap)
    ensures
        m@ == spec_props_features(
            match pos {
                Some(p) => Some(p@),
                None => None,
            },
            grammemes@.map_values(|g: (String, String)| (g.0@, g.1@)),
        ),
{
    let ghost pv = match pos {
        Some(p) => Some(p@),
        None => None::<Seq<char>>,
    };
    let ghost gv = grammemes@.map_values(|g: (String, String)| (g.0@, g.1@));
    let mut m = FeatureMap::new();
    match pos {
        Some(p) => {
            m.insert(String::from_str("Часть речи"), p.clone());
        },
        None => {},
    }
    proof {
        assert(m@ =~= spec_props_features(pv, gv.take(0)));
    }
    let mut i: usize = 0;
    while i < grammemes.len()
        invariant
            i <= grammemes@.len(),
            gv == grammemes@.map_values(|g: (String, String)| (g.0@, g.1@)),
            m@ == spec_props_features(pv, gv.take(i as int)),
        decreases grammemes@.len() - i,
    {
        proof {
            assert(gv.take(i + 1).drop_last() =~= gv.take(i as int));
            assert(gv.take(i + 1).last() == (grammemes@[i as int].0@, grammemes@[i as int].1@));
        }
        m.insert(grammemes[i].0.clone(), grammemes[i].1.clone());
        i = i + 1;
    }
    proof {
        assert(gv.take(grammemes@.len() as int) =~= gv);
    }
    m
}

/// The human-readable name of a part-of-speech tag (Universal
/// Dependencies or OpenCorpora); an unknown tag is shown as it is.
pub open spec fn spec_upostag_human(tag: Seq<char>) -> Seq<char> {
    if tag == "NOUN"@ { "Существительное"@ }
    else if tag == "VERB"@ { "Глагол"@ }
    else if tag == "ADJ"@ { "Прилагательное"@ }
    else if tag == "ADV"@ { "Наречие"@ }
    else if tag == "PRON"@ { "Местоимение"@ }
    else if tag == "DET"@ { "Определитель"@ }
    else if tag == "ADP"@ { "Предлог"@ }
    else if tag == "CONJ"@ { "Союз"@ }
    else if tag == "PART"@ { "Частица"@ }
    else if tag == "INTJ"@ { "Междометие"@ }
    else if tag == "NUM"@ { "Числительное"@ }
    else if tag == "NUMR"@ { "Числительное"@ }
    else if tag == "PROPN"@ { "Имя собственное"@ }
    else if tag == "PUNCT"@ { "Пунктуация"@ }
    else if tag == "SYM"@ { "Символ"@ }
    else if tag == "X"@ { "Другое"@ }
    else if tag == "ADJF"@ { "Прилагательное (полн.)"@ }
    else if tag == "ADJS"@ { "Прилагательное (кратк.)"@ }
    else if tag == "ADVB"@ { "Наречие"@ }
    else if tag == "COMP"@ { "Компаратив"@ }
    else if tag == "PRTF"@ { "Причастие (полн.)"@ }
    else if tag == "PRTS"@ { "Причастие (кратк.)"@ }
    else if tag == "GRND"@ { "Деепричастие"@ }
    else if tag == "INFN"@ { "Инфинитив"@ }
    else if tag == "PRED"@ { "Предикатив"@ }
    else if tag == "PREP"@ { "Предлог"@ }
    else if tag == "PRCL"@ { "Частица"@ }
    else if tag == "NPRO"@ { "Местоимение-сущ."@ }
    else { tag }
}

/// The human-readable name of a part-of-speech tag.
pub fn upostag_human(tag: &str) -> (s: String)
    ensures
        s@ == spec_upostag_human(tag@),
{
    if str_eq(tag, "NOUN") { String::from_str("Существительное") }
    else if str_eq(tag, "VERB") { String::from_str("Глагол") }
    else if str_eq(tag, "ADJ") { String::from_str("Прилагательное") }
    else if str_eq(tag, "ADV") { String::from_str("Наречие") }
    else if str_eq(tag, "PRON") { String::from_str("Местоимение") }
    else if str_eq(tag, "DET") { String::from_str("Определитель") }
    else if str_eq(tag, "ADP") { String::from_str("Предлог") }
    else if str_eq(tag, "CONJ") { String::from_str("Союз") }
    else if str_eq(tag, "PART") { String::from_str("Частица") }
    else if str_eq(tag, "INTJ") { String::from_str("Междометие") }
    else if str_eq(tag, "NUM") { String::from_str("Числительное") }
    else if str_eq(tag, "NUMR") { String::from_str("Числительное") }
    else if str_eq(tag, "PROPN") { String::from_str("Имя собственное") }
    else if str_eq(tag, "PUNCT") { String::from_str("Пунктуация") }
    else if str_eq(tag, "SYM") { String::from_str("Символ") }
    else if str_eq(tag, "X") { String::from_str("Другое") }
    else if str_eq(tag, "ADJF") { String::from_str("Прилагательное (полн.)") }
    else if str_eq(tag, "ADJS") { String::from_str("Прилагательное (кратк.)") }
    else if str_eq(tag, "ADVB") { String::from_str("Наречие") }
    else if str_eq(tag, "COMP") { String::from_str("Компаратив") }
    else if str_eq(tag, "PRTF") { String::from_str("Причастие (полн.)") }
    else if str_eq(tag, "PRTS") { String::from_str("Причастие (кратк.)") }
    else if str_eq(tag, "GRND") { String::from_str("Деепричастие") }
    else if str_eq(tag, "INFN") { String::from_str("Инфинитив") }
    else if str_eq(tag, "PRED") { String::from_str("Предикатив") }
    else if str_eq(tag, "PREP") { String::from_str("Предлог") }
    else if str_eq(tag, "PRCL") { String::from_str("Частица") }
    else if str_eq(tag, "NPRO") { String::from_str("Местоимение-сущ.") }
    else { String::from_str(tag) }
}

// ---------------------------------------------------------------------
// Menu and status line.
// ---------------------------------------------------------------------

/// The menu bar: open or closed.
pub struct MenuBar {
    active: bool,
}

impl MenuBar {
    pub closed spec fn spec_active(&self) -> bool {
        self.active
    }

    /// A closed menu.
    pub fn new() -> (m: MenuBar)
        ensures
            !m.spec_active(),
    {
        MenuBar { active: false }
    }

    /// Opens a closed menu, closes an open one.
    pub fn toggle(&mut self)
        ensures
            final(self).spec_active() == !old(self).spec_active(),
    {
        self.active = !self.active;
    }

    /// Whether the menu is open.
    pub fn is_active(&self) -> (b: bool)
        ensures
            b == self.spec_active(),
    {
        self.active
    }

    /// F10 and `m` open or close the menu; other keys do nothing.
    pub fn handle_key(&mut self, key: Key) -> (a: Action)
        ensures
            final(self).spec_active() == if key == Key::F(10) || key == Key::Char('m') {
                !old(self).spec_active()
            } else {
                old(self).spec_active()
            },
            a is Nothing,
    {
        if key == Key::F(10) || key == Key::Char('m') {
            self.toggle();
        }
        Action::Nothing
    }
}

/// The status line: file, position, language and whether there are
/// unsaved changes.
pub struct StatusBar {
    filename: String,
    line: usize,
    col: usize,
    language: String,
    dirty: bool,
}

/// The text of the status line.
pub open spec fn spec_status_text(
    filename: Seq<char>,
    line: nat,
    col: nat,
    language: Seq<char>,
    dirty: bool,
) -> Seq<char> {
    " "@ + (if filename.len() == 0 {
        "(no file)"@
    } else {
        filename
    }) + " | Ln "@ + decimal(line) + ", Col "@ + decimal(col) + " | "@ + language + " "@ + (if dirty {
        " *"@
    } else {
        ""@
    })
}

impl StatusBar {
    pub closed spec fn spec_filename(&self) -> Seq<char> {
        self.filename@
    }

    pub closed spec fn spec_line(&self) -> usize {
        self.line
    }

    pub closed spec fn spec_col(&self) -> usize {
        self.col
    }

    pub closed spec fn spec_language(&self) -> Seq<char> {
        self.language@
    }

    pub closed spec fn spec_dirty(&self) -> bool {
        self.dirty
    }

    /// No file, line 1, column 1, language `RU`, nothing unsaved.
    pub fn new() -> (s: StatusBar)
        ensures
            s.spec_filename() == Seq::<char>::empty(),
            s.spec_line() == 1,
            s.spec_col() == 1,
            s.spec_language() == "RU"@,
            !s.spec_dirty(),
    {
        StatusBar {
            filename: String::new(),
            line: 1,
            col: 1,
            language: String::from_str("RU"),
            dirty: false,
        }
    }

    /// Sets every field.
    pub fn update(&mut self, filename: &str, line: usize, col: usize, language: &str, dirty: bool)
        ensures
            final(self).spec_filename() == filename@,
            final(self).spec_line() == line,
            final(self).spec_col() == col,
            final(self).spec_language() == language@,
            final(self).spec_dirty() == dirty,
    {
        self.filename = String::from_str(filename);
        self.line = line;
        self.col = col;
        self.language = String::from_str(language);
        self.dirty = dirty;
    }

    /// The text of the status line:
    /// ` file | Ln 42, Col 7 | RU  *`.
    pub fn status_text(&self) -> (s: String)
        ensures
            s@ == spec_status_text(
                self.spec_filename(),
                self.spec_line() as nat,
                self.spec_col() as nat,
                self.spec_language(),
                self.spec_dirty(),
            ),
    {
        let mut s = String::from_str(" ");
        if self.filename.as_str().is_empty() {
            s.append("(no file)");
        } else {
            s.append(self.filename.as_str());
        }
        s.append(" | Ln ");
        push_decimal(&mut s, self.line);
        s.append(", Col ");
        push_decimal(&mut s, self.col);
        s.append(" | ");
        s.append(self.language.as_str());
        s.append(" ");
        if self.dirty {
            s.append(" *");
        } else {
            s.append("");
        }
        proof {
            assert(s@ =~= spec_status_text(
                self.filename@,
                self.line as nat,
                self.col as nat,
                self.language@,
                self.dirty,
            ));
        }
        s
    }
}

// ---------------------------------------------------------------------
// Prefetching.
// ---------------------------------------------------------------------

/// The indices `lo..hi` without `skip`, in order.
pub open spec fn indices_between(lo: int, hi: int, skip: int) -> Seq<int>
    decreases hi - lo,
{
    if lo >= hi {
        Seq::empty()
    } else if lo == skip {
        indices_between(lo + 1, hi, skip)
    } else {
        seq![lo] + indices_between(lo + 1, hi, skip)
    }
}

/// The word indices to look up ahead of time around the cursor: every
/// word but the cursor's when `count` is negative, else the words at most
/// `count` away from the cursor on either side.
pub open spec fn spec_prefetch_indices(total: int, cursor: int, count: int) -> Seq<int> {
    if count < 0 {
        indices_between(0, total, cursor)
    } else {
        let lo = if cursor >= count {
            cursor - count
        } else {
            0
        };
        let hi = if cursor + 1 + count <= total {
            cursor + 1 + count
        } else {
            total
        };
        indices_between(lo, hi, cursor)
    }
}

proof fn lemma_indices_between(lo: int, hi: int, skip: int)
    ensures
        forall|i: int| indices_between(lo, hi, skip).contains(i) <==> lo <= i < hi && i != skip,
        forall|a: int, b: int|
            0 <= a < b < indices_between(lo, hi, skip).len() ==> indices_between(lo, hi, skip)[a]
                < indices_between(lo, hi, skip)[b],
        forall|a: int|
            0 <= a < indices_between(lo, hi, skip).len() ==> lo <= indices_between(lo, hi, skip)[a],
    decreases hi - lo,
{
    if lo < hi {
        lemma_indices_between(lo + 1, hi, skip);
        let rest = indices_between(lo + 1, hi, skip);
        if lo != skip {
            let all = seq![lo] + rest;
            assert forall|i: int| all.contains(i) <==> lo <= i < hi && i != skip by {
                assert(all[0] == lo);
                if all.contains(i) {
                    let k = choose|k: int| 0 <= k < all.len() && all[k] == i;
                    if k > 0 {
                        assert(rest[k - 1] == i);
                        assert(rest.contains(i));
                    }
                }
                if lo + 1 <= i < hi && i != skip {
                    assert(rest.contains(i));
                    let k = choose|k: int| 0 <= k < rest.len() && rest[k] == i;
                    assert(all[k + 1] == i);
                }
            }
            assert forall|a: int, b: int| 0 <= a < b < all.len() implies all[a] < all[b] by {
                if a > 0 {
                    assert(all[a] == rest[a - 1]);
                }
                assert(all[b] == rest[b - 1]);
            }
        }
    }
}

/// The prefetch window is what the `--prefetch` option promises: with a
/// negative count, every word of the text but the cursor's; otherwise the
/// words at most `count` away from the cursor on either side, the
/// cursor's left out. Each index comes once, in increasing order.
pub proof fn law_prefetch_window(total: int, cursor: int, count: int)
    requires
        0 <= cursor,
    ensures
        forall|i: int|
            spec_prefetch_indices(total, cursor, count).contains(i) <==> (0 <= i < total && i
                != cursor && (count < 0 || (cursor - count <= i <= cursor + count))),
        forall|a: int, b: int|
            0 <= a < b < spec_prefetch_indices(total, cursor, count).len()
                ==> spec_prefetch_indices(total, cursor, count)[a] < spec_prefetch_indices(
                total,
                cursor,
                count,
            )[b],
{
    if count < 0 {
        lemma_indices_between(0, total, cursor);
    } else {
        let lo = if cursor >= count {
            cursor - count
        } else {
            0
        };
        let hi = if cursor + 1 + count <= total {
            cursor + 1 + count
        } else {
            total
        };
        lemma_indices_between(lo, hi, cursor);
    }
}

/// Whether a background prefetch starts: there is a dictionary, the
/// prefetch count is not 0, and no prefetch is running.
pub fn prefetch_wanted(has_dictionary: bool, count: isize, pending: bool) -> (b: bool)
    ensures
        b == (has_dictionary && count != 0 && !pending),
{
    has_dictionary && count != 0 && !pending
}

/// The word indices to look up ahead of time around the cursor.
pub fn prefetch_indices(total: usize, cursor: usize, count: isize) -> (v: Vec<usize>)
    requires
        count >= 0 ==> cursor + 1 + count <= usize::MAX,
    ensures
        v@.map_values(|i: usize| i as int) == spec_prefetch_indices(
            total as int,
            cursor as int,
            count as int,
        ),
{
    let (lo, hi) = if count < 0 {
        (0, total)
    } else {
        let n = count as usize;
        let lo = if cursor >= n {
            cursor - n
        } else {
            0
        };
        let right = cursor + 1 + n;
        let hi = if right <= total {
            right
        } else {
            total
        };
        (lo, hi)
    };
    let ghost want = indices_between(lo as int, hi as int, cursor as int);
    let mut v: Vec<usize> = Vec::new();
    let mut i = lo;
    proof {
        assert(v@.map_values(|i: usize| i as int) =~= Seq::<int>::empty());
    }
    while i < hi
        invariant
            lo <= i,
            i <= hi || lo >= hi,
            want == indices_between(lo as int, hi as int, cursor as int),
            want == v@.map_values(|i: usize| i as int) + indices_between(
                i as int,
                hi as int,
                cursor as int,
            ),
        decreases hi - i,
    {
        let ghost before = v@.map_values(|i: usize| i as int);
        if i != cursor {
            v.push(i);
            proof {
                assert(v@.map_values(|i: usize| i as int) =~= before + seq![i as int]);
            }
        }
        i = i + 1;
    }
    v
}

// ---------------------------------------------------------------------
// The log pane.
// ---------------------------------------------------------------------

/// The most lines the log keeps.
pub const MAX_MESSAGES: usize = 200;

/// The number of lines the log shows at once.
pub const VISIBLE_LINES: usize = 4;

/// The most bytes the line being accumulated holds before it is flushed.
pub const MAX_LINE_BYTES: usize = 80;

/// The last [`MAX_MESSAGES`] lines of `ms`.
pub open spec fn keep_recent(ms: Seq<Seq<char>>) -> Seq<Seq<char>> {
    if ms.len() > MAX_MESSAGES {
        ms.skip(ms.len() - MAX_MESSAGES)
    } else {
        ms
    }
}

/// The scroll position that shows the last lines of `n` lines.
pub open spec fn bottom_scroll(n: int) -> int {
    if n > VISIBLE_LINES {
        n - VISIBLE_LINES
    } else {
        0
    }
}

/// The content of a log: its lines, the line being accumulated, and the
/// scroll position.
pub struct LogState {
    pub messages: Seq<Seq<char>>,
    pub current: Seq<char>,
    pub scroll: int,
}

/// The log scrolled one line up, stopping at the first.
pub open spec fn scrolled_up(st: LogState) -> LogState {
    LogState {
        scroll: if st.scroll > 0 {
            st.scroll - 1
        } else {
            0
        },
        ..st
    }
}

/// The log scrolled one line down, as far as the last screenful of
/// completed lines.
pub open spec fn scrolled_down(st: LogState) -> LogState {
    LogState {
        scroll: if st.scroll < bottom_scroll(st.messages.len() as int) {
            st.scroll + 1
        } else {
            st.scroll
        },
        ..st
    }
}

/// The log scrolled to its last screenful, the current line included.
pub open spec fn scrolled_to_end(st: LogState) -> LogState {
    LogState { scroll: bottom_scroll(display_lines(st).len() as int), ..st }
}

/// The log after `key`: up and `k` scroll up; down and `j` scroll down;
/// Home and `g` go to the first line; End and `G` to the last screenful.
pub open spec fn log_after_key(st: LogState, key: Key) -> LogState {
    match key {
        Key::Up | Key::Char('k') => scrolled_up(st),
        Key::Down | Key::Char('j') => scrolled_down(st),
        Key::Home | Key::Char('g') => LogState { scroll: 0, ..st },
        Key::End | Key::Char('G') => scrolled_to_end(st),
        _ => st,
    }
}

/// The log once its current line, if any, has become a line of its own.
pub open spec fn flushed(st: LogState) -> LogState {
    if st.current.len() == 0 {
        st
    } else {
        let ms = keep_recent(st.messages.push(st.current));
        LogState { messages: ms, current: Seq::empty(), scroll: bottom_scroll(ms.len() as int) }
    }
}

/// The log once the line `msg` is added.
pub open spec fn logged(st: LogState, msg: Seq<char>) -> LogState {
    let f = flushed(st);
    let ms = keep_recent(f.messages.push(msg));
    LogState { messages: ms, current: f.current, scroll: bottom_scroll(ms.len() as int) }
}

/// The mark of a prefetched word: found or not.
pub open spec fn found_mark(found: bool) -> Seq<char> {
    if found {
        "✔"@
    } else {
        "✘"@
    }
}

/// The log once the prefetched `word` is noted on the current line,
/// comma-separated; a line longer than [`MAX_LINE_BYTES`] bytes is flushed.
pub open spec fn with_word(st: LogState, word: Seq<char>, found: bool) -> LogState {
    let line = (if st.current.len() == 0 {
        st.current
    } else {
        st.current + ", "@
    }) + found_mark(found) + " "@ + word;
    let st2 = LogState { messages: st.messages, current: line, scroll: st.scroll };
    if utf8_len(line) > MAX_LINE_BYTES {
        flushed(st2)
    } else {
        st2
    }
}

/// A line just logged is the last line shown, whatever the log held and
/// wherever it was scrolled: logging scrolls to the end.
pub proof fn law_logged_line_is_shown(st: LogState, msg: Seq<char>)
    requires
        st.messages.len() <= MAX_MESSAGES,
    ensures
        ({
            let w = visible_window(logged(st, msg));
            &&& w.len() > 0
            &&& w.last() == msg
            &&& logged(st, msg).messages.last() == msg
        }),
{
    let f = flushed(st);
    let ms = keep_recent(f.messages.push(msg));
    assert(ms.last() == msg);
    assert(logged(st, msg).current.len() == 0);
    assert(display_lines(logged(st, msg)) == ms);
}

/// The bounds every log keeps: at most [`MAX_MESSAGES`] lines, a current
/// line of at most [`MAX_LINE_BYTES`] bytes, and a scroll position within
/// its lines.
pub open spec fn log_bounds(st: LogState) -> bool {
    &&& st.messages.len() <= MAX_MESSAGES
    &&& utf8_len(st.current) <= MAX_LINE_BYTES
    &&& 0 <= st.scroll <= st.messages.len()
}

/// Every operation on a log keeps [`log_bounds`]: adding a line, noting
/// a prefetched word, and each key.
pub proof fn law_log_keeps_bounds(st: LogState, msg: Seq<char>, word: Seq<char>, found: bool, key: Key)
    requires
        log_bounds(st),
    ensures
        log_bounds(flushed(st)),
        log_bounds(logged(st, msg)),
        log_bounds(with_word(st, word, found)),
        log_bounds(log_after_key(st, key)),
{
    assert(utf8_len(Seq::<char>::empty()) == 0);
    let line = (if st.current.len() == 0 {
        st.current
    } else {
        st.current + ", "@
    }) + found_mark(found) + " "@ + word;
    let st2 = LogState { messages: st.messages, current: line, scroll: st.scroll };
    if utf8_len(line) > MAX_LINE_BYTES {
        assert(log_bounds(flushed(st2)));
    }
}

/// Debug and progress log: completed lines, a line being accumulated,
/// and a scroll position.
pub struct LogPane {
    messages: Vec<String>,
    current_line: String,
    scroll: usize,
}

impl LogPane {
    /// The content of the log.
    pub closed spec fn state(&self) -> LogState {
        LogState {
            messages: self.messages@.map_values(|m: String| m@),
            current: self.current_line@,
            scroll: self.scroll as int,
        }
    }

    /// The bounds of [`log_bounds`].
    #[verifier::type_invariant]
    pub closed spec fn wf(&self) -> bool {
        &&& self.messages@.len() <= MAX_MESSAGES
        &&& utf8_len(self.current_line@) <= MAX_LINE_BYTES
        &&& self.scroll <= self.messages@.len()
    }

    /// An empty log.
    pub fn new() -> (l: LogPane)
        ensures
            l.wf(),
            log_bounds(l.state()),
            l.state().messages == Seq::<Seq<char>>::empty(),
            l.state().current == Seq::<char>::empty(),
            l.state().scroll == 0,
    {
        let l = LogPane { messages: Vec::new(), current_line: String::new(), scroll: 0 };
        proof {
            assert(l.messages@.map_values(|m: String| m@) =~= Seq::<Seq<char>>::empty());
        }
        l
    }

    /// Adds `line` as the last line, dropping the oldest beyond
    /// [`MAX_MESSAGES`], and scrolls to the end.
    fn push_line(&mut self, line: String)
        ensures
            final(self).state() == (LogState {
                messages: keep_recent(old(self).state().messages.push(line@)),
                current: old(self).state().current,
                scroll: bottom_scroll(
                    keep_recent(old(self).state().messages.push(line@)).len() as int,
                ),
            }),
    {
        proof {
            use_type_invariant(&*self);
        }
        self.scroll = 0;
        let mut messages: Vec<String> = Vec::new();
        std::mem::swap(&mut messages, &mut self.messages);
        let ghost before = messages@;
        messages.push(line);
        proof {
            assert(messages@.map_values(|m: String| m@) =~= before.map_values(|m: String| m@).push(
                line@,
            ));
        }
        if messages.len() > MAX_MESSAGES {
            let ghost full = messages@;
            messages.remove(0);
            proof {
                assert(messages@.map_values(|m: String| m@) =~= full.map_values(
                    |m: String| m@,
                ).skip(1));
            }
        }
        let n = messages.len();
        self.messages = messages;
        self.scroll = if n > VISIBLE_LINES {
            n - VISIBLE_LINES
        } else {
            0
        };
    }

    /// Ends the current line: a line with any text becomes a line of its own.
    fn flush_line(&mut self)
        ensures
            final(self).state() == flushed(old(self).state()),
    {
        proof {
            use_type_invariant(&*self);
        }
        if !self.current_line.as_str().is_empty() {
            let mut line = String::new();
            proof {
                assert(utf8_len(line@) == 0);
            }
            std::mem::swap(&mut line, &mut self.current_line);
            self.push_line(line);
            proof {
                assert(self.state() =~= flushed(old(self).state()));
            }
        }
    }

    /// Ends the current line, if any, then adds the line `msg`.
    pub fn log(&mut self, msg: &str)
        ensures
            final(self).wf(),
            log_bounds(final(self).state()),
            final(self).state() == logged(old(self).state(), msg@),
    {
        self.flush_line();
        self.push_line(String::from_str(msg));
        proof {
            assert(self.state() =~= logged(old(self).state(), msg@));
        }
    }

    /// Logs that a prefetch of `n` words starts: `prefetch <n> words`.
    pub fn log_prefetch_started(&mut self, n: usize)
        ensures
            final(self).wf(),
            log_bounds(final(self).state()),
            final(self).state() == logged(
                old(self).state(),
                "prefetch "@ + decimal(n as nat) + " words"@,
            ),
    {
        let mut msg = String::from_str("prefetch ");
        push_decimal(&mut msg, n);
        msg.append(" words");
        self.log(msg.as_str());
    }

    /// Logs that a prefetch ended with `found` of `total` words found:
    /// `done: <found>/<total> found`.
    pub fn log_prefetch_done(&mut self, found: usize, total: usize)
        ensures
            final(self).wf(),
            log_bounds(final(self).state()),
            final(self).state() == logged(
                old(self).state(),
                "done: "@ + decimal(found as nat) + "/"@ + decimal(total as nat) + " found"@,
            ),
    {
        let mut msg = String::from_str("done: ");
        push_decimal(&mut msg, found);
        msg.append("/");
        push_decimal(&mut msg, total);
        msg.append(" found");
        self.log(msg.as_str());
    }

    /// Notes a prefetched word on the current line, marked as found or
    /// not; a line that grows past [`MAX_LINE_BYTES`] bytes is flushed.
    pub fn log_prefetch_word(&mut self, word: &str, found: bool)
        ensures
            final(self).wf(),
            log_bounds(final(self).state()),
            final(self).state() == with_word(old(self).state(), word@, found),
    {
        proof {
            use_type_invariant(&*self);
        }
        let ghost before = self.current_line@;
        let mut line = String::new();
        proof {
            assert(utf8_len(line@) == 0);
        }
        std::mem::swap(&mut line, &mut self.current_line);
        if !line.as_str().is_empty() {
            line.append(", ");
        }
        if found {
            line.append("✔");
        } else {
            line.append("✘");
        }
        line.append(" ");
        line.append(word);
        proof {
            reveal_strlit("✔");
            reveal_strlit("✘");
            reveal_strlit(", ");
            reveal_strlit(" ");
            let comma = if before.len() == 0 {
                before
            } else {
                before + ", "@
            };
            assert(line@ =~= comma + found_mark(found) + " "@ + word@);
        }
        if byte_len(line.as_str()) > MAX_LINE_BYTES {
            self.push_line(line);
            proof {
                assert(self.state() =~= with_word(old(self).state(), word@, found));
            }
        } else {
            self.current_line = line;
        }
    }
}

/// The lines the log would show: its lines, then the current line if it
/// has any text.
pub open spec fn display_lines(st: LogState) -> Seq<Seq<char>> {
    if st.current.len() > 0 {
        st.messages.push(st.current)
    } else {
        st.messages
    }
}

/// The lines the log shows: at most [`VISIBLE_LINES`] from the scroll
/// position (kept on the last line), or one empty line when there is none.
pub open spec fn visible_window(st: LogState) -> Seq<Seq<char>> {
    let d = display_lines(st);
    if d.len() == 0 {
        seq![Seq::<char>::empty()]
    } else {
        let start = if st.scroll < d.len() - 1 {
            st.scroll
        } else {
            d.len() - 1
        };
        let end = if start + VISIBLE_LINES < d.len() {
            start + VISIBLE_LINES
        } else {
            d.len() as int
        };
        d.subrange(start, end)
    }
}

impl LogPane {
    /// The completed lines: never more than [`MAX_MESSAGES`].
    pub fn messages(&self) -> (m: &Vec<String>)
        ensures
            m@.map_values(|s: String| s@) == self.state().messages,
            m@.len() <= MAX_MESSAGES,
    {
        proof {
            use_type_invariant(self);
        }
        &self.messages
    }

    /// The line being accumulated: never more than [`MAX_LINE_BYTES`]
    /// bytes.
    pub fn current_line(&self) -> (s: &str)
        ensures
            s@ == self.state().current,
            utf8_len(s@) <= MAX_LINE_BYTES,
    {
        proof {
            use_type_invariant(self);
        }
        self.current_line.as_str()
    }

    /// The scroll position: never past the last line.
    pub fn scroll(&self) -> (n: usize)
        ensures
            n == self.state().scroll,
            n <= self.state().messages.len(),
    {
        proof {
            use_type_invariant(self);
        }
        self.scroll
    }

    /// Scrolls one line up, stopping at the first.
    pub fn scroll_up(&mut self)
        ensures
            final(self).wf(),
            log_bounds(final(self).state()),
            final(self).state() == scrolled_up(old(self).state()),
    {
        proof {
            use_type_invariant(&*self);
        }
        if self.scroll > 0 {
            self.scroll = self.scroll - 1;
        }
    }

    /// Scrolls one line down, as far as the last screenful of completed
    /// lines.
    pub fn scroll_down(&mut self)
        ensures
            final(self).wf(),
            log_bounds(final(self).state()),
            final(self).state() == scrolled_down(old(self).state()),
    {
        proof {
            use_type_invariant(&*self);
        }
        let max = if self.messages.len() > VISIBLE_LINES {
            self.messages.len() - VISIBLE_LINES
        } else {
            0
        };
        if self.scroll < max {
            self.scroll = self.scroll + 1;
        }
    }

    /// Scrolls to the first line.
    pub fn scroll_home(&mut self)
        ensures
            final(self).wf(),
            log_bounds(final(self).state()),
            final(self).state() == (LogState { scroll: 0, ..old(self).state() }),
    {
        proof {
            use_type_invariant(&*self);
        }
        self.scroll = 0;
    }

    /// Scrolls to the last screenful, the current line included.
    pub fn scroll_end(&mut self)
        ensures
            final(self).wf(),
            log_bounds(final(self).state()),
            final(self).state() == scrolled_to_end(old(self).state()),
    {
        proof {
            use_type_invariant(&*self);
        }
        let total = if self.current_line.as_str().is_empty() {
            self.messages.len()
        } else {
            self.messages.len() + 1
        };
        self.scroll = if total > VISIBLE_LINES {
            total - VISIBLE_LINES
        } else {
            0
        };
    }

    /// Scrolls as [`log_after_key`] says for `key`.
    pub fn handle_key(&mut self, key: Key) -> (a: Action)
        ensures
            final(self).wf(),
            log_bounds(final(self).state()),
            final(self).state() == log_after_key(old(self).state(), key),
            a is Nothing,
    {
        proof {
            use_type_invariant(&*self);
        }
        match key {
            Key::Up | Key::Char('k') => self.scroll_up(),
            Key::Down | Key::Char('j') => self.scroll_down(),
            Key::Home | Key::Char('g') => self.scroll_home(),
            Key::End | Key::Char('G') => self.scroll_end(),
            _ => {},
        }
        Action::Nothing
    }

    /// The lines shown, as [`visible_window`] says.
    pub fn visible_lines(&self) -> (v: Vec<String>)
        ensures
            v@.map_values(|s: String| s@) == visible_window(self.state()),
    {
        proof {
            use_type_invariant(self);
        }
        let ghost st = self.state();
        let mut display: Vec<String> = Vec::new();
        let mut i: usize = 0;
        while i < self.messages.len()
            invariant
                i <= self.messages@.len() <= MAX_MESSAGES,
                st == self.state(),
                display@.map_values(|s: String| s@) == st.messages.take(i as int),
            decreases self.messages@.len() - i,
        {
            let ghost before = display@;
            let x = self.messages[i].clone();
            display.push(x);
            proof {
                assert(display@.map_values(|s: String| s@) =~= before.map_values(|s: String| s@).push(
                    x@,
                ));
                assert(st.messages[i as int] == x@);
                assert(st.messages.take(i + 1) =~= st.messages.take(i as int).push(x@));
                assert(display@.map_values(|s: String| s@) =~= st.messages.take(i + 1));
            }
            i = i + 1;
        }
        proof {
            assert(st.messages.take(self.messages@.len() as int) =~= st.messages);
        }
        if !self.current_line.as_str().is_empty() {
            display.push(self.current_line.clone());
            proof {
                assert(display@.map_values(|s: String| s@) =~= display_lines(st));
            }
        }
        let ghost d = display_lines(st);
        assert(display@.map_values(|s: String| s@) == d);
        if display.len() == 0 {
            let v = vec![String::new()];
            proof {
                assert(v@.map_values(|s: String| s@) =~= visible_window(st));
            }
            return v;
        }
        let start = if self.scroll < display.len() - 1 {
            self.scroll
        } else {
            display.len() - 1
        };
        let end = if start + VISIBLE_LINES < display.len() {
            start + VISIBLE_LINES
        } else {
            display.len()
        };
        let mut v: Vec<String> = Vec::new();
        let mut k = start;
        while k < end
            invariant
                start <= k <= end <= display@.len(),
                display@.map_values(|s: String| s@) == d,
                v@.map_values(|s: String| s@) == d.subrange(start as int, k as int),
            decreases end - k,
        {
            let ghost before = v@;
            let x = display[k].clone();
            v.push(x);
            proof {
                assert(v@.map_values(|s: String| s@) =~= before.map_values(|s: String| s@).push(x@));
                assert(d[k as int] == x@);
                assert(d.subrange(start as int, k + 1) =~= d.subrange(start as int, k as int).push(x@));
                assert(v@.map_values(|s: String| s@) =~= d.subrange(start as int, k + 1));
            }
            k = k + 1;
        }
        v
    }
}

// ---------------------------------------------------------------------
// Focus, terminal size, and the cache of dictionary lookups.
// ---------------------------------------------------------------------

/// The pane that has the keyboard.
#[derive(Debug, Clone, Copy, PartialEq, Eq, Structural)]
pub enum Focus {
    Menu,
    Text,
    Props,
    Log,
    Extra(usize),
}

/// The pane that Tab gives the keyboard to: menu, properties, text, log,
/// and back to the menu; an extra pane gives it to the menu.
pub open spec fn spec_next_focus(f: Focus) -> Focus {
    match f {
        Focus::Menu => Focus::Props,
        Focus::Props => Focus::Text,
        Focus::Text => Focus::Log,
        Focus::Log => Focus::Menu,
        Focus::Extra(_) => Focus::Menu,
    }
}

/// The pane that Tab gives the keyboard to.
pub fn next_focus(f: Focus) -> (g: Focus)
    ensures
        g == spec_next_focus(f),
{
    match f {
        Focus::Menu => Focus::Props,
        Focus::Props => Focus::Text,
        Focus::Text => Focus::Log,
        Focus::Log => Focus::Menu,
        Focus::Extra(_) => Focus::Menu,
    }
}

/// Tab visits every main pane: from any of them, four presses bring the
/// keyboard back, and no two of the four in between are the same pane.
pub proof fn law_tab_cycles_main_panes(f: Focus)
    requires
        !(f is Extra),
    ensures
        spec_next_focus(spec_next_focus(spec_next_focus(spec_next_focus(f)))) == f,
        spec_next_focus(f) != f,
        spec_next_focus(spec_next_focus(f)) != f,
        spec_next_focus(spec_next_focus(spec_next_focus(f))) != f,
{
}

/// The smallest terminal the interface runs in: 80 columns, 24 rows.
pub const MIN_COLUMNS: u16 = 80;

pub const MIN_ROWS: u16 = 24;

/// Whether a terminal of `cols` columns and `rows` rows is large enough.
pub fn terminal_fits(cols: u16, rows: u16) -> (b: bool)
    ensures
        b == (cols >= MIN_COLUMNS && rows >= MIN_ROWS),
{
    !(cols < MIN_COLUMNS || rows < MIN_ROWS)
}

/// Whether `word` was looked up and found with at least one entry.
pub open spec fn has_entries(
    m: Map<Seq<char>, Option<Vec<crate::dictionary::DictEntry>>>,
    word: Seq<char>,
) -> bool {
    m.contains_key(word) && match m[word] {
        Some(es) => es@.len() > 0,
        None => false,
    }
}

/// The words at the indices `idx` of `words`, in that order, leaving out
/// indices past the end and words in `known`.
pub open spec fn unknown_words_at(
    words: Seq<Seq<char>>,
    idx: Seq<int>,
    known: Set<Seq<char>>,
) -> Seq<Seq<char>>
    decreases idx.len(),
{
    if idx.len() == 0 {
        Seq::empty()
    } else {
        let rest = unknown_words_at(words, idx.drop_last(), known);
        let i = idx.last();
        if 0 <= i < words.len() && !known.contains(words[i]) {
            rest.push(words[i])
        } else {
            rest
        }
    }
}

/// `m` with each result of `rs` recorded under its word; where a word
/// comes twice, its first result stands.
pub open spec fn merged(
    m: Map<Seq<char>, Option<Vec<crate::dictionary::DictEntry>>>,
    rs: Seq<(String, Option<Vec<crate::dictionary::DictEntry>>)>,
) -> Map<Seq<char>, Option<Vec<crate::dictionary::DictEntry>>>
    decreases rs.len(),
{
    if rs.len() == 0 {
        m
    } else {
        merged(m.insert(rs.last().0@, rs.last().1), rs.drop_last())
    }
}

/// How many of `rs` were found.
pub open spec fn found_count(rs: Seq<(String, Option<Vec<crate::dictionary::DictEntry>>)>) -> nat
    decreases rs.len(),
{
    if rs.len() == 0 {
        0
    } else {
        found_count(rs.drop_last()) + if rs.last().1 is Some {
            1nat
        } else {
            0nat
        }
    }
}

proof fn lemma_found_count_bound(rs: Seq<(String, Option<Vec<crate::dictionary::DictEntry>>)>)
    ensures
        found_count(rs) <= rs.len(),
    decreases rs.len(),
{
    if rs.len() > 0 {
        lemma_found_count_bound(rs.drop_last());
    }
}

/// What to show for the word under the cursor, decided from the cache
/// before any dictionary lookup.
#[derive(Debug)]
pub enum LookupStep {
    /// The cached first entry of the word.
    Show(crate::dictionary::DictEntry),
    /// Nothing: there is no word, or the word is known to have no entry.
    Clear,
    /// The cache does not tell: ask the dictionary.
    Fetch,
}

/// What was found of each word looked up so far: its entries, or `None`
/// when the dictionary has none.
pub struct LookupCache {
    map: vstd::hash_map::StringHashMap<Option<Vec<crate::dictionary::DictEntry>>>,
}

impl View for LookupCache {
    type V = Map<Seq<char>, Option<Vec<crate::dictionary::DictEntry>>>;

    closed spec fn view(&self) -> Map<Seq<char>, Option<Vec<crate::dictionary::DictEntry>>> {
        self.map@
    }
}

impl LookupCache {
    /// An empty cache.
    pub fn new() -> (c: LookupCache)
        ensures
            c@ == Map::<Seq<char>, Option<Vec<crate::dictionary::DictEntry>>>::empty(),
    {
        LookupCache { map: vstd::hash_map::StringHashMap::new() }
    }

    /// Whether `word` was looked up.
    pub fn contains(&self, word: &str) -> (b: bool)
        ensures
            b == self@.contains_key(word@),
    {
        self.map.contains_key(word)
    }

    /// Records what looking up `word` found.
    pub fn insert(&mut self, word: String, found: Option<Vec<crate::dictionary::DictEntry>>)
        ensures
            final(self)@ == old(self)@.insert(word@, found),
    {
        self.map.insert(word, found);
    }

    /// Records the entries a direct lookup of `word` returned: none found
    /// is remembered as `None`.
    pub fn record(&mut self, word: String, entries: Vec<crate::dictionary::DictEntry>)
        ensures
            final(self)@ == old(self)@.insert(
                word@,
                if entries@.len() == 0 {
                    None
                } else {
                    Some(entries)
                },
            ),
    {
        if entries.len() == 0 {
            self.map.insert(word, None);
        } else {
            self.map.insert(word, Some(entries));
        }
    }

    /// The entry to show for `word` from the cache: its first entry, if
    /// it was found with any.
    pub fn first_entry(&self, word: &str) -> (r: Option<&crate::dictionary::DictEntry>)
        ensures
            match r {
                Some(e) => has_entries(self@, word@) && *e == self@[word@]->Some_0@[0],
                None => !has_entries(self@, word@),
            },
    {
        match self.map.get(word) {
            Some(Some(entries)) => {
                if entries.len() > 0 {
                    Some(&entries[0])
                } else {
                    None
                }
            },
            _ => None,
        }
    }

    /// The words of `text` at `indices` that were not looked up yet, as
    /// [`unknown_words_at`] says.
    pub fn words_to_fetch(&self, text: &TextPane, indices: &Vec<usize>) -> (v: Vec<String>)
        ensures
            v@.map_values(|w: String| w@) == unknown_words_at(
                text.spec_words(),
                indices@.map_values(|i: usize| i as int),
                self@.dom(),
            ),
    {
        let ghost idx = indices@.map_values(|i: usize| i as int);
        let mut v: Vec<String> = Vec::new();
        let mut k: usize = 0;
        proof {
            assert(idx.take(0) =~= Seq::<int>::empty());
            assert(v@.map_values(|w: String| w@) =~= Seq::<Seq<char>>::empty());
        }
        while k < indices.len()
            invariant
                k <= indices@.len(),
                idx == indices@.map_values(|i: usize| i as int),
                v@.map_values(|w: String| w@) == unknown_words_at(
                    text.spec_words(),
                    idx.take(k as int),
                    self@.dom(),
                ),
            decreases indices@.len() - k,
        {
            proof {
                assert(idx.take(k as int + 1).drop_last() =~= idx.take(k as int));
            }
            match text.word_at(indices[k]) {
                Some(w) => {
                    if !self.map.contains_key(w) {
                        let ghost before = v@;
                        v.push(String::from_str(w));
                        proof {
                            assert(v@.map_values(|w: String| w@) =~= before.map_values(
                                |w: String| w@,
                            ).push(w@));
                        }
                    }
                },
                None => {},
            }
            k = k + 1;
        }
        proof {
            assert(idx.take(indices@.len() as int) =~= idx);
        }
        v
    }

    /// Records the results of a background lookup, each a word and what
    /// was found of it (as [`merged`] says); returns how many were found.
    pub fn merge(&mut self, results: Vec<(String, Option<Vec<crate::dictionary::DictEntry>>)>) -> (found:
        usize)
        ensures
            final(self)@ == merged(old(self)@, results@),
            found == found_count(results@),
    {
        let ghost all = results@;
        let total = results.len();
        let mut results = results;
        let mut found: usize = 0;
        while results.len() > 0
            invariant
                all.len() == total,
                results@.len() <= all.len(),
                merged(old(self)@, all) == merged(self@, results@),
                found_count(all) == found + found_count(results@),
                found + results@.len() <= all.len(),
            decreases results@.len(),
        {
            proof {
                lemma_found_count_bound(results@.drop_last());
            }
            let ghost before = results@;
            match results.pop() {
                Some((word, entries)) => {
                    proof {
                        assert(before.last() == (word, entries));
                        assert(results@ == before.drop_last());
                    }
                    if entries.is_some() {
                        found = found + 1;
                    }
                    self.map.insert(word, entries);
                },
                None => {},
            }
        }
        found
    }

    /// The cache-first decision for the word under the cursor: no word
    /// shows nothing; a word cached with entries shows its first entry; a
    /// word cached as having none shows nothing; any other word (not looked
    /// up, or looked up with an empty list) is fetched from the dictionary.
    pub fn lookup_step(&self, word: Option<&str>) -> (s: LookupStep)
        ensures
            match word {
                None => s is Clear,
                Some(w) => if has_entries(self@, w@) {
                    s matches LookupStep::Show(e) && e@ == self@[w@]->Some_0@[0]@
                } else if self@.contains_key(w@) && self@[w@] is None {
                    s is Clear
                } else {
                    s is Fetch
                },
            },
    {
        match word {
            None => LookupStep::Clear,
            Some(w) => match self.first_entry(w) {
                Some(e) => LookupStep::Show(e.duplicate()),
                None => if self.known_absent(w) {
                    LookupStep::Clear
                } else {
                    LookupStep::Fetch
                },
            },
        }
    }

    /// Takes the outcome of looking `word` up in the dictionary: a failure
    /// leaves the cache as it was and shows nothing; entries are recorded
    /// (an empty list as known to have none) and the first is shown.
    pub fn after_fetch(
        &mut self,
        word: String,
        r: Result<Vec<crate::dictionary::DictEntry>, crate::error::CoreError>,
    ) -> (shown: Option<crate::dictionary::DictEntry>)
        ensures
            match r {
                Err(_) => final(self)@ == old(self)@ && shown is None,
                Ok(es) => {
                    &&& final(self)@ == old(self)@.insert(
                        word@,
                        if es@.len() == 0 {
                            None
                        } else {
                            Some(es)
                        },
                    )
                    &&& es@.len() > 0 ==> (shown matches Some(e) && e@ == es@[0]@)
                    &&& es@.len() == 0 ==> shown is None
                },
            },
    {
        match r {
            Err(_) => None,
            Ok(es) => {
                let first = if es.len() > 0 {
                    Some(es[0].duplicate())
                } else {
                    None
                };
                self.record(word, es);
                first
            },
        }
    }

    /// Whether `word` is known to have no entry.
    pub fn known_absent(&self, word: &str) -> (b: bool)
        ensures
            b == (self@.contains_key(word@) && self@[word@] is None),
    {
        match self.map.get(word) {
            Some(None) => true,
            _ => false,
        }
    }
}

/// A word recorded with entries is then shown by its first entry; a word
/// recorded with none is then known to have none.
pub proof fn law_recorded_lookup_is_read_back(
    m: Map<Seq<char>, Option<Vec<crate::dictionary::DictEntry>>>,
    word: Seq<char>,
    entries: Vec<crate::dictionary::DictEntry>,
)
    ensures
        ({
            let after = m.insert(word, if entries@.len() == 0 { None } else { Some(entries) });
            &&& entries@.len() > 0 ==> has_entries(after, word) && after[word]->Some_0@[0]
                == entries@[0]
            &&& entries@.len() == 0 ==> !has_entries(after, word) && after.contains_key(word)
                && after[word] is None
        }),
{
}

} // verus!
