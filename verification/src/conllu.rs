//! CoNLL-U parsing: the output format of UDPipe.
//!
//! Each line of the input is trimmed. An empty line ends the current
//! sentence; a line starting with `#` is a comment, of which
//! `# text = ...` gives the sentence text; any other line is a token line
//! of tab-separated columns `ID FORM LEMMA UPOS XPOS FEATS HEAD DEPREL ...`.

use vstd::prelude::*;

use crate::error::UdpipelineError;
use crate::feature_map::FeatureMap;
use crate::text::{is_ws, split, string_of, string_of_range, split_range, trim, trim_bounds, views, chars_of};

verus! {

/// A single token with morphological analysis.
#[derive(Debug, Clone)]
pub struct Token {
    pub id: u32,
    pub word: String,
    pub lemma: String,
    pub upostag: String,
    pub xpostag: String,
    pub feats: FeatureMap,
    pub head: Option<i32>,
    pub deprel: Option<String>,
}

/// A sentence containing tokens.
#[derive(Debug, Clone)]
pub struct Sentence {
    pub text: String,
    pub tokens: Vec<Token>,
}

/// The mathematical content of a [`Token`].
pub struct TokenView {
    pub id: u32,
    pub word: Seq<char>,
    pub lemma: Seq<char>,
    pub upostag: Seq<char>,
    pub xpostag: Seq<char>,
    pub feats: Map<Seq<char>, Seq<char>>,
    pub head: Option<i32>,
    pub deprel: Option<Seq<char>>,
}

/// The mathematical content of a [`Sentence`].
pub struct SentenceView {
    pub text: Seq<char>,
    pub tokens: Seq<TokenView>,
}

pub open spec fn opt_view(o: Option<String>) -> Option<Seq<char>> {
    match o {
        Some(s) => Some(s@),
        None => None,
    }
}

impl View for Token {
    type V = TokenView;

    open spec fn view(&self) -> TokenView {
        TokenView {
            id: self.id,
            word: self.word@,
            lemma: self.lemma@,
            upostag: self.upostag@,
            xpostag: self.xpostag@,
            feats: self.feats@,
            head: self.head,
            deprel: opt_view(self.deprel),
        }
    }
}

pub open spec fn token_views(v: Seq<Token>) -> Seq<TokenView> {
    v.map_values(|t: Token| t@)
}

impl View for Sentence {
    type V = SentenceView;

    open spec fn view(&self) -> SentenceView {
        SentenceView { text: self.text@, tokens: token_views(self.tokens@) }
    }
}

pub open spec fn sentence_views(v: Seq<Sentence>) -> Seq<SentenceView> {
    v.map_values(|s: Sentence| s@)
}

// ---------------------------------------------------------------------
// Integers, as `str::parse::<u32>` and `str::parse::<i32>` read them.
// ---------------------------------------------------------------------

/// Why a string is not an integer (the kinds of `std::num::ParseIntError`).
#[derive(PartialEq, Eq, Structural, Clone, Copy, Debug)]
pub enum IntErrorKind {
    Empty,
    InvalidDigit,
    PosOverflow,
    NegOverflow,
}

pub open spec fn is_digit(c: char) -> bool {
    '0' <= c && c <= '9'
}

pub open spec fn digit_value(c: char) -> int {
    c as int - '0' as int
}

/// Reads the decimal digits of `s` after the magnitude `acc`, failing with
/// `over` as soon as the magnitude exceeds `max`.
pub open spec fn digits_from(s: Seq<char>, acc: int, max: int, over: IntErrorKind) -> Result<
    int,
    IntErrorKind,
>
    decreases s.len(),
{
    if s.len() == 0 {
        Ok(acc)
    } else if !is_digit(s[0]) {
        Err(IntErrorKind::InvalidDigit)
    } else if acc * 10 + digit_value(s[0]) > max {
        Err(over)
    } else {
        digits_from(s.drop_first(), acc * 10 + digit_value(s[0]), max, over)
    }
}

/// `s` as a `u32`: an optional `+`, then decimal digits.
pub open spec fn spec_parse_u32(s: Seq<char>) -> Result<u32, IntErrorKind> {
    if s.len() == 0 {
        Err(IntErrorKind::Empty)
    } else if s.len() == 1 && (s[0] == '+' || s[0] == '-') {
        Err(IntErrorKind::InvalidDigit)
    } else {
        let d = if s[0] == '+' {
            s.drop_first()
        } else {
            s
        };
        match digits_from(d, 0, u32::MAX as int, IntErrorKind::PosOverflow) {
            Ok(n) => Ok(n as u32),
            Err(k) => Err(k),
        }
    }
}

/// `s` as an `i32`: an optional sign, then decimal digits.
pub open spec fn spec_parse_i32(s: Seq<char>) -> Result<i32, IntErrorKind> {
    if s.len() == 0 {
        Err(IntErrorKind::Empty)
    } else if s.len() == 1 && (s[0] == '+' || s[0] == '-') {
        Err(IntErrorKind::InvalidDigit)
    } else if s[0] == '-' {
        match digits_from(s.drop_first(), 0, 0x8000_0000, IntErrorKind::NegOverflow) {
            Ok(n) => Ok((-n) as i32),
            Err(k) => Err(k),
        }
    } else {
        let d = if s[0] == '+' {
            s.drop_first()
        } else {
            s
        };
        match digits_from(d, 0, i32::MAX as int, IntErrorKind::PosOverflow) {
            Ok(n) => Ok(n as i32),
            Err(k) => Err(k),
        }
    }
}

/// The `Display` text of a `ParseIntError` of the given kind.
pub open spec fn int_error_text(k: IntErrorKind) -> Seq<char> {
    match k {
        IntErrorKind::Empty => "cannot parse integer from empty string"@,
        IntErrorKind::InvalidDigit => "invalid digit found in string"@,
        IntErrorKind::PosOverflow => "number too large to fit in target type"@,
        IntErrorKind::NegOverflow => "number too small to fit in target type"@,
    }
}

/// The text of a [`IntErrorKind`], as `ParseIntError` displays it.
pub fn int_error_message(k: IntErrorKind) -> (s: String)
    ensures
        s@ == int_error_text(k),
{
    match k {
        IntErrorKind::Empty => String::from_str("cannot parse integer from empty string"),
        IntErrorKind::InvalidDigit => String::from_str("invalid digit found in string"),
        IntErrorKind::PosOverflow => String::from_str("number too large to fit in target type"),
        IntErrorKind::NegOverflow => String::from_str("number too small to fit in target type"),
    }
}

/// Reads the digits of `v[start..]` as a magnitude no larger than `max`.
fn read_digits(v: &Vec<char>, start: usize, max: u64, over: IntErrorKind) -> (r: Result<
    u64,
    IntErrorKind,
>)
    requires
        start <= v.len(),
        max <= 0x1_0000_0000,
    ensures
        match r {
            Ok(n) => n <= max && digits_from(v@.subrange(start as int, v@.len() as int), 0, max as int, over)
                == Ok::<int, IntErrorKind>(n as int),
            Err(k) => digits_from(v@.subrange(start as int, v@.len() as int), 0, max as int, over)
                == Err::<int, IntErrorKind>(k),
        },
{
    let ghost s = v@.subrange(start as int, v@.len() as int);
    let mut acc: u64 = 0;
    let mut i = start;
    while i < v.len()
        invariant
            start <= i <= v.len(),
            acc <= max <= 0x1_0000_0000,
            s == v@.subrange(start as int, v@.len() as int),
            digits_from(s, 0, max as int, over) == digits_from(
                v@.subrange(i as int, v@.len() as int),
                acc as int,
                max as int,
                over,
            ),
        decreases v.len() - i,
    {
        let ghost rest = v@.subrange(i as int, v@.len() as int);
        proof {
            assert(rest[0] == v@[i as int]);
            assert(rest.drop_first() =~= v@.subrange(i + 1, v@.len() as int));
        }
        let c = v[i];
        if !('0' <= c && c <= '9') {
            return Err(IntErrorKind::InvalidDigit);
        }
        let d = (c as u32 - '0' as u32) as u64;
        if acc * 10 + d > max {
            return Err(over);
        }
        acc = acc * 10 + d;
        i = i + 1;
    }
    proof {
        assert(v@.subrange(i as int, v@.len() as int).len() == 0);
    }
    Ok(acc)
}

/// `s` as a `u32`, as `str::parse::<u32>` reads it.
pub fn parse_u32(s: &Vec<char>) -> (r: Result<u32, IntErrorKind>)
    ensures
        r == spec_parse_u32(s@),
{
    if s.len() == 0 {
        return Err(IntErrorKind::Empty);
    }
    if s.len() == 1 && (s[0] == '+' || s[0] == '-') {
        return Err(IntErrorKind::InvalidDigit);
    }
    let start: usize = if s[0] == '+' {
        1
    } else {
        0
    };
    proof {
        if start == 1 {
            assert(s@.subrange(1, s@.len() as int) =~= s@.drop_first());
        } else {
            assert(s@.subrange(0, s@.len() as int) =~= s@);
        }
    }
    match read_digits(s, start, 0xffff_ffff, IntErrorKind::PosOverflow) {
        Ok(n) => Ok(n as u32),
        Err(k) => Err(k),
    }
}

/// `s` as an `i32`, as `str::parse::<i32>` reads it.
pub fn parse_i32(s: &Vec<char>) -> (r: Result<i32, IntErrorKind>)
    ensures
        r == spec_parse_i32(s@),
{
    if s.len() == 0 {
        return Err(IntErrorKind::Empty);
    }
    if s.len() == 1 && (s[0] == '+' || s[0] == '-') {
        return Err(IntErrorKind::InvalidDigit);
    }
    if s[0] == '-' {
        proof {
            assert(s@.subrange(1, s@.len() as int) =~= s@.drop_first());
        }
        return match read_digits(s, 1, 0x8000_0000, IntErrorKind::NegOverflow) {
            Ok(n) => {
                let m: i64 = -(n as i64);
                Ok(m as i32)
            },
            Err(k) => Err(k),
        };
    }
    let start: usize = if s[0] == '+' {
        1
    } else {
        0
    };
    proof {
        if start == 1 {
            assert(s@.subrange(1, s@.len() as int) =~= s@.drop_first());
        } else {
            assert(s@.subrange(0, s@.len() as int) =~= s@);
        }
    }
    match read_digits(s, start, 0x7fff_ffff, IntErrorKind::PosOverflow) {
        Ok(n) => Ok(n as i32),
        Err(k) => Err(k),
    }
}

// ---------------------------------------------------------------------
// The FEATS column: `Animacy=Inan|Case=Nom|Gender=Masc`.
// ---------------------------------------------------------------------

/// Index of the first `c` in `s`.
pub open spec fn find_char(s: Seq<char>, c: char) -> Option<int>
    decreases s.len(),
{
    if s.len() == 0 {
        None
    } else if s[0] == c {
        Some(0)
    } else {
        match find_char(s.drop_first(), c) {
            Some(i) => Some(i + 1),
            None => None,
        }
    }
}

/// `s` split at its first `c` (`str::split_once`).
pub open spec fn split_once(s: Seq<char>, c: char) -> Option<(Seq<char>, Seq<char>)> {
    match find_char(s, c) {
        Some(i) => Some((s.take(i), s.skip(i + 1))),
        None => None,
    }
}

/// The features that `name=value` pieces give, a later name overriding
/// an earlier one; a piece without `=` is ignored.
pub open spec fn feats_of_pairs(p: Seq<Seq<char>>) -> Map<Seq<char>, Seq<char>>
    decreases p.len(),
{
    if p.len() == 0 {
        Map::empty()
    } else {
        let m = feats_of_pairs(p.drop_last());
        match split_once(p.last(), '=') {
            Some((k, v)) => m.insert(k, v),
            None => m,
        }
    }
}

/// An empty column or the CoNLL-U placeholder `_`.
pub open spec fn is_blank_field(f: Seq<char>) -> bool {
    f.len() == 0 || f == seq!['_']
}

/// The features that a FEATS column holds.
pub open spec fn spec_parse_feats(s: Seq<char>) -> Map<Seq<char>, Seq<char>> {
    if is_blank_field(s) {
        Map::empty()
    } else {
        feats_of_pairs(split(s, '|'))
    }
}

proof fn lemma_find_char(s: Seq<char>, c: char, j: int)
    requires
        0 <= j <= s.len(),
        forall|t: int| 0 <= t < j ==> s[t] != c,
        j == s.len() || s[j] == c,
    ensures
        find_char(s, c) == (if j == s.len() {
            None::<int>
        } else {
            Some(j)
        }),
    decreases s.len(),
{
    if s.len() > 0 && j > 0 {
        lemma_find_char(s.drop_first(), c, j - 1);
    }
}

/// Index of the first `c` in `v`.
fn find_in(v: &Vec<char>, c: char) -> (r: Option<usize>)
    ensures
        match r {
            Some(j) => find_char(v@, c) == Some(j as int) && j < v@.len(),
            None => find_char(v@, c) == None::<int>,
        },
{
    let mut j: usize = 0;
    while j < v.len()
        invariant
            j <= v@.len(),
            forall|t: int| 0 <= t < j ==> v@[t] != c,
        decreases v@.len() - j,
    {
        if v[j] == c {
            proof {
                lemma_find_char(v@, c, j as int);
            }
            return Some(j);
        }
        j = j + 1;
    }
    proof {
        lemma_find_char(v@, c, j as int);
    }
    None
}

/// Whether `v` is empty or `_`.
fn is_blank(v: &Vec<char>) -> (b: bool)
    ensures
        b == is_blank_field(v@),
{
    if v.len() == 0 {
        true
    } else if v.len() == 1 && v[0] == '_' {
        assert(v@ =~= seq!['_']);
        true
    } else {
        false
    }
}

/// The features of a FEATS column given as characters.
fn feats_of_chars(s: &Vec<char>) -> (m: FeatureMap)
    ensures
        m@ == spec_parse_feats(s@),
{
    let mut m = FeatureMap::new();
    if is_blank(s) {
        return m;
    }
    let pieces = split_range(s, 0, s.len(), '|');
    proof {
        assert(s@.subrange(0, s@.len() as int) =~= s@);
    }
    let ghost p = views(pieces@);
    let mut i: usize = 0;
    while i < pieces.len()
        invariant
            i <= pieces@.len(),
            p == views(pieces@),
            p == split(s@, '|'),
            m@ == feats_of_pairs(p.take(i as int)),
        decreases pieces@.len() - i,
    {
        let piece = &pieces[i];
        proof {
            assert(p.take(i + 1).drop_last() =~= p.take(i as int));
            assert(p.take(i + 1).last() == piece@);
        }
        match find_in(piece, '=') {
            Some(j) => {
                let key = string_of_range(piece, 0, j);
                let value = string_of_range(piece, j + 1, piece.len());
                proof {
                    assert(piece@.subrange(0, j as int) =~= piece@.take(j as int));
                    assert(piece@.subrange(j + 1, piece@.len() as int) =~= piece@.skip(j + 1));
                }
                m.insert(key, value);
            },
            None => {},
        }
        i = i + 1;
    }
    proof {
        assert(p.take(pieces@.len() as int) =~= p);
    }
    m
}

/// Parses a FEATS column: `Animacy=Inan|Case=Nom|Gender=Masc`.
pub fn parse_feats(feats_str: &str) -> (m: FeatureMap)
    ensures
        m@ == spec_parse_feats(feats_str@),
{
    let v = chars_of(feats_str);
    feats_of_chars(&v)
}

// ---------------------------------------------------------------------
// Lines and sentences.
// ---------------------------------------------------------------------

/// The comment that carries a sentence's text.
pub open spec fn text_prefix() -> Seq<char> {
    seq!['#', ' ', 't', 'e', 'x', 't', ' ', '=', ' ']
}

/// The error text for an ID column `f` that is not a `u32`.
pub open spec fn bad_id_text(f: Seq<char>, k: IntErrorKind) -> Seq<char> {
    "bad ID '"@ + f + "': "@ + int_error_text(k)
}

/// A column that is present and neither empty nor `_`.
pub open spec fn filled(f: Seq<Seq<char>>, i: int) -> bool {
    f.len() > i && !is_blank_field(f[i])
}

/// The token of a line whose columns are `f` and whose ID is `id`.
pub open spec fn token_of(id: u32, f: Seq<Seq<char>>) -> TokenView {
    TokenView {
        id: id,
        word: f[1],
        lemma: f[2],
        upostag: f[3],
        xpostag: f[4],
        feats: spec_parse_feats(f[5]),
        head: if filled(f, 6) {
            match spec_parse_i32(f[6]) {
                Ok(h) => Some(h),
                Err(_) => None,
            }
        } else {
            None
        },
        deprel: if filled(f, 7) {
            Some(f[7])
        } else {
            None
        },
    }
}

/// What a token line with columns `f` yields: nothing when it has fewer
/// than six columns or its ID holds `-` (a multi-word token), an error
/// when its ID is not a `u32`, a token otherwise.
pub open spec fn fields_token(f: Seq<Seq<char>>) -> Option<Result<TokenView, Seq<char>>> {
    if f.len() < 6 {
        None
    } else if f[0].contains('-') {
        None
    } else {
        match spec_parse_u32(f[0]) {
            Err(k) => Some(Err(bad_id_text(f[0], k))),
            Ok(id) => Some(Ok(token_of(id, f))),
        }
    }
}

/// The state of the parser between lines: the sentences finished, the
/// tokens of the current sentence and its text.
#[verifier::ext_equal]
pub struct ParseState {
    pub sentences: Seq<SentenceView>,
    pub tokens: Seq<TokenView>,
    pub text: Seq<char>,
}

pub open spec fn initial_state() -> ParseState {
    ParseState { sentences: Seq::empty(), tokens: Seq::empty(), text: Seq::empty() }
}

/// The sentences of a state once the input has ended: the current
/// sentence counts if it has a token.
pub open spec fn finish(st: ParseState) -> Seq<SentenceView> {
    if st.tokens.len() > 0 {
        st.sentences.push(SentenceView { text: st.text, tokens: st.tokens })
    } else {
        st.sentences
    }
}

/// One input line read in state `st`.
pub open spec fn step(st: ParseState, raw: Seq<char>) -> Result<ParseState, Seq<char>> {
    let line = trim(raw);
    if line.len() == 0 {
        Ok(ParseState { sentences: finish(st), tokens: Seq::empty(), text: if st.tokens.len() > 0 {
            Seq::empty()
        } else {
            st.text
        } })
    } else if line[0] == '#' {
        if line.len() >= 9 && line.take(9) == text_prefix() {
            Ok(ParseState { sentences: st.sentences, tokens: st.tokens, text: line.skip(9) })
        } else {
            Ok(st)
        }
    } else {
        match fields_token(split(line, '\t')) {
            None => Ok(st),
            Some(Err(m)) => Err(m),
            Some(Ok(t)) => Ok(ParseState { sentences: st.sentences, tokens: st.tokens.push(t), text: st.text }),
        }
    }
}

/// The state after the lines `lines`, or the first error.
pub open spec fn run_lines(lines: Seq<Seq<char>>) -> Result<ParseState, Seq<char>>
    decreases lines.len(),
{
    if lines.len() == 0 {
        Ok(initial_state())
    } else {
        match run_lines(lines.drop_last()) {
            Ok(st) => step(st, lines.last()),
            Err(m) => Err(m),
        }
    }
}

/// The sentences of a CoNLL-U text, or the text of the first error.
pub open spec fn spec_parse_conllu(s: Seq<char>) -> Result<Seq<SentenceView>, Seq<char>> {
    match run_lines(split(s, '\n')) {
        Ok(st) => Ok(finish(st)),
        Err(m) => Err(m),
    }
}

proof fn lemma_run_lines_err(lines: Seq<Seq<char>>, k: int, m: Seq<char>)
    requires
        0 <= k <= lines.len(),
        run_lines(lines.take(k)) == Err::<ParseState, Seq<char>>(m),
    ensures
        run_lines(lines) == Err::<ParseState, Seq<char>>(m),
    decreases lines.len() - k,
{
    if k == lines.len() {
        assert(lines.take(k) =~= lines);
    } else {
        assert(lines.take(k + 1).drop_last() =~= lines.take(k));
        lemma_run_lines_err(lines, k + 1, m);
    }
}

/// Whether `v` holds `c`.
fn contains_char(v: &Vec<char>, c: char) -> (b: bool)
    ensures
        b == v@.contains(c),
{
    let mut i: usize = 0;
    while i < v.len()
        invariant
            i <= v@.len(),
            forall|t: int| 0 <= t < i ==> v@[t] != c,
        decreases v@.len() - i,
    {
        if v[i] == c {
            assert(v@[i as int] == c);
            return true;
        }
        i = i + 1;
    }
    false
}

/// The token of a line with columns `f`, as [`fields_token`] says.
fn token_from_fields(f: &Vec<Vec<char>>) -> (r: Option<Result<Token, String>>)
    ensures
        match r {
            None => fields_token(views(f@)) is None,
            Some(Ok(t)) => fields_token(views(f@)) == Some(Ok::<TokenView, Seq<char>>(t@)),
            Some(Err(m)) => fields_token(views(f@)) == Some(Err::<TokenView, Seq<char>>(m@)),
        },
{
    let ghost fv = views(f@);
    if f.len() < 6 {
        return None;
    }
    let f0 = &f[0];
    assert(fv[0] == f0@);
    if contains_char(f0, '-') {
        return None;
    }
    match parse_u32(f0) {
        Err(k) => {
            let mut msg = String::from_str("bad ID '");
            let id_text = string_of(f0);
            msg.append(id_text.as_str());
            msg.append("': ");
            let kind_text = int_error_message(k);
            msg.append(kind_text.as_str());
            Some(Err(msg))
        },
        Ok(id) => {
            assert(fv[1] == f@[1]@ && fv[2] == f@[2]@ && fv[3] == f@[3]@ && fv[4] == f@[4]@);
            assert(fv[5] == f@[5]@);
            let feats = feats_of_chars(&f[5]);
            let head = if f.len() > 6 && !is_blank(&f[6]) {
                assert(fv[6] == f@[6]@);
                match parse_i32(&f[6]) {
                    Ok(h) => Some(h),
                    Err(_) => None,
                }
            } else {
                None
            };
            let deprel = if f.len() > 7 && !is_blank(&f[7]) {
                assert(fv[7] == f@[7]@);
                Some(string_of(&f[7]))
            } else {
                None
            };
            let t = Token {
                id: id,
                word: string_of(&f[1]),
                lemma: string_of(&f[2]),
                upostag: string_of(&f[3]),
                xpostag: string_of(&f[4]),
                feats: feats,
                head: head,
                deprel: deprel,
            };
            assert(t@ == token_of(id, fv));
            Some(Ok(t))
        },
    }
}

/// Whether `v[a..b]` starts with `# text = `.
fn has_text_prefix(v: &Vec<char>, a: usize, b: usize) -> (r: bool)
    requires
        a <= b <= v.len(),
    ensures
        r == (b - a >= 9 && v@.subrange(a as int, b as int).take(9) == text_prefix()),
{
    if b - a < 9 {
        return false;
    }
    let r = v[a] == '#' && v[a + 1] == ' ' && v[a + 2] == 't' && v[a + 3] == 'e' && v[a + 4] == 'x'
        && v[a + 5] == 't' && v[a + 6] == ' ' && v[a + 7] == '=' && v[a + 8] == ' ';
    proof {
        let w = v@.subrange(a as int, b as int).take(9);
        if r {
            assert(w =~= text_prefix());
        } else {
            if w == text_prefix() {
                assert(w[0] == v@[a as int] && w[1] == v@[a + 1] && w[2] == v@[a + 2]);
                assert(w[3] == v@[a + 3] && w[4] == v@[a + 4] && w[5] == v@[a + 5]);
                assert(w[6] == v@[a + 6] && w[7] == v@[a + 7] && w[8] == v@[a + 8]);
            }
        }
    }
    r
}

/// The view of the parser's state held in `sentences`, `tokens`, `text`.
pub open spec fn state_of(sentences: Seq<Sentence>, tokens: Seq<Token>, text: Seq<char>) -> ParseState {
    ParseState { sentences: sentence_views(sentences), tokens: token_views(tokens), text: text }
}

/// Parses CoNLL-U output from UDPipe.
///
/// Lines are trimmed. An empty line ends the current sentence if it has a
/// token; `# text = ...` sets the text of the current sentence; other
/// comments are ignored; a token line with fewer than six columns, or
/// whose ID holds `-`, is skipped; a token line whose ID is not a `u32`
/// is an error. A sentence still open at the end of the input is kept.
pub fn parse_conllu(input: &str) -> (r: Result<Vec<Sentence>, UdpipelineError>)
    ensures
        match r {
            Ok(v) => spec_parse_conllu(input@) == Ok::<Seq<SentenceView>, Seq<char>>(
                sentence_views(v@),
            ),
            Err(e) => exists|m: String|
                e == UdpipelineError::ParseError(m) && spec_parse_conllu(input@) == Err::<
                    Seq<SentenceView>,
                    Seq<char>,
                >(m@),
        },
{
    let chars = chars_of(input);
    let lines = split_range(&chars, 0, chars.len(), '\n');
    proof {
        assert(chars@.subrange(0, chars@.len() as int) =~= input@);
    }
    let ghost lv = views(lines@);
    let mut sentences: Vec<Sentence> = Vec::new();
    let mut tokens: Vec<Token> = Vec::new();
    let mut text = String::new();
    let mut i: usize = 0;
    proof {
        assert(lv.take(0) =~= Seq::<Seq<char>>::empty());
        assert(sentence_views(sentences@) =~= Seq::<SentenceView>::empty());
        assert(token_views(tokens@) =~= Seq::<TokenView>::empty());
        assert(state_of(sentences@, tokens@, text@) =~= initial_state());
    }
    while i < lines.len()
        invariant
            i <= lines@.len(),
            lv == views(lines@),
            lv == split(input@, '\n'),
            run_lines(lv.take(i as int)) == Ok::<ParseState, Seq<char>>(
                state_of(sentences@, tokens@, text@),
            ),
        decreases lines@.len() - i,
    {
        let line = &lines[i];
        let ghost st = state_of(sentences@, tokens@, text@);
        proof {
            assert(lv.take(i + 1).drop_last() =~= lv.take(i as int));
            assert(lv.take(i + 1).last() == line@);
            assert(line@.subrange(0, line@.len() as int) =~= line@);
        }
        let (a, b) = trim_bounds(line, 0, line.len());
        let ghost tl = line@.subrange(a as int, b as int);
        if a == b {
            if tokens.len() > 0 {
                let ghost old_sentences = sentences@;
                let mut done_tokens: Vec<Token> = Vec::new();
                std::mem::swap(&mut done_tokens, &mut tokens);
                let mut done_text = String::new();
                std::mem::swap(&mut done_text, &mut text);
                let s = Sentence { text: done_text, tokens: done_tokens };
                sentences.push(s);
                proof {
                    assert(sentence_views(sentences@) =~= sentence_views(old_sentences).push(s@));
                    assert(token_views(tokens@) =~= Seq::<TokenView>::empty());
                    assert(step(st, line@) == Ok::<ParseState, Seq<char>>(state_of(sentences@, tokens@, text@)));
                }
            } else {
                assert(token_views(tokens@) =~= Seq::<TokenView>::empty());
                assert(step(st, line@) == Ok::<ParseState, Seq<char>>(state_of(sentences@, tokens@, text@)));
            }
        } else if line[a] == '#' {
            assert(tl[0] == line@[a as int]);
            if has_text_prefix(line, a, b) {
                text = string_of_range(line, a + 9, b);
                proof {
                    assert(line@.subrange(a + 9, b as int) =~= tl.skip(9));
                }
            }
            assert(step(st, line@) == Ok::<ParseState, Seq<char>>(state_of(sentences@, tokens@, text@)));
        } else {
            assert(tl[0] == line@[a as int]);
            let fields = split_range(line, a, b, '\t');
            match token_from_fields(&fields) {
                None => {},
                Some(Err(m)) => {
                    proof {
                        lemma_run_lines_err(lv, i + 1, m@);
                    }
                    return Err(UdpipelineError::ParseError(m));
                },
                Some(Ok(t)) => {
                    let ghost old_tokens = tokens@;
                    tokens.push(t);
                    proof {
                        assert(token_views(tokens@) =~= token_views(old_tokens).push(t@));
                    }
                },
            }
            assert(step(st, line@) == Ok::<ParseState, Seq<char>>(state_of(sentences@, tokens@, text@)));
        }
        i = i + 1;
    }
    proof {
        assert(lv.take(lines@.len() as int) =~= lv);
    }
    if tokens.len() > 0 {
        let ghost old_sentences = sentences@;
        let ghost st = state_of(sentences@, tokens@, text@);
        let s = Sentence { text: text, tokens: tokens };
        sentences.push(s);
        proof {
            assert(sentence_views(sentences@) =~= sentence_views(old_sentences).push(s@));
            assert(sentence_views(sentences@) == finish(st));
        }
    }
    Ok(sentences)
}

// ---------------------------------------------------------------------
// Laws.
// ---------------------------------------------------------------------

/// Every sentence of `s` has a token.
pub open spec fn all_have_tokens(s: Seq<SentenceView>) -> bool {
    forall|i: int| 0 <= i < s.len() ==> #[trigger] s[i].tokens.len() > 0
}

/// Every sentence of the state has a token.
pub open spec fn sentences_nonempty(st: ParseState) -> bool {
    forall|i: int| 0 <= i < st.sentences.len() ==> #[trigger] st.sentences[i].tokens.len() > 0
}

proof fn lemma_run_lines_nonempty(lines: Seq<Seq<char>>)
    ensures
        run_lines(lines) matches Ok(st) ==> sentences_nonempty(st),
    decreases lines.len(),
{
    if lines.len() > 0 {
        lemma_run_lines_nonempty(lines.drop_last());
        if let Ok(st) = run_lines(lines.drop_last()) {
            if let Ok(st2) = step(st, lines.last()) {
                let line = trim(lines.last());
                if line.len() == 0 && st.tokens.len() > 0 {
                    assert(st2.sentences == st.sentences.push(
                        SentenceView { text: st.text, tokens: st.tokens },
                    ));
                } else {
                    assert(st2.sentences == st.sentences);
                }
                assert forall|i: int| 0 <= i < st2.sentences.len() implies #[trigger] st2.sentences[i].tokens.len() > 0 by {
                    if i < st.sentences.len() {
                        assert(st2.sentences[i] == st.sentences[i]);
                        assert(st.sentences[i].tokens.len() > 0);
                    }
                }
            }
        }
    }
}

/// A parsed sentence always has at least one token: an empty line only
/// ends a sentence that has one, and so does the end of the input.
pub proof fn law_sentences_have_tokens(input: Seq<char>)
    ensures
        spec_parse_conllu(input) matches Ok(sentences) ==> all_have_tokens(sentences),
{
    lemma_run_lines_nonempty(split(input, '\n'));
    if let Ok(st) = run_lines(split(input, '\n')) {
        let out = finish(st);
        assert forall|i: int| 0 <= i < out.len() implies #[trigger] out[i].tokens.len() > 0 by {
            if i < st.sentences.len() {
                assert(out[i] == st.sentences[i]);
                assert(st.sentences[i].tokens.len() > 0);
            } else {
                assert(out[i] == SentenceView { text: st.text, tokens: st.tokens });
            }
        }
        assert(all_have_tokens(out));
        assert(spec_parse_conllu(input) == Ok::<Seq<SentenceView>, Seq<char>>(out));
    }
}

proof fn lemma_split_push_sep(s: Seq<char>, sep: char, cur: Seq<char>)
    ensures
        crate::text::split_from(s.push(sep), sep, cur) == crate::text::split_from(s, sep, cur).push(
            Seq::<char>::empty(),
        ),
    decreases s.len(),
{
    if s.len() == 0 {
        let t = s.push(sep);
        assert(t.drop_first() =~= Seq::<char>::empty());
        assert(t[0] == sep);
        assert(crate::text::split_from(t.drop_first(), sep, Seq::empty()) == seq![
            Seq::<char>::empty(),
        ]);
        assert(crate::text::split_from(s, sep, cur) == seq![cur]);
        assert(crate::text::split_from(t, sep, cur) =~= seq![cur] + seq![Seq::<char>::empty()]);
    } else {
        assert(s.push(sep).drop_first() =~= s.drop_first().push(sep));
        if s[0] == sep {
            lemma_split_push_sep(s.drop_first(), sep, Seq::empty());
            assert(crate::text::split_from(s.push(sep), sep, cur) =~= crate::text::split_from(
                s,
                sep,
                cur,
            ).push(Seq::<char>::empty()));
        } else {
            lemma_split_push_sep(s.drop_first(), sep, cur.push(s[0]));
        }
    }
}

/// A newline at the end of the input changes nothing: the sentence still
/// open at the end is kept either way.
pub proof fn law_trailing_newline(input: Seq<char>)
    ensures
        spec_parse_conllu(input.push('\n')) == spec_parse_conllu(input),
{
    lemma_split_push_sep(input, '\n', Seq::empty());
    let lines = split(input, '\n');
    let more = split(input.push('\n'), '\n');
    assert(more == lines.push(Seq::<char>::empty()));
    assert(more.drop_last() =~= lines);
    assert(trim(Seq::<char>::empty()) =~= Seq::<char>::empty());
    if let Ok(st) = run_lines(lines) {
        if let Ok(st2) = step(st, Seq::<char>::empty()) {
            assert(finish(st2) =~= finish(st));
        }
    }
}

proof fn lemma_split_concat(x: Seq<char>, sep: char, y: Seq<char>, cur: Seq<char>)
    ensures
        crate::text::split_from(x + seq![sep] + y, sep, cur) == crate::text::split_from(x, sep, cur)
            + crate::text::split_from(y, sep, Seq::empty()),
    decreases x.len(),
{
    let t = x + seq![sep] + y;
    if x.len() == 0 {
        assert(t =~= seq![sep] + y);
        assert(t[0] == sep);
        assert(t.drop_first() =~= y);
    } else {
        assert(t[0] == x[0]);
        assert(t.drop_first() =~= x.drop_first() + seq![sep] + y);
        if x[0] == sep {
            lemma_split_concat(x.drop_first(), sep, y, Seq::empty());
            assert(crate::text::split_from(t, sep, cur) =~= crate::text::split_from(x, sep, cur)
                + crate::text::split_from(y, sep, Seq::empty()));
        } else {
            lemma_split_concat(x.drop_first(), sep, y, cur.push(x[0]));
        }
    }
}

/// The parser's state after the lines `lines` read from `st`, or the
/// first error.
pub open spec fn run_from(st: ParseState, lines: Seq<Seq<char>>) -> Result<ParseState, Seq<char>>
    decreases lines.len(),
{
    if lines.len() == 0 {
        Ok(st)
    } else {
        match run_from(st, lines.drop_last()) {
            Ok(s) => step(s, lines.last()),
            Err(m) => Err(m),
        }
    }
}

proof fn lemma_run_lines_from(lines: Seq<Seq<char>>)
    ensures
        run_lines(lines) == run_from(initial_state(), lines),
    decreases lines.len(),
{
    if lines.len() > 0 {
        lemma_run_lines_from(lines.drop_last());
    }
}

proof fn lemma_run_from_concat(st: ParseState, l1: Seq<Seq<char>>, l2: Seq<Seq<char>>)
    ensures
        run_from(st, l1 + l2) == match run_from(st, l1) {
            Ok(s1) => run_from(s1, l2),
            Err(m) => Err(m),
        },
    decreases l2.len(),
{
    if l2.len() == 0 {
        assert(l1 + l2 =~= l1);
    } else {
        assert((l1 + l2).drop_last() =~= l1 + l2.drop_last());
        assert((l1 + l2).last() == l2.last());
        lemma_run_from_concat(st, l1, l2.drop_last());
    }
}

/// The state `st` behind the finished sentences `done`.
pub open spec fn shifted(done: Seq<SentenceView>, st: ParseState) -> ParseState {
    ParseState { sentences: done + st.sentences, tokens: st.tokens, text: st.text }
}

proof fn lemma_run_from_shifted(done: Seq<SentenceView>, st: ParseState, lines: Seq<Seq<char>>)
    ensures
        run_from(shifted(done, st), lines) == match run_from(st, lines) {
            Ok(s) => Ok::<ParseState, Seq<char>>(shifted(done, s)),
            Err(m) => Err(m),
        },
    decreases lines.len(),
{
    if lines.len() > 0 {
        lemma_run_from_shifted(done, st, lines.drop_last());
        if let Ok(s) = run_from(st, lines.drop_last()) {
            let raw = lines.last();
            let line = trim(raw);
            if line.len() == 0 && s.tokens.len() > 0 {
                assert(finish(shifted(done, s)) =~= done + finish(s));
            } else if line.len() == 0 {
                assert(finish(shifted(done, s)) =~= done + finish(s));
            }
            match step(s, raw) {
                Ok(s2) => {
                    assert(step(shifted(done, s), raw) == Ok::<ParseState, Seq<char>>(
                        shifted(done, s2),
                    ));
                },
                Err(m) => {},
            }
        }
    }
}

/// Whether reading `a` leaves no sentence text waiting: after its last
/// token line, `a` has no `# text = ` comment that is not yet followed by
/// a token of its own.
pub open spec fn leaves_no_pending_text(a: Seq<char>) -> bool {
    run_lines(split(a, '\n')) matches Ok(st) ==> (st.tokens.len() > 0 || st.text.len() == 0)
}

/// Two inputs joined by a blank line parse as the sentences of the first
/// followed by those of the second, provided the first leaves no sentence
/// text waiting (such a text would go to the second's first sentence).
pub proof fn law_blank_line_concatenates(a: Seq<char>, b: Seq<char>)
    requires
        spec_parse_conllu(a) is Ok,
        spec_parse_conllu(b) is Ok,
        leaves_no_pending_text(a),
    ensures
        spec_parse_conllu(a + seq!['\n', '\n'] + b) == Ok::<Seq<SentenceView>, Seq<char>>(
            spec_parse_conllu(a)->Ok_0 + spec_parse_conllu(b)->Ok_0,
        ),
{
    let e = Seq::<char>::empty();
    let la = split(a, '\n');
    let lb = split(b, '\n');
    let input = a + seq!['\n', '\n'] + b;
    assert(input =~= a + seq!['\n'] + (seq!['\n'] + b));
    lemma_split_concat(a, '\n', seq!['\n'] + b, e);
    let t = seq!['\n'] + b;
    assert(t[0] == '\n');
    assert(t.drop_first() =~= b);
    assert(crate::text::split_from(t, '\n', e) == seq![e] + lb);
    let lines = split(input, '\n');
    assert(lines == la + (seq![e] + lb));
    assert(lines =~= (la + seq![e]) + lb);
    lemma_run_lines_from(la);
    lemma_run_lines_from(lb);
    lemma_run_lines_from(lines);
    lemma_run_from_concat(initial_state(), la + seq![e], lb);
    let sta = run_lines(la)->Ok_0;
    let stb = run_lines(lb)->Ok_0;
    assert((la + seq![e]).drop_last() =~= la);
    assert(trim(e) =~= e);
    assert(run_lines(la) is Ok);
    assert(sta.tokens.len() > 0 || sta.text.len() == 0);
    if sta.tokens.len() == 0 {
        assert(sta.text =~= e);
    }
    let s0 = ParseState { sentences: finish(sta), tokens: Seq::empty(), text: Seq::empty() };
    assert(step(sta, e) == Ok::<ParseState, Seq<char>>(s0));
    assert(run_from(initial_state(), la + seq![e]) == Ok::<ParseState, Seq<char>>(s0));
    assert(shifted(finish(sta), initial_state()) =~= s0);
    lemma_run_from_shifted(finish(sta), initial_state(), lb);
    assert(run_from(s0, lb) == Ok::<ParseState, Seq<char>>(shifted(finish(sta), stb)));
    assert(finish(shifted(finish(sta), stb)) =~= finish(sta) + finish(stb));
}

/// Whether the input line `raw` gives a token.
pub open spec fn is_token_line(raw: Seq<char>) -> bool {
    let line = trim(raw);
    &&& line.len() > 0
    &&& line[0] != '#'
    &&& fields_token(split(line, '\t')) matches Some(Ok(_))
}

/// Whether the input line `raw` is a `# text = ` comment.
pub open spec fn is_text_line(raw: Seq<char>) -> bool {
    let line = trim(raw);
    line.len() >= 9 && line[0] == '#' && line.take(9) == text_prefix()
}

/// Every `# text = ` comment of `a` is followed, later in `a`, by a line
/// that gives a token.
pub open spec fn text_lines_followed_by_tokens(a: Seq<char>) -> bool {
    let l = split(a, '\n');
    forall|i: int|
        0 <= i < l.len() && #[trigger] is_text_line(l[i]) ==> exists|j: int|
            i < j < l.len() && #[trigger] is_token_line(l[j])
}

proof fn lemma_pending_text(l: Seq<Seq<char>>)
    ensures
        run_lines(l) matches Ok(st) && st.tokens.len() == 0 && st.text.len() > 0 ==> exists|i: int|
            0 <= i < l.len() && #[trigger] is_text_line(l[i]) && forall|j: int|
                i < j < l.len() ==> !#[trigger] is_token_line(l[j]),
    decreases l.len(),
{
    if l.len() > 0 {
        let p = l.drop_last();
        lemma_pending_text(p);
        if let Ok(st0) = run_lines(p) {
            let raw = l.last();
            let line = trim(raw);
            if let Ok(st) = step(st0, raw) {
                if st.tokens.len() == 0 && st.text.len() > 0 {
                    let n = l.len() - 1;
                    assert(l[n] == raw);
                    if line.len() > 0 && line[0] == '#' && line.len() >= 9 && line.take(9)
                        == text_prefix() {
                        assert(is_text_line(l[n]));
                    } else {
                        assert(!is_token_line(raw));
                        assert(st0.tokens.len() == 0 && st0.text.len() > 0);
                        let i = choose|i: int|
                            0 <= i < p.len() && #[trigger] is_text_line(p[i]) && forall|j: int|
                                i < j < p.len() ==> !#[trigger] is_token_line(p[j]);
                        assert(l[i] == p[i]);
                        assert forall|j: int| i < j < l.len() implies !#[trigger] is_token_line(
                            l[j],
                        ) by {
                            if j < p.len() {
                                assert(l[j] == p[j]);
                            }
                        }
                    }
                }
            }
        }
    }
}

/// The law of [`law_blank_line_concatenates`] under a condition on the
/// lines of the first input: when each of its `# text = ` comments is
/// followed by a token line, it leaves no sentence text waiting.
pub proof fn law_blank_line_concatenates_when_texts_have_tokens(a: Seq<char>, b: Seq<char>)
    requires
        spec_parse_conllu(a) is Ok,
        spec_parse_conllu(b) is Ok,
        text_lines_followed_by_tokens(a),
    ensures
        leaves_no_pending_text(a),
        spec_parse_conllu(a + seq!['\n', '\n'] + b) == Ok::<Seq<SentenceView>, Seq<char>>(
            spec_parse_conllu(a)->Ok_0 + spec_parse_conllu(b)->Ok_0,
        ),
{
    let l = split(a, '\n');
    lemma_pending_text(l);
    if let Ok(st) = run_lines(l) {
        if st.tokens.len() == 0 && st.text.len() > 0 {
            let i = choose|i: int|
                0 <= i < l.len() && #[trigger] is_text_line(l[i]) && forall|j: int|
                    i < j < l.len() ==> !#[trigger] is_token_line(l[j]);
            let j = choose|j: int| i < j < l.len() && #[trigger] is_token_line(l[j]);
            assert(false);
        }
    }
    law_blank_line_concatenates(a, b);
}

proof fn lemma_split_no_sep(s: Seq<char>, sep: char, cur: Seq<char>)
    requires
        !s.contains(sep),
    ensures
        crate::text::split_from(s, sep, cur) == seq![cur + s],
    decreases s.len(),
{
    if s.len() == 0 {
        assert(cur + s =~= cur);
    } else {
        assert(s[0] != sep);
        assert(!s.drop_first().contains(sep)) by {
            if s.drop_first().contains(sep) {
                let k = choose|k: int| 0 <= k < s.drop_first().len() && s.drop_first()[k] == sep;
                assert(s[k + 1] == sep);
            }
        }
        lemma_split_no_sep(s.drop_first(), sep, cur.push(s[0]));
        assert(cur.push(s[0]) + s.drop_first() =~= cur + s);
    }
}

/// The token that a token line `raw` gives, read in state `st`, as the
/// line's columns say: ID from the first tab-separated field, then form,
/// lemma, universal and language-specific part of speech from the second
/// to the fifth.
proof fn lemma_token_line_step(st: ParseState, raw: Seq<char>)
    requires
        trim(raw).len() > 0,
        trim(raw)[0] != '#',
        split(trim(raw), '\t').len() >= 6,
        !split(trim(raw), '\t')[0].contains('-'),
        spec_parse_u32(split(trim(raw), '\t')[0]) is Ok,
    ensures
        step(st, raw) matches Ok(st2) && st2.sentences == st.sentences && st2.tokens.len()
            == st.tokens.len() + 1 && st2.tokens.drop_last() == st.tokens && ({
            let f = split(trim(raw), '\t');
            let t = st2.tokens.last();
            &&& t.id == spec_parse_u32(f[0])->Ok_0
            &&& t.word == f[1]
            &&& t.lemma == f[2]
            &&& t.upostag == f[3]
            &&& t.xpostag == f[4]
        }),
{
    let st2 = step(st, raw)->Ok_0;
    assert(st2.tokens.drop_last() =~= st.tokens);
}

/// A token line gives a token whose columns are the line's tab-separated
/// fields: the ID is the first field read as a number, and the form, the
/// lemma, the universal part of speech (UPOS) and the language-specific
/// one (XPOS) are the second to the fifth fields. Read alone, the line is
/// one sentence of that one token; read after any input that parses, its
/// token is the last token of the last sentence.
pub proof fn law_token_line_columns(a: Seq<char>, raw: Seq<char>)
    requires
        !raw.contains('\n'),
        trim(raw).len() > 0,
        trim(raw)[0] != '#',
        split(trim(raw), '\t').len() >= 6,
        !split(trim(raw), '\t')[0].contains('-'),
        spec_parse_u32(split(trim(raw), '\t')[0]) is Ok,
    ensures
        ({
            let f = split(trim(raw), '\t');
            &&& spec_parse_conllu(raw) matches Ok(ss) && ss.len() == 1 && ss[0].tokens.len() == 1
                && ss[0].tokens[0].id == spec_parse_u32(f[0])->Ok_0 && ss[0].tokens[0].word == f[1]
                && ss[0].tokens[0].lemma == f[2] && ss[0].tokens[0].upostag == f[3]
                && ss[0].tokens[0].xpostag == f[4]
            &&& spec_parse_conllu(a) is Ok ==> (spec_parse_conllu(a + seq!['\n'] + raw) matches Ok(
                ss,
            ) && ss.len() > 0 && ss.last().tokens.len() > 0 && ss.last().tokens.last().id
                == spec_parse_u32(f[0])->Ok_0 && ss.last().tokens.last().word == f[1]
                && ss.last().tokens.last().lemma == f[2] && ss.last().tokens.last().upostag == f[3]
                && ss.last().tokens.last().xpostag == f[4])
        }),
{
    let e = Seq::<char>::empty();
    lemma_split_no_sep(raw, '\n', e);
    assert(e + raw =~= raw);
    let lr = split(raw, '\n');
    assert(lr == seq![raw]);
    assert(lr.drop_last() =~= Seq::<Seq<char>>::empty());
    lemma_token_line_step(initial_state(), raw);
    assert(lr.len() == 1 && lr.last() == raw);
    assert(run_lines(lr.drop_last()) == Ok::<ParseState, Seq<char>>(initial_state()));
    assert(run_lines(lr) == step(initial_state(), raw));
    let s1 = step(initial_state(), raw)->Ok_0;
    assert(s1.tokens.len() == 1);
    assert(s1.sentences.len() == 0);
    let out1 = finish(s1);
    assert(out1 == s1.sentences.push(SentenceView { text: s1.text, tokens: s1.tokens }));
    assert(out1.len() == 1);
    assert(out1[0].tokens == s1.tokens);
    assert(s1.tokens[0] == s1.tokens.last());
    assert(spec_parse_conllu(raw) == Ok::<Seq<SentenceView>, Seq<char>>(out1));
    if spec_parse_conllu(a) is Ok {
        let la = split(a, '\n');
        lemma_split_concat(a, '\n', raw, e);
        let l = split(a + seq!['\n'] + raw, '\n');
        assert(l == la + seq![raw]);
        assert(l.drop_last() =~= la);
        assert(l.last() == raw);
        assert(run_lines(la) is Ok);
        let st = run_lines(la)->Ok_0;
        lemma_token_line_step(st, raw);
        assert(run_lines(l) == step(st, raw));
        let s2 = step(st, raw)->Ok_0;
        let out = finish(s2);
        assert(out == s2.sentences.push(SentenceView { text: s2.text, tokens: s2.tokens }));
        assert(out.last().tokens == s2.tokens);
        assert(spec_parse_conllu(a + seq!['\n'] + raw) == Ok::<Seq<SentenceView>, Seq<char>>(out));
    }
}

} // verus!
