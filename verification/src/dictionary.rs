//! Dictionary entries and the rules of dictionary lookups: which
//! backend a configuration selects, how a looked-up word is cleaned, how
//! the grammemes of a form and its lemma make an entry, how grammeme
//! codes are resolved through a cache, and which results a batch keeps.
//!
//! The database queries themselves are the caller's.

use vstd::prelude::*;
use vstd::hash_map::StringHashMap;

use crate::error::{concat_str, CoreError};
use crate::sorting::string_views;
use crate::text::{chars_of, decimal, push_decimal, str_eq, string_of_range};

verus! {

// ---------------------------------------------------------------------
// Entries.
// ---------------------------------------------------------------------

/// A grammeme: its code (`sing`), name (`единственное число`) and alias (`ед`).
#[derive(Debug, Clone)]
pub struct Grammeme {
    pub code: String,
    pub name: String,
    pub alias: String,
}

/// The mathematical content of a [`Grammeme`].
pub struct GrammemeView {
    pub code: Seq<char>,
    pub name: Seq<char>,
    pub alias: Seq<char>,
}

impl View for Grammeme {
    type V = GrammemeView;

    open spec fn view(&self) -> GrammemeView {
        GrammemeView { code: self.code@, name: self.name@, alias: self.alias@ }
    }
}

impl Grammeme {
    /// A copy of this grammeme.
    pub fn duplicate(&self) -> (g: Grammeme)
        ensures
            g@ == self@,
    {
        Grammeme { code: self.code.clone(), name: self.name.clone(), alias: self.alias.clone() }
    }
}

pub open spec fn grammeme_views(v: Seq<Grammeme>) -> Seq<GrammemeView> {
    v.map_values(|g: Grammeme| g@)
}

/// A single morphological entry from OpenCorpora.
#[derive(Debug, Clone)]
pub struct DictEntry {
    pub form: String,
    pub lemma: String,
    /// Part of speech (NOUN, VERB, ...).
    pub pos: Option<String>,
    /// Grammemes of the form and of the lemma.
    pub grammemes: Vec<Grammeme>,
}

/// The mathematical content of a [`DictEntry`].
pub struct DictEntryView {
    pub form: Seq<char>,
    pub lemma: Seq<char>,
    pub pos: Option<Seq<char>>,
    pub grammemes: Seq<GrammemeView>,
}

impl View for DictEntry {
    type V = DictEntryView;

    open spec fn view(&self) -> DictEntryView {
        DictEntryView {
            form: self.form@,
            lemma: self.lemma@,
            pos: match self.pos {
                Some(p) => Some(p@),
                None => None,
            },
            grammemes: grammeme_views(self.grammemes@),
        }
    }
}

impl DictEntry {
    /// A copy of this entry.
    pub fn duplicate(&self) -> (e: DictEntry)
        ensures
            e@ == self@,
    {
        let mut grammemes: Vec<Grammeme> = Vec::new();
        let mut i: usize = 0;
        while i < self.grammemes.len()
            invariant
                i <= self.grammemes@.len(),
                grammeme_views(grammemes@) == grammeme_views(self.grammemes@).take(i as int),
            decreases self.grammemes@.len() - i,
        {
            let ghost before = grammemes@;
            grammemes.push(self.grammemes[i].duplicate());
            proof {
                assert(grammeme_views(grammemes@) =~= grammeme_views(before).push(
                    self.grammemes@[i as int]@,
                ));
                assert(grammeme_views(self.grammemes@).take(i + 1) =~= grammeme_views(
                    self.grammemes@,
                ).take(i as int).push(self.grammemes@[i as int]@));
            }
            i = i + 1;
        }
        proof {
            assert(grammeme_views(self.grammemes@).take(self.grammemes@.len() as int)
                =~= grammeme_views(self.grammemes@));
        }
        let pos = match &self.pos {
            Some(p) => Some(p.clone()),
            None => None,
        };
        DictEntry { form: self.form.clone(), lemma: self.lemma.clone(), pos, grammemes }
    }
}

pub open spec fn entry_views(v: Seq<DictEntry>) -> Seq<DictEntryView> {
    v.map_values(|e: DictEntry| e@)
}

/// Whether a grammeme code names a part of speech.
pub open spec fn spec_is_pos(code: Seq<char>) -> bool {
    ||| code == "NOUN"@
    ||| code == "VERB"@
    ||| code == "ADJF"@
    ||| code == "ADJS"@
    ||| code == "ADVB"@
    ||| code == "COMP"@
    ||| code == "PRTF"@
    ||| code == "PRTS"@
    ||| code == "GRND"@
    ||| code == "INFN"@
    ||| code == "PRED"@
    ||| code == "PREP"@
    ||| code == "CONJ"@
    ||| code == "PRCL"@
    ||| code == "INTJ"@
    ||| code == "NUMR"@
    ||| code == "NPRO"@
    ||| code == "ADV"@
}

/// Whether a grammeme code names a part of speech.
pub fn is_pos(code: &str) -> (b: bool)
    ensures
        b == spec_is_pos(code@),
{
    str_eq(code, "NOUN") || str_eq(code, "VERB") || str_eq(code, "ADJF") || str_eq(code, "ADJS")
        || str_eq(code, "ADVB") || str_eq(code, "COMP") || str_eq(code, "PRTF") || str_eq(
        code,
        "PRTS",
    ) || str_eq(code, "GRND") || str_eq(code, "INFN") || str_eq(code, "PRED") || str_eq(
        code,
        "PREP",
    ) || str_eq(code, "CONJ") || str_eq(code, "PRCL") || str_eq(code, "INTJ") || str_eq(
        code,
        "NUMR",
    ) || str_eq(code, "NPRO") || str_eq(code, "ADV")
}

/// The code of the first grammeme of `gs` that is a part of speech.
pub open spec fn first_pos(gs: Seq<GrammemeView>) -> Option<Seq<char>>
    decreases gs.len(),
{
    if gs.len() == 0 {
        None
    } else if spec_is_pos(gs[0].code) {
        Some(gs[0].code)
    } else {
        first_pos(gs.drop_first())
    }
}

/// The grammemes of `gs` that are not parts of speech, in order.
pub open spec fn without_pos(gs: Seq<GrammemeView>) -> Seq<GrammemeView>
    decreases gs.len(),
{
    if gs.len() == 0 {
        Seq::empty()
    } else if spec_is_pos(gs.last().code) {
        without_pos(gs.drop_last())
    } else {
        without_pos(gs.drop_last()).push(gs.last())
    }
}

/// The entry for a form and its lemma: the part of speech is the first
/// lemma grammeme that names one; the grammemes are the other lemma
/// grammemes followed by the form's.
pub open spec fn spec_entry(
    form: Seq<char>,
    lemma: Seq<char>,
    form_grammemes: Seq<GrammemeView>,
    lemma_grammemes: Seq<GrammemeView>,
) -> DictEntryView {
    DictEntryView {
        form: form,
        lemma: lemma,
        pos: first_pos(lemma_grammemes),
        grammemes: without_pos(lemma_grammemes) + form_grammemes,
    }
}

/// The code of the first grammeme of `gs` that names a part of speech.
fn first_pos_code(gs: &Vec<Grammeme>) -> (r: Option<String>)
    ensures
        match r {
            Some(p) => first_pos(grammeme_views(gs@)) == Some(p@),
            None => first_pos(grammeme_views(gs@)) is None,
        },
{
    let ghost lg = grammeme_views(gs@);
    let mut i: usize = 0;
    proof {
        assert(lg.skip(0) =~= lg);
    }
    while i < gs.len()
        invariant
            i <= gs@.len(),
            lg == grammeme_views(gs@),
            first_pos(lg) == first_pos(lg.skip(i as int)),
        decreases gs@.len() - i,
    {
        proof {
            assert(lg.skip(i as int)[0] == gs@[i as int]@);
            assert(lg.skip(i as int).drop_first() =~= lg.skip(i + 1));
        }
        if is_pos(gs[i].code.as_str()) {
            return Some(gs[i].code.clone());
        }
        i = i + 1;
    }
    proof {
        assert(lg.skip(i as int).len() == 0);
    }
    None
}

/// Builds the entry of a form and its lemma from their grammemes.
pub fn build_entry(
    form: String,
    lemma: String,
    form_grammemes: Vec<Grammeme>,
    lemma_grammemes: Vec<Grammeme>,
) -> (e: DictEntry)
    ensures
        e@ == spec_entry(
            form@,
            lemma@,
            grammeme_views(form_grammemes@),
            grammeme_views(lemma_grammemes@),
        ),
{
    let ghost lg = grammeme_views(lemma_grammemes@);
    let pos = first_pos_code(&lemma_grammemes);
    let mut all: Vec<Grammeme> = Vec::new();
    let mut k: usize = 0;
    while k < lemma_grammemes.len()
        invariant
            k <= lemma_grammemes@.len(),
            lg == grammeme_views(lemma_grammemes@),
            grammeme_views(all@) == without_pos(lg.take(k as int)),
        decreases lemma_grammemes@.len() - k,
    {
        proof {
            assert(lg.take(k + 1).drop_last() =~= lg.take(k as int));
            assert(lg.take(k + 1).last() == lemma_grammemes@[k as int]@);
        }
        if !is_pos(lemma_grammemes[k].code.as_str()) {
            let ghost before = all@;
            all.push(lemma_grammemes[k].duplicate());
            proof {
                assert(grammeme_views(all@) =~= grammeme_views(before).push(lemma_grammemes@[k as int]@));
            }
        }
        k = k + 1;
    }
    proof {
        assert(lg.take(lemma_grammemes@.len() as int) =~= lg);
    }
    let ghost before = all@;
    let mut form_grammemes = form_grammemes;
    let ghost fg = form_grammemes@;
    all.append(&mut form_grammemes);
    proof {
        assert(grammeme_views(all@) =~= grammeme_views(before) + grammeme_views(fg));
    }
    let e = DictEntry { form, lemma, pos, grammemes: all };
    proof {
        assert(e@.pos == first_pos(lg));
    }
    e
}

// ---------------------------------------------------------------------
// Cleaning a looked-up word.
// ---------------------------------------------------------------------

/// `s` in lower case, as `str::to_lowercase` gives it.
pub uninterp spec fn lowercase(s: Seq<char>) -> Seq<char>;

/// `str::to_lowercase`: the lower-case form of `s`, by Unicode's rules.
#[verifier::external_body]
fn to_lowercase(s: &str) -> (r: String)
    ensures
        r@ == lowercase(s@),
{
    s.to_lowercase()
}

/// Whether `c` is alphanumeric, as `char::is_alphanumeric` says.
pub uninterp spec fn alphanumeric(c: char) -> bool;

/// `char::is_alphanumeric`: whether `c` is alphabetic or numeric in
/// Unicode's sense.
#[verifier::external_body]
fn is_alphanumeric(c: char) -> (b: bool)
    ensures
        b == alphanumeric(c),
{
    c.is_alphanumeric()
}

/// The characters that stay at the ends of a cleaned word.
pub open spec fn kept(c: char) -> bool {
    alphanumeric(c) || c == '-'
}

/// `s` without the leading characters that are not kept.
pub open spec fn strip_start(s: Seq<char>) -> Seq<char>
    decreases s.len(),
{
    if s.len() > 0 && !kept(s[0]) {
        strip_start(s.drop_first())
    } else {
        s
    }
}

/// `s` without the trailing characters that are not kept.
pub open spec fn strip_end(s: Seq<char>) -> Seq<char>
    decreases s.len(),
{
    if s.len() > 0 && !kept(s.last()) {
        strip_end(s.drop_last())
    } else {
        s
    }
}

/// `s` without the characters at either end that are neither
/// alphanumeric nor `-`.
pub open spec fn strip_unkept(s: Seq<char>) -> Seq<char> {
    strip_end(strip_start(s))
}

/// `s` without the characters at either end that are neither
/// alphanumeric nor `-`.
pub fn strip_word(s: &str) -> (r: String)
    ensures
        r@ == strip_unkept(s@),
{
    let v = chars_of(s);
    let n = v.len();
    let mut a: usize = 0;
    proof {
        assert(v@.subrange(0, n as int) =~= v@);
    }
    while a < n && !is_alphanumeric(v[a]) && v[a] != '-'
        invariant
            a <= n == v@.len(),
            strip_start(v@) == strip_start(v@.subrange(a as int, n as int)),
        decreases n - a,
    {
        proof {
            let u = v@.subrange(a as int, n as int);
            assert(u[0] == v@[a as int]);
            assert(u.drop_first() =~= v@.subrange(a + 1, n as int));
        }
        a = a + 1;
    }
    proof {
        let u = v@.subrange(a as int, n as int);
        if a < n {
            assert(u[0] == v@[a as int]);
        }
        assert(strip_start(u) == u);
    }
    let ghost ts = v@.subrange(a as int, n as int);
    let mut b: usize = n;
    while b > a && !is_alphanumeric(v[b - 1]) && v[b - 1] != '-'
        invariant
            a <= b <= n == v@.len(),
            ts == v@.subrange(a as int, n as int),
            strip_end(ts) == strip_end(v@.subrange(a as int, b as int)),
        decreases b - a,
    {
        proof {
            let u = v@.subrange(a as int, b as int);
            assert(u.last() == v@[b - 1]);
            assert(u.drop_last() =~= v@.subrange(a as int, b - 1));
        }
        b = b - 1;
    }
    proof {
        let u = v@.subrange(a as int, b as int);
        if b > a {
            assert(u.last() == v@[b - 1]);
        }
        assert(strip_end(u) == u);
    }
    string_of_range(&v, a, b)
}

/// The form under which a word is looked up: lower case, without the
/// characters at either end that are neither alphanumeric nor `-`.
pub open spec fn spec_clean_word(word: Seq<char>) -> Seq<char> {
    strip_unkept(lowercase(word))
}

/// The form under which a word is looked up in the dictionary.
pub fn clean_word(word: &str) -> (r: String)
    ensures
        r@ == spec_clean_word(word@),
{
    let lower = to_lowercase(word);
    strip_word(lower.as_str())
}

// ---------------------------------------------------------------------
// Resolving grammeme codes.
// ---------------------------------------------------------------------

/// The grammemes of the cached ones among `codes`, in order.
pub open spec fn cached_of(codes: Seq<Seq<char>>, cache: Map<Seq<char>, GrammemeView>) -> Seq<
    GrammemeView,
>
    decreases codes.len(),
{
    if codes.len() == 0 {
        Seq::empty()
    } else if cache.contains_key(codes.last()) {
        cached_of(codes.drop_last(), cache).push(cache[codes.last()])
    } else {
        cached_of(codes.drop_last(), cache)
    }
}

/// The codes of `codes` that are not cached, in order.
pub open spec fn missing_of(codes: Seq<Seq<char>>, cache: Map<Seq<char>, GrammemeView>) -> Seq<
    Seq<char>,
>
    decreases codes.len(),
{
    if codes.len() == 0 {
        Seq::empty()
    } else if cache.contains_key(codes.last()) {
        missing_of(codes.drop_last(), cache)
    } else {
        missing_of(codes.drop_last(), cache).push(codes.last())
    }
}

/// The grammemes that query rows give, by code: a later row for the same
/// code overrides an earlier one.
pub open spec fn rows_by_code(rows: Seq<GrammemeView>) -> Map<Seq<char>, GrammemeView>
    decreases rows.len(),
{
    if rows.len() == 0 {
        Map::empty()
    } else {
        rows_by_code(rows.drop_last()).insert(rows.last().code, rows.last())
    }
}

/// The grammeme that resolves `code` through `found`, carrying `code`.
pub open spec fn resolved(code: Seq<char>, g: GrammemeView) -> GrammemeView {
    GrammemeView { code: code, name: g.name, alias: g.alias }
}

/// The grammemes of the codes of `missing` that `found` resolves, in
/// order; codes it does not resolve are left out.
pub open spec fn resolved_of(missing: Seq<Seq<char>>, found: Map<Seq<char>, GrammemeView>) -> Seq<
    GrammemeView,
>
    decreases missing.len(),
{
    if missing.len() == 0 {
        Seq::empty()
    } else if found.contains_key(missing.last()) {
        resolved_of(missing.drop_last(), found).push(
            resolved(missing.last(), found[missing.last()]),
        )
    } else {
        resolved_of(missing.drop_last(), found)
    }
}

/// The cache once the codes of `missing` that `found` resolves are added.
pub open spec fn cache_with(
    cache: Map<Seq<char>, GrammemeView>,
    missing: Seq<Seq<char>>,
    found: Map<Seq<char>, GrammemeView>,
) -> Map<Seq<char>, GrammemeView>
    decreases missing.len(),
{
    if missing.len() == 0 {
        cache
    } else if found.contains_key(missing.last()) {
        cache_with(cache, missing.drop_last(), found).insert(
            missing.last(),
            resolved(missing.last(), found[missing.last()]),
        )
    } else {
        cache_with(cache, missing.drop_last(), found)
    }
}

/// Grammemes already resolved during one lookup, by code.
pub struct GrammemeCache {
    map: StringHashMap<Grammeme>,
}

impl View for GrammemeCache {
    type V = Map<Seq<char>, GrammemeView>;

    closed spec fn view(&self) -> Map<Seq<char>, GrammemeView> {
        Map::new(|k: Seq<char>| self.map@.contains_key(k), |k: Seq<char>| self.map@[k]@)
    }
}

impl GrammemeCache {
    /// An empty cache.
    pub fn new() -> (c: GrammemeCache)
        ensures
            c@ == Map::<Seq<char>, GrammemeView>::empty(),
    {
        let c = GrammemeCache { map: StringHashMap::new() };
        assert(c@ =~= Map::<Seq<char>, GrammemeView>::empty());
        c
    }

    /// The grammemes of the cached codes among `codes` and the codes that
    /// are not cached, each in order.
    pub fn split_codes(&self, codes: &Vec<String>) -> (r: (Vec<Grammeme>, Vec<String>))
        ensures
            grammeme_views(r.0@) == cached_of(string_views(codes@), self@),
            string_views(r.1@) == missing_of(string_views(codes@), self@),
    {
        let ghost cv = string_views(codes@);
        let mut found: Vec<Grammeme> = Vec::new();
        let mut missing: Vec<String> = Vec::new();
        let mut i: usize = 0;
        while i < codes.len()
            invariant
                i <= codes@.len(),
                cv == string_views(codes@),
                grammeme_views(found@) == cached_of(cv.take(i as int), self@),
                string_views(missing@) == missing_of(cv.take(i as int), self@),
            decreases codes@.len() - i,
        {
            proof {
                assert(cv.take(i + 1).drop_last() =~= cv.take(i as int));
                assert(cv.take(i + 1).last() == codes@[i as int]@);
            }
            let code = &codes[i];
            match self.map.get(code.as_str()) {
                Some(g) => {
                    let ghost before = found@;
                    found.push(g.duplicate());
                    proof {
                        assert(grammeme_views(found@) =~= grammeme_views(before).push(g@));
                    }
                },
                None => {
                    let ghost before = missing@;
                    missing.push(code.clone());
                    proof {
                        assert(string_views(missing@) =~= string_views(before).push(code@));
                    }
                },
            }
            i = i + 1;
        }
        proof {
            assert(cv.take(codes@.len() as int) =~= cv);
        }
        (found, missing)
    }

    /// Resolves the codes of `missing` through the query rows `rows`:
    /// each code that a row names is cached and its grammeme appended to
    /// `result`, in the order of `missing`; other codes are skipped.
    pub fn merge_rows(&mut self, missing: &Vec<String>, rows: Vec<Grammeme>, result: &mut Vec<Grammeme>)
        ensures
            final(self)@ == cache_with(
                old(self)@,
                string_views(missing@),
                rows_by_code(grammeme_views(rows@)),
            ),
            grammeme_views(final(result)@) == grammeme_views(old(result)@) + resolved_of(
                string_views(missing@),
                rows_by_code(grammeme_views(rows@)),
            ),
    {
        let ghost rv = grammeme_views(rows@);
        let mut lookup: StringHashMap<Grammeme> = StringHashMap::new();
        let mut rows = rows;
        let ghost all_rows = rows@;
        let ghost mut j: int = 0;
        proof {
            assert(all_rows.skip(0) =~= all_rows);
            assert(Map::new(|k: Seq<char>| lookup@.contains_key(k), |k: Seq<char>| lookup@[k]@)
                =~= rows_by_code(grammeme_views(all_rows.take(0))));
        }
        while rows.len() > 0
            invariant
                rv == grammeme_views(all_rows),
                0 <= j <= all_rows.len(),
                rows@ == all_rows.skip(j),
                Map::new(|k: Seq<char>| lookup@.contains_key(k), |k: Seq<char>| lookup@[k]@)
                    == rows_by_code(grammeme_views(all_rows.take(j))),
            decreases rows@.len(),
        {
            let g = rows.remove(0);
            proof {
                assert(g == all_rows[j]);
                assert(rows@ =~= all_rows.skip(j + 1));
            }
            let ghost gv = g@;
            let code = g.code.clone();
            lookup.insert(code, g);
            proof {
                let p = grammeme_views(all_rows.take(j + 1));
                assert(p.drop_last() =~= grammeme_views(all_rows.take(j)));
                assert(p.last() == gv);
                assert(Map::new(|k: Seq<char>| lookup@.contains_key(k), |k: Seq<char>| lookup@[k]@)
                    =~= rows_by_code(p));
            }
            proof {
                j = j + 1;
            }
        }
        proof {
            assert(all_rows.take(j) =~= all_rows);
        }
        let ghost found = rows_by_code(rv);
        let ghost mv = string_views(missing@);
        let ghost old_result = grammeme_views(result@);
        let ghost old_cache = self@;
        let mut i: usize = 0;
        while i < missing.len()
            invariant
                i <= missing@.len(),
                mv == string_views(missing@),
                found == Map::new(|k: Seq<char>| lookup@.contains_key(k), |k: Seq<char>| lookup@[k]@),
                self@ == cache_with(old_cache, mv.take(i as int), found),
                grammeme_views(result@) == old_result + resolved_of(mv.take(i as int), found),
            decreases missing@.len() - i,
        {
            proof {
                assert(mv.take(i + 1).drop_last() =~= mv.take(i as int));
                assert(mv.take(i + 1).last() == missing@[i as int]@);
            }
            let code = &missing[i];
            match lookup.get(code.as_str()) {
                Some(gram) => {
                    let g = Grammeme {
                        code: code.clone(),
                        name: gram.name.clone(),
                        alias: gram.alias.clone(),
                    };
                    let ghost before_cache = self@;
                    let ghost before_result = result@;
                    self.map.insert(code.clone(), g.duplicate());
                    result.push(g);
                    proof {
                        assert(self@ =~= before_cache.insert(code@, g@));
                        assert(grammeme_views(result@) =~= grammeme_views(before_result).push(g@));
                    }
                },
                None => {},
            }
            i = i + 1;
        }
        proof {
            assert(mv.take(missing@.len() as int) =~= mv);
        }
    }
}

/// The placeholders `<sigil>1,<sigil>2,...,<sigil>n`.
pub open spec fn placeholders(sigil: char, n: nat) -> Seq<char>
    decreases n,
{
    if n == 0 {
        Seq::empty()
    } else if n == 1 {
        seq![sigil] + decimal(1)
    } else {
        placeholders(sigil, (n - 1) as nat) + seq![','] + seq![sigil] + decimal(n)
    }
}

/// The query for the grammemes of `n` codes, whose parameters are written
/// `<sigil><number>` (`?1` for SQLite, `$1` for PostgreSQL).
pub open spec fn spec_grammeme_query(sigil: char, n: nat) -> Seq<char> {
    "SELECT name, alias, description FROM grammemes WHERE name IN ("@ + placeholders(sigil, n)
        + ")"@
}

/// The query for the grammemes of `n` codes.
pub fn grammeme_query(sigil: char, n: usize) -> (q: String)
    ensures
        q@ == spec_grammeme_query(sigil, n as nat),
{
    let mut q = String::from_str("SELECT name, alias, description FROM grammemes WHERE name IN (");
    let ghost head = q@;
    let mut i: usize = 0;
    while i < n
        invariant
            i <= n,
            q@ == head + placeholders(sigil, i as nat),
        decreases n - i,
    {
        let ghost before = q@;
        if i > 0 {
            crate::text::push_char(&mut q, ',');
        }
        crate::text::push_char(&mut q, sigil);
        push_decimal(&mut q, i + 1);
        proof {
            if i > 0 {
                assert(q@ =~= before + seq![','] + seq![sigil] + decimal((i + 1) as nat));
                assert(placeholders(sigil, (i + 1) as nat) == placeholders(sigil, i as nat) + seq![
                    ',',
                ] + seq![sigil] + decimal((i + 1) as nat));
            } else {
                assert(q@ =~= before + seq![sigil] + decimal(1));
            }
            assert(q@ =~= head + placeholders(sigil, (i + 1) as nat));
        }
        i = i + 1;
    }
    q.append(")");
    q
}

// ---------------------------------------------------------------------
// Batches.
// ---------------------------------------------------------------------

/// The results of a batch lookup, by word: a word is recorded when its
/// lookup found entries; a later result for the same word overrides an
/// earlier one.
pub open spec fn batch_map(words: Seq<Seq<char>>, found: Seq<Option<Vec<DictEntry>>>) -> Map<
    Seq<char>,
    Vec<DictEntry>,
>
    decreases words.len(),
{
    if words.len() == 0 || found.len() == 0 {
        Map::empty()
    } else {
        let m = batch_map(words.drop_last(), found.drop_last());
        match found.last() {
            Some(es) => if es.len() > 0 {
                m.insert(words.last(), es)
            } else {
                m
            },
            None => m,
        }
    }
}

/// What a batch finds for `word` when the dictionary answers the cleaned
/// word `c` with `lookup(c)` (`None` when the lookup fails): nothing for a
/// word that cleans to nothing.
pub open spec fn batch_lookup(lookup: spec_fn(Seq<char>) -> Option<Vec<DictEntry>>, word: Seq<char>) -> Option<
    Vec<DictEntry>,
> {
    if spec_clean_word(word).len() == 0 {
        None
    } else {
        lookup(spec_clean_word(word))
    }
}

/// A batch lookup keeps, under the caller's spelling, exactly the words
/// whose cleaned form the dictionary answers with at least one entry, and
/// for each the entries of that answer; so the result depends on the set
/// of words alone, not on the order in which they were looked up.
pub proof fn law_batch_by_word(
    words: Seq<Seq<char>>,
    found: Seq<Option<Vec<DictEntry>>>,
    lookup: spec_fn(Seq<char>) -> Option<Vec<DictEntry>>,
)
    requires
        words.len() == found.len(),
        forall|i: int| 0 <= i < words.len() ==> #[trigger] found[i] == batch_lookup(lookup, words[i]),
    ensures
        forall|w: Seq<char>|
            #[trigger] batch_map(words, found).contains_key(w) <==> (words.contains(w) && (
            batch_lookup(lookup, w) matches Some(es) && es@.len() > 0)),
        forall|w: Seq<char>|
            #[trigger] batch_map(words, found).contains_key(w) ==> Some(batch_map(words, found)[w])
                == batch_lookup(lookup, w),
    decreases words.len(),
{
    if words.len() > 0 {
        let ws = words.drop_last();
        let fs = found.drop_last();
        assert forall|i: int| 0 <= i < ws.len() implies #[trigger] fs[i] == batch_lookup(lookup, ws[i]) by {
            assert(fs[i] == found[i]);
            assert(ws[i] == words[i]);
        }
        law_batch_by_word(ws, fs, lookup);
        let w = words.last();
        assert(found.last() == batch_lookup(lookup, w));
        assert forall|k: Seq<char>| words.contains(k) <==> (ws.contains(k) || k == w) by {
            if words.contains(k) {
                let i = choose|i: int| 0 <= i < words.len() && words[i] == k;
                if i < ws.len() {
                    assert(ws[i] == k);
                }
            }
            if ws.contains(k) {
                let i = choose|i: int| 0 <= i < ws.len() && ws[i] == k;
                assert(words[i] == k);
            }
            if k == w {
                assert(words[words.len() - 1] == k);
            }
        }
        let m = batch_map(ws, fs);
        let full = batch_map(words, found);
        assert(full == match found.last() {
            Some(es) => if es.len() > 0 {
                m.insert(w, es)
            } else {
                m
            },
            None => m,
        });
        assert forall|k: Seq<char>| #[trigger] full.contains_key(k) implies (words.contains(k) && (
        batch_lookup(lookup, k) matches Some(es) && es@.len() > 0)) && Some(full[k])
            == batch_lookup(lookup, k) by {
            if k != w {
                assert(m.contains_key(k));
                assert(ws.contains(k));
            }
        }
        assert forall|k: Seq<char>|
            (words.contains(k) && (batch_lookup(lookup, k) matches Some(es) && es@.len()
                > 0)) implies #[trigger] full.contains_key(k) by {
            if k != w {
                assert(ws.contains(k));
                assert(m.contains_key(k));
            }
        }
    }
}

/// The results of a batch lookup, by word.
pub type BatchResults = StringHashMap<Vec<DictEntry>>;

/// Gathers the results of a batch lookup: `found[i]` is what looking up
/// `words[i]` found (`None` when its cleaned form was empty or the lookup
/// failed).
pub fn batch_results(words: &Vec<String>, found: Vec<Option<Vec<DictEntry>>>) -> (m: StringHashMap<
    Vec<DictEntry>,
>)
    requires
        words@.len() == found@.len(),
    ensures
        m@ == batch_map(string_views(words@), found@),
{
    let ghost wv = string_views(words@);
    let ghost fv = found@;
    let mut m: StringHashMap<Vec<DictEntry>> = StringHashMap::new();
    let mut found = found;
    let mut i: usize = 0;
    proof {
        assert(fv.skip(0) =~= fv);
        assert(m@ =~= batch_map(wv.take(0), fv.take(0)));
    }
    while i < words.len()
        invariant
            i <= words@.len() == fv.len(),
            wv == string_views(words@),
            found@ == fv.skip(i as int),
            m@ == batch_map(wv.take(i as int), fv.take(i as int)),
        decreases words@.len() - i,
    {
        let item = found.remove(0);
        proof {
            assert(item == fv[i as int]);
            assert(found@ =~= fv.skip(i + 1));
            assert(wv.take(i + 1).drop_last() =~= wv.take(i as int));
            assert(fv.take(i + 1).drop_last() =~= fv.take(i as int));
            assert(wv.take(i + 1).last() == words@[i as int]@);
            assert(fv.take(i + 1).last() == item);
        }
        match item {
            Some(entries) => {
                if entries.len() > 0 {
                    m.insert(words[i].clone(), entries);
                }
            },
            None => {},
        }
        i = i + 1;
    }
    proof {
        assert(wv.take(words@.len() as int) =~= wv);
        assert(fv.take(words@.len() as int) =~= fv);
    }
    m
}

// ---------------------------------------------------------------------
// Configuration.
// ---------------------------------------------------------------------

/// The backend name that selects SQLite.
pub fn default_backend() -> (s: String)
    ensures
        s@ == "sqlite"@,
{
    String::from_str("sqlite")
}

/// The default path of the SQLite dictionary.
pub fn default_sqlite_path() -> (s: String)
    ensures
        s@ == ".data/dict.opcorpora.sqlite3.db"@,
{
    String::from_str(".data/dict.opcorpora.sqlite3.db")
}

/// Dictionary configuration.
#[derive(Debug, Clone)]
pub struct DictConfig {
    pub backend: String,
    pub sqlite_path: String,
    pub postgres_url: String,
}

impl Default for DictConfig {
    fn default() -> (c: DictConfig)
        ensures
            c.backend@ == Seq::<char>::empty(),
            c.sqlite_path@ == Seq::<char>::empty(),
            c.postgres_url@ == Seq::<char>::empty(),
    {
        DictConfig { backend: String::new(), sqlite_path: String::new(), postgres_url: String::new() }
    }
}

/// The dictionary backends.
#[derive(PartialEq, Eq, Structural, Clone, Copy, Debug)]
pub enum BackendKind {
    Sqlite,
    Postgres,
}

impl DictConfig {
    /// The configuration from the values of the variables `DICT_BACKEND`,
    /// `DICT_PATH` and `DATABASE_URL` (`None` when unset): SQLite at the
    /// default path and an empty URL unless they say otherwise.
    pub fn from_env_or_default(
        backend: Option<String>,
        sqlite_path: Option<String>,
        postgres_url: Option<String>,
    ) -> (c: DictConfig)
        ensures
            c.backend@ == match backend {
                Some(b) => b@,
                None => "sqlite"@,
            },
            c.sqlite_path@ == match sqlite_path {
                Some(p) => p@,
                None => ".data/dict.opcorpora.sqlite3.db"@,
            },
            c.postgres_url@ == match postgres_url {
                Some(u) => u@,
                None => Seq::<char>::empty(),
            },
    {
        DictConfig {
            backend: match backend {
                Some(b) => b,
                None => default_backend(),
            },
            sqlite_path: match sqlite_path {
                Some(p) => p,
                None => default_sqlite_path(),
            },
            postgres_url: match postgres_url {
                Some(u) => u,
                None => String::new(),
            },
        }
    }

    /// The backend this configuration selects: `sqlite` or `postgres`;
    /// any other name is a configuration error.
    pub fn backend_kind(&self) -> (r: Result<BackendKind, CoreError>)
        ensures
            self.backend@ == "sqlite"@ ==> r == Ok::<BackendKind, CoreError>(BackendKind::Sqlite),
            self.backend@ == "postgres"@ ==> r == Ok::<BackendKind, CoreError>(BackendKind::Postgres),
            self.backend@ != "sqlite"@ && self.backend@ != "postgres"@ ==> exists|m: String|
                r == Err::<BackendKind, CoreError>(CoreError::ConfigError(m)) && m@
                    == "unknown dictionary backend: '"@ + self.backend@
                    + "'. Use 'sqlite' or 'postgres'"@,
    {
        proof {
            reveal_strlit("sqlite");
            reveal_strlit("postgres");
            assert("sqlite"@.len() != "postgres"@.len());
        }
        if str_eq(self.backend.as_str(), "sqlite") {
            Ok(BackendKind::Sqlite)
        } else if str_eq(self.backend.as_str(), "postgres") {
            Ok(BackendKind::Postgres)
        } else {
            let mut m = concat_str("unknown dictionary backend: '", self.backend.as_str());
            m.append("'. Use 'sqlite' or 'postgres'");
            Err(CoreError::ConfigError(m))
        }
    }
}

// ---------------------------------------------------------------------
// Batch input and output.
// ---------------------------------------------------------------------

/// The cleaned words of a list: each without the characters at either end
/// that are neither alphanumeric nor `-`, empty ones left out.
pub open spec fn cleaned_words(ws: Seq<Seq<char>>) -> Seq<Seq<char>>
    decreases ws.len(),
{
    if ws.len() == 0 {
        Seq::empty()
    } else if strip_unkept(ws.last()).len() > 0 {
        cleaned_words(ws.drop_last()).push(strip_unkept(ws.last()))
    } else {
        cleaned_words(ws.drop_last())
    }
}

/// The words of a text to look up in a batch: its white-space separated
/// words, cleaned, empty ones left out.
pub fn extract_words(text: &str) -> (words: Vec<String>)
    ensures
        string_views(words@) == cleaned_words(crate::panels::ws_words(text@)),
{
    let raw = crate::panels::split_whitespace(text);
    let ghost rv = string_views(raw@);
    let mut words: Vec<String> = Vec::new();
    let mut i: usize = 0;
    while i < raw.len()
        invariant
            i <= raw@.len(),
            rv == string_views(raw@),
            rv == crate::panels::ws_words(text@),
            string_views(words@) == cleaned_words(rv.take(i as int)),
        decreases raw@.len() - i,
    {
        proof {
            assert(rv.take(i + 1).drop_last() =~= rv.take(i as int));
            assert(rv.take(i + 1).last() == raw@[i as int]@);
        }
        let w = strip_word(raw[i].as_str());
        if !w.as_str().is_empty() {
            let ghost before = words@;
            words.push(w);
            proof {
                assert(string_views(words@) =~= string_views(before).push(w@));
            }
        }
        i = i + 1;
    }
    proof {
        assert(rv.take(raw@.len() as int) =~= rv);
    }
    words
}

/// Whether an entry carries a part of speech or a grammeme.
pub open spec fn informative(e: DictEntryView) -> bool {
    e.grammemes.len() > 0 || e.pos is Some
}

/// The index of the first informative entry of `es`.
pub open spec fn first_informative(es: Seq<DictEntryView>) -> Option<int>
    decreases es.len(),
{
    if es.len() == 0 {
        None
    } else if informative(es[0]) {
        Some(0)
    } else {
        match first_informative(es.drop_first()) {
            Some(i) => Some(i + 1),
            None => None,
        }
    }
}

/// The entry to show for a word: the first informative one, else the
/// first one.
pub open spec fn best_index(es: Seq<DictEntryView>) -> Option<int> {
    match first_informative(es) {
        Some(i) => Some(i),
        None => if es.len() > 0 {
            Some(0)
        } else {
            None
        },
    }
}

/// The entry to show for a word among the entries found for it.
pub fn best_entry(entries: &Vec<DictEntry>) -> (r: Option<&DictEntry>)
    ensures
        match best_index(entry_views(entries@)) {
            Some(i) => r matches Some(e) && e@ == entry_views(entries@)[i],
            None => r is None,
        },
{
    let ghost ev = entry_views(entries@);
    let mut i: usize = 0;
    proof {
        assert(ev.skip(0) =~= ev);
    }
    while i < entries.len()
        invariant
            i <= entries@.len(),
            ev == entry_views(entries@),
            match first_informative(ev) {
                Some(k) => match first_informative(ev.skip(i as int)) {
                    Some(j) => k == j + i,
                    None => false,
                },
                None => first_informative(ev.skip(i as int)) is None,
            },
        decreases entries@.len() - i,
    {
        proof {
            assert(ev.skip(i as int)[0] == entries@[i as int]@);
            assert(ev.skip(i as int).drop_first() =~= ev.skip(i + 1));
        }
        if entries[i].grammemes.len() > 0 || entries[i].pos.is_some() {
            return Some(&entries[i]);
        }
        i = i + 1;
    }
    proof {
        assert(ev.skip(i as int).len() == 0);
    }
    if entries.len() > 0 {
        Some(&entries[0])
    } else {
        None
    }
}

// ---------------------------------------------------------------------
// Batch output lines.
// ---------------------------------------------------------------------

/// `,<code>` for each grammeme of `gs`, in order.
pub open spec fn codes_suffix(gs: Seq<GrammemeView>) -> Seq<char>
    decreases gs.len(),
{
    if gs.len() == 0 {
        Seq::empty()
    } else {
        codes_suffix(gs.drop_last()) + ","@ + gs.last().code
    }
}

/// `,"<alias>":"<code>"` for each grammeme of `gs`, in order.
pub open spec fn pairs_suffix(gs: Seq<GrammemeView>) -> Seq<char>
    decreases gs.len(),
{
    if gs.len() == 0 {
        Seq::empty()
    } else {
        pairs_suffix(gs.drop_last()) + ",\""@ + gs.last().alias + "\":\""@ + gs.last().code + "\""@
    }
}

/// The compact properties of an entry: its lemma, its part of speech if
/// it has one, and its grammeme codes, separated by commas.
pub open spec fn compact_text(e: DictEntryView) -> Seq<char> {
    e.lemma + (match e.pos {
        Some(p) => ","@ + p,
        None => Seq::empty(),
    }) + codes_suffix(e.grammemes)
}

/// The properties of an entry as JSON members: `"lem"`, `"pos"` if it has
/// one, and each grammeme's alias with its code.
pub open spec fn json_members(e: DictEntryView) -> Seq<char> {
    "\"lem\":\""@ + e.lemma + "\""@ + (match e.pos {
        Some(p) => ",\"pos\":\""@ + p + "\""@,
        None => Seq::empty(),
    }) + pairs_suffix(e.grammemes)
}

/// The entry that batch output shows for `word` among `results`: the best
/// of its entries, if it has any.
pub open spec fn batch_entry(results: Map<Seq<char>, Vec<DictEntry>>, word: Seq<char>) -> Option<
    DictEntryView,
> {
    if results.contains_key(word) {
        match best_index(entry_views(results[word]@)) {
            Some(i) => Some(entry_views(results[word]@)[i]),
            None => None,
        }
    } else {
        None
    }
}

/// The output line of `word`: `<word>\t<properties>` as text, or
/// `{"word":"<word>","props":"<properties>",<members>}` as JSON (without
/// the members when no entry was found); the properties are empty when no
/// entry was found.
pub open spec fn spec_batch_line(word: Seq<char>, results: Map<Seq<char>, Vec<DictEntry>>, json: bool) -> Seq<
    char,
> {
    let props = match batch_entry(results, word) {
        Some(e) => compact_text(e),
        None => Seq::empty(),
    };
    if json {
        "{\"word\":\""@ + word + "\",\"props\":\""@ + props + "\""@ + (match batch_entry(results, word) {
            Some(e) => ","@ + json_members(e),
            None => Seq::empty(),
        }) + "}"@
    } else {
        word + "\t"@ + props
    }
}

/// Appends the compact properties of `e`.
fn push_compact(s: &mut String, e: &DictEntry)
    ensures
        final(s)@ == old(s)@ + compact_text(e@),
{
    let ghost start = s@;
    s.append(e.lemma.as_str());
    match &e.pos {
        Some(p) => {
            s.append(",");
            s.append(p.as_str());
        },
        None => {},
    }
    let ghost head = s@;
    let ghost gs = e@.grammemes;
    let mut i: usize = 0;
    proof {
        assert(gs.take(0) =~= Seq::<GrammemeView>::empty());
        assert(head =~= head + codes_suffix(gs.take(0)));
    }
    while i < e.grammemes.len()
        invariant
            i <= e.grammemes@.len(),
            gs == e@.grammemes,
            s@ == head + codes_suffix(gs.take(i as int)),
        decreases e.grammemes@.len() - i,
    {
        proof {
            assert(gs.take(i + 1).drop_last() =~= gs.take(i as int));
            assert(gs.take(i + 1).last() == e.grammemes@[i as int]@);
        }
        s.append(",");
        s.append(e.grammemes[i].code.as_str());
        proof {
            assert(s@ =~= head + codes_suffix(gs.take(i + 1)));
        }
        i = i + 1;
    }
    proof {
        assert(gs.take(e.grammemes@.len() as int) =~= gs);
        assert(s@ =~= start + compact_text(e@));
    }
}

/// Appends the JSON members of `e`.
fn push_json_members(s: &mut String, e: &DictEntry)
    ensures
        final(s)@ == old(s)@ + json_members(e@),
{
    let ghost start = s@;
    s.append("\"lem\":\"");
    s.append(e.lemma.as_str());
    s.append("\"");
    match &e.pos {
        Some(p) => {
            s.append(",\"pos\":\"");
            s.append(p.as_str());
            s.append("\"");
        },
        None => {},
    }
    let ghost head = s@;
    let ghost gs = e@.grammemes;
    let mut i: usize = 0;
    proof {
        assert(gs.take(0) =~= Seq::<GrammemeView>::empty());
        assert(head =~= head + pairs_suffix(gs.take(0)));
    }
    while i < e.grammemes.len()
        invariant
            i <= e.grammemes@.len(),
            gs == e@.grammemes,
            s@ == head + pairs_suffix(gs.take(i as int)),
        decreases e.grammemes@.len() - i,
    {
        proof {
            assert(gs.take(i + 1).drop_last() =~= gs.take(i as int));
            assert(gs.take(i + 1).last() == e.grammemes@[i as int]@);
        }
        s.append(",\"");
        s.append(e.grammemes[i].alias.as_str());
        s.append("\":\"");
        s.append(e.grammemes[i].code.as_str());
        s.append("\"");
        proof {
            assert(s@ =~= head + pairs_suffix(gs.take(i + 1)));
        }
        i = i + 1;
    }
    proof {
        assert(gs.take(e.grammemes@.len() as int) =~= gs);
        assert(s@ =~= start + json_members(e@));
    }
}

/// The output line of `word` in batch mode, as [`spec_batch_line`] says.
pub fn batch_line(word: &str, results: &BatchResults, json: bool) -> (s: String)
    ensures
        s@ == spec_batch_line(word@, results@, json),
{
    let best = match results.get(word) {
        Some(es) => best_entry(es),
        None => None,
    };
    proof {
        assert(batch_entry(results@, word@) == match best {
            Some(e) => Some(e@),
            None => None::<DictEntryView>,
        });
    }
    let mut s = String::new();
    if json {
        s.append("{\"word\":\"");
        s.append(word);
        s.append("\",\"props\":\"");
        match best {
            Some(e) => push_compact(&mut s, e),
            None => {},
        }
        s.append("\"");
        match best {
            Some(e) => {
                s.append(",");
                push_json_members(&mut s, e);
            },
            None => {},
        }
        s.append("}");
    } else {
        s.append(word);
        s.append("\t");
        match best {
            Some(e) => push_compact(&mut s, e),
            None => {},
        }
    }
    proof {
        assert(s@ =~= spec_batch_line(word@, results@, json));
    }
    s
}

// ---------------------------------------------------------------------
// Laws of cleaning, resolving and choosing.
// ---------------------------------------------------------------------

/// The cleaned words of a list of tokens are the tokens cleaned, in
/// order, with exactly those left out that clean to nothing: every token
/// whose cleaned form has a character, however short, is kept.
pub proof fn law_cleaned_words_keep_every_nonempty(ws: Seq<Seq<char>>)
    ensures
        cleaned_words(ws) == ws.map_values(|w: Seq<char>| strip_unkept(w)).filter(
            |c: Seq<char>| c.len() > 0,
        ),
    decreases ws.len(),
{
    let m = ws.map_values(|w: Seq<char>| strip_unkept(w));
    let p = |c: Seq<char>| c.len() > 0;
    if ws.len() == 0 {
        assert(m =~= Seq::<Seq<char>>::empty());
        reveal(Seq::filter);
    } else {
        law_cleaned_words_keep_every_nonempty(ws.drop_last());
        assert(m.drop_last() =~= ws.drop_last().map_values(|w: Seq<char>| strip_unkept(w)));
        assert(m =~= m.drop_last().push(strip_unkept(ws.last())));
        m.drop_last().lemma_filter_push(strip_unkept(ws.last()), p);
    }
}

proof fn lemma_rows_by_code(rows: Seq<GrammemeView>, c: Seq<char>)
    ensures
        rows_by_code(rows).contains_key(c) <==> exists|r: int| 0 <= r < rows.len() && rows[r].code == c,
        rows_by_code(rows).contains_key(c) ==> exists|r: int|
            0 <= r < rows.len() && rows[r] == rows_by_code(rows)[c] && rows[r].code == c,
    decreases rows.len(),
{
    if rows.len() > 0 {
        let p = rows.drop_last();
        lemma_rows_by_code(p, c);
        let n = rows.len() - 1;
        if rows.last().code == c {
            assert(rows[n] == rows.last());
        } else {
            if rows_by_code(p).contains_key(c) {
                let r = choose|r: int| 0 <= r < p.len() && p[r] == rows_by_code(p)[c] && p[r].code == c;
                assert(rows[r] == p[r]);
            }
            if exists|r: int| 0 <= r < rows.len() && rows[r].code == c {
                let r = choose|r: int| 0 <= r < rows.len() && rows[r].code == c;
                assert(r < n);
                assert(p[r] == rows[r]);
            }
        }
    }
}

/// Each grammeme resolved through query rows is one of those rows, with
/// the code, the name and the alias the query gave it; and every missing
/// code that some row has is resolved. Codes no row has are skipped.
pub proof fn law_resolved_are_query_rows(missing: Seq<Seq<char>>, rows: Seq<GrammemeView>)
    ensures
        forall|k: int|
            0 <= k < resolved_of(missing, rows_by_code(rows)).len() ==> exists|r: int|
                0 <= r < rows.len() && rows[r] == #[trigger] resolved_of(
                    missing,
                    rows_by_code(rows),
                )[k],
        forall|i: int, r: int|
            0 <= i < missing.len() && 0 <= r < rows.len() && #[trigger] rows[r].code
                == #[trigger] missing[i] ==> exists|k: int|
                0 <= k < resolved_of(missing, rows_by_code(rows)).len() && resolved_of(
                    missing,
                    rows_by_code(rows),
                )[k].code == missing[i],
    decreases missing.len(),
{
    let found = rows_by_code(rows);
    if missing.len() > 0 {
        let p = missing.drop_last();
        law_resolved_are_query_rows(p, rows);
        let c = missing.last();
        lemma_rows_by_code(rows, c);
        let rp = resolved_of(p, found);
        let ra = resolved_of(missing, found);
        if found.contains_key(c) {
            let r0 = choose|r: int| 0 <= r < rows.len() && rows[r] == found[c] && rows[r].code == c;
            assert(resolved(c, found[c]) == rows[r0]);
            assert(ra == rp.push(rows[r0]));
            assert forall|k: int| 0 <= k < ra.len() implies exists|r: int|
                0 <= r < rows.len() && rows[r] == #[trigger] ra[k] by {
                if k < rp.len() {
                    assert(ra[k] == rp[k]);
                } else {
                    assert(ra[k] == rows[r0]);
                }
            }
        } else {
            assert(ra == rp);
        }
        assert forall|i: int, r: int|
            0 <= i < missing.len() && 0 <= r < rows.len() && #[trigger] rows[r].code
                == #[trigger] missing[i] implies exists|k: int|
                0 <= k < ra.len() && ra[k].code == missing[i] by {
            if i < p.len() {
                assert(p[i] == missing[i]);
                let k = choose|k: int| 0 <= k < rp.len() && rp[k].code == p[i];
                assert(ra[k] == rp[k]);
            } else {
                assert(missing[i] == c);
                assert(found.contains_key(c));
                assert(ra[rp.len() as int].code == c);
            }
        }
    }
}

proof fn lemma_first_informative(es: Seq<DictEntryView>)
    ensures
        first_informative(es) matches Some(i) ==> 0 <= i < es.len() && (es[i].grammemes.len() > 0
            || es[i].pos is Some) && forall|j: int|
            0 <= j < i ==> !(#[trigger] es[j].grammemes.len() > 0 || es[j].pos is Some),
        first_informative(es) is None ==> forall|j: int|
            0 <= j < es.len() ==> !(#[trigger] es[j].grammemes.len() > 0 || es[j].pos is Some),
    decreases es.len(),
{
    if es.len() > 0 {
        let t = es.drop_first();
        lemma_first_informative(t);
        assert forall|j: int| 0 < j < es.len() implies es[j] == t[j - 1] by {}
    }
}

/// The entry shown for a word is the first of its entries that has
/// grammemes or a part of speech; when none has, it is the first entry;
/// there is none only when the word has no entry.
pub proof fn law_best_entry_is_first_informative(es: Seq<DictEntryView>)
    ensures
        best_index(es) is None <==> es.len() == 0,
        best_index(es) matches Some(i) ==> 0 <= i < es.len() && forall|j: int|
            0 <= j < i ==> !(#[trigger] es[j].grammemes.len() > 0 || es[j].pos is Some),
        best_index(es) matches Some(i) ==> ((es[i].grammemes.len() > 0 || es[i].pos is Some) || (
        i == 0 && forall|j: int|
            0 <= j < es.len() ==> !(#[trigger] es[j].grammemes.len() > 0 || es[j].pos is Some))),
{
    lemma_first_informative(es);
}

} // verus!
