//! Text analysis with an in-memory cache from text to its sentences.
//!
//! Running a pipeline on a text is the caller's: [`Analyzer::analyze`]
//! takes its outcome when the text is not cached yet, stores what it
//! parsed and answers from the cache ever after.

use vstd::prelude::*;
use vstd::hash_map::StringHashMap;

use crate::conllu::{sentence_views, Sentence, SentenceView, Token, TokenView};
use crate::error::{concat_str, is_message_of, CoreError, UdpipelineError};
use crate::model::ModelManager;
use crate::pipeline::Udpipeline;

verus! {

/// The tokens of `s`, sentence after sentence.
pub open spec fn flat_tokens(s: Seq<SentenceView>) -> Seq<TokenView>
    decreases s.len(),
{
    if s.len() == 0 {
        Seq::empty()
    } else {
        flat_tokens(s.drop_last()) + s.last().tokens
    }
}

/// The token at global word index `i` of `s`, if there is one.
pub open spec fn token_at_index(s: Seq<SentenceView>, i: int) -> Option<TokenView> {
    if 0 <= i < flat_tokens(s).len() {
        Some(flat_tokens(s)[i])
    } else {
        None
    }
}

/// The cache after [`Analyzer::analyze`] of `text` with the outcome
/// `tokenized`: a text already cached keeps its sentences; otherwise
/// sentences that were parsed are stored under the text.
pub open spec fn cache_after(
    cache: Map<Seq<char>, Vec<Sentence>>,
    text: Seq<char>,
    tokenized: Option<Result<Vec<Sentence>, UdpipelineError>>,
) -> Map<Seq<char>, Vec<Sentence>> {
    if cache.contains_key(text) {
        cache
    } else {
        match tokenized {
            Some(Ok(s)) => cache.insert(text, s),
            _ => cache,
        }
    }
}

/// Once a text is cached, analyzing any text with any outcome keeps its
/// sentences: a repeated analysis reads them from the cache.
pub proof fn law_cached_text_is_kept(
    cache: Map<Seq<char>, Vec<Sentence>>,
    cached: Seq<char>,
    text: Seq<char>,
    tokenized: Option<Result<Vec<Sentence>, UdpipelineError>>,
)
    requires
        cache.contains_key(cached),
    ensures
        cache_after(cache, text, tokenized).contains_key(cached),
        cache_after(cache, text, tokenized)[cached] == cache[cached],
{
}

/// What an analysis stores is what the next analysis of the same text
/// returns, whatever outcome that one is handed.
pub proof fn law_analysis_read_after_write(
    cache: Map<Seq<char>, Vec<Sentence>>,
    text: Seq<char>,
    sentences: Vec<Sentence>,
    later: Option<Result<Vec<Sentence>, UdpipelineError>>,
)
    requires
        !cache.contains_key(text),
    ensures
        ({
            let after = cache_after(
                cache,
                text,
                Some(Ok::<Vec<Sentence>, UdpipelineError>(sentences)),
            );
            &&& after[text] == sentences
            &&& cache_after(after, text, later) == after
        }),
{
}

proof fn lemma_flat_is_flatten_alt(s: Seq<SentenceView>)
    ensures
        flat_tokens(s) == s.map_values(|x: SentenceView| x.tokens).flatten_alt(),
    decreases s.len(),
{
    if s.len() > 0 {
        lemma_flat_is_flatten_alt(s.drop_last());
        let m = s.map_values(|x: SentenceView| x.tokens);
        assert(m.drop_last() =~= s.drop_last().map_values(|x: SentenceView| x.tokens));
    }
}

/// The global word index runs over every token of every sentence, none
/// left out: the tokens of a text are the token lists of its sentences
/// concatenated in order, so adding a sentence adds all of its tokens and
/// their number is the sum of the sentences' numbers of tokens.
pub proof fn law_flat_tokens_are_all_tokens(s: Seq<SentenceView>, x: SentenceView)
    ensures
        flat_tokens(s) == s.map_values(|y: SentenceView| y.tokens).flatten(),
        flat_tokens(s.push(x)) == flat_tokens(s) + x.tokens,
        flat_tokens(s.push(x)).len() == flat_tokens(s).len() + x.tokens.len(),
        forall|j: int|
            0 <= j < x.tokens.len() ==> token_at_index(s.push(x), flat_tokens(s).len() + j) == Some(
                x.tokens[j],
            ),
{
    lemma_flat_is_flatten_alt(s);
    s.map_values(|y: SentenceView| y.tokens).lemma_flatten_and_flatten_alt_are_equivalent();
    assert(s.push(x).drop_last() =~= s);
}

proof fn lemma_flat_prefix(s: Seq<SentenceView>, k: int)
    requires
        0 <= k <= s.len(),
    ensures
        flat_tokens(s.take(k)).len() <= flat_tokens(s).len(),
        forall|i: int|
            0 <= i < flat_tokens(s.take(k)).len() ==> flat_tokens(s)[i] == #[trigger] flat_tokens(
                s.take(k),
            )[i],
    decreases s.len(),
{
    if k == s.len() {
        assert(s.take(k) =~= s);
    } else {
        let p = s.drop_last();
        assert(p.take(k) =~= s.take(k));
        lemma_flat_prefix(p, k);
    }
}

/// The token at global word index `word_index` across all `sentences`.
pub fn token_at(sentences: &Vec<Sentence>, word_index: usize) -> (r: Option<&Token>)
    ensures
        match r {
            Some(t) => token_at_index(sentence_views(sentences@), word_index as int) == Some(t@),
            None => token_at_index(sentence_views(sentences@), word_index as int) is None,
        },
{
    let ghost sv = sentence_views(sentences@);
    let mut count: usize = 0;
    let mut i: usize = 0;
    while i < sentences.len()
        invariant
            i <= sentences@.len(),
            sv == sentence_views(sentences@),
            count <= word_index,
            count == flat_tokens(sv.take(i as int)).len(),
        decreases sentences@.len() - i,
    {
        let tokens = &sentences[i].tokens;
        let ghost before = flat_tokens(sv.take(i as int));
        proof {
            assert(sv.take(i + 1).drop_last() =~= sv.take(i as int));
            assert(sv.take(i + 1).last() == sv[i as int]);
        }
        let mut j: usize = 0;
        while j < tokens.len()
            invariant
                i < sentences@.len(),
                j <= tokens@.len(),
                tokens == &sentences@[i as int].tokens,
                sv == sentence_views(sentences@),
                before == flat_tokens(sv.take(i as int)),
                flat_tokens(sv.take(i + 1)) == before + sv[i as int].tokens,
                count <= word_index,
                count == before.len() + j,
            decreases tokens@.len() - j,
        {
            if count == word_index {
                proof {
                    lemma_flat_prefix(sv, i + 1);
                    assert(sv[i as int].tokens[j as int] == tokens@[j as int]@);
                    assert(flat_tokens(sv.take(i + 1))[count as int] == tokens@[j as int]@);
                }
                return Some(&tokens[j]);
            }
            count = count + 1;
            j = j + 1;
        }
        i = i + 1;
    }
    proof {
        assert(sv.take(sentences@.len() as int) =~= sv);
    }
    None
}

/// Text analyzer with an in-memory cache.
pub struct Analyzer {
    model_manager: ModelManager,
    cache: StringHashMap<Vec<Sentence>>,
}

impl View for Analyzer {
    /// The cache: each analyzed text and its sentences.
    type V = Map<Seq<char>, Vec<Sentence>>;

    closed spec fn view(&self) -> Map<Seq<char>, Vec<Sentence>> {
        self.cache@
    }
}

impl Analyzer {
    /// The models of this analyzer.
    pub closed spec fn models(&self) -> ModelManager {
        self.model_manager
    }

    /// A new analyzer with the given models and an empty cache.
    pub fn new(model_manager: ModelManager) -> (a: Analyzer)
        ensures
            a.models() == model_manager,
            a@ == Map::<Seq<char>, Vec<Sentence>>::empty(),
    {
        Analyzer { model_manager, cache: StringHashMap::new() }
    }

    /// Whether the analysis of `text` is cached.
    pub fn is_cached(&self, text: &str) -> (b: bool)
        ensures
            b == self@.contains_key(text@),
    {
        self.cache.contains_key(text)
    }

    /// The path of the model file for `language`.
    pub fn model_path(&self, language: &str) -> (p: String)
        ensures
            p@ == crate::model::model_file(self.models().spec_model_dir(), language@),
    {
        self.model_manager.model_path(language)
    }

    /// The pipeline for `language`, loading its model first if needed
    /// (see [`ModelManager::load`] and [`ModelManager::get`]).
    pub fn pipeline(&mut self, language: &str, model_file_exists: bool) -> (r: Result<
        &Udpipeline,
        CoreError,
    >)
        ensures
            final(self)@ == old(self)@,
            final(self).models().spec_model_dir() == old(self).models().spec_model_dir(),
            old(self).models().loaded().contains_key(language@) ==> {
                &&& final(self).models().loaded() == old(self).models().loaded()
                &&& r matches Ok(p) && *p == old(self).models().loaded()[language@]
            },
            !old(self).models().loaded().contains_key(language@) && model_file_exists ==> {
                &&& r matches Ok(p) && *p == final(self).models().loaded()[language@]
                    && final(self).models().loaded() == old(self).models().loaded().insert(
                    language@,
                    *p,
                ) && p.spec_model_path() == crate::model::model_file(
                    old(self).models().spec_model_dir(),
                    language@,
                )
            },
            !old(self).models().loaded().contains_key(language@) && !model_file_exists ==> {
                &&& final(self).models().loaded() == old(self).models().loaded()
                &&& exists|m: String|
                    r == Err::<&Udpipeline, CoreError>(CoreError::ModelNotFound(m)) && m@
                        == crate::model::missing_model_text(
                        crate::model::model_file(old(self).models().spec_model_dir(), language@),
                        language@,
                    )
            },
    {
        match self.model_manager.load(language, model_file_exists) {
            Ok(()) => {},
            Err(e) => {
                return Err(e);
            },
        }
        self.model_manager.get(language)
    }

    /// The sentences of `text`. When `text` is cached they come from the
    /// cache and `tokenized` is not looked at; otherwise `tokenized` is the
    /// outcome of running the pipeline on `text`: its sentences are cached
    /// and returned, or its error is reported as an analysis failure.
    pub fn analyze(&mut self, text: &str, tokenized: Option<Result<Vec<Sentence>, UdpipelineError>>) -> (r:
        Result<&Vec<Sentence>, CoreError>)
        requires
            tokenized is None ==> old(self)@.contains_key(text@),
        ensures
            final(self).models() == old(self).models(),
            final(self)@ == cache_after(old(self)@, text@, tokenized),
            r is Ok <==> final(self)@.contains_key(text@),
            r matches Ok(v) ==> *v == final(self)@[text@],
            r is Err ==> exists|m: String, t: Seq<char>, e: UdpipelineError|
                tokenized == Some(Err::<Vec<Sentence>, UdpipelineError>(e)) && r == Err::<
                    &Vec<Sentence>,
                    CoreError,
                >(CoreError::AnalysisFailed(m)) && m@ == "UDPipe analysis failed: "@ + t
                    && is_message_of(e, t),
    {
        if !self.cache.contains_key(text) {
            match tokenized {
                Some(Ok(sentences)) => {
                    self.cache.insert(String::from_str(text), sentences);
                },
                Some(Err(e)) => {
                    let t = e.message();
                    let m = concat_str("UDPipe analysis failed: ", t.as_str());
                    proof {
                        assert(is_message_of(e, t@));
                    }
                    let r = Err(CoreError::AnalysisFailed(m));
                    assert(tokenized == Some(Err::<Vec<Sentence>, UdpipelineError>(e)));
                    assert(r == Err::<&Vec<Sentence>, CoreError>(CoreError::AnalysisFailed(m)) && m@
                        == "UDPipe analysis failed: "@ + t@);
                    return r;
                },
                None => {
                    proof {
                        assert(false);
                    }
                },
            }
        }
        match self.cache.get(text) {
            Some(v) => Ok(v),
            None => {
                proof {
                    assert(false);
                }
                Err(CoreError::AnalysisFailed(String::new()))
            },
        }
    }

    /// The token at global word index `word_index` of the sentences of
    /// `text`, obtained as [`Self::analyze`] obtains them.
    pub fn analyze_at(
        &mut self,
        text: &str,
        tokenized: Option<Result<Vec<Sentence>, UdpipelineError>>,
        word_index: usize,
    ) -> (r: Result<Option<&Token>, CoreError>)
        requires
            tokenized is None ==> old(self)@.contains_key(text@),
        ensures
            final(self).models() == old(self).models(),
            final(self)@ == cache_after(old(self)@, text@, tokenized),
            r is Ok <==> final(self)@.contains_key(text@),
            r matches Ok(o) ==> match o {
                Some(t) => token_at_index(
                    sentence_views(final(self)@[text@]@),
                    word_index as int,
                ) == Some(t@),
                None => token_at_index(
                    sentence_views(final(self)@[text@]@),
                    word_index as int,
                ) is None,
            },
            r is Err ==> exists|m: String, t: Seq<char>, e: UdpipelineError|
                tokenized == Some(Err::<Vec<Sentence>, UdpipelineError>(e)) && r == Err::<
                    Option<&Token>,
                    CoreError,
                >(CoreError::AnalysisFailed(m)) && m@ == "UDPipe analysis failed: "@ + t
                    && is_message_of(e, t),
    {
        match self.analyze(text, tokenized) {
            Ok(sentences) => Ok(token_at(sentences, word_index)),
            Err(e) => Err(e),
        }
    }

    /// Clears the analysis cache.
    pub fn clear_cache(&mut self)
        ensures
            final(self)@ == Map::<Seq<char>, Vec<Sentence>>::empty(),
            final(self).models() == old(self).models(),
    {
        self.cache.clear();
    }
}

} // verus!
