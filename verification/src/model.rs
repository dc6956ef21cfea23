//! Which UDPipe models are loaded, by language code.
//!
//! Whether a model file exists on disk is the caller's to find out: the
//! functions that need it take it as an argument.

use vstd::prelude::*;
use vstd::hash_map::StringHashMap;

use crate::error::{concat_str, CoreError};
use crate::pipeline::Udpipeline;
use crate::sorting::{sort_strings, sorted_by_chars};
use crate::text::{chars_of, string_of_range};

verus! {

/// The file extension of UDPipe models.
pub open spec fn model_extension() -> Seq<char> {
    seq!['u', 'd', 'p', 'i', 'p', 'e']
}

/// `dir` joined with the relative or absolute path `p`, as
/// `Path::join` does on Unix: an absolute `p` replaces `dir`; otherwise a
/// `/` goes between them unless `dir` is empty or already ends with one.
pub open spec fn join_path(dir: Seq<char>, p: Seq<char>) -> Seq<char> {
    if p.len() > 0 && p[0] == '/' {
        p
    } else if dir.len() == 0 || dir.last() == '/' {
        dir + p
    } else {
        dir.push('/') + p
    }
}

/// The file of the model for `language` in `dir`: `<dir>/<language>.udpipe`.
pub open spec fn model_file(dir: Seq<char>, language: Seq<char>) -> Seq<char> {
    join_path(dir, language + seq!['.'] + model_extension())
}

/// The text of the error for a missing model file.
pub open spec fn missing_model_text(path: Seq<char>, language: Seq<char>) -> Seq<char> {
    "model file not found: "@ + path + ". Run 'text-researcher download-model "@ + language
        + "' or place the model manually."@
}

/// Manages loaded UDPipe models by language code.
pub struct ModelManager {
    model_dir: String,
    pipelines: StringHashMap<Udpipeline>,
}

impl ModelManager {
    /// The directory where model files are looked for.
    pub closed spec fn spec_model_dir(&self) -> Seq<char> {
        self.model_dir@
    }

    /// The pipelines loaded so far, by language code.
    pub closed spec fn loaded(&self) -> Map<Seq<char>, Udpipeline> {
        self.pipelines@
    }

    /// A manager for the models in `model_dir`, with none loaded.
    pub fn new(model_dir: String) -> (m: ModelManager)
        ensures
            m.spec_model_dir() == model_dir@,
            m.loaded() == Map::<Seq<char>, Udpipeline>::empty(),
    {
        ModelManager { model_dir, pipelines: StringHashMap::new() }
    }

    /// The directory where model files are looked for.
    pub fn model_dir(&self) -> (s: &str)
        ensures
            s@ == self.spec_model_dir(),
    {
        self.model_dir.as_str()
    }

    /// The path of the model file for `language`.
    pub fn model_path(&self, language: &str) -> (p: String)
        ensures
            p@ == model_file(self.spec_model_dir(), language@),
    {
        let mut name = String::from_str(language);
        name.append(".udpipe");
        proof {
            reveal_strlit(".udpipe");
            assert(".udpipe"@ =~= seq!['.'] + model_extension());
        }
        let dir = chars_of(self.model_dir.as_str());
        let lang = chars_of(language);
        if lang.len() > 0 && lang[0] == '/' {
            name
        } else if dir.len() == 0 || dir[dir.len() - 1] == '/' {
            let mut p = String::from_str(self.model_dir.as_str());
            p.append(name.as_str());
            p
        } else {
            let mut p = String::from_str(self.model_dir.as_str());
            p.append("/");
            proof {
                reveal_strlit("/");
                assert(self.model_dir@ + "/"@ =~= self.model_dir@.push('/'));
            }
            p.append(name.as_str());
            p
        }
    }

    /// Loads the model for `language` unless it is loaded already;
    /// `model_file_exists` tells whether [`Self::model_path`] names an
    /// existing file.
    pub fn load(&mut self, language: &str, model_file_exists: bool) -> (r: Result<(), CoreError>)
        ensures
            final(self).spec_model_dir() == old(self).spec_model_dir(),
            old(self).loaded().contains_key(language@) ==> {
                &&& r is Ok
                &&& final(self).loaded() == old(self).loaded()
            },
            !old(self).loaded().contains_key(language@) && model_file_exists ==> {
                &&& r is Ok
                &&& final(self).loaded() == old(self).loaded().insert(
                    language@,
                    final(self).loaded()[language@],
                )
                &&& final(self).loaded()[language@].spec_model_path() == model_file(
                    old(self).spec_model_dir(),
                    language@,
                )
                &&& final(self).loaded()[language@].spec_timeout()
                    == crate::pipeline::duration_of_secs(crate::pipeline::DEFAULT_TIMEOUT_SECS)
            },
            !old(self).loaded().contains_key(language@) && !model_file_exists ==> {
                &&& final(self).loaded() == old(self).loaded()
                &&& exists|m: String|
                    r == Err::<(), CoreError>(CoreError::ModelNotFound(m)) && m@
                        == missing_model_text(
                        model_file(old(self).spec_model_dir(), language@),
                        language@,
                    )
            },
    {
        if self.pipelines.contains_key(language) {
            return Ok(());
        }
        let model_path = self.model_path(language);
        if !model_file_exists {
            let mut msg = concat_str("model file not found: ", model_path.as_str());
            msg.append(". Run 'text-researcher download-model ");
            msg.append(language);
            msg.append("' or place the model manually.");
            return Err(CoreError::ModelNotFound(msg));
        }
        let pipeline = Udpipeline::new(model_path);
        self.pipelines.insert(String::from_str(language), pipeline);
        Ok(())
    }

    /// The pipeline for `language`; an error when its model is not loaded
    /// (see [`Self::load`]).
    pub fn get(&self, language: &str) -> (r: Result<&Udpipeline, CoreError>)
        ensures
            self.loaded().contains_key(language@) ==> (r matches Ok(p) && *p
                == self.loaded()[language@]),
            !self.loaded().contains_key(language@) ==> exists|m: String|
                r == Err::<&Udpipeline, CoreError>(CoreError::ModelNotFound(m)) && m@ == language@,
    {
        match self.pipelines.get(language) {
            Some(p) => Ok(p),
            None => Err(CoreError::ModelNotFound(String::from_str(language))),
        }
    }

    /// The languages whose models are among the file names `entries` of
    /// the model directory: the stems of the names with the extension
    /// `udpipe`, sorted.
    pub fn available_languages(&self, entries: &Vec<String>) -> (langs: Vec<String>)
        ensures
            sorted_by_chars(langs@),
            langs@.map_values(|s: String| s@).to_multiset() == model_stems(
                entries@.map_values(|s: String| s@),
            ).to_multiset(),
    {
        let mut stems: Vec<String> = Vec::new();
        let ghost names = entries@.map_values(|s: String| s@);
        let mut i: usize = 0;
        while i < entries.len()
            invariant
                i <= entries@.len(),
                names == entries@.map_values(|s: String| s@),
                stems@.map_values(|s: String| s@) == model_stems(names.take(i as int)),
            decreases entries@.len() - i,
        {
            proof {
                assert(names.take(i + 1).drop_last() =~= names.take(i as int));
            }
            let name = chars_of(entries[i].as_str());
            match model_stem(&name) {
                Some(k) => {
                    let ghost before = stems@.map_values(|s: String| s@);
                    stems.push(string_of_range(&name, 0, k));
                    proof {
                        assert(stems@.map_values(|s: String| s@) =~= before.push(
                            name@.take(k as int),
                        ));
                    }
                },
                None => {},
            }
            i = i + 1;
        }
        proof {
            assert(names.take(entries@.len() as int) =~= names);
        }
        sort_strings(stems)
    }
}

/// The index of the last `.` of a file name, if it is not the first
/// character (a name such as `.udpipe` has no extension).
pub open spec fn ext_dot(name: Seq<char>) -> Option<int>
    decreases name.len(),
{
    if name.len() <= 1 {
        None
    } else if name.last() == '.' {
        Some(name.len() - 1)
    } else {
        ext_dot(name.drop_last())
    }
}

/// The stem of a file name whose extension is `udpipe`.
pub open spec fn stem_of_model(name: Seq<char>) -> Option<Seq<char>> {
    match ext_dot(name) {
        Some(d) => if name.skip(d + 1) == model_extension() {
            Some(name.take(d))
        } else {
            None
        },
        None => None,
    }
}

/// The stems of the model files among `names`, in order.
pub open spec fn model_stems(names: Seq<Seq<char>>) -> Seq<Seq<char>>
    decreases names.len(),
{
    if names.len() == 0 {
        Seq::empty()
    } else {
        let rest = model_stems(names.drop_last());
        match stem_of_model(names.last()) {
            Some(s) => rest.push(s),
            None => rest,
        }
    }
}

/// The length of the stem of `name` if its extension is `udpipe`.
fn model_stem(name: &Vec<char>) -> (r: Option<usize>)
    ensures
        match r {
            Some(k) => k <= name@.len() && stem_of_model(name@) == Some(name@.take(k as int)),
            None => stem_of_model(name@) is None,
        },
{
    let n = name.len();
    if n <= 1 {
        return None;
    }
    let mut j = n - 1;
    proof {
        assert(name@.take(n as int) =~= name@);
    }
    while j >= 1 && name[j] != '.'
        invariant
            1 <= j < n == name@.len(),
            n > 1,
            ext_dot(name@) == ext_dot(name@.take(j + 1)),
        decreases j,
    {
        proof {
            assert(name@.take(j + 1).drop_last() =~= name@.take(j as int));
        }
        if j == 1 {
            proof {
                assert(name@.take(1).len() == 1);
                assert(ext_dot(name@.take(1)) is None);
                assert(ext_dot(name@) is None);
            }
            return None;
        }
        j = j - 1;
    }
    proof {
        assert(name@.take(j + 1).last() == name@[j as int]);
        assert(ext_dot(name@.take(j + 1)) == Some(j as int));
    }
    if n - (j + 1) != 6 {
        proof {
            assert(name@.skip(j + 1).len() != model_extension().len());
        }
        return None;
    }
    let ok = name[j + 1] == 'u' && name[j + 2] == 'd' && name[j + 3] == 'p' && name[j + 4] == 'i'
        && name[j + 5] == 'p' && name[j + 6] == 'e';
    proof {
        let e = name@.skip(j + 1);
        if ok {
            assert(e =~= model_extension());
        } else if e == model_extension() {
            assert(e[0] == name@[j + 1] && e[1] == name@[j + 2] && e[2] == name@[j + 3]);
            assert(e[3] == name@[j + 4] && e[4] == name@[j + 5] && e[5] == name@[j + 6]);
        }
    }
    if ok {
        Some(j)
    } else {
        None
    }
}

} // verus!
