//! The command-line options of the program.

use vstd::prelude::*;

verus! {

/// Command-line options.
#[derive(Debug, Clone)]
pub struct Cli {
    /// Input text file (batch mode, the default).
    pub input: Option<String>,
    /// Language code (default: from the configuration, or `ru`).
    pub language: Option<String>,
    /// Output file for the results (default: standard output).
    pub output: Option<String>,
    /// Launch the interactive mode.
    pub interactive: bool,
    /// Download a language model.
    pub download_model: Option<String>,
    /// Verbose logging.
    pub verbose: bool,
    /// Number of parallel threads (default: all logical CPUs).
    pub jobs: Option<usize>,
    /// Number of words to prefetch ahead of and behind the cursor
    /// (negative: the entire text).
    pub prefetch: isize,
    /// Output format: `txt` (word and properties) or `json`.
    pub format: String,
    /// Write a default global configuration and notes on its fields.
    pub init: bool,
    /// Show the reference of morphological features and parts of speech.
    pub help_features: bool,
}

/// What the program does for a command line.
#[derive(Debug, Clone)]
pub enum Mode {
    /// Fetch the model of a language.
    DownloadModel(String),
    /// Write the default configuration.
    Init,
    /// Print the reference tables.
    HelpFeatures,
    /// Run the interactive interface.
    Interactive,
    /// Analyze the input file in batch.
    Batch,
}

impl Cli {
    /// The mode the options ask for, the first that applies of: a model
    /// download, `--init`, `--help-features`, the interactive interface,
    /// and batch analysis.
    pub fn mode(&self) -> (m: Mode)
        ensures
            match self.download_model {
                Some(l) => m matches Mode::DownloadModel(x) && x@ == l@,
                None => if self.init {
                    m is Init
                } else if self.help_features {
                    m is HelpFeatures
                } else if self.interactive {
                    m is Interactive
                } else {
                    m is Batch
                },
            },
    {
        match &self.download_model {
            Some(l) => Mode::DownloadModel(l.clone()),
            None => if self.init {
                Mode::Init
            } else if self.help_features {
                Mode::HelpFeatures
            } else if self.interactive {
                Mode::Interactive
            } else {
                Mode::Batch
            },
        }
    }

    /// Whether batch output is JSON: the format `json`; any other format is
    /// text.
    pub fn wants_json(&self) -> (b: bool)
        ensures
            b == (self.format@ == "json"@),
    {
        crate::text::str_eq(self.format.as_str(), "json")
    }

    /// The logging filter used when the environment sets none: `debug`
    /// when verbose, else `info`.
    pub fn default_log_filter(&self) -> (s: &'static str)
        ensures
            s@ == (if self.verbose {
                "debug"@
            } else {
                "info"@
            }),
    {
        if self.verbose {
            "debug"
        } else {
            "info"
        }
    }
}

} // verus!
