//! The assessor's configuration, its defaults, and its checks.
use vstd::prelude::*;
use crate::text::{chars_of, push_all, string_of};

verus! {

/// The whole configuration.
pub struct Config {
    pub project: ProjectConfig,
    pub output: OutputConfig,
    pub scoring: ScoringConfig,
    pub compatibility: CompatibilityConfig,
    pub skip: SkipConfig,
    pub mapping: MappingConfig,
}

/// The project under assessment.
pub struct ProjectConfig {
    /// Source project path.
    pub source: Option<String>,
    /// Source git repository URL.
    pub source_repo: Option<String>,
    /// Source git branch.
    pub source_branch: Option<String>,
    /// Source git version (tag or commit hash) being analyzed.
    pub source_version: Option<String>,
    /// Target project path.
    pub target: Option<String>,
    pub source_lang: Option<String>,
    pub target_lang: String,
    /// Stop at the first error instead of collecting them all.
    pub strict: bool,
    pub ignore: Vec<String>,
    pub exclude: Vec<String>,
}

/// What to leave out of the analysis.
pub struct SkipConfig {
    pub framework: bool,
}

/// Where reports go.
pub struct OutputConfig {
    pub directory: String,
    pub split_by_directory: bool,
}

/// How modules are scored.
pub struct ScoringConfig {
    pub weights: ScoreWeights,
}

/// Weights of the scoring criteria.
pub struct ScoreWeights {
    pub in_degree: u32,
    pub complexity: u32,
    pub compatibility: u32,
    pub cycles: u32,
    pub tests: u32,
}

/// Where the user's compatibility overrides are.
pub struct CompatibilityConfig {
    pub overrides_file: Option<String>,
}

/// Source-to-target file path mapping, for files that do not map one to one.
pub struct MappingConfig {
    pub override_list: Vec<MappingEntry>,
}

/// One mapped path.
pub struct MappingEntry {
    pub from: String,
    pub to: String,
}

impl Default for SkipConfig {
    fn default() -> (r: Self)
        ensures
            !r.framework,
    {
        SkipConfig { framework: false }
    }
}

impl Default for ProjectConfig {
    fn default() -> (r: Self)
        ensures
            r.source is None && r.source_repo is None && r.source_branch is None,
            r.source_version is None && r.target is None && r.source_lang is None,
            r.target_lang@ == "rust"@,
            !r.strict,
            r.ignore@.len() == 0,
            r.exclude@.len() == 0,
    {
        ProjectConfig {
            source: None,
            source_repo: None,
            source_branch: None,
            source_version: None,
            target: None,
            source_lang: None,
            target_lang: String::from_str("rust"),
            strict: false,
            ignore: Vec::new(),
            exclude: Vec::new(),
        }
    }
}

impl Default for OutputConfig {
    fn default() -> (r: Self)
        ensures
            r.directory@ == ".migration"@,
            r.split_by_directory,
    {
        OutputConfig { directory: String::from_str(".migration"), split_by_directory: true }
    }
}

impl Default for ScoreWeights {
    fn default() -> (r: Self)
        ensures
            r.in_degree == 30 && r.complexity == 25 && r.compatibility == 20 && r.cycles == 15 && r.tests == 10,
    {
        ScoreWeights { in_degree: 30, complexity: 25, compatibility: 20, cycles: 15, tests: 10 }
    }
}

impl Default for ScoringConfig {
    fn default() -> (r: Self)
        ensures
            r.weights.in_degree == 30 && r.weights.complexity == 25 && r.weights.compatibility == 20,
            r.weights.cycles == 15 && r.weights.tests == 10,
    {
        ScoringConfig { weights: ScoreWeights::default() }
    }
}

impl Default for CompatibilityConfig {
    fn default() -> (r: Self)
        ensures
            r.overrides_file matches Some(f) && f@ == ".migration-assessor-compat.toml"@,
    {
        CompatibilityConfig { overrides_file: Some(String::from_str(".migration-assessor-compat.toml")) }
    }
}

impl Default for MappingConfig {
    fn default() -> (r: Self)
        ensures
            r.override_list@.len() == 0,
    {
        MappingConfig { override_list: Vec::new() }
    }
}

/// The configuration when nothing is configured.
pub open spec fn is_default_config(c: Config) -> bool {
    &&& c.project.source is None && c.project.source_repo is None && c.project.source_branch is None
    &&& c.project.source_version is None && c.project.target is None && c.project.source_lang is None
    &&& !c.project.strict && c.project.ignore@.len() == 0 && c.project.exclude@.len() == 0
    &&& c.output.directory@ == ".migration"@ && c.output.split_by_directory
    &&& c.scoring.weights.in_degree == 30 && c.scoring.weights.complexity == 25
    &&& c.scoring.weights.compatibility == 20 && c.scoring.weights.cycles == 15 && c.scoring.weights.tests == 10
    &&& c.compatibility.overrides_file matches Some(f) && f@ == ".migration-assessor-compat.toml"@
    &&& !c.skip.framework
    &&& c.mapping.override_list@.len() == 0
}

impl Default for Config {
    fn default() -> (r: Self)
        ensures
            is_default_config(r),
            r.project.target_lang@ == "rust"@,
    {
        Config {
            project: ProjectConfig::default(),
            output: OutputConfig::default(),
            scoring: ScoringConfig::default(),
            compatibility: CompatibilityConfig::default(),
            skip: SkipConfig::default(),
            mapping: MappingConfig::default(),
        }
    }
}

/// The languages a configuration may name.
pub open spec fn valid_languages() -> Seq<Seq<char>> {
    seq!["typescript"@, "rust"@, "python"@, "go"@, "java"@, "kotlin"@]
}

/// Why a configuration was refused.
#[derive(Debug)]
pub enum ConfigError {
    InvalidSourceLanguage(String),
    InvalidTargetLanguage(String),
}

/// The message of a refused language.
pub open spec fn invalid_language_message(field: Seq<char>, lang: Seq<char>) -> Seq<char> {
    "Invalid "@ + field + " '"@ + lang + "'. Valid values: typescript, rust, python, go, java, kotlin"@
}

impl ConfigError {
    /// What went wrong, in words.
    pub fn message(&self) -> (r: String)
        ensures
            r@ == match self {
                ConfigError::InvalidSourceLanguage(l) => invalid_language_message("source_language"@, l@),
                ConfigError::InvalidTargetLanguage(l) => invalid_language_message("target_language"@, l@),
            },
    {
        let (field, lang) = match self {
            ConfigError::InvalidSourceLanguage(l) => ("source_language", l),
            ConfigError::InvalidTargetLanguage(l) => ("target_language", l),
        };
        let mut m = chars_of("Invalid ");
        push_all(&mut m, &chars_of(field));
        push_all(&mut m, &chars_of(" '"));
        push_all(&mut m, &chars_of(lang.as_str()));
        push_all(&mut m, &chars_of("'. Valid values: typescript, rust, python, go, java, kotlin"));
        string_of(&m)
    }
}

fn is_valid_language(l: &str) -> (r: bool)
    ensures
        r == valid_languages().contains(l@),
{
    let c = chars_of(l);
    let names = vec!["typescript", "rust", "python", "go", "java", "kotlin"];
    let mut i: usize = 0;
    while i < names.len()
        invariant
            i <= names.len(),
            c@ == l@,
            names@.len() == 6,
            forall|j: int| 0 <= j < 6 ==> #[trigger] names@[j]@ == valid_languages()[j],
            forall|j: int| 0 <= j < i ==> valid_languages()[j] != l@,
        decreases names.len() - i,
    {
        if crate::naming::same_chars(&c, &chars_of(names[i])) {
            proof {
                assert(valid_languages()[i as int] == l@);
            }
            return true;
        }
        i = i + 1;
    }
    false
}

impl Config {
    /// The default configuration with `target` as the target language.
    pub fn default_with_target(target: String) -> (r: Self)
        ensures
            is_default_config(r),
            r.project.target_lang == target,
    {
        let mut config = Config::default();
        config.project.target_lang = target;
        config
    }

    /// Check the languages: a source language, when given, and the target language
    /// must be among the valid ones; the source language is checked first.
    pub fn validate(&self) -> (r: Result<(), ConfigError>)
        ensures
            match self.project.source_lang {
                Some(l) if !valid_languages().contains(l@) => r matches Err(ConfigError::InvalidSourceLanguage(x))
                    && x@ == l@,
                _ => if !valid_languages().contains(self.project.target_lang@) {
                    r matches Err(ConfigError::InvalidTargetLanguage(x)) && x@ == self.project.target_lang@
                } else {
                    r is Ok
                },
            },
    {
        match &self.project.source_lang {
            Some(l) => {
                if !is_valid_language(l.as_str()) {
                    return Err(ConfigError::InvalidSourceLanguage(l.clone()));
                }
            },
            None => {},
        }
        if !is_valid_language(self.project.target_lang.as_str()) {
            return Err(ConfigError::InvalidTargetLanguage(self.project.target_lang.clone()));
        }
        Ok(())
    }
}


/// The default configuration passes its own checks: it names no source language and
/// targets Rust, which is a valid language.
pub proof fn law_default_config_valid()
    ensures
        valid_languages().contains("rust"@),
{
    assert(valid_languages()[1] == "rust"@);
}

} // verus!
