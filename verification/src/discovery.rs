//! Which files of a project are analyzed.
use vstd::prelude::*;
use crate::project::SourceLanguage;
use crate::text::{chars_of, seq_ends_with, ends_with_chars};

verus! {

/// What `glob::Pattern::new(pattern)` then `Pattern::matches(path)` give: `None`
/// when the pattern does not compile, else whether `path` matches.
pub uninterp spec fn glob_result(pattern: Seq<char>, path: Seq<char>) -> Option<bool>;

/// `glob::Pattern::new` followed by `glob::Pattern::matches` with the default
/// options. The result is a function of the pattern and the path, named
/// `glob_result`; the glob matching rules themselves are not stated.
#[verifier::external_body]
fn glob_match(pattern: &str, path: &str) -> (r: Option<bool>)
    ensures
        r == glob_result(pattern@, path@),
{
    match glob::Pattern::new(pattern) {
        Ok(p) => Some(p.matches(path)),
        Err(_) => None,
    }
}

/// Decides which files of a project are analyzed.
pub struct FileDiscovery {
    pub source_language: SourceLanguage,
    pub ignore_patterns: Vec<String>,
    pub exclude_patterns: Vec<String>,
    pub skip_framework: bool,
}

/// Framework boilerplate left out on request.
pub open spec fn framework_patterns() -> Seq<Seq<char>> {
    seq![
        "packages/vue/**"@,
        "packages/svelte/**"@,
        "packages/solid/**"@,
        "packages/react/**"@,
        "packages/next/**"@,
        "packages/ink/**"@,
        "packages/remotion/**"@,
        "packages/image/**"@,
        "packages/react-email/**"@,
        "packages/react-native/**"@,
        "packages/react-pdf/**"@,
        "packages/react-three-fiber/**"@,
        "packages/react-state/**"@,
        "packages/devtools-react/**"@,
        "packages/devtools-solid/**"@,
        "packages/devtools-svelte/**"@,
        "packages/devtools-vue/**"@,
        "packages/shadcn/**"@,
        "packages/shadcn-svelte/**"@,
        "packages/ui/**"@,
        "**/components/ui/*"@
    ]
}

/// A directory never walked into: dependencies, build output, version control, and
/// the output of an earlier migration.
pub open spec fn skipped_dir(name: Seq<char>) -> bool {
    ||| name == "node_modules"@
    ||| name == "target"@
    ||| name == ".git"@
    ||| name == "dist"@
    ||| name == "build"@
    ||| seq_ends_with(name, "-migration"@)
}

/// Source files of `language` carry `extension`.
pub open spec fn is_source_extension(language: SourceLanguage, extension: Option<Seq<char>>) -> bool {
    match extension {
        Some(e) => match language {
            SourceLanguage::TypeScript => e == "ts"@ || e == "tsx"@,
            SourceLanguage::Rust => e == "rs"@,
        },
        None => false,
    }
}

/// Some pattern of `patterns` compiles and matches `path`.
pub open spec fn any_match(patterns: Seq<Seq<char>>, path: Seq<char>) -> bool {
    exists|i: int| 0 <= i < patterns.len() && glob_result(patterns[i], path) == Some(true)
}

fn matches_any(patterns: &Vec<String>, path: &str) -> (r: bool)
    ensures
        r == any_match(crate::text::views(patterns@), path@),
{
    let mut i: usize = 0;
    while i < patterns.len()
        invariant
            i <= patterns.len(),
            forall|j: int| 0 <= j < i ==> glob_result(crate::text::views(patterns@)[j], path@) != Some(true),
        decreases patterns.len() - i,
    {
        if glob_match(patterns[i].as_str(), path) == Some(true) {
            proof {
                assert(crate::text::views(patterns@)[i as int] == patterns@[i as int]@);
            }
            return true;
        }
        i = i + 1;
    }
    false
}

fn framework_patterns_exec() -> (r: Vec<String>)
    ensures
        crate::text::views(r@) == framework_patterns(),
{
    let names = vec![
        "packages/vue/**",
        "packages/svelte/**",
        "packages/solid/**",
        "packages/react/**",
        "packages/next/**",
        "packages/ink/**",
        "packages/remotion/**",
        "packages/image/**",
        "packages/react-email/**",
        "packages/react-native/**",
        "packages/react-pdf/**",
        "packages/react-three-fiber/**",
        "packages/react-state/**",
        "packages/devtools-react/**",
        "packages/devtools-solid/**",
        "packages/devtools-svelte/**",
        "packages/devtools-vue/**",
        "packages/shadcn/**",
        "packages/shadcn-svelte/**",
        "packages/ui/**",
        "**/components/ui/*"
    ];
    let mut r: Vec<String> = Vec::new();
    let mut i: usize = 0;
    while i < names.len()
        invariant
            i <= names.len(),
            crate::text::views(r@) =~= names@.subrange(0, i as int).map_values(|s: &str| s@),
        decreases names.len() - i,
    {
        let ghost before = crate::text::views(r@);
        let x = String::from_str(names[i]);
        r.push(x);
        i = i + 1;
        proof {
            assert(crate::text::views(r@) =~= before.push(names@[i - 1]@));
            assert(names@.subrange(0, i as int).map_values(|s: &str| s@) =~= names@.subrange(0, i - 1).map_values(|s: &str| s@).push(names@[i - 1]@));
        }
    }
    proof {
        assert(names@.subrange(0, i as int) =~= names@);
        assert(names@.map_values(|s: &str| s@) =~= framework_patterns());
    }
    r
}

impl FileDiscovery {
    pub fn new(
        source_language: SourceLanguage,
        ignore_patterns: Vec<String>,
        exclude_patterns: Vec<String>,
        skip_framework: bool,
    ) -> (r: Self)
        ensures
            r.source_language == source_language,
            r.ignore_patterns == ignore_patterns,
            r.exclude_patterns == exclude_patterns,
            r.skip_framework == skip_framework,
    {
        FileDiscovery { source_language, ignore_patterns, exclude_patterns, skip_framework }
    }

    /// Whether the walk goes into a directory whose path below the root has the
    /// components `relative`: not when any of them is a skipped directory.
    pub fn should_traverse(&self, relative: &[String]) -> (r: bool)
        ensures
            r == forall|i: int| 0 <= i < relative.len() ==> !skipped_dir(#[trigger] relative@[i]@),
    {
        let mut i: usize = 0;
        while i < relative.len()
            invariant
                i <= relative.len(),
                forall|j: int| 0 <= j < i ==> !skipped_dir(#[trigger] relative@[j]@),
            decreases relative.len() - i,
        {
            if is_skipped_dir(relative[i].as_str()) {
                return false;
            }
            i = i + 1;
        }
        true
    }

    /// Whether a file of the given extension, at `relative` below the root, is
    /// analyzed.
    pub open spec fn includes(&self, relative: Seq<char>, extension: Option<Seq<char>>) -> bool {
        &&& is_source_extension(self.source_language, extension)
        &&& !any_match(crate::text::views(self.ignore_patterns@), relative)
        &&& !any_match(crate::text::views(self.exclude_patterns@), relative)
        &&& !(self.skip_framework && any_match(framework_patterns(), relative))
    }

    /// Whether a file is analyzed: it carries a source extension of the language,
    /// and no ignore, exclude or (when framework files are skipped) framework pattern
    /// matches its path below the root.
    pub fn should_include(&self, relative: &str, extension: Option<&str>) -> (r: bool)
        ensures
            r == self.includes(relative@, match extension {
                Some(e) => Some(e@),
                None => None,
            }),
    {
        let matches_language = match extension {
            Some(e) => {
                let c = chars_of(e);
                match self.source_language {
                    SourceLanguage::TypeScript => crate::naming::same_chars(&c, &chars_of("ts"))
                        || crate::naming::same_chars(&c, &chars_of("tsx")),
                    SourceLanguage::Rust => crate::naming::same_chars(&c, &chars_of("rs")),
                }
            },
            None => false,
        };
        if !matches_language {
            return false;
        }
        if matches_any(&self.ignore_patterns, relative) {
            return false;
        }
        if matches_any(&self.exclude_patterns, relative) {
            return false;
        }
        if self.skip_framework && matches_any(&framework_patterns_exec(), relative) {
            return false;
        }
        true
    }
}

fn is_skipped_dir(name: &str) -> (r: bool)
    ensures
        r == skipped_dir(name@),
{
    let c = chars_of(name);
    crate::naming::same_chars(&c, &chars_of("node_modules")) || crate::naming::same_chars(&c, &chars_of("target"))
        || crate::naming::same_chars(&c, &chars_of(".git")) || crate::naming::same_chars(&c, &chars_of("dist"))
        || crate::naming::same_chars(&c, &chars_of("build")) || ends_with_chars(&c, &chars_of("-migration"))
}

} // verus!
