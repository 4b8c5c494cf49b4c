//! The project under assessment and its source language.
use vstd::prelude::*;
use crate::text::chars_of;

verus! {

/// The language a project is written in.
#[derive(Debug, Clone, Copy, PartialEq, Eq, Structural)]
pub enum SourceLanguage {
    TypeScript,
    Rust,
}

/// A project: its root directory, its source language, and the language it moves to.
#[derive(Debug)]
pub struct Project {
    pub root: String,
    pub source_language: SourceLanguage,
    pub target_language: String,
}

/// Why the source language could not be told.
#[derive(Debug)]
pub enum ProjectError {
    /// Both a `package.json` and a `Cargo.toml`, and no hint.
    BothManifests,
    /// Neither, and no hint; the root directory.
    NoManifest(String),
}

impl ProjectError {
    /// What went wrong, in words.
    pub fn message(&self) -> (r: String)
        ensures
            r@ == match self {
                ProjectError::BothManifests => "Both package.json and Cargo.toml found; please specify --source-lang"@,
                ProjectError::NoManifest(root) => "No package.json or Cargo.toml found in "@ + root@,
            },
    {
        proof {
            reveal_strlit("");
        }
        match self {
            ProjectError::BothManifests => String::from_str(
                "Both package.json and Cargo.toml found; please specify --source-lang",
            ),
            ProjectError::NoManifest(root) => {
                let r = crate::output_paths::join3("No package.json or Cargo.toml found in ", root.as_str(), "");
                proof {
                    assert("No package.json or Cargo.toml found in "@ + root@ + ""@ =~= "No package.json or Cargo.toml found in "@ + root@);
                }
                r
            },
        }
    }
}

/// The language a hint names: `typescript`/`ts` or `rust`/`rs`.
pub open spec fn hinted_language(hint: Option<Seq<char>>) -> Option<SourceLanguage> {
    match hint {
        Some(h) => if h == "typescript"@ || h == "ts"@ {
            Some(SourceLanguage::TypeScript)
        } else if h == "rust"@ || h == "rs"@ {
            Some(SourceLanguage::Rust)
        } else {
            None
        },
        None => None,
    }
}

/// The language of a project: the hint's, else the one whose manifest alone is there.
pub open spec fn detected_language(hint: Option<Seq<char>>, has_package_json: bool, has_cargo_toml: bool) -> Option<SourceLanguage> {
    match hinted_language(hint) {
        Some(l) => Some(l),
        None => if has_package_json && !has_cargo_toml {
            Some(SourceLanguage::TypeScript)
        } else if !has_package_json && has_cargo_toml {
            Some(SourceLanguage::Rust)
        } else {
            None
        },
    }
}

fn hinted(hint: &Option<String>) -> (r: Option<SourceLanguage>)
    ensures
        r == hinted_language(match hint {
            Some(h) => Some(h@),
            None => None,
        }),
{
    match hint {
        Some(h) => {
            let c = chars_of(h.as_str());
            if crate::naming::same_chars(&c, &chars_of("typescript")) || crate::naming::same_chars(&c, &chars_of("ts")) {
                Some(SourceLanguage::TypeScript)
            } else if crate::naming::same_chars(&c, &chars_of("rust")) || crate::naming::same_chars(&c, &chars_of("rs")) {
                Some(SourceLanguage::Rust)
            } else {
                None
            }
        },
        None => None,
    }
}

impl Project {
    /// The project at `root`, given whether it holds a `package.json` and a
    /// `Cargo.toml`: its language is the hint's, else the one whose manifest alone is
    /// there; with both or neither, and no hint, detection fails.
    pub fn detect(
        root: String,
        target_language: String,
        source_lang_hint: Option<String>,
        has_package_json: bool,
        has_cargo_toml: bool,
    ) -> (r: Result<Self, ProjectError>)
        ensures
            match detected_language(
                match source_lang_hint {
                    Some(h) => Some(h@),
                    None => None,
                },
                has_package_json,
                has_cargo_toml,
            ) {
                Some(l) => r matches Ok(p) && p.source_language == l && p.root == root && p.target_language == target_language,
                None => if has_package_json {
                    r == Err::<Self, ProjectError>(ProjectError::BothManifests)
                } else {
                    r matches Err(ProjectError::NoManifest(x)) && x == root
                },
            },
    {
        let source_language = match hinted(&source_lang_hint) {
            Some(l) => l,
            None => {
                if has_package_json && !has_cargo_toml {
                    SourceLanguage::TypeScript
                } else if !has_package_json && has_cargo_toml {
                    SourceLanguage::Rust
                } else if has_package_json {
                    return Err(ProjectError::BothManifests);
                } else {
                    return Err(ProjectError::NoManifest(root));
                }
            },
        };
        Ok(Project { root, source_language, target_language })
    }

    /// The name of the source language.
    pub fn source_language_str(&self) -> (r: &'static str)
        ensures
            r@ == match self.source_language {
                SourceLanguage::TypeScript => "typescript"@,
                SourceLanguage::Rust => "rust"@,
            },
    {
        match self.source_language {
            SourceLanguage::TypeScript => "typescript",
            SourceLanguage::Rust => "rust",
        }
    }
}

} // verus!
