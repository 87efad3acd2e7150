//! Errors, and the findings that a validation run reports.

use crate::text::same_text;
use vstd::prelude::*;
use yaml_rust::ScanError;

verus! {

/// Why a run could not be set up, or how it ended.
#[derive(Debug)]
pub enum FlError {
    FileReadError(String),
    FileDoesNotExist(String),
    EmptyFile(String),
    YamlReadError(ScanError),
    HttpError(String),
    ConfigValidation(String),
    ValidationError(u32),
    NoInputFiles(String),
    InvalidValidationType(String),
    InvalidValidationLevel(String, String),
}

/// The mathematical value of an `FlError`.
pub enum FlErrorView {
    FileReadError(Seq<char>),
    FileDoesNotExist(Seq<char>),
    EmptyFile(Seq<char>),
    YamlReadError(ScanError),
    HttpError(Seq<char>),
    ConfigValidation(Seq<char>),
    ValidationError(u32),
    NoInputFiles(Seq<char>),
    InvalidValidationType(Seq<char>),
    InvalidValidationLevel(Seq<char>, Seq<char>),
}

impl View for FlError {
    type V = FlErrorView;

    open spec fn view(&self) -> FlErrorView {
        match self {
            FlError::FileReadError(s) => FlErrorView::FileReadError(s@),
            FlError::FileDoesNotExist(s) => FlErrorView::FileDoesNotExist(s@),
            FlError::EmptyFile(s) => FlErrorView::EmptyFile(s@),
            FlError::YamlReadError(e) => FlErrorView::YamlReadError(*e),
            FlError::HttpError(s) => FlErrorView::HttpError(s@),
            FlError::ConfigValidation(s) => FlErrorView::ConfigValidation(s@),
            FlError::ValidationError(n) => FlErrorView::ValidationError(*n),
            FlError::NoInputFiles(s) => FlErrorView::NoInputFiles(s@),
            FlError::InvalidValidationType(s) => FlErrorView::InvalidValidationType(s@),
            FlError::InvalidValidationLevel(level, kind) => FlErrorView::InvalidValidationLevel(
                level@,
                kind@,
            ),
        }
    }
}

/// How much a finding weighs.
#[derive(Debug, Clone, Copy, PartialEq, Eq, Structural)]
pub enum ValidationLevel {
    Error,
    Warning,
    /// Found and kept, but neither shown nor counted. Its word is `none`.
    Suppressed,
}

impl ValidationLevel {
    /// The word that stands for the level in a configuration.
    pub open spec fn text(self) -> Seq<char> {
        match self {
            ValidationLevel::Error => "error"@,
            ValidationLevel::Warning => "warn"@,
            ValidationLevel::Suppressed => "none"@,
        }
    }

    /// The level that `input` stands for: the first of `Error`, `Warning`,
    /// `Suppressed` whose word it is.
    pub open spec fn parse(input: Seq<char>) -> Option<ValidationLevel> {
        if input == ValidationLevel::Error.text() {
            Some(ValidationLevel::Error)
        } else if input == ValidationLevel::Warning.text() {
            Some(ValidationLevel::Warning)
        } else if input == ValidationLevel::Suppressed.text() {
            Some(ValidationLevel::Suppressed)
        } else {
            None
        }
    }

    /// The word that stands for the level in a configuration.
    pub fn as_str(&self) -> (word: &'static str)
        ensures
            word@ == self.text(),
    {
        match self {
            ValidationLevel::Error => "error",
            ValidationLevel::Warning => "warn",
            ValidationLevel::Suppressed => "none",
        }
    }

    /// Every level, heaviest first.
    pub fn values() -> (all: Vec<ValidationLevel>)
        ensures
            all@ == seq![ValidationLevel::Error, ValidationLevel::Warning, ValidationLevel::Suppressed],
    {
        let mut all: Vec<ValidationLevel> = Vec::new();
        all.push(ValidationLevel::Error);
        all.push(ValidationLevel::Warning);
        all.push(ValidationLevel::Suppressed);
        assert(all@ =~= seq![
            ValidationLevel::Error,
            ValidationLevel::Warning,
            ValidationLevel::Suppressed,
        ]);
        all
    }

    /// The level that `input` stands for, if it stands for one.
    pub fn from_str(input: &str) -> (level: Option<ValidationLevel>)
        ensures
            level == ValidationLevel::parse(input@),
    {
        let all = ValidationLevel::values();
        let mut i: usize = 0;
        while i < all.len()
            invariant
                i <= all.len(),
                all@ == seq![
                    ValidationLevel::Error,
                    ValidationLevel::Warning,
                    ValidationLevel::Suppressed,
                ],
                forall|j: int| 0 <= j < i ==> all@[j].text() != input@,
            decreases all.len() - i,
        {
            if same_text(all[i].as_str(), input) {
                return Some(all[i]);
            }
            i += 1;
        }
        assert(all@[0].text() != input@ && all@[1].text() != input@ && all@[2].text() != input@);
        None
    }
}

/// What a finding is about.
#[derive(Debug, Clone, Copy, PartialEq, Eq, Structural)]
pub enum ValidationType {
    GitDevDependency,
    UnknownDependency,
    DependencyNotAllowed,
    CyclicDependency,
    NonGitDependencyInPublicPackage,
}

impl ValidationType {
    /// The key that stands for the kind in a configuration.
    pub open spec fn text(self) -> Seq<char> {
        match self {
            ValidationType::GitDevDependency => "validation:dev-dependency:git"@,
            ValidationType::UnknownDependency => "validation:dependency:unknown"@,
            ValidationType::DependencyNotAllowed => "validation:dependency:unallowed"@,
            ValidationType::CyclicDependency => "validation:dependency:cyclic"@,
            ValidationType::NonGitDependencyInPublicPackage => "validation:public:dependency:non-git"@,
        }
    }

    /// Every kind, in the order in which a key is tried against them.
    pub open spec fn all() -> Seq<ValidationType> {
        seq![
            ValidationType::GitDevDependency,
            ValidationType::UnknownDependency,
            ValidationType::DependencyNotAllowed,
            ValidationType::CyclicDependency,
            ValidationType::NonGitDependencyInPublicPackage,
        ]
    }

    /// The kind that `input` stands for: the first of `all()` whose key it is.
    pub open spec fn parse(input: Seq<char>) -> Option<ValidationType> {
        if input == ValidationType::GitDevDependency.text() {
            Some(ValidationType::GitDevDependency)
        } else if input == ValidationType::UnknownDependency.text() {
            Some(ValidationType::UnknownDependency)
        } else if input == ValidationType::DependencyNotAllowed.text() {
            Some(ValidationType::DependencyNotAllowed)
        } else if input == ValidationType::CyclicDependency.text() {
            Some(ValidationType::CyclicDependency)
        } else if input == ValidationType::NonGitDependencyInPublicPackage.text() {
            Some(ValidationType::NonGitDependencyInPublicPackage)
        } else {
            None
        }
    }

    /// The key that stands for the kind in a configuration.
    pub fn as_str(&self) -> (word: &'static str)
        ensures
            word@ == self.text(),
    {
        match self {
            ValidationType::GitDevDependency => "validation:dev-dependency:git",
            ValidationType::UnknownDependency => "validation:dependency:unknown",
            ValidationType::DependencyNotAllowed => "validation:dependency:unallowed",
            ValidationType::CyclicDependency => "validation:dependency:cyclic",
            ValidationType::NonGitDependencyInPublicPackage => "validation:public:dependency:non-git",
        }
    }

    /// Every kind.
    pub fn values() -> (all: Vec<ValidationType>)
        ensures
            all@ == ValidationType::all(),
    {
        let mut all: Vec<ValidationType> = Vec::new();
        all.push(ValidationType::GitDevDependency);
        all.push(ValidationType::UnknownDependency);
        all.push(ValidationType::DependencyNotAllowed);
        all.push(ValidationType::CyclicDependency);
        all.push(ValidationType::NonGitDependencyInPublicPackage);
        assert(all@ =~= ValidationType::all());
        all
    }

    /// The kind that `input` stands for, if it stands for one.
    pub fn from_str(input: &str) -> (kind: Option<ValidationType>)
        ensures
            kind == ValidationType::parse(input@),
    {
        let all = ValidationType::values();
        let mut i: usize = 0;
        while i < all.len()
            invariant
                i <= all.len(),
                all@ == ValidationType::all(),
                forall|j: int| 0 <= j < i ==> all@[j].text() != input@,
            decreases all.len() - i,
        {
            if same_text(all[i].as_str(), input) {
                return Some(all[i]);
            }
            i += 1;
        }
        assert(all@[0].text() != input@ && all@[1].text() != input@ && all@[2].text() != input@
            && all@[3].text() != input@ && all@[4].text() != input@);
        None
    }
}

/// One finding of a validation run.
#[derive(Debug, PartialEq)]
pub struct PackageValidation {
    pub package_name: String,
    pub error: String,
    pub description: Option<String>,
    pub code: ValidationType,
    pub level: ValidationLevel,
}

/// The mathematical value of a `PackageValidation`.
pub struct PackageValidationView {
    pub package_name: Seq<char>,
    pub error: Seq<char>,
    pub description: Option<Seq<char>>,
    pub code: ValidationType,
    pub level: ValidationLevel,
}

impl View for PackageValidation {
    type V = PackageValidationView;

    open spec fn view(&self) -> PackageValidationView {
        PackageValidationView {
            package_name: self.package_name@,
            error: self.error@,
            description: match self.description {
                Some(text) => Some(text@),
                None => None,
            },
            code: self.code,
            level: self.level,
        }
    }
}

} // verus!
