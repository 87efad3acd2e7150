//! The layering policy: package types, the prefixes that a type may depend on,
//! and the configuration that holds them.

use crate::error::FlError;
use crate::error::FlErrorView;
use crate::error::ValidationLevel;
use crate::error::ValidationType;
use crate::pattern::any_matches;
use crate::pattern::matches_any;
use crate::pattern::regex_compiles;
use crate::pattern::same_sources;
use crate::pattern::sources;
use crate::text::has_prefix;
use crate::text::same_text;
use crate::text::same_texts;
use crate::text::views;
use crate::util::load_yaml;
use crate::util::first_document;
use crate::util::str_list;
use crate::util::yaml_str_list;
use crate::yaml::YamlNode;
use crate::yaml::YamlView;
use regex::Error;
use regex::Regex;
use vstd::prelude::*;
use vstd::std_specs::cmp::PartialEqSpecImpl;

verus! {

/// A named layer of the policy. A package belongs to it when the name of its
/// directory starts with one of `prefixes`; `includes` names the layers that
/// its packages may depend on.
#[derive(Debug, PartialEq)]
pub struct PackageType {
    pub name: String,
    pub prefixes: Vec<String>,
    pub includes: Vec<String>,
}

/// The mathematical value of a `PackageType`.
pub struct PackageTypeView {
    pub name: Seq<char>,
    pub prefixes: Seq<Seq<char>>,
    pub includes: Seq<Seq<char>>,
}

impl View for PackageType {
    type V = PackageTypeView;

    open spec fn view(&self) -> PackageTypeView {
        PackageTypeView {
            name: self.name@,
            prefixes: views(self.prefixes@),
            includes: views(self.includes@),
        }
    }
}

/// Whether `dir_name` starts with one of `prefixes`.
pub open spec fn starts_with_any(prefixes: Seq<Seq<char>>, dir_name: Seq<char>) -> bool {
    exists|i: int| 0 <= i < prefixes.len() && (#[trigger] prefixes[i]).is_prefix_of(dir_name)
}

impl PackageTypeView {
    /// Whether a package in a directory of this name belongs to the type.
    pub open spec fn matches_prefix(self, dir_name: Seq<char>) -> bool {
        starts_with_any(self.prefixes, dir_name)
    }
}

/// Whether `dir_name` starts with one of `prefixes`.
pub fn any_prefix_of(prefixes: &Vec<String>, dir_name: &str) -> (found: bool)
    ensures
        found == starts_with_any(views(prefixes@), dir_name@),
{
    let mut i: usize = 0;
    while i < prefixes.len()
        invariant
            i <= prefixes.len(),
            forall|j: int| 0 <= j < i ==> !(#[trigger] views(prefixes@)[j]).is_prefix_of(dir_name@),
        decreases prefixes.len() - i,
    {
        if has_prefix(dir_name, prefixes[i].as_str()) {
            assert(views(prefixes@)[i as int].is_prefix_of(dir_name@));
            return true;
        }
        i += 1;
    }
    false
}

impl PackageType {
    /// Whether a package in a directory of this name belongs to the type.
    pub fn matches_prefix(&self, dir_name: &str) -> (b: bool)
        ensures
            b == self@.matches_prefix(dir_name@),
    {
        any_prefix_of(&self.prefixes, dir_name)
    }

    /// Whether the two types have the same name, prefixes and includes.
    pub fn same_as(&self, other: &PackageType) -> (same: bool)
        ensures
            same == (self@ == other@),
    {
        same_text(self.name.as_str(), other.name.as_str()) && same_texts(
            &self.prefixes,
            &other.prefixes,
        ) && same_texts(&self.includes, &other.includes)
    }
}

/// The policy and the settings of a run.
#[derive(Debug)]
pub struct Config {
    pub package_types: Vec<PackageType>,
    /// A package whose manifest path one of these matches is not validated.
    pub blacklist: Vec<Regex>,
    /// The level of the findings of a kind; a kind without an entry has `Error`.
    pub validations: Vec<(ValidationType, ValidationLevel)>,
    /// A git repository that one of these matches counts as public.
    pub public_repositories: Vec<Regex>,
}

/// The mathematical value of a `Config`. The compiled expressions stand for
/// themselves.
pub struct ConfigView {
    pub package_types: Seq<PackageTypeView>,
    pub blacklist: Seq<Regex>,
    pub validations: Seq<(ValidationType, ValidationLevel)>,
    pub public_repositories: Seq<Regex>,
}

impl View for Config {
    type V = ConfigView;

    open spec fn view(&self) -> ConfigView {
        ConfigView {
            package_types: views(self.package_types@),
            blacklist: self.blacklist@,
            validations: self.validations@,
            public_repositories: self.public_repositories@,
        }
    }
}

/// The level of the first entry of `validations` for `kind`; `Error` where
/// there is none.
pub open spec fn level_in(
    validations: Seq<(ValidationType, ValidationLevel)>,
    kind: ValidationType,
) -> ValidationLevel
    decreases validations.len(),
{
    if validations.len() == 0 {
        ValidationLevel::Error
    } else if validations[0].0 == kind {
        validations[0].1
    } else {
        level_in(validations.drop_first(), kind)
    }
}

impl ConfigView {
    /// Whether the manifest at `full_path` is excluded from validation.
    pub open spec fn blacklisted(self, full_path: Seq<char>) -> bool {
        any_matches(self.blacklist, full_path)
    }

    /// Whether the git repository `git_repo` counts as public.
    pub open spec fn public_repo(self, git_repo: Seq<char>) -> bool {
        any_matches(self.public_repositories, git_repo)
    }

    /// The level that findings of `kind` get.
    pub open spec fn level_of(self, kind: ValidationType) -> ValidationLevel {
        level_in(self.validations, kind)
    }

    /// Whether a package type of the name `name` is declared.
    pub open spec fn declares(self, name: Seq<char>) -> bool {
        declared(self.package_types, name)
    }
}

/// Whether one of `types` has the name `name`.
pub open spec fn declared(types: Seq<PackageTypeView>, name: Seq<char>) -> bool {
    exists|i: int| 0 <= i < types.len() && (#[trigger] types[i]).name == name
}

/// The package type that one entry of `package_types` declares: the key is
/// its name, `dir_prefix` holds one prefix or a list of them, `includes` a
/// list of names. An entry without a name declares nothing.
pub open spec fn package_type_of(key: YamlView, value: YamlView) -> Option<PackageTypeView> {
    let name = key.text_or_empty();
    let prefix = value.get("dir_prefix"@).text_or_empty();
    if name.len() == 0 {
        None
    } else {
        Some(
            PackageTypeView {
                name,
                prefixes: if prefix.len() == 0 {
                    str_list(value.get("dir_prefix"@))
                } else {
                    seq![prefix]
                },
                includes: str_list(value.get("includes"@)),
            },
        )
    }
}

/// The package types that the entries of `package_types` declare, in order.
pub open spec fn package_types_of(entries: Seq<(YamlView, YamlView)>) -> Seq<PackageTypeView>
    decreases entries.len(),
{
    if entries.len() == 0 {
        Seq::empty()
    } else {
        let rest = package_types_of(entries.drop_last());
        match package_type_of(entries.last().0, entries.last().1) {
            Some(package_type) => rest.push(package_type),
            None => rest,
        }
    }
}

/// The kind and level that one entry of `validations` sets, or the error that
/// names what is not a kind or not a level.
pub open spec fn validation_of(key: YamlView, value: YamlView) -> Result<
    (ValidationType, ValidationLevel),
    FlErrorView,
> {
    let type_str = key.text_or_empty();
    let level_str = value.text_or_empty();
    match ValidationType::parse(type_str) {
        None => Err(FlErrorView::InvalidValidationType(type_str)),
        Some(kind) => match ValidationLevel::parse(level_str) {
            None => Err(FlErrorView::InvalidValidationLevel(level_str, type_str)),
            Some(level) => Ok((kind, level)),
        },
    }
}

/// What the entries of `validations` set, in order, or the error of the first
/// entry that has one.
pub open spec fn validations_of(entries: Seq<(YamlView, YamlView)>) -> Result<
    Seq<(ValidationType, ValidationLevel)>,
    FlErrorView,
>
    decreases entries.len(),
{
    if entries.len() == 0 {
        Ok(Seq::empty())
    } else {
        match validations_of(entries.drop_last()) {
            Err(error) => Err(error),
            Ok(rest) => match validation_of(entries.last().0, entries.last().1) {
                Err(error) => Err(error),
                Ok(entry) => Ok(rest.push(entry)),
            },
        }
    }
}

/// The error for an entry of the list `config_type` that is no regular
/// expression.
pub open spec fn invalid_regex(config_type: Seq<char>, entry: Seq<char>) -> FlErrorView {
    FlErrorView::ConfigValidation(
        "invalid regex in "@ + config_type + " entry: '"@ + entry + "'"@,
    )
}

/// The first of `includes` that names no declared package type.
pub open spec fn first_unknown(types: Seq<PackageTypeView>, includes: Seq<Seq<char>>) -> Option<
    Seq<char>,
>
    decreases includes.len(),
{
    if includes.len() == 0 {
        None
    } else if !declared(types, includes[0]) {
        Some(includes[0])
    } else {
        first_unknown(types, includes.drop_first())
    }
}

/// What is wrong with one package type among `types`: one of its includes that names
/// no declared type, or else an empty list of prefixes.
pub open spec fn type_error(types: Seq<PackageTypeView>, package: PackageTypeView) -> Option<
    Seq<char>,
> {
    match first_unknown(types, package.includes) {
        Some(unknown) => Some(
            "package '"@ + package.name + "': unknown include '"@ + unknown + "'"@,
        ),
        None => if package.prefixes.len() == 0 {
            Some("package '"@ + package.name + "': empty dir_prefix"@)
        } else {
            None
        },
    }
}

/// What is wrong with the first of `checked` that has something wrong.
pub open spec fn first_type_error(
    types: Seq<PackageTypeView>,
    checked: Seq<PackageTypeView>,
) -> Option<Seq<char>>
    decreases checked.len(),
{
    if checked.len() == 0 {
        None
    } else {
        match type_error(types, checked[0]) {
            Some(message) => Some(message),
            None => first_type_error(types, checked.drop_first()),
        }
    }
}

/// Why a policy of these package types is refused: there is none at all, or
/// one of them includes an undeclared type or has no prefix.
pub open spec fn policy_error(types: Seq<PackageTypeView>) -> Option<Seq<char>> {
    if types.len() == 0 {
        Some("no package types configured"@)
    } else {
        first_type_error(types, types)
    }
}

/// Whether `config` holds what the document `yaml` describes.
pub open spec fn describes(yaml: YamlView, config: ConfigView) -> bool {
    &&& config.package_types == package_types_of(yaml.get("package_types"@).entries())
    &&& validations_of(yaml.get("validations"@).entries()) == Ok::<_, FlErrorView>(
        config.validations,
    )
    &&& sources(config.public_repositories) == str_list(yaml.get("public_repositories"@))
    &&& sources(config.blacklist) == str_list(yaml.get("blacklist"@))
}

/// The first of `patterns` that is no regular expression.
pub open spec fn first_refused(patterns: Seq<Seq<char>>) -> Option<Seq<char>>
    decreases patterns.len(),
{
    if patterns.len() == 0 {
        None
    } else if !regex_compiles(patterns[0]) {
        Some(patterns[0])
    } else {
        first_refused(patterns.drop_first())
    }
}

/// Why the document `yaml` is not loaded, if it is not. What is looked at, in
/// this order: its `validations`, its `public_repositories`, its `blacklist`,
/// its policy; the first fault decides.
pub open spec fn load_error(yaml: YamlView) -> Option<FlErrorView> {
    match validations_of(yaml.get("validations"@).entries()) {
        Err(error) => Some(error),
        Ok(_) => match first_refused(str_list(yaml.get("public_repositories"@))) {
            Some(entry) => Some(invalid_regex("public repository"@, entry)),
            None => match first_refused(str_list(yaml.get("blacklist"@))) {
                Some(entry) => Some(invalid_regex("blacklist"@, entry)),
                None => match policy_error(
                    package_types_of(yaml.get("package_types"@).entries()),
                ) {
                    Some(message) => Some(FlErrorView::ConfigValidation(message)),
                    None => None,
                },
            },
        },
    }
}

impl Config {
    /// A configuration of these package types, with no exclusions, no levels
    /// and no public repositories.
    pub fn from_packages(package_types: Vec<PackageType>) -> (config: Config)
        ensures
            config.package_types == package_types,
            config.blacklist@.len() == 0,
            config.validations@.len() == 0,
            config.public_repositories@.len() == 0,
    {
        Config {
            package_types,
            blacklist: Vec::new(),
            validations: Vec::new(),
            public_repositories: Vec::new(),
        }
    }

    /// Whether any package type is configured.
    pub fn is_valid(&self) -> (b: bool)
        ensures
            b == (self@.package_types.len() > 0),
    {
        self.package_types.len() > 0
    }

    /// Whether the manifest at `full_path` is excluded from validation.
    pub fn is_blacklisted(&self, full_path: &str) -> (b: bool)
        ensures
            b == self@.blacklisted(full_path@),
    {
        matches_any(&self.blacklist, full_path)
    }

    /// Whether the git repository `git_repo` counts as public.
    pub fn is_public_repo(&self, git_repo: &str) -> (b: bool)
        ensures
            b == self@.public_repo(git_repo@),
    {
        matches_any(&self.public_repositories, git_repo)
    }

    /// The level that is configured for findings of `validation_type`; `Error`
    /// where none is.
    pub fn validation_level(&self, validation_type: &ValidationType) -> (level: ValidationLevel)
        ensures
            level == self@.level_of(*validation_type),
    {
        let ghost all = self.validations@;
        assert(all.skip(0) =~= all);
        let mut i: usize = 0;
        while i < self.validations.len()
            invariant
                i <= self.validations.len(),
                all == self.validations@,
                level_in(all, *validation_type) == level_in(all.skip(i as int), *validation_type),
            decreases self.validations.len() - i,
        {
            proof {
                assert(all.skip(i as int)[0] == all[i as int]);
                assert(all.skip(i as int).drop_first() =~= all.skip(i + 1));
            }
            if self.validations[i].0 == *validation_type {
                return self.validations[i].1;
            }
            i += 1;
        }
        ValidationLevel::Error
    }

    /// Whether a package type of the name `package_name` is declared.
    pub fn package_exists(&self, package_name: &str) -> (b: bool)
        ensures
            b == self@.declares(package_name@),
    {
        let mut i: usize = 0;
        while i < self.package_types.len()
            invariant
                i <= self.package_types.len(),
                forall|j: int| 0 <= j < i ==> (#[trigger] self@.package_types[j]).name != package_name@,
            decreases self.package_types.len() - i,
        {
            if same_text(self.package_types[i].name.as_str(), package_name) {
                assert(self@.package_types[i as int].name == package_name@);
                return true;
            }
            i += 1;
        }
        false
    }
}

/// The package types that the entries of the node `package_types` declare.
pub fn package_types_from(node: &YamlNode) -> (types: Vec<PackageType>)
    ensures
        views(types@) == package_types_of(node@.entries()),
{
    let mut types: Vec<PackageType> = Vec::new();
    let entries = match node.as_hash() {
        Some(entries) => entries,
        None => {
            assert(views(types@) =~= package_types_of(node@.entries()));
            return types;
        },
    };
    let ghost all = node@.entries();
    assert(all.take(0) =~= Seq::<(YamlView, YamlView)>::empty());
    let mut i: usize = 0;
    while i < entries.len()
        invariant
            i <= entries.len(),
            all.len() == entries@.len(),
            forall|j: int|
                0 <= j < all.len() ==> all[j] == (
                    (#[trigger] entries@[j]).0@,
                    entries@[j].1@,
                ),
            views(types@) =~= package_types_of(all.take(i as int)),
        decreases entries.len() - i,
    {
        proof {
            assert(all.take(i + 1).drop_last() =~= all.take(i as int));
            assert(all.take(i + 1).last() == (entries@[i as int].0@, entries@[i as int].1@));
        }
        let key = &entries[i].0;
        let value = &entries[i].1;
        let name = key.text_or_empty();
        if !name.is_empty() {
            let prefix = value.get("dir_prefix").text_or_empty();
            let prefixes = if prefix.is_empty() {
                yaml_str_list(value.get("dir_prefix"))
            } else {
                let mut single: Vec<String> = Vec::new();
                single.push(prefix.to_owned());
                assert(views(single@) =~= seq![prefix@]);
                single
            };
            let ghost before = views(types@);
            let package_type = PackageType {
                name: name.to_owned(),
                prefixes,
                includes: yaml_str_list(value.get("includes")),
            };
            assert(Some(package_type@) == package_type_of(key@, value@));
            types.push(package_type);
            assert(views(types@) =~= before.push(package_type@));
        }
        i += 1;
    }
    assert(all.take(entries@.len() as int) =~= all);
    types
}

/// The levels that the entries of the node `validations` set, or the error of
/// the first entry that names no kind or no level.
pub fn validations_from(node: &YamlNode) -> (r: Result<
    Vec<(ValidationType, ValidationLevel)>,
    FlError,
>)
    ensures
        match validations_of(node@.entries()) {
            Ok(validations) => r is Ok && r->Ok_0@ == validations,
            Err(error) => r is Err && r->Err_0@ == error,
        },
{
    let mut validations: Vec<(ValidationType, ValidationLevel)> = Vec::new();
    let entries = match node.as_hash() {
        Some(entries) => entries,
        None => {
            assert(validations@ =~= Seq::empty());
            return Ok(validations);
        },
    };
    let ghost all = node@.entries();
    assert(all.take(0) =~= Seq::<(YamlView, YamlView)>::empty());
    let mut i: usize = 0;
    while i < entries.len()
        invariant
            i <= entries.len(),
            all.len() == entries@.len(),
            all == node@.entries(),
            forall|j: int|
                0 <= j < all.len() ==> all[j] == (
                    (#[trigger] entries@[j]).0@,
                    entries@[j].1@,
                ),
            validations_of(all.take(i as int)) == Ok::<_, FlErrorView>(validations@),
        decreases entries.len() - i,
    {
        proof {
            assert(all.take(i + 1).drop_last() =~= all.take(i as int));
            assert(all.take(i + 1).last() == (entries@[i as int].0@, entries@[i as int].1@));
        }
        let type_str = entries[i].0.text_or_empty();
        let level_str = entries[i].1.text_or_empty();
        let ghost step = validation_of(entries@[i as int].0@, entries@[i as int].1@);
        let entry = match ValidationType::from_str(type_str) {
            None => Err(FlError::InvalidValidationType(type_str.to_owned())),
            Some(kind) => match ValidationLevel::from_str(level_str) {
                None => Err(
                    FlError::InvalidValidationLevel(level_str.to_owned(), type_str.to_owned()),
                ),
                Some(level) => Ok((kind, level)),
            },
        };
        match entry {
            Err(error) => {
                proof {
                    assert(step == Err::<(ValidationType, ValidationLevel), _>(error@));
                    lemma_validations_error(all, i as int);
                }
                return Err(error);
            },
            Ok(pair) => {
                validations.push(pair);
            },
        }
        i += 1;
    }
    assert(all.take(entries@.len() as int) =~= all);
    Ok(validations)
}

/// Once the entries up to and with the one at `at` give an error, all the
/// entries give that error.
pub proof fn lemma_validations_error(entries: Seq<(YamlView, YamlView)>, at: int)
    requires
        0 <= at < entries.len(),
        validations_of(entries.take(at + 1)) is Err,
    ensures
        validations_of(entries) == validations_of(entries.take(at + 1)),
    decreases entries.len() - at,
{
    if at + 1 == entries.len() {
        assert(entries.take(at + 1) =~= entries);
    } else {
        assert(entries.take(at + 2).drop_last() =~= entries.take(at + 1));
        lemma_validations_error(entries, at + 1);
    }
}

/// What becomes of one entry of the list `config_type`, given what compiling
/// it gave: the expression, or the error that names the entry.
pub fn compiled_entry(outcome: Result<Regex, Error>, entry: &str, config_type: &str) -> (r: Result<
    Regex,
    FlError,
>)
    ensures
        match outcome {
            Ok(regex) => r == Ok::<Regex, FlError>(regex),
            Err(_) => r is Err && r->Err_0@ == invalid_regex(config_type@, entry@),
        },
{
    match outcome {
        Ok(regex) => Ok(regex),
        Err(_) => {
            let mut message = "invalid regex in ".to_owned();
            message.append(config_type);
            message.append(" entry: '");
            message.append(entry);
            message.append("'");
            Err(FlError::ConfigValidation(message))
        },
    }
}

/// The patterns that `regexes` were compiled from.
pub fn regex_str_list(regexes: &Vec<Regex>) -> (list: Vec<&str>)
    ensures
        list@.len() == regexes@.len(),
        forall|i: int| 0 <= i < list@.len() ==> (#[trigger] list@[i])@ == sources(regexes@)[i],
{
    let mut list: Vec<&str> = Vec::new();
    let mut i: usize = 0;
    while i < regexes.len()
        invariant
            i <= regexes.len(),
            list@.len() == i,
            forall|j: int| 0 <= j < i ==> (#[trigger] list@[j])@ == sources(regexes@)[j],
        decreases regexes.len() - i,
    {
        list.push(regexes[i].as_str());
        i += 1;
    }
    list
}

/// The entries of the list `config_type`, each compiled: one expression for
/// each entry, in order, or the error that names the first entry that is no
/// regular expression.
pub fn regex_list(strings: Vec<String>, config_type: &str) -> (r: Result<Vec<Regex>, FlError>)
    ensures
        match first_refused(views(strings@)) {
            Some(entry) => r is Err && r->Err_0@ == invalid_regex(config_type@, entry),
            None => r is Ok && sources(r->Ok_0@) == views(strings@),
        },
{
    let ghost all = views(strings@);
    assert(all.skip(0) =~= all);
    let mut regexes: Vec<Regex> = Vec::new();
    let mut i: usize = 0;
    while i < strings.len()
        invariant
            i <= strings.len(),
            all == views(strings@),
            regexes@.len() == i,
            forall|j: int|
                0 <= j < i ==> crate::pattern::regex_source(#[trigger] regexes@[j]) == strings@[j]@,
            first_refused(all) == first_refused(all.skip(i as int)),
        decreases strings.len() - i,
    {
        let entry = strings[i].as_str();
        proof {
            assert(all.skip(i as int)[0] == entry@);
            assert(all.skip(i as int).drop_first() =~= all.skip(i + 1));
        }
        match compiled_entry(Regex::new(entry), entry, config_type) {
            Ok(regex) => {
                regexes.push(regex);
            },
            Err(error) => {
                return Err(error);
            },
        }
        i += 1;
    }
    assert(sources(regexes@) =~= views(strings@));
    Ok(regexes)
}

impl Config {
    /// The configuration itself where its policy is in order, the reason
    /// where it is not.
    ///
    /// A policy is refused when it declares no package type, and when one of
    /// its types includes an undeclared type or has no prefix; the first such
    /// type is named, and of the two faults the undeclared type comes first.
    pub fn validate(self) -> (r: Result<Config, FlError>)
        ensures
            match policy_error(self@.package_types) {
                Some(message) => r is Err && r->Err_0@ == FlErrorView::ConfigValidation(message),
                None => r == Ok::<Config, FlError>(self),
            },
    {
        if !self.is_valid() {
            return Err(FlError::ConfigValidation("no package types configured".to_owned()));
        }
        let ghost types = self@.package_types;
        assert(types.skip(0) =~= types);
        let mut i: usize = 0;
        while i < self.package_types.len()
            invariant
                i <= self.package_types.len(),
                types == self@.package_types,
                first_type_error(types, types) == first_type_error(types, types.skip(i as int)),
            decreases self.package_types.len() - i,
        {
            let package = &self.package_types[i];
            proof {
                assert(types.skip(i as int)[0] == package@);
                assert(types.skip(i as int).drop_first() =~= types.skip(i + 1));
            }
            let ghost includes = package@.includes;
            assert(includes.skip(0) =~= includes);
            let mut k: usize = 0;
            while k < package.includes.len()
                invariant
                    k <= package.includes.len(),
                    i < self.package_types.len(),
                    package == &self.package_types[i as int],
                    types == self@.package_types,
                    includes == package@.includes,
                    first_unknown(types, includes) == first_unknown(types, includes.skip(k as int)),
                    first_type_error(types, types) == first_type_error(
                        types,
                        types.skip(i as int),
                    ),
                    types.skip(i as int)[0] == package@,
                decreases package.includes.len() - k,
            {
                proof {
                    assert(includes.skip(k as int)[0] == package.includes@[k as int]@);
                    assert(includes.skip(k as int).drop_first() =~= includes.skip(k + 1));
                }
                if !self.package_exists(package.includes[k].as_str()) {
                    let mut message = "package '".to_owned();
                    message.append(package.name.as_str());
                    message.append("': unknown include '");
                    message.append(package.includes[k].as_str());
                    message.append("'");
                    return Err(FlError::ConfigValidation(message));
                }
                k += 1;
            }
            if package.prefixes.len() == 0 {
                let mut message = "package '".to_owned();
                message.append(package.name.as_str());
                message.append("': empty dir_prefix");
                return Err(FlError::ConfigValidation(message));
            }
            i += 1;
        }
        Ok(self)
    }

    /// The configuration that the document `config_yaml` describes.
    ///
    /// The entries of `validations` are read first, and the first of them that
    /// names no kind or no level decides the error. Then the patterns of
    /// `public_repositories` and of `blacklist` are compiled, and the first
    /// that is no regular expression decides. Last the policy is checked.
    pub fn load_from_yaml(config_yaml: YamlNode) -> (r: Result<Config, FlError>)
        ensures
            match load_error(config_yaml@) {
                Some(error) => r is Err && r->Err_0@ == error,
                None => r is Ok && describes(config_yaml@, r->Ok_0@),
            },
    {
        let package_types = package_types_from(config_yaml.get("package_types"));
        let validations = match validations_from(config_yaml.get("validations")) {
            Ok(validations) => validations,
            Err(error) => {
                return Err(error);
            },
        };
        let public_repositories = match regex_list(
            yaml_str_list(config_yaml.get("public_repositories")),
            "public repository",
        ) {
            Ok(regexes) => regexes,
            Err(error) => {
                return Err(error);
            },
        };
        let blacklist = match regex_list(yaml_str_list(config_yaml.get("blacklist")), "blacklist") {
            Ok(regexes) => regexes,
            Err(error) => {
                return Err(error);
            },
        };
        let config = Config { package_types, blacklist, validations, public_repositories };
        config.validate()
    }

    /// The configuration that `content`, the content of the file `file`,
    /// describes in its first YAML document.
    pub fn load(file: &str, content: &str) -> (r: Result<Config, FlError>)
        ensures
            match first_document(file@, content@) {
                Err(Some(error)) => r is Err && r->Err_0@ == error,
                Err(None) => r is Err && r->Err_0 is YamlReadError,
                Ok(doc) => match load_error(doc) {
                    Some(error) => r is Err && r->Err_0@ == error,
                    None => r is Ok && describes(doc, r->Ok_0@),
                },
            },
    {
        match load_yaml(file, content) {
            Ok(config_yaml) => Config::load_from_yaml(config_yaml),
            Err(error) => Err(error),
        }
    }
}

/// Whether the two lists hold the same package types in the same order.
pub fn same_package_types(a: &Vec<PackageType>, b: &Vec<PackageType>) -> (same: bool)
    ensures
        same == (views(a@) == views(b@)),
{
    if a.len() != b.len() {
        assert(views(a@).len() != views(b@).len());
        return false;
    }
    let mut i: usize = 0;
    while i < a.len()
        invariant
            i <= a.len(),
            a.len() == b.len(),
            forall|j: int| 0 <= j < i ==> a@[j]@ == b@[j]@,
        decreases a.len() - i,
    {
        if !a[i].same_as(&b[i]) {
            assert(views(a@)[i as int] != views(b@)[i as int]);
            return false;
        }
        i += 1;
    }
    assert(views(a@) =~= views(b@));
    true
}

/// Whether the two lists set the same levels for the same kinds in the same
/// order.
pub fn same_validations(
    a: &Vec<(ValidationType, ValidationLevel)>,
    b: &Vec<(ValidationType, ValidationLevel)>,
) -> (same: bool)
    ensures
        same == (a@ == b@),
{
    if a.len() != b.len() {
        return false;
    }
    let mut i: usize = 0;
    while i < a.len()
        invariant
            i <= a.len(),
            a.len() == b.len(),
            forall|j: int| 0 <= j < i ==> a@[j] == b@[j],
        decreases a.len() - i,
    {
        if !(a[i].0 == b[i].0 && a[i].1 == b[i].1) {
            assert(a@[i as int] != b@[i as int]);
            return false;
        }
        i += 1;
    }
    assert(a@ =~= b@);
    true
}

/// Two configurations are equal when they hold the same package types and
/// levels, and expressions compiled from the same patterns.
impl PartialEq for Config {
    fn eq(&self, other: &Self) -> (r: bool) {
        same_package_types(&self.package_types, &other.package_types) && same_validations(
            &self.validations,
            &other.validations,
        ) && same_sources(&self.blacklist, &other.blacklist) && same_sources(
            &self.public_repositories,
            &other.public_repositories,
        )
    }
}

impl PartialEqSpecImpl for Config {
    open spec fn obeys_eq_spec() -> bool {
        true
    }

    open spec fn eq_spec(&self, other: &Config) -> bool {
        &&& self@.package_types == other@.package_types
        &&& self@.validations == other@.validations
        &&& sources(self@.blacklist) == sources(other@.blacklist)
        &&& sources(self@.public_repositories) == sources(other@.public_repositories)
    }
}

} // verus!
