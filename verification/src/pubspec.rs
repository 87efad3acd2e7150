//! One package of the repository, as its manifest describes it.

use crate::dependency::Dependency;
use crate::dependency::DependencyView;
use crate::error::FlError;
use crate::error::FlErrorView;
use crate::text::chars_of;
use crate::text::decimal;
use crate::text::decimal_text;
use crate::text::has_prefix;
use crate::text::join;
use crate::text::lowercase;
use crate::text::lowercase_of;
use crate::text::same_text;
use crate::text::string_of;
use crate::text::views;
use crate::util::find_last_component;
use crate::util::file_name_of;
use crate::util::first_document;
use crate::util::load_yaml;
use crate::util::parent_dir_of;
use crate::util::parent_segment;
use crate::util::push_joined;
use crate::util::slash;
use crate::util::split_segments;
use crate::yaml::number_as_text;
use crate::yaml::number_text;
use crate::yaml::YamlNode;
use crate::yaml::YamlView;
use vstd::prelude::*;

verus! {

/// A package: its name, where its manifest and its directory are, and what it
/// depends on.
#[derive(Debug)]
pub struct Pubspec {
    pub name: String,
    /// The path of the manifest.
    pub path: String,
    pub dir_name: String,
    pub dir_path: String,
    pub dependencies: Vec<Dependency>,
    pub dev_dependencies: Vec<Dependency>,
    /// Whether the package is distributed outside the repository.
    pub is_public: bool,
}

/// The mathematical value of a `Pubspec`.
pub struct PubspecView {
    pub name: Seq<char>,
    pub path: Seq<char>,
    pub dir_name: Seq<char>,
    pub dir_path: Seq<char>,
    pub dependencies: Seq<DependencyView>,
    pub dev_dependencies: Seq<DependencyView>,
    pub is_public: bool,
}

impl View for Pubspec {
    type V = PubspecView;

    open spec fn view(&self) -> PubspecView {
        PubspecView {
            name: self.name@,
            path: self.path@,
            dir_name: self.dir_name@,
            dir_path: self.dir_path@,
            dependencies: views(self.dependencies@),
            dev_dependencies: views(self.dev_dependencies@),
            is_public: self.is_public,
        }
    }
}

/// The version that a node gives for a package of the registry: a text as it
/// stands, a number as its text: an integer in decimal, a floating-point
/// number in its standard form.
pub open spec fn version_of(value: YamlView) -> Option<Seq<char>> {
    match value {
        YamlView::Text(text) => Some(text),
        YamlView::Integer(number) => Some(decimal_text(number as int)),
        YamlView::Real(scalar) => number_text(scalar),
        _ => None,
    }
}

/// The dependency that the entry `key: value` of a manifest declares.
///
/// A `path` that is not empty makes it local. Failing that, a `git` with a
/// `url` and a `path`, neither empty, makes it a git dependency. Failing that
/// too, a version makes it a dependency on the registry. Anything else
/// declares nothing.
pub open spec fn dependency_of(key: Seq<char>, value: YamlView) -> Option<DependencyView> {
    let path = value.get("path"@).text_or_empty();
    let git = value.get("git"@);
    let git_url = git.get("url"@).text_or_empty();
    let git_path = git.get("path"@).text_or_empty();
    if path.len() > 0 {
        Some(DependencyView::Local { name: key, path, overridden: None })
    } else if git_url.len() > 0 && git_path.len() > 0 {
        Some(DependencyView::Git { name: key, git: git_url, path: git_path, overridden: None })
    } else {
        match version_of(value) {
            Some(version) => Some(DependencyView::PubDev { name: key, version, overridden: None }),
            None => None,
        }
    }
}

/// The dependency that one entry of `dependencies` declares, with the
/// override that `overrides` holds under the same key, if it holds one. An
/// entry without a key declares nothing.
pub open spec fn declared_dependency(
    key: YamlView,
    value: YamlView,
    overrides: YamlView,
) -> Option<DependencyView> {
    let name = key.text_or_empty();
    if name.len() == 0 {
        None
    } else {
        match dependency_of(name, value) {
            None => None,
            Some(dep) => match dependency_of(name, overrides.get(name)) {
                Some(other) => Some(dep.with_override(other)),
                None => Some(dep),
            },
        }
    }
}

/// The dependencies that `entries` declare, in order, each with its override
/// from `overrides`.
pub open spec fn dependencies_of(
    entries: Seq<(YamlView, YamlView)>,
    overrides: YamlView,
) -> Seq<DependencyView>
    decreases entries.len(),
{
    if entries.len() == 0 {
        Seq::empty()
    } else {
        let rest = dependencies_of(entries.drop_last(), overrides);
        match declared_dependency(entries.last().0, entries.last().1, overrides) {
            Some(dep) => rest.push(dep),
            None => rest,
        }
    }
}

/// The error of a manifest whose directory cannot be told from its path.
pub open spec fn no_parent_error(path: Seq<char>) -> FlErrorView {
    FlErrorView::ConfigValidation("cannot determine parent directory for "@ + path)
}

/// The package that the manifest `yaml` at `path` describes.
///
/// Dependencies may be overridden by `dependency_overrides`, dev dependencies
/// may not. What is missing or of another shape counts as empty, or as
/// `false`.
pub open spec fn pubspec_of(path: Seq<char>, yaml: YamlView) -> Result<PubspecView, FlErrorView> {
    match parent_dir_of(path) {
        None => Err(no_parent_error(path)),
        Some(dir) => Ok(
            PubspecView {
                name: yaml.get("name"@).text_or_empty(),
                path,
                dir_name: dir.0,
                dir_path: dir.1,
                dependencies: dependencies_of(
                    yaml.get("dependencies"@).entries(),
                    yaml.get("dependency_overrides"@),
                ),
                dev_dependencies: dependencies_of(
                    yaml.get("dev_dependencies"@).entries(),
                    YamlView::BadValue,
                ),
                is_public: match yaml.get("flcheck"@).get("is_public"@).as_bool() {
                    Some(flag) => flag,
                    None => false,
                },
            },
        ),
    }
}

/// The dependency that the entry `key: value` of a manifest declares.
pub fn extract_dependency(key: &str, value: &YamlNode) -> (dep: Option<Dependency>)
    ensures
        match dep {
            Some(d) => dependency_of(key@, value@) == Some(d@),
            None => dependency_of(key@, value@) is None,
        },
{
    let path = value.get("path").text_or_empty();
    if !path.is_empty() {
        return Some(
            Dependency::Local {
                name: key.to_owned(),
                path: path.to_owned(),
                overridden: Box::new(None),
            },
        );
    }
    let git_node = value.get("git");
    let git_url = git_node.get("url").text_or_empty();
    let git_path = git_node.get("path").text_or_empty();
    if !git_url.is_empty() && !git_path.is_empty() {
        return Some(
            Dependency::Git {
                name: key.to_owned(),
                git: git_url.to_owned(),
                path: git_path.to_owned(),
                overridden: Box::new(None),
            },
        );
    }
    let version = match value {
        YamlNode::Text(text) => Some(text.clone()),
        YamlNode::Integer(number) => Some(decimal(*number)),
        YamlNode::Real(scalar) => number_as_text(scalar.as_str()),
        _ => None,
    };
    match version {
        Some(version) => Some(
            Dependency::PubDev { name: key.to_owned(), version, overridden: Box::new(None) },
        ),
        None => None,
    }
}

/// The dependencies that the entries of `dependencies` declare, each with its
/// override from `overrides`.
pub fn collect_dependencies(dependencies: &YamlNode, overrides: &YamlNode) -> (deps: Vec<Dependency>)
    ensures
        views(deps@) == dependencies_of(dependencies@.entries(), overrides@),
{
    let mut deps: Vec<Dependency> = Vec::new();
    let entries = match dependencies.as_hash() {
        Some(entries) => entries,
        None => {
            assert(views(deps@) =~= dependencies_of(dependencies@.entries(), overrides@));
            return deps;
        },
    };
    let ghost all = dependencies@.entries();
    assert(all.take(0) =~= Seq::<(YamlView, YamlView)>::empty());
    let mut i: usize = 0;
    while i < entries.len()
        invariant
            i <= entries.len(),
            all.len() == entries@.len(),
            forall|j: int|
                0 <= j < all.len() ==> all[j] == (
                    (#[trigger] entries@[j]).0@,
                    entries@[j].1@,
                ),
            views(deps@) =~= dependencies_of(all.take(i as int), overrides@),
        decreases entries.len() - i,
    {
        proof {
            assert(all.take(i + 1).drop_last() =~= all.take(i as int));
            assert(all.take(i + 1).last() == (entries@[i as int].0@, entries@[i as int].1@));
        }
        let key = entries[i].0.text_or_empty();
        if !key.is_empty() {
            match extract_dependency(key, &entries[i].1) {
                Some(dep) => {
                    let ghost before = views(deps@);
                    let ghost plain = dep@;
                    let new_dependency = match extract_dependency(key, overrides.get(key)) {
                        Some(dep_override) => dep.with_override(dep_override),
                        None => dep,
                    };
                    assert(Some(new_dependency@) == declared_dependency(
                        entries@[i as int].0@,
                        entries@[i as int].1@,
                        overrides@,
                    ));
                    deps.push(new_dependency);
                    assert(views(deps@) =~= before.push(new_dependency@));
                },
                None => {},
            }
        }
        i += 1;
    }
    assert(all.take(entries@.len() as int) =~= all);
    deps
}

/// The dependencies of the manifest `yaml`, each with its override.
pub fn get_dependencies(yaml: &YamlNode) -> (deps: Vec<Dependency>)
    ensures
        views(deps@) == dependencies_of(
            yaml@.get("dependencies"@).entries(),
            yaml@.get("dependency_overrides"@),
        ),
{
    collect_dependencies(yaml.get("dependencies"), yaml.get("dependency_overrides"))
}

/// The dev dependencies of the manifest `yaml`. They take no override.
pub fn get_dev_dependencies(yaml: &YamlNode) -> (deps: Vec<Dependency>)
    ensures
        views(deps@) == dependencies_of(yaml@.get("dev_dependencies"@).entries(), YamlView::BadValue),
{
    collect_dependencies(yaml.get("dev_dependencies"), &YamlNode::BadValue)
}

/// Whether the manifest `yaml` marks its package as distributed outside the
/// repository.
pub fn is_public_package(yaml: &YamlNode) -> (b: bool)
    ensures
        b == match yaml@.get("flcheck"@).get("is_public"@).as_bool() {
            Some(flag) => flag,
            None => false,
        },
{
    match yaml.get("flcheck").get("is_public").as_bool() {
        Some(flag) => flag,
        None => false,
    }
}

/// The last component of `path`, unless there is none or it is `..`.
pub fn file_name(path: &str) -> (name: Option<String>)
    ensures
        match name {
            Some(n) => file_name_of(path@) == Some(n@),
            None => file_name_of(path@) is None,
        },
{
    let chars = chars_of(path);
    let segs = split_segments(&chars);
    assert(views(segs@).take(segs@.len() as int) =~= views(segs@));
    match find_last_component(&segs, segs.len()) {
        None => None,
        Some(at) => {
            if parent_segment(&segs[at]) {
                None
            } else {
                let name = string_of(&segs[at], 0, segs[at].len());
                assert(segs@[at as int]@.subrange(0, segs@[at as int]@.len() as int) =~= segs@[at as int]@);
                Some(name)
            }
        },
    }
}

/// The name and the path of the directory that holds the manifest at `path`.
pub fn pubspec_dir(path: &str) -> (dir: Option<(String, String)>)
    ensures
        match dir {
            Some(d) => parent_dir_of(path@) == Some((d.0@, d.1@)),
            None => parent_dir_of(path@) is None,
        },
{
    let chars = chars_of(path);
    let segs = split_segments(&chars);
    assert(views(segs@).take(segs@.len() as int) =~= views(segs@));
    let last = match find_last_component(&segs, segs.len()) {
        None => {
            return None;
        },
        Some(last) => last,
    };
    match find_last_component(&segs, last) {
        None => None,
        Some(at) => {
            if parent_segment(&segs[at]) {
                None
            } else {
                let dir_name = string_of(&segs[at], 0, segs[at].len());
                assert(segs@[at as int]@.subrange(0, segs@[at as int]@.len() as int) =~= segs@[at as int]@);
                let mut full_dir = String::new();
                push_joined(&mut full_dir, &segs, at + 1);
                assert(Seq::<char>::empty() + join(views(segs@).take(at + 1), slash()) =~= join(
                    views(segs@).take(at + 1),
                    slash(),
                ));
                Some((dir_name, full_dir))
            }
        },
    }
}

impl Pubspec {
    /// The package that the manifest `yaml` at `path` describes; an error
    /// where the path does not tell the directory of the manifest.
    pub fn from_yaml(path: &str, yaml: &YamlNode) -> (r: Result<Pubspec, FlError>)
        ensures
            match pubspec_of(path@, yaml@) {
                Ok(pubspec) => r is Ok && r->Ok_0@ == pubspec,
                Err(error) => r is Err && r->Err_0@ == error,
            },
    {
        let name = yaml.get("name").text_or_empty().to_owned();
        match pubspec_dir(path) {
            None => {
                let mut message = "cannot determine parent directory for ".to_owned();
                message.append(path);
                Err(FlError::ConfigValidation(message))
            },
            Some((dir_name, dir_path)) => Ok(
                Pubspec {
                    name,
                    dir_name,
                    dir_path,
                    path: path.to_owned(),
                    dependencies: get_dependencies(yaml),
                    dev_dependencies: get_dev_dependencies(yaml),
                    is_public: is_public_package(yaml),
                },
            ),
        }
    }

    /// The package that `content`, the content of the manifest at `path`,
    /// describes in its first YAML document.
    pub fn load(path: &str, content: &str) -> (r: Result<Pubspec, FlError>)
        ensures
            match first_document(path@, content@) {
                Err(Some(error)) => r is Err && r->Err_0@ == error,
                Err(None) => r is Err && r->Err_0 is YamlReadError,
                Ok(doc) => match pubspec_of(path@, doc) {
                    Ok(pubspec) => r is Ok && r->Ok_0@ == pubspec,
                    Err(error) => r is Err && r->Err_0@ == error,
                },
            },
    {
        match load_yaml(path, content) {
            Ok(yaml) => Pubspec::from_yaml(path, &yaml),
            Err(error) => Err(error),
        }
    }
}

/// Whether a file of this name is a manifest: its name is `pubspec.yaml` or
/// `pubspec.yml`, in whatever case.
pub open spec fn names_pubspec(filename: Seq<char>) -> bool {
    lowercase_of(filename) == "pubspec.yaml"@ || lowercase_of(filename) == "pubspec.yml"@
}

/// Whether a file of this name is a manifest.
pub fn is_pubspec_file(filename: &str) -> (b: bool)
    ensures
        b == names_pubspec(filename@),
{
    let lower = lowercase(filename);
    same_text(lower.as_str(), "pubspec.yaml") || same_text(lower.as_str(), "pubspec.yml")
}

/// Whether a file or directory of this name is hidden, and so left out of
/// the search for manifests: its name starts with a dot.
pub fn is_hidden(filename: &str) -> (b: bool)
    ensures
        b == "."@.is_prefix_of(filename@),
{
    has_prefix(filename, ".")
}

} // verus!
