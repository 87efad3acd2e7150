//! One dependency as a manifest declares it.

use crate::config::Config;
use crate::config::ConfigView;
use vstd::prelude::*;

verus! {

/// A declared dependency: on a package of the same repository by its path, on
/// a git repository, or on a package of the public registry.
///
/// Each may carry one override, the dependency that is used in its place.
#[derive(Debug)]
pub enum Dependency {
    Local { name: String, path: String, overridden: Box<Option<Dependency>> },
    Git { name: String, git: String, path: String, overridden: Box<Option<Dependency>> },
    PubDev { name: String, version: String, overridden: Box<Option<Dependency>> },
}

/// The mathematical value of a `Dependency`.
pub enum DependencyView {
    Local { name: Seq<char>, path: Seq<char>, overridden: Option<Box<DependencyView>> },
    Git { name: Seq<char>, git: Seq<char>, path: Seq<char>, overridden: Option<Box<DependencyView>> },
    PubDev { name: Seq<char>, version: Seq<char>, overridden: Option<Box<DependencyView>> },
}

impl View for Dependency {
    type V = DependencyView;

    open spec fn view(&self) -> DependencyView
        decreases self,
    {
        match self {
            Dependency::Local { name, path, overridden } => DependencyView::Local {
                name: name@,
                path: path@,
                overridden: match **overridden {
                    Some(dep) => Some(Box::new(dep.view())),
                    None => None,
                },
            },
            Dependency::Git { name, git, path, overridden } => DependencyView::Git {
                name: name@,
                git: git@,
                path: path@,
                overridden: match **overridden {
                    Some(dep) => Some(Box::new(dep.view())),
                    None => None,
                },
            },
            Dependency::PubDev { name, version, overridden } => DependencyView::PubDev {
                name: name@,
                version: version@,
                overridden: match **overridden {
                    Some(dep) => Some(Box::new(dep.view())),
                    None => None,
                },
            },
        }
    }
}

impl DependencyView {
    pub open spec fn name(self) -> Seq<char> {
        match self {
            DependencyView::Local { name, .. } => name,
            DependencyView::Git { name, .. } => name,
            DependencyView::PubDev { name, .. } => name,
        }
    }

    /// The kind of the dependency and what tells it from others of its kind.
    pub open spec fn details(self) -> Seq<char> {
        match self {
            DependencyView::Local { path, .. } => "[local, "@ + path + "]"@,
            DependencyView::Git { git, .. } => "[git, "@ + git + "]"@,
            DependencyView::PubDev { version, .. } => "[public, "@ + version + "]"@,
        }
    }

    /// The override, if there is one.
    pub open spec fn overridden(self) -> Option<DependencyView> {
        match self {
            DependencyView::Local { overridden, .. } => match overridden {
                Some(dep) => Some(*dep),
                None => None,
            },
            DependencyView::Git { overridden, .. } => match overridden {
                Some(dep) => Some(*dep),
                None => None,
            },
            DependencyView::PubDev { overridden, .. } => match overridden {
                Some(dep) => Some(*dep),
                None => None,
            },
        }
    }

    /// The same declaration with `other` as its override, in place of any it
    /// had.
    pub open spec fn with_override(self, other: DependencyView) -> DependencyView {
        match self {
            DependencyView::Local { name, path, .. } => DependencyView::Local {
                name,
                path,
                overridden: Some(Box::new(other)),
            },
            DependencyView::Git { name, git, path, .. } => DependencyView::Git {
                name,
                git,
                path,
                overridden: Some(Box::new(other)),
            },
            DependencyView::PubDev { name, version, .. } => DependencyView::PubDev {
                name,
                version,
                overridden: Some(Box::new(other)),
            },
        }
    }

    /// The declaration alone, without an override.
    pub open spec fn declaration(self) -> DependencyView {
        match self {
            DependencyView::Local { name, path, .. } => DependencyView::Local {
                name,
                path,
                overridden: None,
            },
            DependencyView::Git { name, git, path, .. } => DependencyView::Git {
                name,
                git,
                path,
                overridden: None,
            },
            DependencyView::PubDev { name, version, .. } => DependencyView::PubDev {
                name,
                version,
                overridden: None,
            },
        }
    }

    /// The dependency that is used: the override where there is one, the
    /// declaration itself where there is none.
    pub open spec fn effective(self) -> DependencyView {
        match self.overridden() {
            Some(dep) => dep,
            None => self,
        }
    }

    /// Whether this is a git dependency on a repository that `config` counts
    /// as public.
    pub open spec fn is_public(self, config: ConfigView) -> bool {
        match self {
            DependencyView::Git { git, .. } => config.public_repo(git),
            _ => false,
        }
    }
}

/// The value of an override that may be missing.
pub open spec fn option_view(dep: Option<Dependency>) -> Option<DependencyView> {
    match dep {
        Some(d) => Some(d@),
        None => None,
    }
}

impl Dependency {
    pub fn name(&self) -> (name: &String)
        ensures
            name@ == self@.name(),
    {
        match self {
            Dependency::Local { name, .. } => name,
            Dependency::Git { name, .. } => name,
            Dependency::PubDev { name, .. } => name,
        }
    }

    /// A short text that tells the kind of the dependency and its path,
    /// repository or version.
    pub fn details(&self) -> (text: String)
        ensures
            text@ == self@.details(),
    {
        match self {
            Dependency::Local { path, .. } => {
                let mut text = "[local, ".to_owned();
                text.append(path.as_str());
                text.append("]");
                text
            },
            Dependency::Git { git, .. } => {
                let mut text = "[git, ".to_owned();
                text.append(git.as_str());
                text.append("]");
                text
            },
            Dependency::PubDev { version, .. } => {
                let mut text = "[public, ".to_owned();
                text.append(version.as_str());
                text.append("]");
                text
            },
        }
    }

    /// The override, if one is set.
    pub fn overridden(&self) -> (dep: &Option<Dependency>)
        ensures
            option_view(*dep) == self@.overridden(),
    {
        match self {
            Dependency::Local { overridden, .. } => overridden,
            Dependency::Git { overridden, .. } => overridden,
            Dependency::PubDev { overridden, .. } => overridden,
        }
    }

    /// The same declaration with `override_dependency` as its override.
    pub fn with_override(self, override_dependency: Dependency) -> (dep: Self)
        ensures
            dep@ == self@.with_override(override_dependency@),
    {
        match self {
            Dependency::Local { name, path, .. } => Dependency::Local {
                name,
                path,
                overridden: Box::new(Some(override_dependency)),
            },
            Dependency::Git { name, path, git, .. } => Dependency::Git {
                name,
                path,
                git,
                overridden: Box::new(Some(override_dependency)),
            },
            Dependency::PubDev { name, version, .. } => Dependency::PubDev {
                name,
                version,
                overridden: Box::new(Some(override_dependency)),
            },
        }
    }

    /// The dependency that is used: the override where one is set, the
    /// declaration itself where none is.
    pub fn effective(&self) -> (dep: &Dependency)
        ensures
            dep@ == self@.effective(),
    {
        match self.overridden() {
            Some(dep) => dep,
            None => self,
        }
    }

    /// Whether the dependency is on a package of the same repository.
    pub fn is_local(&self) -> (b: bool)
        ensures
            b == (self@ is Local),
    {
        match self {
            Dependency::Local { .. } => true,
            _ => false,
        }
    }

    /// Whether the dependency is on a git repository.
    pub fn is_git(&self) -> (b: bool)
        ensures
            b == (self@ is Git),
    {
        match self {
            Dependency::Git { .. } => true,
            _ => false,
        }
    }

    /// Whether the dependency is on a package of the public registry.
    pub fn is_pubdev(&self) -> (b: bool)
        ensures
            b == (self@ is PubDev),
    {
        match self {
            Dependency::PubDev { .. } => true,
            _ => false,
        }
    }

    /// Whether the dependency is on a git repository that `config` counts as
    /// public.
    pub fn is_public(&self, config: &Config) -> (b: bool)
        ensures
            b == self@.is_public(config@),
    {
        match self {
            Dependency::Git { git, .. } => config.is_public_repo(git.as_str()),
            _ => false,
        }
    }
}

} // verus!
