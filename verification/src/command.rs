//! What each command puts out, as lines of text and as the outcome of the
//! run.

use crate::config::Config;
use crate::config::ConfigView;
use crate::dependency::Dependency;
use crate::dependency::DependencyView;
use crate::error::FlError;
use crate::error::FlErrorView;
use crate::error::PackageValidation;
use crate::error::PackageValidationView;
use crate::error::ValidationLevel;
use crate::pubdev::PubVersions;
use crate::pubdev::PubVersionsView;
use crate::validator::findings;
use crate::pubspec::Pubspec;
use crate::pubspec::PubspecView;
use crate::text::contains_text;
use crate::text::once;
use crate::text::same_text;
use crate::text::views;
use vstd::prelude::*;

verus! {

/// The line of the graph for one dependency of the package `name`: an edge
/// for a local or a git dependency, nothing for one on the registry.
pub open spec fn edge_line(name: Seq<char>, dep: DependencyView) -> Seq<Seq<char>> {
    if dep is PubDev {
        Seq::empty()
    } else {
        seq!["  "@ + name + " -> "@ + dep.name() + ";"@]
    }
}

/// The lines of the graph for the dependencies `deps` of the package `name`.
pub open spec fn edge_lines(name: Seq<char>, deps: Seq<DependencyView>) -> Seq<Seq<char>>
    decreases deps.len(),
{
    if deps.len() == 0 {
        Seq::empty()
    } else {
        edge_lines(name, deps.drop_last()) + edge_line(name, deps.last())
    }
}

/// The lines of the graph for one package: a comment, its node, and its
/// edges.
pub open spec fn node_lines(package: PubspecView) -> Seq<Seq<char>> {
    seq!["  // "@ + package.name, "  "@ + package.name + " []"@] + edge_lines(
        package.name,
        package.dependencies,
    )
}

/// The lines of the graph for `packages`, in order.
pub open spec fn body_lines(packages: Seq<PubspecView>) -> Seq<Seq<char>>
    decreases packages.len(),
{
    if packages.len() == 0 {
        Seq::empty()
    } else {
        body_lines(packages.drop_last()) + node_lines(packages.last())
    }
}

/// The lines that open the graph.
pub open spec fn graph_head() -> Seq<Seq<char>> {
    seq![
        "//"@,
        "// automatically generated by flcheck <https://github.com/kongo2002/flcheck>"@,
        "//"@,
        "digraph dependencies {"@,
        "  ranksep =\"2.0 equally\";"@,
    ]
}

/// The dependency graph of `packages` in the dot language, line by line.
pub open spec fn graph_lines(packages: Seq<PubspecView>) -> Seq<Seq<char>> {
    graph_head() + body_lines(packages) + seq!["}"@]
}

/// The dependency graph of `pubspecs` in the dot language, line by line: one
/// node for each package, one edge for each of its local and git
/// dependencies.
pub fn graph(pubspecs: &Vec<Pubspec>) -> (lines: Vec<String>)
    ensures
        views(lines@) == graph_lines(views(pubspecs@)),
{
    let ghost all = views(pubspecs@);
    let mut lines: Vec<String> = Vec::new();
    lines.push("//".to_owned());
    lines.push(
        "// automatically generated by flcheck <https://github.com/kongo2002/flcheck>".to_owned(),
    );
    lines.push("//".to_owned());
    lines.push("digraph dependencies {".to_owned());
    lines.push("  ranksep =\"2.0 equally\";".to_owned());
    assert(views(lines@) =~= graph_head());
    assert(all.take(0) =~= Seq::<PubspecView>::empty());
    assert(views(lines@) =~= graph_head() + body_lines(all.take(0)));
    let mut i: usize = 0;
    while i < pubspecs.len()
        invariant
            i <= pubspecs.len(),
            all == views(pubspecs@),
            views(lines@) == graph_head() + body_lines(all.take(i as int)),
        decreases pubspecs.len() - i,
    {
        let pubspec = &pubspecs[i];
        let ghost before = views(lines@);
        let ghost deps = pubspec@.dependencies;
        proof {
            assert(all.take(i + 1).drop_last() =~= all.take(i as int));
            assert(all.take(i + 1).last() == pubspec@);
        }
        let mut comment = "  // ".to_owned();
        comment.append(pubspec.name.as_str());
        lines.push(comment);
        let mut node = "  ".to_owned();
        node.append(pubspec.name.as_str());
        node.append(" []");
        lines.push(node);
        let ghost opened = before + seq!["  // "@ + pubspec@.name, "  "@ + pubspec@.name + " []"@];
        assert(views(lines@) =~= opened);
        assert(deps.take(0) =~= Seq::<DependencyView>::empty());
        assert(views(lines@) =~= opened + edge_lines(pubspec@.name, deps.take(0)));
        let mut k: usize = 0;
        while k < pubspec.dependencies.len()
            invariant
                k <= pubspec.dependencies.len(),
                deps == pubspec@.dependencies,
                views(lines@) == opened + edge_lines(pubspec@.name, deps.take(k as int)),
            decreases pubspec.dependencies.len() - k,
        {
            let dep = &pubspec.dependencies[k];
            let ghost so_far = views(lines@);
            proof {
                assert(deps.take(k + 1).drop_last() =~= deps.take(k as int));
                assert(deps.take(k + 1).last() == dep@);
            }
            if !dep.is_pubdev() {
                let mut edge = "  ".to_owned();
                edge.append(pubspec.name.as_str());
                edge.append(" -> ");
                edge.append(dep.name().as_str());
                edge.append(";");
                lines.push(edge);
                assert(views(lines@) =~= so_far + edge_line(pubspec@.name, dep@));
            } else {
                assert(views(lines@) =~= so_far + edge_line(pubspec@.name, dep@));
            }
            assert(views(lines@) =~= opened + edge_lines(pubspec@.name, deps.take(k + 1)));
            k += 1;
        }
        assert(deps.take(pubspec.dependencies@.len() as int) =~= deps);
        assert(views(lines@) =~= graph_head() + body_lines(all.take(i + 1)));
        i += 1;
    }
    assert(all.take(pubspecs@.len() as int) =~= all);
    let ghost body = views(lines@);
    lines.push("}".to_owned());
    assert(views(lines@) =~= body + seq!["}"@]);
    lines
}

/// Everything that is found of the first `upto` of `packages`, package by
/// package.
pub open spec fn all_findings(
    config: ConfigView,
    packages: Seq<PubspecView>,
    upto: int,
) -> Seq<PackageValidationView>
    decreases upto,
{
    if upto <= 0 {
        Seq::empty()
    } else {
        all_findings(config, packages, upto - 1) + findings(packages[upto - 1], config, packages)
    }
}

/// The findings among `found` that are shown: all but the suppressed ones.
pub open spec fn shown(found: Seq<PackageValidationView>) -> Seq<PackageValidationView>
    decreases found.len(),
{
    if found.len() == 0 {
        Seq::empty()
    } else if found.last().level == ValidationLevel::Suppressed {
        shown(found.drop_last())
    } else {
        shown(found.drop_last()).push(found.last())
    }
}

/// How many of `found` are errors. Warnings and suppressed findings do not
/// count.
pub open spec fn error_count(found: Seq<PackageValidationView>) -> nat
    decreases found.len(),
{
    if found.len() == 0 {
        0
    } else {
        error_count(found.drop_last()) + if found.last().level == ValidationLevel::Error {
            1nat
        } else {
            0nat
        }
    }
}

/// How a validation run ends: well where it counts no error, with the number
/// of errors where it counts some. A number that passes the greatest `u32` is
/// given as that.
pub open spec fn outcome(errors: nat) -> Result<(), FlErrorView> {
    if errors == 0 {
        Ok(())
    } else if errors > u32::MAX {
        Err(FlErrorView::ValidationError(u32::MAX))
    } else {
        Err(FlErrorView::ValidationError(errors as u32))
    }
}

/// A suppressed finding changes neither what is shown nor what is counted.
pub proof fn lemma_suppressed_is_left_out(
    found: Seq<PackageValidationView>,
    finding: PackageValidationView,
)
    requires
        finding.level == ValidationLevel::Suppressed,
    ensures
        shown(found.push(finding)) == shown(found),
        error_count(found.push(finding)) == error_count(found),
{
    assert(found.push(finding).drop_last() =~= found);
}

/// Findings that are all suppressed let the run end well.
pub proof fn lemma_suppressed_run_ends_well(found: Seq<PackageValidationView>)
    requires
        forall|i: int| 0 <= i < found.len() ==> (#[trigger] found[i]).level
            == ValidationLevel::Suppressed,
    ensures
        shown(found).len() == 0,
        error_count(found) == 0,
        outcome(error_count(found)) is Ok,
    decreases found.len(),
{
    if found.len() > 0 {
        let rest = found.drop_last();
        assert forall|i: int| 0 <= i < rest.len() implies (#[trigger] rest[i]).level
            == ValidationLevel::Suppressed by {
            assert(rest[i] == found[i]);
        }
        lemma_suppressed_run_ends_well(rest);
        assert(found.last() == found[found.len() - 1]);
    }
}

/// What a validation run reports.
#[derive(Debug)]
pub struct Report {
    /// The findings to show, in the order in which they were found.
    pub shown: Vec<PackageValidation>,
    /// How the run ends.
    pub outcome: Result<(), FlError>,
}

/// Validates each of `pubspecs` against all of them under `config`.
///
/// Every finding is shown but the suppressed ones. The run fails when one of
/// the findings is an error; a warning does not make it fail.
pub fn validate(config: &Config, pubspecs: &Vec<Pubspec>) -> (report: Report)
    ensures
        views(report.shown@) == shown(all_findings(config@, views(pubspecs@), pubspecs@.len() as int)),
        match outcome(error_count(all_findings(config@, views(pubspecs@), pubspecs@.len() as int))) {
            Ok(_) => report.outcome is Ok,
            Err(error) => report.outcome is Err && report.outcome->Err_0@ == error,
        },
{
    let ghost all = views(pubspecs@);
    let mut to_show: Vec<PackageValidation> = Vec::new();
    let mut num_errors: usize = 0;
    let mut past_count: bool = false;
    assert(views(to_show@) =~= shown(all_findings(config@, all, 0)));
    let mut i: usize = 0;
    while i < pubspecs.len()
        invariant
            i <= pubspecs.len(),
            all == views(pubspecs@),
            views(to_show@) == shown(all_findings(config@, all, i as int)),
            !past_count ==> num_errors == error_count(all_findings(config@, all, i as int)),
            past_count ==> error_count(all_findings(config@, all, i as int)) > usize::MAX,
        decreases pubspecs.len() - i,
    {
        let ghost earlier = all_findings(config@, all, i as int);
        let mut found = pubspecs[i].validate(config, pubspecs);
        let ghost these = views(found@);
        assert(all[i as int] == pubspecs@[i as int]@);
        assert(all_findings(config@, all, i + 1) == earlier + these);
        assert(these.take(0) =~= Seq::<PackageValidationView>::empty());
        assert(earlier + these.take(0) =~= earlier);
        let count = found.len();
        let mut k: usize = 0;
        let mut rest: Vec<PackageValidation> = Vec::new();
        // the findings are taken from the back, so they are put in order after
        while k < count
            invariant
                k <= count,
                count == these.len(),
                found@.len() == count - k,
                views(found@) == these.take(count - k),
                rest@.len() == k,
                forall|j: int| 0 <= j < k ==> (#[trigger] rest@[j])@ == these[count - 1 - j],
            decreases count - k,
        {
            let ghost before = views(found@);
            let ghost held = found@;
            let last = found.pop().unwrap();
            assert(last == held[count - 1 - k]);
            assert(before[count - 1 - k] == held[count - 1 - k]@);
            assert(last@ == these[count - 1 - k]);
            assert(views(found@) =~= these.take(count - k - 1));
            rest.push(last);
            k += 1;
        }
        let mut j: usize = 0;
        while j < count
            invariant
                j <= count,
                count == these.len(),
                rest@.len() == count - j,
                forall|m: int| 0 <= m < count - j ==> (#[trigger] rest@[m])@ == these[count - 1 - m],
                views(to_show@) == shown(earlier + these.take(j as int)),
                !past_count ==> num_errors == error_count(earlier + these.take(j as int)),
                past_count ==> error_count(earlier + these.take(j as int)) > usize::MAX,
            decreases count - j,
        {
            let ghost so_far = earlier + these.take(j as int);
            let ghost showing = views(to_show@);
            let ghost kept = rest@;
            let validation = rest.pop().unwrap();
            proof {
                assert(validation == kept[count - j - 1]);
                assert(validation@ == these[j as int]);
                let next = earlier + these.take(j + 1);
                assert(next.drop_last() =~= so_far);
                assert(next.last() == validation@);
            }
            match validation.level {
                ValidationLevel::Error => {
                    if num_errors == usize::MAX {
                        past_count = true;
                    } else if !past_count {
                        num_errors += 1;
                    }
                    to_show.push(validation);
                    assert(views(to_show@) =~= showing.push(validation@));
                },
                ValidationLevel::Warning => {
                    to_show.push(validation);
                    assert(views(to_show@) =~= showing.push(validation@));
                },
                ValidationLevel::Suppressed => {},
            }
            j += 1;
        }
        assert(these.take(count as int) =~= these);
        i += 1;
    }
    let outcome = if past_count {
        Err(FlError::ValidationError(u32::MAX))
    } else if num_errors == 0 {
        Ok(())
    } else if num_errors > u32::MAX as usize {
        Err(FlError::ValidationError(u32::MAX))
    } else {
        Err(FlError::ValidationError(num_errors as u32))
    };
    Report { shown: to_show, outcome }
}

/// The names of the dependencies among `deps` that are on the registry, in
/// order.
pub open spec fn registry_deps(deps: Seq<DependencyView>) -> Seq<Seq<char>>
    decreases deps.len(),
{
    if deps.len() == 0 {
        Seq::empty()
    } else if deps.last() is PubDev {
        registry_deps(deps.drop_last()).push(deps.last().name())
    } else {
        registry_deps(deps.drop_last())
    }
}

/// The names of the registry dependencies of the first `upto` of `packages`,
/// package by package.
pub open spec fn registry_deps_of(packages: Seq<PubspecView>, upto: int) -> Seq<Seq<char>>
    decreases upto,
{
    if upto <= 0 {
        Seq::empty()
    } else {
        registry_deps_of(packages, upto - 1) + registry_deps(packages[upto - 1].dependencies)
    }
}

/// The names of the registry packages that `pubspecs` depend on, each once,
/// in the order in which they come first.
pub fn registry_names(pubspecs: &Vec<Pubspec>) -> (names: Vec<String>)
    ensures
        views(names@) == once(registry_deps_of(views(pubspecs@), pubspecs@.len() as int)),
{
    let ghost all = views(pubspecs@);
    let mut names: Vec<String> = Vec::new();
    let mut i: usize = 0;
    assert(views(names@) =~= once(registry_deps_of(all, 0)));
    while i < pubspecs.len()
        invariant
            i <= pubspecs.len(),
            all == views(pubspecs@),
            views(names@) == once(registry_deps_of(all, i as int)),
        decreases pubspecs.len() - i,
    {
        let pubspec = &pubspecs[i];
        let ghost deps = pubspec@.dependencies;
        let ghost earlier = registry_deps_of(all, i as int);
        assert(all[i as int] == pubspec@);
        assert(deps.take(0) =~= Seq::<DependencyView>::empty());
        assert(earlier + registry_deps(deps.take(0)) =~= earlier);
        let mut k: usize = 0;
        while k < pubspec.dependencies.len()
            invariant
                k <= pubspec.dependencies.len(),
                deps == pubspec@.dependencies,
                views(names@) == once(earlier + registry_deps(deps.take(k as int))),
            decreases pubspec.dependencies.len() - k,
        {
            let dep = &pubspec.dependencies[k];
            let ghost before = views(names@);
            proof {
                assert(deps.take(k + 1).drop_last() =~= deps.take(k as int));
                assert(deps.take(k + 1).last() == dep@);
            }
            if dep.is_pubdev() {
                proof {
                    let longer = earlier + registry_deps(deps.take(k + 1));
                    assert(longer.drop_last() =~= earlier + registry_deps(deps.take(k as int)));
                    assert(longer.last() == dep@.name());
                }
                if !contains_text(&names, dep.name().as_str()) {
                    names.push(dep.name().clone());
                    assert(views(names@) =~= before.push(dep@.name()));
                }
            }
            k += 1;
        }
        assert(deps.take(pubspec.dependencies@.len() as int) =~= deps);
        i += 1;
    }
    names
}

/// The latest version that `versions` holds for the package `name`: that of
/// the last entry of that name.
pub open spec fn latest_of(versions: Seq<PubVersionsView>, name: Seq<char>) -> Option<Seq<char>>
    decreases versions.len(),
{
    if versions.len() == 0 {
        None
    } else if versions.last().name == name {
        Some(versions.last().latest)
    } else {
        latest_of(versions.drop_last(), name)
    }
}

/// The line that tells of one dependency: for one on the registry its name,
/// the version asked for and, in brackets, the latest one known; nothing for
/// any other.
pub open spec fn version_line(dep: DependencyView, versions: Seq<PubVersionsView>) -> Seq<Seq<char>> {
    match dep {
        DependencyView::PubDev { name, version, .. } => seq![
            "  "@ + name + ": "@ + version + " ["@ + match latest_of(versions, name) {
                Some(latest) => latest,
                None => "<unknown>"@,
            } + "]"@,
        ],
        _ => Seq::empty(),
    }
}

/// The lines that tell of the dependencies `deps`.
pub open spec fn version_lines(deps: Seq<DependencyView>, versions: Seq<PubVersionsView>) -> Seq<
    Seq<char>,
>
    decreases deps.len(),
{
    if deps.len() == 0 {
        Seq::empty()
    } else {
        version_lines(deps.drop_last(), versions) + version_line(deps.last(), versions)
    }
}

/// The lines that tell of the registry dependencies of `packages`: for each
/// package its name, then a line for each such dependency.
pub open spec fn check_lines(packages: Seq<PubspecView>, versions: Seq<PubVersionsView>) -> Seq<
    Seq<char>,
>
    decreases packages.len(),
{
    if packages.len() == 0 {
        Seq::empty()
    } else {
        check_lines(packages.drop_last(), versions) + seq![packages.last().name] + version_lines(
            packages.last().dependencies,
            versions,
        )
    }
}

/// The latest version that `versions` holds for the package `name`.
pub fn latest_version<'a>(versions: &'a Vec<PubVersions>, name: &str) -> (latest: Option<&'a String>)
    ensures
        match latest {
            Some(text) => latest_of(views(versions@), name@) == Some(text@),
            None => latest_of(views(versions@), name@) is None,
        },
{
    let ghost all = views(versions@);
    assert(all.take(versions@.len() as int) =~= all);
    let mut i: usize = versions.len();
    while i > 0
        invariant
            i <= versions.len(),
            all == views(versions@),
            latest_of(all, name@) == latest_of(all.take(i as int), name@),
        decreases i,
    {
        proof {
            assert(all.take(i as int).drop_last() =~= all.take(i - 1));
            assert(all.take(i as int).last() == versions@[i - 1]@);
        }
        if same_text(versions[i - 1].name.as_str(), name) {
            return Some(&versions[i - 1].latest);
        }
        i -= 1;
    }
    None
}

/// The lines that tell, for each of `pubspecs`, of its dependencies on the
/// registry and of the latest versions that `versions` holds for them.
pub fn check(pubspecs: &Vec<Pubspec>, versions: &Vec<PubVersions>) -> (lines: Vec<String>)
    ensures
        views(lines@) == check_lines(views(pubspecs@), views(versions@)),
{
    let ghost all = views(pubspecs@);
    let ghost known = views(versions@);
    let mut lines: Vec<String> = Vec::new();
    assert(all.take(0) =~= Seq::<PubspecView>::empty());
    assert(views(lines@) =~= check_lines(all.take(0), known));
    let mut i: usize = 0;
    while i < pubspecs.len()
        invariant
            i <= pubspecs.len(),
            all == views(pubspecs@),
            known == views(versions@),
            views(lines@) == check_lines(all.take(i as int), known),
        decreases pubspecs.len() - i,
    {
        let pubspec = &pubspecs[i];
        let ghost before = views(lines@);
        let ghost deps = pubspec@.dependencies;
        proof {
            assert(all.take(i + 1).drop_last() =~= all.take(i as int));
            assert(all.take(i + 1).last() == pubspec@);
        }
        lines.push(pubspec.name.clone());
        let ghost opened = before + seq![pubspec@.name];
        assert(views(lines@) =~= opened);
        assert(deps.take(0) =~= Seq::<DependencyView>::empty());
        assert(views(lines@) =~= opened + version_lines(deps.take(0), known));
        let mut k: usize = 0;
        while k < pubspec.dependencies.len()
            invariant
                k <= pubspec.dependencies.len(),
                deps == pubspec@.dependencies,
                known == views(versions@),
                views(lines@) == opened + version_lines(deps.take(k as int), known),
            decreases pubspec.dependencies.len() - k,
        {
            let ghost so_far = views(lines@);
            proof {
                assert(deps.take(k + 1).drop_last() =~= deps.take(k as int));
                assert(deps.take(k + 1).last() == pubspec.dependencies@[k as int]@);
            }
            match &pubspec.dependencies[k] {
                Dependency::PubDev { name, version, .. } => {
                    let mut line = "  ".to_owned();
                    line.append(name.as_str());
                    line.append(": ");
                    line.append(version.as_str());
                    line.append(" [");
                    match latest_version(versions, name.as_str()) {
                        Some(latest) => {
                            line.append(latest.as_str());
                        },
                        None => {
                            line.append("<unknown>");
                        },
                    }
                    line.append("]");
                    lines.push(line);
                    assert(views(lines@) =~= so_far + version_line(
                        pubspec.dependencies@[k as int]@,
                        known,
                    ));
                },
                _ => {
                    assert(views(lines@) =~= so_far + version_line(
                        pubspec.dependencies@[k as int]@,
                        known,
                    ));
                },
            }
            assert(views(lines@) =~= opened + version_lines(deps.take(k + 1), known));
            k += 1;
        }
        assert(deps.take(pubspec.dependencies@.len() as int) =~= deps);
        assert(views(lines@) =~= check_lines(all.take(i + 1), known));
        i += 1;
    }
    assert(all.take(pubspecs@.len() as int) =~= all);
    lines
}

/// A configuration to start from, with the layers that are recommended and a
/// word on each key.
pub const EXAMPLE_CONFIG: &'static str = r#"# Package types list rules for packages that describe
# what package is allowed to depend on each other.
#
# The typical recommended setup is a hierachy like the following:
# - main: the main app that is shipped and distributed to app stores and
#   assembles the functionalities of one or multiple (sub) apps
# - app: one or multiple (sub) apps that encapsulate functionalities of
#   usually one domain per app - must not depend on each other
# - shared: few shared libraries that can be used the glue together
#   multiple apps, e.g. for routing, navigation - must import packages
#   and other shared libraries only
# - package: general purpose libraries (e.g. utilities) that do not contain
#   domain specific logic, may be included from any package type/layer
package_types:

  main:
    # the dir_prefix is used to associate every dart package to one
    # of the package types listed here, is applied to the directory
    # name of the package
    dir_prefix: 'main'
    # list of package types all packages of this type may import from
    # (here: main is allowed to import all apps and everything that apps
    # are allowed to import themselves)
    includes:
      - app

  app:
    dir_prefix: 'app_'
    includes:
      - shared

  shared:
    dir_prefix: 'shared_'
    includes:
      - shared
      - package

  package:
    dir_prefix: 'pkg_'
    includes:
      - package

# List of patterns (regular expressions) that match package directories
# that should be excluded from all validations and checks.
# Here: exclude all auto-generated "example" packages from native dart
# packages.
blacklist:
  - '/example'
"#;

/// The text of the example configuration.
pub fn example_config() -> (text: &'static str)
    ensures
        text@ == EXAMPLE_CONFIG@,
{
    EXAMPLE_CONFIG
}

} // verus!
