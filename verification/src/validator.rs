//! The checks that are made of the dependencies of a package: against the
//! policy, for cycles, and for what a public package and what dev
//! dependencies may hold.

use crate::config::any_prefix_of;
use crate::config::Config;
use crate::config::ConfigView;
use crate::config::PackageTypeView;
use crate::dependency::Dependency;
use crate::dependency::DependencyView;
use crate::error::PackageValidation;
use crate::error::PackageValidationView;
use crate::error::ValidationType;
use crate::policy::allowed_prefix;
use crate::policy::closure;
use crate::policy::valid_include_prefixes;
use crate::pubspec::file_name;
use crate::pubspec::Pubspec;
use crate::pubspec::PubspecView;
use crate::text::clone_texts;
use crate::text::join;
use crate::text::join_texts;
use crate::text::lemma_ascending_unique;
use crate::text::lemma_join_starts;
use crate::text::quote;
use crate::text::quoted;
use crate::text::same_members;
use crate::text::same_text;
use crate::text::sorted_unique;
use crate::text::strictly_ascending;
use crate::text::views;
use crate::util::file_name_of;
use crate::util::normalize_path;
use crate::util::normalized;
use crate::util::slash;
use vstd::prelude::*;

verus! {

/// The directory that `dep` points to when `declaring` declares it: the
/// normal form of the path of the dependency that is used, taken from the
/// directory of `declaring`. Only a local dependency points to one.
pub open spec fn target_dir(declaring: PubspecView, dep: DependencyView) -> Option<Seq<char>> {
    match dep.effective() {
        DependencyView::Local { path, .. } => Some(normalized(declaring.dir_path + slash() + path)),
        _ => None,
    }
}

/// The place of the first of `packages` whose directory is `dir`.
pub open spec fn package_at(packages: Seq<PubspecView>, dir: Seq<char>) -> Option<int>
    decreases packages.len(),
{
    if packages.len() == 0 {
        None
    } else if packages[0].dir_path == dir {
        Some(0)
    } else {
        match package_at(packages.drop_first(), dir) {
            Some(at) => Some(at + 1),
            None => None,
        }
    }
}

/// The place among `packages` of the package that `dep` stands for when
/// `declaring` declares it.
pub open spec fn resolve(
    declaring: PubspecView,
    dep: DependencyView,
    packages: Seq<PubspecView>,
) -> Option<int> {
    match target_dir(declaring, dep) {
        Some(dir) => package_at(packages, dir),
        None => None,
    }
}

/// A finding on the package `package`, at the level that `config` sets for
/// its kind.
pub open spec fn finding(
    package: PubspecView,
    config: ConfigView,
    error: Seq<char>,
    code: ValidationType,
    description: Option<Seq<char>>,
) -> PackageValidationView {
    PackageValidationView {
        package_name: package.name,
        error,
        description,
        code,
        level: config.level_of(code),
    }
}

/// What is found of a dev dependency: a git dependency on a public
/// repository has no place there.
pub open spec fn dev_git_finding(
    package: PubspecView,
    config: ConfigView,
    dep: DependencyView,
) -> Option<PackageValidationView> {
    if dep.is_public(config) {
        Some(
            finding(
                package,
                config,
                "git dependency in dev_dependencies "@ + dep.name(),
                ValidationType::GitDevDependency,
                None,
            ),
        )
    } else {
        None
    }
}

/// What is found of a dependency of a public package: a local dependency has
/// no place there.
pub open spec fn public_finding(
    package: PubspecView,
    config: ConfigView,
    dep: DependencyView,
) -> Option<PackageValidationView> {
    if package.is_public && dep is Local {
        Some(
            finding(
                package,
                config,
                "non-git dependency '"@ + dep.name() + "' in public package"@,
                ValidationType::NonGitDependencyInPublicPackage,
                None,
            ),
        )
    } else {
        None
    }
}

/// Whether a package in the directory `dir_name` may depend on packages whose
/// directory starts with `prefix`: it belongs to a type that reaches a type
/// with that prefix.
pub open spec fn valid_prefix(types: Seq<PackageTypeView>, dir_name: Seq<char>, prefix: Seq<char>) -> bool {
    exists|k: int|
        0 <= k < types.len() && (#[trigger] types[k]).matches_prefix(dir_name) && allowed_prefix(
            types,
            types[k].includes,
            prefix,
        )
}

/// The prefixes that a package in the directory `dir_name` may depend on, as
/// they are gathered from the first `upto` of `types`: for each type that the
/// package belongs to, what the type may depend on.
pub open spec fn gathered_prefixes(
    types: Seq<PackageTypeView>,
    dir_name: Seq<char>,
    upto: int,
) -> Seq<Seq<char>>
    decreases upto,
{
    if upto <= 0 {
        Seq::empty()
    } else {
        gathered_prefixes(types, dir_name, upto - 1) + if types[upto - 1].matches_prefix(dir_name) {
            closure(types, types[upto - 1].includes)
        } else {
            Seq::empty()
        }
    }
}

/// Whether a package in the directory `dir_name` may depend on one in the
/// directory `target`.
pub open spec fn may_depend(types: Seq<PackageTypeView>, dir_name: Seq<char>, target: Seq<char>) -> bool {
    exists|prefix: Seq<char>| valid_prefix(types, dir_name, prefix) && prefix.is_prefix_of(target)
}

/// Whether `listing` names, between apostrophes and in ascending order, each
/// prefix once that a package in the directory `dir_name` may depend on.
pub open spec fn lists_valid(
    types: Seq<PackageTypeView>,
    dir_name: Seq<char>,
    listing: Seq<Seq<char>>,
) -> bool {
    &&& strictly_ascending(listing)
    &&& forall|text: Seq<char>|
        listing.contains(text) <==> exists|prefix: Seq<char>|
            valid_prefix(types, dir_name, prefix) && text == quoted(prefix)
}

/// The listing of the prefixes that a package in the directory `dir_name` may
/// depend on.
pub open spec fn valid_listing(types: Seq<PackageTypeView>, dir_name: Seq<char>) -> Seq<Seq<char>> {
    choose|listing: Seq<Seq<char>>| lists_valid(types, dir_name, listing)
}

/// What is found of a dependency against the policy.
///
/// Nothing is, where no package type is configured, nor of a dependency that
/// is declared on the registry or on a git repository. Of any other, that it
/// is unknown where it stands for none of `packages`, and that it is not
/// allowed where the directory of its package starts with no valid prefix.
pub open spec fn allowed_finding(
    package: PubspecView,
    config: ConfigView,
    packages: Seq<PubspecView>,
    dep: DependencyView,
) -> Option<PackageValidationView> {
    if config.package_types.len() == 0 || dep is PubDev || dep is Git {
        None
    } else {
        match resolve(package, dep, packages) {
            None => Some(
                finding(
                    package,
                    config,
                    "unable to find dependency '"@ + dep.name() + "'"@,
                    ValidationType::UnknownDependency,
                    None,
                ),
            ),
            Some(at) => if may_depend(config.package_types, package.dir_name, packages[at].dir_name) {
                None
            } else {
                Some(
                    finding(
                        package,
                        config,
                        "dependency to '"@ + dep.name() + "' is not allowed"@,
                        ValidationType::DependencyNotAllowed,
                        Some(
                            "packages with the following directory prefixes are allowed only: "@
                                + join(
                                valid_listing(config.package_types, package.dir_name),
                                ", "@,
                            ),
                        ),
                    ),
                )
            },
        }
    }
}

/// The place of the first of `seen` that is `dir`.
pub open spec fn position(seen: Seq<Seq<char>>, dir: Seq<char>) -> Option<int>
    decreases seen.len(),
{
    if seen.len() == 0 {
        None
    } else if seen[0] == dir {
        Some(0)
    } else {
        match position(seen.drop_first(), dir) {
            Some(at) => Some(at + 1),
            None => None,
        }
    }
}

/// The last components of `dirs`, in order, of those that have one.
pub open spec fn names_of(dirs: Seq<Seq<char>>) -> Seq<Seq<char>>
    decreases dirs.len(),
{
    if dirs.len() == 0 {
        Seq::empty()
    } else {
        let rest = names_of(dirs.drop_last());
        match file_name_of(dirs.last()) {
            Some(name) => rest.push(name),
            None => rest,
        }
    }
}

/// The message of a cycle: the names of the directories of `seen` from the
/// place `from` on, and at the end, between apostrophes, the name of the
/// directory that closes the cycle.
pub open spec fn cycle_message(seen: Seq<Seq<char>>, from: int, dir_name: Seq<char>) -> Seq<char> {
    "cyclic dependency "@ + join(names_of(seen.skip(from)).push(quoted(dir_name)), " -> "@)
}

/// How many of `packages` have a directory that is not among `seen`: the
/// packages that a walk can still go to.
pub open spec fn unseen(packages: Seq<PubspecView>, seen: Seq<Seq<char>>) -> nat
    decreases packages.len(),
{
    if packages.len() == 0 {
        0
    } else {
        unseen(packages.drop_last(), seen) + if seen.contains(packages.last().dir_path) {
            0nat
        } else {
            1nat
        }
    }
}

/// With one more directory seen, no more packages are left to go to.
pub proof fn lemma_unseen_never_grows(
    packages: Seq<PubspecView>,
    seen: Seq<Seq<char>>,
    dir: Seq<char>,
)
    ensures
        unseen(packages, seen.push(dir)) <= unseen(packages, seen),
    decreases packages.len(),
{
    if packages.len() > 0 {
        lemma_unseen_never_grows(packages.drop_last(), seen, dir);
        let last = packages.last().dir_path;
        if seen.contains(last) {
            let i = choose|i: int| 0 <= i < seen.len() && seen[i] == last;
            assert(seen.push(dir)[i] == last);
        }
    }
}

/// With the directory of a package seen that was not seen before, fewer
/// packages are left to go to.
pub proof fn lemma_unseen_shrinks(packages: Seq<PubspecView>, seen: Seq<Seq<char>>, at: int)
    requires
        0 <= at < packages.len(),
        !seen.contains(packages[at].dir_path),
    ensures
        unseen(packages, seen.push(packages[at].dir_path)) < unseen(packages, seen),
    decreases packages.len(),
{
    let dir = packages[at].dir_path;
    let longer = seen.push(dir);
    assert(longer[seen.len() as int] == dir);
    if at == packages.len() - 1 {
        lemma_unseen_never_grows(packages.drop_last(), seen, dir);
    } else {
        lemma_unseen_shrinks(packages.drop_last(), seen, at);
        let last = packages.last().dir_path;
        if seen.contains(last) {
            let i = choose|i: int| 0 <= i < seen.len() && seen[i] == last;
            assert(longer[i] == last);
        }
    }
}

/// Where a walk comes to a package that it has not seen, fewer packages are
/// left to go to once it has seen that one.
pub proof fn lemma_walk_shrinks(
    declaring: PubspecView,
    dep: DependencyView,
    packages: Seq<PubspecView>,
    seen: Seq<Seq<char>>,
)
    requires
        resolve(declaring, dep, packages) is Some,
        position(seen, packages[resolve(declaring, dep, packages)->0].dir_path) is None,
    ensures
        0 <= resolve(declaring, dep, packages)->0 < packages.len(),
        unseen(
            packages,
            seen.push(packages[resolve(declaring, dep, packages)->0].dir_path),
        ) < unseen(packages, seen),
{
    let at = resolve(declaring, dep, packages)->0;
    lemma_package_at_is_first(packages, target_dir(declaring, dep)->0);
    lemma_position_none(seen, packages[at].dir_path);
    lemma_unseen_shrinks(packages, seen, at);
}

/// The message of the first cycle back to `origin` that a walk along `dep`
/// finds, where `declaring` declares `dep` and `seen` holds the directories
/// of the walk so far.
///
/// The walk ends without a message where `dep` stands for no package, and
/// where it stands for one that the walk has seen and that is not `origin`.
/// Where it stands for `origin`, the cycle is found. From any other package
/// the walk goes on along its dependencies and then its dev dependencies.
pub open spec fn cycle_from(
    origin: PubspecView,
    declaring: PubspecView,
    dep: DependencyView,
    packages: Seq<PubspecView>,
    seen: Seq<Seq<char>>,
) -> Option<Seq<char>>
    decreases unseen(packages, seen), 0nat,
{
    match resolve(declaring, dep, packages) {
        None => None,
        Some(at) => {
            let target = packages[at];
            match position(seen, target.dir_path) {
                Some(from) => if origin.dir_path != target.dir_path {
                    None
                } else {
                    Some(cycle_message(seen, from, target.dir_name))
                },
                None => {
                    proof {
                        lemma_walk_shrinks(declaring, dep, packages, seen);
                    }
                    let longer = seen.push(target.dir_path);
                    match cycle_among(origin, target, target.dependencies, packages, longer) {
                        Some(message) => Some(message),
                        None => cycle_among(
                            origin,
                            target,
                            target.dev_dependencies,
                            packages,
                            longer,
                        ),
                    }
                },
            }
        },
    }
}

/// The message of the first cycle back to `origin` that the walks along
/// `deps` find, taken in order.
pub open spec fn cycle_among(
    origin: PubspecView,
    declaring: PubspecView,
    deps: Seq<DependencyView>,
    packages: Seq<PubspecView>,
    seen: Seq<Seq<char>>,
) -> Option<Seq<char>>
    decreases unseen(packages, seen), deps.len() + 1,
{
    if deps.len() == 0 {
        None
    } else {
        match cycle_from(origin, declaring, deps[0], packages, seen) {
            Some(message) => Some(message),
            None => cycle_among(origin, declaring, deps.drop_first(), packages, seen),
        }
    }
}

/// What is found of a dependency of `package` by a walk along it that starts
/// with `seen`: a cycle back to `package`.
pub open spec fn cyclic_finding(
    package: PubspecView,
    config: ConfigView,
    packages: Seq<PubspecView>,
    dep: DependencyView,
    seen: Seq<Seq<char>>,
) -> Option<PackageValidationView> {
    match cycle_from(package, package, dep, packages, seen) {
        Some(message) => Some(
            finding(package, config, message, ValidationType::CyclicDependency, None),
        ),
        None => None,
    }
}

/// The sequence of what an option holds.
pub open spec fn found(finding: Option<PackageValidationView>) -> Seq<PackageValidationView> {
    match finding {
        Some(f) => seq![f],
        None => Seq::empty(),
    }
}

/// What is found of `deps` as dependencies of `package`: of each in turn,
/// first against the policy, then as a dependency of a public package.
pub open spec fn dependency_findings(
    package: PubspecView,
    config: ConfigView,
    packages: Seq<PubspecView>,
    deps: Seq<DependencyView>,
) -> Seq<PackageValidationView>
    decreases deps.len(),
{
    if deps.len() == 0 {
        Seq::empty()
    } else {
        dependency_findings(package, config, packages, deps.drop_last()) + found(
            allowed_finding(package, config, packages, deps.last()),
        ) + found(public_finding(package, config, deps.last()))
    }
}

/// The cycles back to `package` that are found along each of `deps` in turn.
pub open spec fn cyclic_findings(
    package: PubspecView,
    config: ConfigView,
    packages: Seq<PubspecView>,
    deps: Seq<DependencyView>,
) -> Seq<PackageValidationView>
    decreases deps.len(),
{
    if deps.len() == 0 {
        Seq::empty()
    } else {
        cyclic_findings(package, config, packages, deps.drop_last()) + found(
            cyclic_finding(package, config, packages, deps.last(), seq![package.dir_path]),
        )
    }
}

/// What is found of `deps` as dev dependencies of `package`, of each in turn.
pub open spec fn dev_findings(
    package: PubspecView,
    config: ConfigView,
    deps: Seq<DependencyView>,
) -> Seq<PackageValidationView>
    decreases deps.len(),
{
    if deps.len() == 0 {
        Seq::empty()
    } else {
        dev_findings(package, config, deps.drop_last()) + found(
            dev_git_finding(package, config, deps.last()),
        )
    }
}

/// Everything that is found of `package` among `packages` under `config`.
///
/// Nothing is found of a package whose manifest is excluded. Of any other,
/// first what is found of its dependencies, then the cycles along its
/// dependencies and along its dev dependencies, then what is found of its dev
/// dependencies.
pub open spec fn findings(
    package: PubspecView,
    config: ConfigView,
    packages: Seq<PubspecView>,
) -> Seq<PackageValidationView> {
    if config.blacklisted(package.path) {
        Seq::empty()
    } else {
        dependency_findings(package, config, packages, package.dependencies) + cyclic_findings(
            package,
            config,
            packages,
            package.dependencies,
        ) + cyclic_findings(package, config, packages, package.dev_dependencies) + dev_findings(
            package,
            config,
            package.dev_dependencies,
        )
    }
}

/// The text that an option holds.
pub open spec fn text_of(text: Option<String>) -> Option<Seq<char>> {
    match text {
        Some(t) => Some(t@),
        None => None,
    }
}

/// The finding that an option holds.
pub open spec fn finding_of(finding: Option<PackageValidation>) -> Option<PackageValidationView> {
    match finding {
        Some(f) => Some(f@),
        None => None,
    }
}

/// A text is in two sequences written one after the other exactly when it is
/// in one of them.
pub proof fn lemma_concat_contains(a: Seq<Seq<char>>, b: Seq<Seq<char>>, text: Seq<char>)
    ensures
        (a + b).contains(text) <==> a.contains(text) || b.contains(text),
{
    if (a + b).contains(text) {
        let i = choose|i: int| 0 <= i < (a + b).len() && (a + b)[i] == text;
        if i < a.len() {
            assert(a[i] == text);
        } else {
            assert(b[i - a.len()] == text);
        }
    }
    if a.contains(text) {
        let i = choose|i: int| 0 <= i < a.len() && a[i] == text;
        assert((a + b)[i] == text);
    }
    if b.contains(text) {
        let i = choose|i: int| 0 <= i < b.len() && b[i] == text;
        assert((a + b)[i + a.len()] == text);
    }
}

/// The place of the first of `seen` that is `dir`.
pub fn position_of(seen: &Vec<String>, dir: &str) -> (at: Option<usize>)
    ensures
        match at {
            Some(i) => position(views(seen@), dir@) == Some(i as int) && i < seen@.len(),
            None => position(views(seen@), dir@) is None,
        },
{
    let ghost all = views(seen@);
    assert(all.skip(0) =~= all);
    let mut i: usize = 0;
    while i < seen.len()
        invariant
            i <= seen.len(),
            all == views(seen@),
            position(all, dir@) == match position(all.skip(i as int), dir@) {
                Some(k) => Some(k + i),
                None => None,
            },
        decreases seen.len() - i,
    {
        proof {
            assert(all.skip(i as int)[0] == seen@[i as int]@);
            assert(all.skip(i as int).drop_first() =~= all.skip(i + 1));
        }
        if same_text(seen[i].as_str(), dir) {
            return Some(i);
        }
        i += 1;
    }
    None
}

/// The message of a cycle that closes at the directory named `dir_name`.
pub fn cycle_text(seen: &Vec<String>, from: usize, dir_name: &str) -> (text: String)
    requires
        from <= seen@.len(),
    ensures
        text@ == cycle_message(views(seen@), from as int, dir_name@),
{
    let ghost tail = views(seen@).skip(from as int);
    let mut prepared: Vec<String> = Vec::new();
    let mut k: usize = from;
    assert(tail.take(0) =~= Seq::<Seq<char>>::empty());
    assert(views(prepared@) =~= names_of(tail.take(0)));
    while k < seen.len()
        invariant
            from <= k <= seen.len(),
            tail == views(seen@).skip(from as int),
            views(prepared@) == names_of(tail.take(k - from)),
        decreases seen.len() - k,
    {
        proof {
            assert(tail.take(k - from + 1).drop_last() =~= tail.take(k - from));
            assert(tail.take(k - from + 1).last() == seen@[k as int]@);
        }
        let ghost before = views(prepared@);
        match file_name(seen[k].as_str()) {
            Some(name) => {
                prepared.push(name);
                assert(views(prepared@) =~= before.push(name@));
            },
            None => {},
        }
        k += 1;
    }
    assert(tail.take(seen@.len() - from) =~= tail);
    let ghost names = views(prepared@);
    let closing = quote(dir_name);
    prepared.push(closing);
    assert(views(prepared@) =~= names.push(quoted(dir_name@)));
    let joined = join_texts(&prepared, " -> ");
    let mut text = "cyclic dependency ".to_owned();
    text.append(joined.as_str());
    text
}

impl Pubspec {
    /// A finding on this package, at the level that `config` sets for its
    /// kind.
    pub fn validation(
        &self,
        config: &Config,
        error: String,
        code: ValidationType,
        description: Option<String>,
    ) -> (validation: PackageValidation)
        ensures
            validation@ == finding(self@, config@, error@, code, text_of(description)),
    {
        let level = config.validation_level(&code);
        PackageValidation { package_name: self.name.clone(), description, error, code, level }
    }

    /// The place among `packages` of the package that `dep` stands for when
    /// `declaring` declares it.
    pub fn resolve_index(declaring: &Pubspec, dep: &Dependency, packages: &Vec<Pubspec>) -> (at: Option<
        usize,
    >)
        ensures
            match at {
                Some(i) => resolve(declaring@, dep@, views(packages@)) == Some(i as int) && i
                    < packages@.len(),
                None => resolve(declaring@, dep@, views(packages@)) is None,
            },
    {
        match dep.effective() {
            Dependency::Local { path, .. } => {
                let mut full_path = declaring.dir_path.clone();
                full_path.push('/');
                full_path.append(path.as_str());
                assert(full_path@ =~= declaring@.dir_path + slash() + path@);
                let normal = normalize_path(full_path.as_str());
                let ghost all = views(packages@);
                assert(all.skip(0) =~= all);
                let mut i: usize = 0;
                while i < packages.len()
                    invariant
                        i <= packages.len(),
                        all == views(packages@),
                        target_dir(declaring@, dep@) == Some(normal@),
                        package_at(all, normal@) == match package_at(all.skip(i as int), normal@) {
                            Some(k) => Some(k + i),
                            None => None,
                        },
                    decreases packages.len() - i,
                {
                    proof {
                        assert(all.skip(i as int)[0] == packages@[i as int]@);
                        assert(all.skip(i as int).drop_first() =~= all.skip(i + 1));
                    }
                    if same_text(packages[i].dir_path.as_str(), normal.as_str()) {
                        return Some(i);
                    }
                    i += 1;
                }
                None
            },
            _ => None,
        }
    }

    /// The package among `packages` that `dep` stands for when this package
    /// declares it: the first whose directory is the one that the dependency
    /// in use points to. Only a local dependency stands for one.
    pub fn resolve_dependency<'a>(&self, dep: &Dependency, packages: &'a Vec<Pubspec>) -> (target: Option<
        &'a Pubspec,
    >)
        ensures
            match resolve(self@, dep@, views(packages@)) {
                Some(at) => 0 <= at < packages@.len() && target == Some(&packages@[at]),
                None => target is None,
            },
    {
        match Pubspec::resolve_index(self, dep, packages) {
            Some(at) => Some(&packages[at]),
            None => None,
        }
    }

    /// The message of the first cycle back to this package that a walk along
    /// `dep` finds, where `declaring` declares `dep` and `seen` holds the
    /// directories of the walk so far.
    pub fn cycle_walk(
        &self,
        declaring: &Pubspec,
        dep: &Dependency,
        packages: &Vec<Pubspec>,
        seen: &Vec<String>,
    ) -> (message: Option<String>)
        ensures
            text_of(message) == cycle_from(
                self@,
                declaring@,
                dep@,
                views(packages@),
                views(seen@),
            ),
        decreases unseen(views(packages@), views(seen@)), 0nat,
    {
        let at = match Pubspec::resolve_index(declaring, dep, packages) {
            Some(at) => at,
            None => {
                return None;
            },
        };
        let target = &packages[at];
        assert(views(packages@)[at as int] == target@);
        match position_of(seen, target.dir_path.as_str()) {
            Some(from) => {
                if !same_text(self.dir_path.as_str(), target.dir_path.as_str()) {
                    None
                } else {
                    Some(cycle_text(seen, from, target.dir_name.as_str()))
                }
            },
            None => {
                let mut longer = clone_texts(seen);
                longer.push(target.dir_path.clone());
                assert(views(longer@) =~= views(seen@).push(target@.dir_path));
                proof {
                    lemma_walk_shrinks(declaring@, dep@, views(packages@), views(seen@));
                }
                match self.cycle_walk_among(target, &target.dependencies, packages, &longer) {
                    Some(message) => Some(message),
                    None => self.cycle_walk_among(target, &target.dev_dependencies, packages, &longer),
                }
            },
        }
    }

    /// The message of the first cycle back to this package that the walks
    /// along `deps` find, taken in order.
    pub fn cycle_walk_among(
        &self,
        declaring: &Pubspec,
        deps: &Vec<Dependency>,
        packages: &Vec<Pubspec>,
        seen: &Vec<String>,
    ) -> (message: Option<String>)
        ensures
            text_of(message) == cycle_among(
                self@,
                declaring@,
                views(deps@),
                views(packages@),
                views(seen@),
            ),
        decreases unseen(views(packages@), views(seen@)), 1nat,
    {
        let ghost all = views(deps@);
        assert(all.skip(0) =~= all);
        let mut i: usize = 0;
        while i < deps.len()
            invariant
                i <= deps.len(),
                all == views(deps@),
                cycle_among(self@, declaring@, all, views(packages@), views(seen@)) == cycle_among(
                    self@,
                    declaring@,
                    all.skip(i as int),
                    views(packages@),
                    views(seen@),
                ),
            decreases deps.len() - i,
        {
            proof {
                assert(all.skip(i as int)[0] == deps@[i as int]@);
                assert(all.skip(i as int).drop_first() =~= all.skip(i + 1));
            }
            let cyclic = self.cycle_walk(declaring, &deps[i], packages, seen);
            if cyclic.is_some() {
                return cyclic;
            }
            i += 1;
        }
        None
    }

    /// The finding of a cycle back to this package along `dep`, by a walk
    /// that starts with `seen`.
    pub fn cyclic_dependency(
        &self,
        config: &Config,
        dep: &Dependency,
        packages: &Vec<Pubspec>,
        seen: Vec<String>,
    ) -> (validation: Option<PackageValidation>)
        ensures
            finding_of(validation) == cyclic_finding(
                self@,
                config@,
                views(packages@),
                dep@,
                views(seen@),
            ),
    {
        match self.cycle_walk(self, dep, packages, &seen) {
            Some(message) => Some(
                self.validation(config, message, ValidationType::CyclicDependency, None),
            ),
            None => None,
        }
    }

    /// The finding of a git dependency on a public repository among the dev
    /// dependencies.
    pub fn git_packages_in_dev_dependencies(&self, config: &Config, dep: &Dependency) -> (validation: Option<
        PackageValidation,
    >)
        ensures
            finding_of(validation) == dev_git_finding(self@, config@, dep@),
    {
        if dep.is_public(config) {
            let mut message = "git dependency in dev_dependencies ".to_owned();
            message.append(dep.name().as_str());
            Some(self.validation(config, message, ValidationType::GitDevDependency, None))
        } else {
            None
        }
    }

    /// The finding of a local dependency of a public package.
    pub fn public_package_git_dependencies_only(&self, config: &Config, dep: &Dependency) -> (validation: Option<
        PackageValidation,
    >)
        ensures
            finding_of(validation) == public_finding(self@, config@, dep@),
    {
        if !self.is_public || !dep.is_local() {
            None
        } else {
            let mut message = "non-git dependency '".to_owned();
            message.append(dep.name().as_str());
            message.append("' in public package");
            Some(
                self.validation(
                    config,
                    message,
                    ValidationType::NonGitDependencyInPublicPackage,
                    None,
                ),
            )
        }
    }

    /// The prefixes that this package may depend on: those of every type
    /// that it belongs to.
    pub fn valid_prefixes(&self, config: &Config) -> (prefixes: Vec<String>)
        ensures
            views(prefixes@) == gathered_prefixes(
                config@.package_types,
                self@.dir_name,
                config@.package_types.len() as int,
            ),
            forall|prefix: Seq<char>|
                views(prefixes@).contains(prefix) <==> valid_prefix(
                    config@.package_types,
                    self@.dir_name,
                    prefix,
                ),
    {
        let ghost types = config@.package_types;
        let ghost dir_name = self@.dir_name;
        let mut prefixes: Vec<String> = Vec::new();
        let mut i: usize = 0;
        assert(views(prefixes@) =~= gathered_prefixes(types, dir_name, 0));
        while i < config.package_types.len()
            invariant
                i <= config.package_types.len(),
                types == config@.package_types,
                dir_name == self@.dir_name,
                views(prefixes@) == gathered_prefixes(types, dir_name, i as int),
                forall|prefix: Seq<char>|
                    views(prefixes@).contains(prefix) <==> exists|k: int|
                        0 <= k < i && (#[trigger] types[k]).matches_prefix(dir_name)
                            && allowed_prefix(types, types[k].includes, prefix),
            decreases config.package_types.len() - i,
        {
            let ghost before = views(prefixes@);
            let package_type = &config.package_types[i];
            assert(types[i as int] == package_type@);
            if package_type.matches_prefix(self.dir_name.as_str()) {
                let mut more = valid_include_prefixes(package_type, config);
                let ghost added = views(more@);
                prefixes.append(&mut more);
                proof {
                    assert(views(prefixes@) =~= before + added);
                    assert forall|prefix: Seq<char>|
                        views(prefixes@).contains(prefix) <==> exists|k: int|
                            0 <= k < i + 1 && (#[trigger] types[k]).matches_prefix(dir_name)
                                && allowed_prefix(types, types[k].includes, prefix) by {
                        lemma_concat_contains(before, added, prefix);
                        if added.contains(prefix) {
                            assert(types[i as int].matches_prefix(dir_name) && allowed_prefix(
                                types,
                                types[i as int].includes,
                                prefix,
                            ));
                        }
                    }
                }
            } else {
                assert(gathered_prefixes(types, dir_name, i + 1) =~= before);
            }
            i += 1;
        }
        prefixes
    }

    /// The finding of a dependency that the policy of `config` does not
    /// allow, or that stands for none of `packages`.
    pub fn allowed_dependency(&self, dep: &Dependency, config: &Config, packages: &Vec<Pubspec>) -> (validation: Option<
        PackageValidation,
    >)
        ensures
            finding_of(validation) == allowed_finding(self@, config@, views(packages@), dep@),
    {
        if config.package_types.len() == 0 {
            return None;
        }
        if dep.is_pubdev() {
            return None;
        }
        if dep.is_git() {
            return None;
        }
        let ghost types = config@.package_types;
        let ghost dir_name = self@.dir_name;
        let valid_prefixes = self.valid_prefixes(config);
        match Pubspec::resolve_index(self, dep, packages) {
            None => {
                let mut message = "unable to find dependency '".to_owned();
                message.append(dep.name().as_str());
                message.append("'");
                Some(self.validation(config, message, ValidationType::UnknownDependency, None))
            },
            Some(at) => {
                let dep_pubspec = &packages[at];
                assert(views(packages@)[at as int] == dep_pubspec@);
                let valid = any_prefix_of(&valid_prefixes, dep_pubspec.dir_name.as_str());
                proof {
                    let target = dep_pubspec@.dir_name;
                    if valid {
                        let i = choose|i: int|
                            0 <= i < views(valid_prefixes@).len() && (#[trigger] views(
                                valid_prefixes@,
                            )[i]).is_prefix_of(target);
                        assert(views(valid_prefixes@).contains(views(valid_prefixes@)[i]));
                        assert(valid_prefix(types, dir_name, views(valid_prefixes@)[i]));
                    }
                    if may_depend(types, dir_name, target) {
                        let prefix = choose|prefix: Seq<char>|
                            valid_prefix(types, dir_name, prefix) && prefix.is_prefix_of(target);
                        assert(views(valid_prefixes@).contains(prefix));
                        let i = choose|i: int|
                            0 <= i < views(valid_prefixes@).len() && views(valid_prefixes@)[i]
                                == prefix;
                        assert(views(valid_prefixes@)[i].is_prefix_of(target));
                    }
                    assert(valid == may_depend(types, dir_name, target));
                }
                if valid {
                    None
                } else {
                    let mut valid_packages: Vec<String> = Vec::new();
                    let mut i: usize = 0;
                    while i < valid_prefixes.len()
                        invariant
                            i <= valid_prefixes.len(),
                            valid_packages@.len() == i,
                            forall|j: int|
                                0 <= j < i ==> (#[trigger] valid_packages@[j])@ == quoted(
                                    valid_prefixes@[j]@,
                                ),
                        decreases valid_prefixes.len() - i,
                    {
                        valid_packages.push(quote(valid_prefixes[i].as_str()));
                        i += 1;
                    }
                    let listing = sorted_unique(&valid_packages);
                    proof {
                        let all = views(valid_prefixes@);
                        let marked = views(valid_packages@);
                        assert forall|text: Seq<char>|
                            views(listing@).contains(text) <==> exists|prefix: Seq<char>|
                                valid_prefix(types, dir_name, prefix) && text == quoted(prefix) by {
                            if views(listing@).contains(text) {
                                assert(marked.contains(text));
                                let j = choose|j: int| 0 <= j < marked.len() && marked[j] == text;
                                assert(valid_packages@[j]@ == quoted(valid_prefixes@[j]@));
                                assert(all.contains(all[j]));
                                assert(valid_prefix(types, dir_name, all[j]) && text == quoted(
                                    all[j],
                                ));
                            }
                            if exists|prefix: Seq<char>|
                                valid_prefix(types, dir_name, prefix) && text == quoted(prefix) {
                                let prefix = choose|prefix: Seq<char>|
                                    valid_prefix(types, dir_name, prefix) && text == quoted(prefix);
                                assert(all.contains(prefix));
                                let j = choose|j: int| 0 <= j < all.len() && all[j] == prefix;
                                assert(valid_packages@[j]@ == quoted(valid_prefixes@[j]@));
                                assert(marked[j] == text);
                                assert(marked.contains(text));
                            }
                        }
                        assert(lists_valid(types, dir_name, views(listing@)));
                        let chosen = valid_listing(types, dir_name);
                        assert(lists_valid(types, dir_name, chosen));
                        assert(same_members(views(listing@), chosen));
                        lemma_ascending_unique(views(listing@), chosen);
                    }
                    let mut message = "dependency to '".to_owned();
                    message.append(dep.name().as_str());
                    message.append("' is not allowed");
                    let mut description =
                        "packages with the following directory prefixes are allowed only: ".to_owned();
                    description.append(join_texts(&listing, ", ").as_str());
                    Some(
                        self.validation(
                            config,
                            message,
                            ValidationType::DependencyNotAllowed,
                            Some(description),
                        ),
                    )
                }
            },
        }
    }

    /// Everything that is found of this package among `packages` under
    /// `config`.
    pub fn validate(&self, config: &Config, packages: &Vec<Pubspec>) -> (validations: Vec<
        PackageValidation,
    >)
        ensures
            views(validations@) == findings(self@, config@, views(packages@)),
    {
        let mut validations: Vec<PackageValidation> = Vec::new();
        if config.is_blacklisted(self.path.as_str()) {
            assert(views(validations@) =~= Seq::<PackageValidationView>::empty());
            return validations;
        }
        let ghost all = views(packages@);
        let ghost deps = self@.dependencies;
        let ghost dev_deps = self@.dev_dependencies;
        assert(deps.take(0) =~= Seq::<DependencyView>::empty());
        assert(dev_deps.take(0) =~= Seq::<DependencyView>::empty());
        assert(views(validations@) =~= dependency_findings(self@, config@, all, deps.take(0)));
        let mut i: usize = 0;
        while i < self.dependencies.len()
            invariant
                i <= self.dependencies.len(),
                all == views(packages@),
                deps == self@.dependencies,
                views(validations@) == dependency_findings(self@, config@, all, deps.take(i as int)),
            decreases self.dependencies.len() - i,
        {
            proof {
                assert(deps.take(i + 1).drop_last() =~= deps.take(i as int));
                assert(deps.take(i + 1).last() == self.dependencies@[i as int]@);
            }
            let ghost before = views(validations@);
            let allowed = self.allowed_dependency(&self.dependencies[i], config, packages);
            let public = self.public_package_git_dependencies_only(config, &self.dependencies[i]);
            match allowed {
                Some(validation) => {
                    let ghost was = views(validations@);
                    validations.push(validation);
                    assert(views(validations@) =~= was + found(finding_of(allowed)));
                },
                None => {
                    assert(views(validations@) =~= views(validations@) + found(finding_of(allowed)));
                },
            }
            let ghost middle = views(validations@);
            match public {
                Some(validation) => {
                    validations.push(validation);
                    assert(views(validations@) =~= middle + found(finding_of(public)));
                },
                None => {
                    assert(views(validations@) =~= middle + found(finding_of(public)));
                },
            }
            i += 1;
        }
        assert(deps.take(self.dependencies@.len() as int) =~= deps);
        let ghost first = views(validations@);
        assert(views(validations@) =~= first + cyclic_findings(self@, config@, all, deps.take(0)));
        let mut i: usize = 0;
        while i < self.dependencies.len()
            invariant
                i <= self.dependencies.len(),
                all == views(packages@),
                deps == self@.dependencies,
                views(validations@) == first + cyclic_findings(
                    self@,
                    config@,
                    all,
                    deps.take(i as int),
                ),
            decreases self.dependencies.len() - i,
        {
            proof {
                assert(deps.take(i + 1).drop_last() =~= deps.take(i as int));
                assert(deps.take(i + 1).last() == self.dependencies@[i as int]@);
            }
            let ghost before = views(validations@);
            let mut seen: Vec<String> = Vec::new();
            seen.push(self.dir_path.clone());
            assert(views(seen@) =~= seq![self@.dir_path]);
            let cyclic = self.cyclic_dependency(config, &self.dependencies[i], packages, seen);
            match cyclic {
                Some(validation) => {
                    validations.push(validation);
                    assert(views(validations@) =~= before + found(finding_of(cyclic)));
                },
                None => {
                    assert(views(validations@) =~= before + found(finding_of(cyclic)));
                },
            }
            assert(views(validations@) =~= first + cyclic_findings(
                self@,
                config@,
                all,
                deps.take(i + 1),
            ));
            i += 1;
        }
        assert(deps.take(self.dependencies@.len() as int) =~= deps);
        let ghost second = views(validations@);
        assert(views(validations@) =~= second + cyclic_findings(
            self@,
            config@,
            all,
            dev_deps.take(0),
        ));
        let mut i: usize = 0;
        while i < self.dev_dependencies.len()
            invariant
                i <= self.dev_dependencies.len(),
                all == views(packages@),
                dev_deps == self@.dev_dependencies,
                views(validations@) == second + cyclic_findings(
                    self@,
                    config@,
                    all,
                    dev_deps.take(i as int),
                ),
            decreases self.dev_dependencies.len() - i,
        {
            proof {
                assert(dev_deps.take(i + 1).drop_last() =~= dev_deps.take(i as int));
                assert(dev_deps.take(i + 1).last() == self.dev_dependencies@[i as int]@);
            }
            let ghost before = views(validations@);
            let mut seen: Vec<String> = Vec::new();
            seen.push(self.dir_path.clone());
            assert(views(seen@) =~= seq![self@.dir_path]);
            let cyclic = self.cyclic_dependency(config, &self.dev_dependencies[i], packages, seen);
            match cyclic {
                Some(validation) => {
                    validations.push(validation);
                    assert(views(validations@) =~= before + found(finding_of(cyclic)));
                },
                None => {
                    assert(views(validations@) =~= before + found(finding_of(cyclic)));
                },
            }
            assert(views(validations@) =~= second + cyclic_findings(
                self@,
                config@,
                all,
                dev_deps.take(i + 1),
            ));
            i += 1;
        }
        assert(dev_deps.take(self.dev_dependencies@.len() as int) =~= dev_deps);
        let ghost third = views(validations@);
        assert(views(validations@) =~= third + dev_findings(self@, config@, dev_deps.take(0)));
        let mut i: usize = 0;
        while i < self.dev_dependencies.len()
            invariant
                i <= self.dev_dependencies.len(),
                dev_deps == self@.dev_dependencies,
                views(validations@) == third + dev_findings(self@, config@, dev_deps.take(i as int)),
            decreases self.dev_dependencies.len() - i,
        {
            proof {
                assert(dev_deps.take(i + 1).drop_last() =~= dev_deps.take(i as int));
                assert(dev_deps.take(i + 1).last() == self.dev_dependencies@[i as int]@);
            }
            let ghost before = views(validations@);
            let git = self.git_packages_in_dev_dependencies(config, &self.dev_dependencies[i]);
            match git {
                Some(validation) => {
                    validations.push(validation);
                    assert(views(validations@) =~= before + found(finding_of(git)));
                },
                None => {
                    assert(views(validations@) =~= before + found(finding_of(git)));
                },
            }
            assert(views(validations@) =~= third + dev_findings(self@, config@, dev_deps.take(i + 1)));
            i += 1;
        }
        assert(dev_deps.take(self.dev_dependencies@.len() as int) =~= dev_deps);
        validations
    }
}

/// An override decides where a dependency points to: the dependency is
/// resolved as the declaration of its override would be, whatever it
/// declares itself and whatever kind either is of.
pub proof fn lemma_override_decides(
    declaring: PubspecView,
    dep: DependencyView,
    other: DependencyView,
    packages: Seq<PubspecView>,
)
    requires
        dep.overridden() == Some(other),
    ensures
        target_dir(declaring, dep) == target_dir(declaring, other.declaration()),
        resolve(declaring, dep, packages) == resolve(declaring, other.declaration(), packages),
{
}

/// Two dependencies with the same override are resolved alike, whatever each
/// declares itself.
pub proof fn lemma_declaration_is_ignored(
    declaring: PubspecView,
    first: DependencyView,
    second: DependencyView,
    packages: Seq<PubspecView>,
)
    requires
        first.overridden() is Some,
        first.overridden() == second.overridden(),
    ensures
        resolve(declaring, first, packages) == resolve(declaring, second, packages),
{
}

/// A directory that one of `packages` has is found: at the first package
/// that has it.
pub proof fn lemma_package_at(packages: Seq<PubspecView>, dir: Seq<char>, at: int)
    requires
        0 <= at < packages.len(),
        packages[at].dir_path == dir,
    ensures
        package_at(packages, dir) matches Some(first) && 0 <= first <= at && packages[first].dir_path
            == dir,
    decreases packages.len(),
{
    if packages[0].dir_path != dir {
        lemma_package_at(packages.drop_first(), dir, at - 1);
    }
}

/// What `package_at` finds is a package with that directory, and where it
/// finds none, no package has it.
pub proof fn lemma_package_at_is_first(packages: Seq<PubspecView>, dir: Seq<char>)
    ensures
        match package_at(packages, dir) {
            Some(first) => 0 <= first < packages.len() && packages[first].dir_path == dir,
            None => forall|k: int| 0 <= k < packages.len() ==> (#[trigger] packages[k]).dir_path != dir,
        },
    decreases packages.len(),
{
    if packages.len() > 0 && packages[0].dir_path != dir {
        let rest = packages.drop_first();
        lemma_package_at_is_first(rest, dir);
        if package_at(rest, dir) is None {
            assert forall|k: int| 0 <= k < packages.len() implies (#[trigger] packages[k]).dir_path
                != dir by {
                if k > 0 {
                    assert(rest[k - 1] == packages[k]);
                }
            }
        }
    }
}

/// Nothing is found of a package whose manifest is excluded.
pub proof fn lemma_excluded_is_silent(
    package: PubspecView,
    config: ConfigView,
    packages: Seq<PubspecView>,
)
    requires
        config.blacklisted(package.path),
    ensures
        findings(package, config, packages).len() == 0,
{
}

/// A package whose manifest is excluded is still what a dependency on its
/// directory stands for: resolution asks nothing of the configuration.
pub proof fn lemma_excluded_is_resolved(
    declaring: PubspecView,
    dep: DependencyView,
    config: ConfigView,
    packages: Seq<PubspecView>,
    at: int,
)
    requires
        0 <= at < packages.len(),
        config.blacklisted(packages[at].path),
        target_dir(declaring, dep) == Some(packages[at].dir_path),
    ensures
        resolve(declaring, dep, packages) matches Some(found) && 0 <= found <= at
            && packages[found].dir_path == packages[at].dir_path,
{
    lemma_package_at(packages, packages[at].dir_path, at);
}

/// Whether a finding says that a dependency is unknown or not allowed.
pub open spec fn questions_policy(finding: PackageValidationView) -> bool {
    finding.code == ValidationType::UnknownDependency || finding.code
        == ValidationType::DependencyNotAllowed
}

/// A dependency that is declared on the registry is never found unknown or
/// not allowed, whatever the policy and whatever overrides it.
pub proof fn lemma_registry_is_allowed(
    package: PubspecView,
    config: ConfigView,
    packages: Seq<PubspecView>,
    dep: DependencyView,
)
    requires
        dep is PubDev,
    ensures
        allowed_finding(package, config, packages, dep) is None,
{
}

/// The cycles that are found say nothing of the policy.
pub proof fn lemma_cycles_are_cycles(
    package: PubspecView,
    config: ConfigView,
    packages: Seq<PubspecView>,
    deps: Seq<DependencyView>,
)
    ensures
        forall|i: int|
            0 <= i < cyclic_findings(package, config, packages, deps).len() ==> (
            #[trigger] cyclic_findings(package, config, packages, deps)[i]).code
                == ValidationType::CyclicDependency,
    decreases deps.len(),
{
    if deps.len() > 0 {
        lemma_cycles_are_cycles(package, config, packages, deps.drop_last());
    }
}

/// What is found of dev dependencies says nothing of the policy.
pub proof fn lemma_dev_findings_are_git(
    package: PubspecView,
    config: ConfigView,
    deps: Seq<DependencyView>,
)
    ensures
        forall|i: int|
            0 <= i < dev_findings(package, config, deps).len() ==> (#[trigger] dev_findings(
                package,
                config,
                deps,
            )[i]).code == ValidationType::GitDevDependency,
    decreases deps.len(),
{
    if deps.len() > 0 {
        lemma_dev_findings_are_git(package, config, deps.drop_last());
    }
}

/// Of dependencies that are all declared on the registry, none is found
/// unknown or not allowed.
pub proof fn lemma_registry_dependencies(
    package: PubspecView,
    config: ConfigView,
    packages: Seq<PubspecView>,
    deps: Seq<DependencyView>,
)
    requires
        forall|k: int| 0 <= k < deps.len() ==> (#[trigger] deps[k]) is PubDev,
    ensures
        forall|i: int|
            0 <= i < dependency_findings(package, config, packages, deps).len()
                ==> !questions_policy(
                #[trigger] dependency_findings(package, config, packages, deps)[i],
            ),
    decreases deps.len(),
{
    if deps.len() > 0 {
        let rest = deps.drop_last();
        assert forall|k: int| 0 <= k < rest.len() implies (#[trigger] rest[k]) is PubDev by {
            assert(rest[k] == deps[k]);
        }
        lemma_registry_dependencies(package, config, packages, rest);
        assert(deps.last() is PubDev);
        assert(dependency_findings(package, config, packages, deps) =~= dependency_findings(
            package,
            config,
            packages,
            rest,
        ));
    }
}

/// Of a package whose dependencies are all declared on the registry, nothing
/// is found unknown or not allowed, whatever the policy.
pub proof fn lemma_registry_is_never_questioned(
    package: PubspecView,
    config: ConfigView,
    packages: Seq<PubspecView>,
)
    requires
        forall|k: int|
            0 <= k < package.dependencies.len() ==> (#[trigger] package.dependencies[k]) is PubDev,
    ensures
        forall|i: int|
            0 <= i < findings(package, config, packages).len() ==> !questions_policy(
                #[trigger] findings(package, config, packages)[i],
            ),
{
    lemma_registry_dependencies(package, config, packages, package.dependencies);
    lemma_cycles_are_cycles(package, config, packages, package.dependencies);
    lemma_cycles_are_cycles(package, config, packages, package.dev_dependencies);
    lemma_dev_findings_are_git(package, config, package.dev_dependencies);
}

/// Where `position` finds nothing, the directory is not among those seen.
pub proof fn lemma_position_none(seen: Seq<Seq<char>>, dir: Seq<char>)
    requires
        position(seen, dir) is None,
    ensures
        !seen.contains(dir),
    decreases seen.len(),
{
    if seen.len() > 0 {
        lemma_position_none(seen.drop_first(), dir);
        if seen.contains(dir) {
            let i = choose|i: int| 0 <= i < seen.len() && seen[i] == dir;
            assert(seen.drop_first()[i - 1] == dir);
        }
    }
}

/// The finding with the level that `config` sets for its kind.
pub open spec fn at_level_of(config: ConfigView, finding: PackageValidationView) -> PackageValidationView {
    PackageValidationView { level: config.level_of(finding.code), ..finding }
}

/// Each with the level that `config` sets for its kind.
pub open spec fn at_levels_of(
    config: ConfigView,
    found: Seq<PackageValidationView>,
) -> Seq<PackageValidationView> {
    Seq::new(found.len(), |i: int| at_level_of(config, found[i]))
}

/// Whether the two configurations differ in nothing but the levels that they
/// set.
pub open spec fn same_but_levels(first: ConfigView, second: ConfigView) -> bool {
    &&& first.package_types == second.package_types
    &&& first.blacklist == second.blacklist
    &&& first.public_repositories == second.public_repositories
}

/// The levels that a configuration sets change nothing of what is found but
/// the levels of the findings: a finding of a kind that is suppressed is found
/// all the same.
pub proof fn lemma_levels_only_mark(
    package: PubspecView,
    first: ConfigView,
    second: ConfigView,
    packages: Seq<PubspecView>,
)
    requires
        same_but_levels(first, second),
    ensures
        findings(package, first, packages) == at_levels_of(
            first,
            findings(package, second, packages),
        ),
{
    let deps = package.dependencies;
    let dev = package.dev_dependencies;
    lemma_levels_of_dependencies(package, first, second, packages, deps);
    lemma_levels_of_cycles(package, first, second, packages, deps);
    lemma_levels_of_cycles(package, first, second, packages, dev);
    lemma_levels_of_dev(package, first, second, dev);
    assert(findings(package, first, packages) =~= at_levels_of(
        first,
        findings(package, second, packages),
    ));
}

/// What is found of dependencies changes with the levels in its levels only.
pub proof fn lemma_levels_of_dependencies(
    package: PubspecView,
    first: ConfigView,
    second: ConfigView,
    packages: Seq<PubspecView>,
    deps: Seq<DependencyView>,
)
    requires
        same_but_levels(first, second),
    ensures
        dependency_findings(package, first, packages, deps) == at_levels_of(
            first,
            dependency_findings(package, second, packages, deps),
        ),
    decreases deps.len(),
{
    if deps.len() > 0 {
        lemma_levels_of_dependencies(package, first, second, packages, deps.drop_last());
    }
    assert(dependency_findings(package, first, packages, deps) =~= at_levels_of(
        first,
        dependency_findings(package, second, packages, deps),
    ));
}

/// The cycles that are found change with the levels in their levels only.
pub proof fn lemma_levels_of_cycles(
    package: PubspecView,
    first: ConfigView,
    second: ConfigView,
    packages: Seq<PubspecView>,
    deps: Seq<DependencyView>,
)
    requires
        same_but_levels(first, second),
    ensures
        cyclic_findings(package, first, packages, deps) == at_levels_of(
            first,
            cyclic_findings(package, second, packages, deps),
        ),
    decreases deps.len(),
{
    if deps.len() > 0 {
        lemma_levels_of_cycles(package, first, second, packages, deps.drop_last());
    }
    assert(cyclic_findings(package, first, packages, deps) =~= at_levels_of(
        first,
        cyclic_findings(package, second, packages, deps),
    ));
}

/// What is found of dev dependencies changes with the levels in its levels
/// only.
pub proof fn lemma_levels_of_dev(
    package: PubspecView,
    first: ConfigView,
    second: ConfigView,
    deps: Seq<DependencyView>,
)
    requires
        same_but_levels(first, second),
    ensures
        dev_findings(package, first, deps) == at_levels_of(
            first,
            dev_findings(package, second, deps),
        ),
    decreases deps.len(),
{
    if deps.len() > 0 {
        lemma_levels_of_dev(package, first, second, deps.drop_last());
    }
    assert(dev_findings(package, first, deps) =~= at_levels_of(
        first,
        dev_findings(package, second, deps),
    ));
}

/// Whether `message` tells of a cycle that closes at `origin`: it is the
/// message of a walk that starts with the directory of `origin` and closes
/// at a package of that directory.
pub open spec fn closes_at(origin: PubspecView, packages: Seq<PubspecView>, message: Seq<char>) -> bool {
    exists|seen: Seq<Seq<char>>, at: int|
        #![trigger cycle_message(seen, 0, packages[at].dir_name)]
        seen.len() > 0 && seen[0] == origin.dir_path && 0 <= at < packages.len()
            && packages[at].dir_path == origin.dir_path && message == cycle_message(
            seen,
            0,
            packages[at].dir_name,
        )
}

/// A directory that comes first among those seen is found at the first
/// place.
pub proof fn lemma_position_first(seen: Seq<Seq<char>>, dir: Seq<char>)
    requires
        seen.len() > 0,
        seen[0] == dir,
    ensures
        position(seen, dir) == Some(0int),
{
}

/// A cycle that a walk finds, where the walk started with the directory of
/// `origin`, closes at `origin`.
pub proof fn lemma_cycle_from_closes(
    origin: PubspecView,
    declaring: PubspecView,
    dep: DependencyView,
    packages: Seq<PubspecView>,
    seen: Seq<Seq<char>>,
)
    requires
        seen.len() > 0,
        seen[0] == origin.dir_path,
    ensures
        cycle_from(origin, declaring, dep, packages, seen) matches Some(message) ==> closes_at(
            origin,
            packages,
            message,
        ),
    decreases unseen(packages, seen), 0nat,
{
    if resolve(declaring, dep, packages) is Some {
        let at = resolve(declaring, dep, packages)->0;
        lemma_package_at_is_first(packages, target_dir(declaring, dep)->0);
        let target = packages[at];
        if position(seen, target.dir_path) is Some {
            if origin.dir_path == target.dir_path {
                lemma_position_first(seen, target.dir_path);
                assert(cycle_from(origin, declaring, dep, packages, seen) == Some(
                    cycle_message(seen, 0, packages[at].dir_name),
                ));
            }
        } else {
            lemma_walk_shrinks(declaring, dep, packages, seen);
            let longer = seen.push(target.dir_path);
            assert(longer[0] == seen[0]);
            lemma_cycle_among_closes(origin, target, target.dependencies, packages, longer);
            lemma_cycle_among_closes(origin, target, target.dev_dependencies, packages, longer);
        }
    }
}

/// A cycle that the walks along `deps` find, where they started with the
/// directory of `origin`, closes at `origin`.
pub proof fn lemma_cycle_among_closes(
    origin: PubspecView,
    declaring: PubspecView,
    deps: Seq<DependencyView>,
    packages: Seq<PubspecView>,
    seen: Seq<Seq<char>>,
)
    requires
        seen.len() > 0,
        seen[0] == origin.dir_path,
    ensures
        cycle_among(origin, declaring, deps, packages, seen) matches Some(message) ==> closes_at(
            origin,
            packages,
            message,
        ),
    decreases unseen(packages, seen), deps.len() + 1,
{
    if deps.len() > 0 {
        lemma_cycle_from_closes(origin, declaring, deps[0], packages, seen);
        lemma_cycle_among_closes(origin, declaring, deps.drop_first(), packages, seen);
    }
}

/// The names of directories start with the name of the first directory,
/// where it has one.
pub proof fn lemma_names_start(dirs: Seq<Seq<char>>)
    requires
        dirs.len() > 0,
        file_name_of(dirs[0]) is Some,
    ensures
        names_of(dirs).len() > 0,
        names_of(dirs)[0] == file_name_of(dirs[0])->0,
    decreases dirs.len(),
{
    let rest = dirs.drop_last();
    if dirs.len() > 1 {
        assert(rest[0] == dirs[0]);
        lemma_names_start(rest);
        if file_name_of(dirs.last()) is Some {
            assert(names_of(dirs) == names_of(rest).push(file_name_of(dirs.last())->0));
            assert(names_of(dirs)[0] == names_of(rest)[0]);
        }
    } else {
        assert(rest.len() == 0);
        assert(names_of(rest) =~= Seq::<Seq<char>>::empty());
        assert(dirs.last() == dirs[0]);
        assert(names_of(dirs) == names_of(rest).push(file_name_of(dirs[0])->0));
        assert(names_of(dirs)[0] == file_name_of(dirs[0])->0);
    }
}

/// The message of a cycle that is found of a dependency of `package` starts
/// with the name of the directory of `package` and ends with the name of a
/// package of that directory between apostrophes.
pub proof fn lemma_cycle_message_shape(
    package: PubspecView,
    dep: DependencyView,
    packages: Seq<PubspecView>,
)
    requires
        file_name_of(package.dir_path) is Some,
    ensures
        cycle_from(package, package, dep, packages, seq![package.dir_path]) matches Some(message)
            ==> ("cyclic dependency "@ + file_name_of(package.dir_path)->0).is_prefix_of(message)
            && exists|at: int|
            0 <= at < packages.len() && (#[trigger] packages[at]).dir_path == package.dir_path && (
            " -> "@ + quoted(packages[at].dir_name)).is_suffix_of(message),
{
    let start = seq![package.dir_path];
    lemma_cycle_from_closes(package, package, dep, packages, start);
    if cycle_from(package, package, dep, packages, start) is Some {
        let message = cycle_from(package, package, dep, packages, start)->0;
        let (seen, at) = choose|seen: Seq<Seq<char>>, at: int|
            #![trigger cycle_message(seen, 0, packages[at].dir_name)]
            seen.len() > 0 && seen[0] == package.dir_path && 0 <= at < packages.len()
                && packages[at].dir_path == package.dir_path && message == cycle_message(
                seen,
                0,
                packages[at].dir_name,
            );
        assert(seen.skip(0) =~= seen);
        let names = names_of(seen);
        let closing = quoted(packages[at].dir_name);
        let sep = " -> "@;
        let lead = "cyclic dependency "@;
        lemma_names_start(seen);
        lemma_join_starts(names, sep);
        assert(names.push(closing).drop_last() =~= names);
        assert(join(names.push(closing), sep) == join(names, sep) + sep + closing);
        let head = lead + join(names, sep);
        let tail = sep + closing;
        assert(message =~= head + tail);
        let first = lead + names[0];
        assert(first =~= message.subrange(0, first.len() as int)) by {
            assert(names[0] =~= join(names, sep).subrange(0, names[0].len() as int));
        }
        assert(tail =~= message.subrange(message.len() - tail.len(), message.len() as int));
        assert(packages[at].dir_path == package.dir_path && tail.is_suffix_of(message));
    }
}

} // verus!
