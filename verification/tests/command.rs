use flcheck::command::check;
use flcheck::command::example_config;
use flcheck::command::graph;
use flcheck::command::registry_names;
use flcheck::command::validate;
use flcheck::config::Config;
use flcheck::config::PackageType;
use flcheck::dependency::Dependency;
use flcheck::error::FlError;
use flcheck::error::ValidationLevel;
use flcheck::error::ValidationType;
use flcheck::pubdev::package_url;
use flcheck::pubdev::PubVersions;
use flcheck::pubspec::Pubspec;

fn policy() -> Config {
    Config::from_packages(vec![
        PackageType {
            name: "app".to_owned(),
            prefixes: vec!["app_".to_owned()],
            includes: vec!["package".to_owned()],
        },
        PackageType {
            name: "package".to_owned(),
            prefixes: vec!["pkg_".to_owned()],
            includes: vec!["package".to_owned()],
        },
    ])
}

fn package(name: &str, dependencies: Vec<Dependency>) -> Pubspec {
    Pubspec {
        name: name.to_owned(),
        path: format!("/repo/{}/pubspec.yaml", name),
        dir_name: name.to_owned(),
        dir_path: format!("/repo/{}", name),
        dependencies,
        dev_dependencies: Vec::new(),
        is_public: false,
    }
}

fn local(name: &str) -> Dependency {
    Dependency::Local {
        name: name.to_owned(),
        path: format!("../{}", name),
        overridden: Box::new(None),
    }
}

fn registry(name: &str, version: &str) -> Dependency {
    Dependency::PubDev {
        name: name.to_owned(),
        version: version.to_owned(),
        overridden: Box::new(None),
    }
}

fn troubled() -> Vec<Pubspec> {
    vec![
        package("app_a", vec![local("pkg_b"), local("app_c"), local("gone")]),
        package("pkg_b", vec![local("app_a")]),
        package("app_c", Vec::new()),
    ]
}

#[test]
fn errors_decide_how_a_run_ends() {
    let config = policy();
    let report = validate(&config, &troubled());
    let kinds: Vec<ValidationType> = report.shown.iter().map(|v| v.code).collect();
    assert_eq!(
        kinds,
        vec![
            ValidationType::DependencyNotAllowed,
            ValidationType::UnknownDependency,
            ValidationType::CyclicDependency,
            ValidationType::DependencyNotAllowed,
            ValidationType::CyclicDependency,
        ]
    );
    assert!(matches!(report.outcome, Err(FlError::ValidationError(5))));

    let clean = validate(&config, &vec![package("app_a", vec![local("pkg_b")]), package("pkg_b", Vec::new())]);
    assert_eq!(clean.shown.len(), 0);
    assert!(clean.outcome.is_ok());
}

#[test]
fn suppressed_findings_are_neither_shown_nor_counted() {
    let mut config = policy();
    config.validations = vec![
        (ValidationType::DependencyNotAllowed, ValidationLevel::Suppressed),
        (ValidationType::CyclicDependency, ValidationLevel::Warning),
    ];
    let packages = troubled();

    let found = packages[0].validate(&config, &packages);
    let levels: Vec<ValidationLevel> = found.iter().map(|v| v.level).collect();
    assert_eq!(
        levels,
        vec![ValidationLevel::Suppressed, ValidationLevel::Error, ValidationLevel::Warning]
    );

    let report = validate(&config, &packages);
    let kinds: Vec<ValidationType> = report.shown.iter().map(|v| v.code).collect();
    assert_eq!(
        kinds,
        vec![
            ValidationType::UnknownDependency,
            ValidationType::CyclicDependency,
            ValidationType::CyclicDependency,
        ]
    );
    assert!(matches!(report.outcome, Err(FlError::ValidationError(1))));

    config.validations.push((ValidationType::UnknownDependency, ValidationLevel::Suppressed));
    let report = validate(&config, &packages);
    assert_eq!(report.shown.len(), 2);
    assert!(report.outcome.is_ok());
}

#[test]
fn graph_has_a_node_for_each_package_and_an_edge_for_each_link() {
    let packages = vec![
        package(
            "app_a",
            vec![
                local("pkg_b"),
                registry("http", "^1.0.0"),
                Dependency::Git {
                    name: "remote".to_owned(),
                    git: "git://repo".to_owned(),
                    path: "lib".to_owned(),
                    overridden: Box::new(None),
                },
            ],
        ),
        package("pkg_b", Vec::new()),
    ];

    assert_eq!(
        graph(&packages),
        vec![
            "//",
            "// automatically generated by flcheck <https://github.com/kongo2002/flcheck>",
            "//",
            "digraph dependencies {",
            "  ranksep =\"2.0 equally\";",
            "  // app_a",
            "  app_a []",
            "  app_a -> pkg_b;",
            "  app_a -> remote;",
            "  // pkg_b",
            "  pkg_b []",
            "}",
        ]
    );
    assert_eq!(graph(&Vec::new()).len(), 6);
}

#[test]
fn registry_dependencies_are_listed_with_their_latest_version() {
    let packages = vec![
        package("app_a", vec![registry("http", "^1.0.0"), local("pkg_b"), registry("path", "any")]),
        package("pkg_b", vec![registry("http", "^0.9.0")]),
    ];

    assert_eq!(registry_names(&packages), vec!["http", "path"]);
    assert_eq!(package_url("http"), "https://pub.dev/api/packages/http");

    let versions = vec![
        PubVersions {
            name: "http".to_owned(),
            latest: "1.2.0".to_owned(),
            versions: vec!["1.0.0".to_owned(), "1.2.0".to_owned()],
        },
        PubVersions {
            name: "http".to_owned(),
            latest: "1.3.0".to_owned(),
            versions: Vec::new(),
        },
    ];
    assert_eq!(
        check(&packages, &versions),
        vec![
            "app_a",
            "  http: ^1.0.0 [1.3.0]",
            "  path: any [<unknown>]",
            "pkg_b",
            "  http: ^0.9.0 [1.3.0]",
        ]
    );
}

#[test]
fn example_configuration_is_a_valid_policy() {
    let config = Config::load("flcheck.yaml", example_config()).unwrap();
    let names: Vec<&str> = config.package_types.iter().map(|t| t.name.as_str()).collect();
    assert_eq!(names, vec!["main", "app", "shared", "package"]);
    assert!(config.is_blacklisted("/repo/pkg_a/example/pubspec.yaml"));
    assert!(example_config().starts_with("# Package types list rules"));
    assert!(example_config().ends_with("  - '/example'\n"));
}
