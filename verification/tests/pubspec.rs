use flcheck::config::Config;
use flcheck::config::PackageType;
use flcheck::dependency::Dependency;
use flcheck::error::PackageValidation;
use flcheck::error::ValidationLevel;
use flcheck::error::ValidationType;
use flcheck::pubspec::Pubspec;
use regex::Regex;

fn base_config() -> Config {
    return Config::from_packages(vec![
        PackageType {
            name: "app".to_owned(),
            prefixes: vec!["app_".to_owned()],
            includes: vec!["shared".to_owned()],
        },
        PackageType {
            name: "shared".to_owned(),
            prefixes: vec!["shared_".to_owned()],
            includes: vec!["shared".to_owned(), "package".to_owned()],
        },
        PackageType {
            name: "package".to_owned(),
            prefixes: vec!["pkg_".to_owned()],
            includes: vec!["package".to_owned()],
        },
    ]);
}

fn pkg(name: &str, path: &str) -> Pubspec {
    return Pubspec {
        name: name.to_owned(),
        path: format!("{}/pubspec.yaml", path),
        dir_name: name.to_owned(),
        dir_path: path.to_owned(),
        dependencies: Vec::new(),
        dev_dependencies: Vec::new(),
        is_public: false,
    };
}

fn local(name: &str, path: &str) -> Dependency {
    Dependency::Local {
        name: name.to_owned(),
        path: path.to_owned(),
        overridden: Box::new(None),
    }
}

fn codes(validations: Vec<PackageValidation>) -> Vec<ValidationType> {
    return validations.into_iter().map(|v| v.code).collect();
}

#[test]
fn empty_dependencies() {
    let config = base_config();
    let all = vec![pkg("test", "/tmp/test")];

    let errors = all[0].validate(&config, &all);
    assert_eq!(errors.len(), 0);
}

#[test]
fn multiple_packages() {
    let config = base_config();
    let all = vec![
        pkg("foo", "/tmp/foo"),
        pkg("bar", "/tmp/bar"),
        pkg("ham", "/tmp/ham"),
        pkg("eggs", "/tmp/eggs"),
    ];

    for pkg in all.iter() {
        let errors = pkg.validate(&config, &all);
        assert_eq!(errors.len(), 0);
    }
}

#[test]
fn git_dependency() {
    let config = base_config();
    let all = vec![Pubspec {
        dependencies: vec![Dependency::Git {
            name: "git".to_owned(),
            git: "git://repo".to_owned(),
            path: "".to_owned(),
            overridden: Box::new(None),
        }],
        ..pkg("foo", "/tmp/foo")
    }];

    let errors = all[0].validate(&config, &all);
    assert_eq!(errors.len(), 0);
}

#[test]
fn unknown_dependency() {
    let config = base_config();
    let all = vec![Pubspec {
        dependencies: vec![Dependency::Local {
            name: "bar".to_owned(),
            path: "../bar".to_owned(),
            overridden: Box::new(None),
        }],
        ..pkg("foo", "/tmp/foo")
    }];

    let errors = all[0].validate(&config, &all);
    let error_codes = codes(errors);

    assert_eq!(error_codes, vec![ValidationType::UnknownDependency]);
}

#[test]
fn unconfigured_dependency() {
    let config = base_config();
    let all = vec![
        Pubspec {
            dependencies: vec![Dependency::Local {
                name: "bar".to_owned(),
                path: "../bar".to_owned(),
                overridden: Box::new(None),
            }],
            ..pkg("foo", "/tmp/foo")
        },
        Pubspec {
            dependencies: vec![],
            ..pkg("bar", "/tmp/bar")
        },
    ];

    let errors = all[0].validate(&config, &all);
    let error_codes = codes(errors);

    assert_eq!(error_codes, vec![ValidationType::DependencyNotAllowed]);
}

#[test]
fn basic_dependency() {
    let config = base_config();
    let all = vec![
        Pubspec {
            dependencies: vec![Dependency::Local {
                name: "pkg_bar".to_owned(),
                path: "../pkg_bar".to_owned(),
                overridden: Box::new(None),
            }],
            ..pkg("app_foo", "/tmp/app_foo")
        },
        Pubspec {
            dependencies: vec![],
            ..pkg("pkg_bar", "/tmp/pkg_bar")
        },
    ];

    let errors = all[0].validate(&config, &all);
    let error_codes = codes(errors);

    assert_eq!(error_codes, Vec::new());
}

#[test]
fn unallowed_dependency() {
    let config = base_config();
    let all = vec![
        Pubspec {
            dependencies: vec![Dependency::Local {
                name: "app_bar".to_owned(),
                path: "../app_bar".to_owned(),
                overridden: Box::new(None),
            }],
            ..pkg("pkg_foo", "/tmp/pkg_foo")
        },
        Pubspec {
            dependencies: vec![],
            ..pkg("app_bar", "/tmp/app_bar")
        },
    ];

    let errors = all[0].validate(&config, &all);
    let error_codes = codes(errors);

    assert_eq!(error_codes, vec![ValidationType::DependencyNotAllowed]);
}

#[test]
fn cyclic_dependency() {
    let config = base_config();
    let all = vec![
        Pubspec {
            dependencies: vec![Dependency::Local {
                name: "pkg_bar".to_owned(),
                path: "../pkg_bar".to_owned(),
                overridden: Box::new(None),
            }],
            ..pkg("pkg_foo", "/tmp/pkg_foo")
        },
        Pubspec {
            dependencies: vec![Dependency::Local {
                name: "pkg_foo".to_owned(),
                path: "../pkg_foo".to_owned(),
                overridden: Box::new(None),
            }],
            ..pkg("pkg_bar", "/tmp/pkg_bar")
        },
    ];

    let errors = all[0].validate(&config, &all);
    let error_codes = codes(errors);

    assert_eq!(error_codes, vec![ValidationType::CyclicDependency]);
}

#[test]
fn cyclic_and_unallowed_dependency() {
    let config = base_config();
    let all = vec![
        Pubspec {
            dependencies: vec![Dependency::Local {
                name: "app_bar".to_owned(),
                path: "../app_bar".to_owned(),
                overridden: Box::new(None),
            }],
            ..pkg("app_foo", "/tmp/app_foo")
        },
        Pubspec {
            dependencies: vec![Dependency::Local {
                name: "app_foo".to_owned(),
                path: "../app_foo".to_owned(),
                overridden: Box::new(None),
            }],
            ..pkg("app_bar", "/tmp/app_bar")
        },
    ];

    let errors = all[0].validate(&config, &all);
    let error_codes = codes(errors);

    assert_eq!(
        error_codes,
        vec![
            ValidationType::DependencyNotAllowed,
            ValidationType::CyclicDependency
        ]
    );
}

#[test]
fn cyclic_dev_dependencies() {
    let config = base_config();
    let all = vec![
        Pubspec {
            dependencies: vec![Dependency::Local {
                name: "pkg_bar".to_owned(),
                path: "../pkg_bar".to_owned(),
                overridden: Box::new(None),
            }],
            ..pkg("pkg_foo", "/tmp/pkg_foo")
        },
        Pubspec {
            dev_dependencies: vec![Dependency::Local {
                name: "pkg_foo".to_owned(),
                path: "../pkg_foo".to_owned(),
                overridden: Box::new(None),
            }],
            ..pkg("pkg_bar", "/tmp/pkg_bar")
        },
    ];

    let errors = all[0].validate(&config, &all);
    let error_codes = codes(errors);

    assert_eq!(error_codes, vec![ValidationType::CyclicDependency]);
}

#[test]
fn mutual_dependency_is_reported_by_each_package() {
    let config = base_config();
    let all = vec![
        Pubspec {
            dependencies: vec![local("pkg_bar", "../pkg_bar")],
            ..pkg("pkg_foo", "/tmp/pkg_foo")
        },
        Pubspec {
            dependencies: vec![local("pkg_foo", "../pkg_foo")],
            ..pkg("pkg_bar", "/tmp/pkg_bar")
        },
    ];

    let of_foo = all[0].validate(&config, &all);
    assert_eq!(
        of_foo,
        vec![PackageValidation {
            package_name: "pkg_foo".to_owned(),
            error: "cyclic dependency pkg_foo -> pkg_bar -> 'pkg_foo'".to_owned(),
            description: None,
            code: ValidationType::CyclicDependency,
            level: ValidationLevel::Error,
        }]
    );
    let of_bar = all[1].validate(&config, &all);
    assert_eq!(
        of_bar,
        vec![PackageValidation {
            package_name: "pkg_bar".to_owned(),
            error: "cyclic dependency pkg_bar -> pkg_foo -> 'pkg_bar'".to_owned(),
            description: None,
            code: ValidationType::CyclicDependency,
            level: ValidationLevel::Error,
        }]
    );
}

#[test]
fn cycle_among_others_is_not_reported() {
    let config = base_config();
    let all = vec![
        Pubspec {
            dependencies: vec![local("pkg_a", "../pkg_a")],
            ..pkg("pkg_watch", "/tmp/pkg_watch")
        },
        Pubspec {
            dependencies: vec![local("pkg_b", "../pkg_b")],
            ..pkg("pkg_a", "/tmp/pkg_a")
        },
        Pubspec {
            dependencies: vec![local("pkg_a", "../pkg_a")],
            ..pkg("pkg_b", "/tmp/pkg_b")
        },
    ];

    assert_eq!(codes(all[0].validate(&config, &all)), Vec::new());
    assert_eq!(codes(all[1].validate(&config, &all)), vec![ValidationType::CyclicDependency]);
    assert_eq!(codes(all[2].validate(&config, &all)), vec![ValidationType::CyclicDependency]);
}

#[test]
fn cycle_of_three_names_the_whole_route() {
    let config = base_config();
    let all = vec![
        Pubspec {
            dependencies: vec![local("x", "../pkg_x"), local("pkg_b", "../pkg_b")],
            ..pkg("pkg_a", "/tmp/pkg_a")
        },
        Pubspec {
            dev_dependencies: vec![local("pkg_c", "../pkg_c")],
            ..pkg("pkg_b", "/tmp/pkg_b")
        },
        Pubspec {
            dependencies: vec![local("pkg_a", "../../tmp/./pkg_a/")],
            ..pkg("pkg_c", "/tmp/pkg_c")
        },
        pkg("pkg_x", "/tmp/pkg_x"),
    ];

    let found = all[0].validate(&config, &all);
    assert_eq!(found.len(), 1);
    assert_eq!(found[0].error, "cyclic dependency pkg_a -> pkg_b -> pkg_c -> 'pkg_a'");
    assert_eq!(found[0].code, ValidationType::CyclicDependency);
}

#[test]
fn inner_dependency_is_taken_from_its_own_directory() {
    let config = Config::from_packages(Vec::new());
    let all = vec![
        Pubspec {
            dependencies: vec![local("inner", "libs/inner")],
            ..pkg("outer", "/repo/outer")
        },
        Pubspec {
            dependencies: vec![local("outer", "../..")],
            ..pkg("inner", "/repo/outer/libs/inner")
        },
    ];

    let found = all[0].validate(&config, &all);
    assert_eq!(codes(found), vec![ValidationType::CyclicDependency]);
    let found = all[1].validate(&config, &all);
    assert_eq!(found.len(), 1);
    assert_eq!(found[0].error, "cyclic dependency inner -> outer -> 'inner'");
}

#[test]
fn unallowed_dependency_lists_the_allowed_prefixes() {
    let config = Config::from_packages(vec![
        PackageType {
            name: "app".to_owned(),
            prefixes: vec!["app_".to_owned()],
            includes: vec!["shared".to_owned(), "package".to_owned()],
        },
        PackageType {
            name: "shared".to_owned(),
            prefixes: vec!["shared_".to_owned(), "common_".to_owned()],
            includes: vec!["package".to_owned()],
        },
        PackageType {
            name: "package".to_owned(),
            prefixes: vec!["pkg_".to_owned(), "common_".to_owned()],
            includes: Vec::new(),
        },
    ]);
    let all = vec![
        Pubspec {
            dependencies: vec![local("other", "../app_other")],
            ..pkg("app_foo", "/tmp/app_foo")
        },
        pkg("app_other", "/tmp/app_other"),
    ];

    let found = all[0].validate(&config, &all);
    assert_eq!(
        found,
        vec![PackageValidation {
            package_name: "app_foo".to_owned(),
            error: "dependency to 'other' is not allowed".to_owned(),
            description: Some(
                "packages with the following directory prefixes are allowed only: 'common_', 'pkg_', 'shared_'"
                    .to_owned()
            ),
            code: ValidationType::DependencyNotAllowed,
            level: ValidationLevel::Error,
        }]
    );
}

#[test]
fn unknown_dependency_names_the_dependency() {
    let config = base_config();
    let all = vec![Pubspec {
        dependencies: vec![local("bar", "../bar")],
        ..pkg("foo", "/tmp/foo")
    }];

    let found = all[0].validate(&config, &all);
    assert_eq!(found.len(), 1);
    assert_eq!(found[0].error, "unable to find dependency 'bar'");
    assert_eq!(found[0].description, None);
    assert_eq!(found[0].package_name, "foo");
}

#[test]
fn own_type_is_allowed_only_where_it_is_included() {
    let plain = Config::from_packages(vec![PackageType {
        name: "app".to_owned(),
        prefixes: vec!["app_".to_owned()],
        includes: Vec::new(),
    }]);
    let own = Config::from_packages(vec![PackageType {
        name: "app".to_owned(),
        prefixes: vec!["app_".to_owned()],
        includes: vec!["app".to_owned()],
    }]);
    let all = vec![
        Pubspec {
            dependencies: vec![local("bar", "../app_bar")],
            ..pkg("app_foo", "/tmp/app_foo")
        },
        pkg("app_bar", "/tmp/app_bar"),
    ];

    assert!(all[0].resolve_dependency(&all[0].dependencies[0], &all).is_some());
    assert_eq!(
        codes(all[0].validate(&plain, &all)),
        vec![ValidationType::DependencyNotAllowed]
    );
    assert_eq!(codes(all[0].validate(&own, &all)), Vec::new());
}

#[test]
fn no_policy_means_no_opinion() {
    let config = Config::from_packages(Vec::new());
    let all = vec![Pubspec {
        dependencies: vec![local("bar", "../bar")],
        ..pkg("foo", "/tmp/foo")
    }];

    assert_eq!(codes(all[0].validate(&config, &all)), Vec::new());
}

#[test]
fn override_decides_the_resolution() {
    let all = vec![
        pkg("a", "/tmp/a"),
        pkg("b", "/tmp/b"),
        pkg("c", "/tmp/c"),
    ];
    let plain = local("b", "../b");
    assert_eq!(all[0].resolve_dependency(&plain, &all).map(|p| p.name.clone()), Some("b".to_owned()));

    let overridden = local("b", "../b").with_override(local("c", "../c"));
    assert_eq!(
        all[0].resolve_dependency(&overridden, &all).map(|p| p.name.clone()),
        Some("c".to_owned())
    );

    let registry = Dependency::PubDev {
        name: "b".to_owned(),
        version: "1.0.0".to_owned(),
        overridden: Box::new(None),
    };
    assert!(all[0].resolve_dependency(&registry, &all).is_none());
    let registry_to_local = registry.with_override(local("c", "../c"));
    assert_eq!(
        all[0].resolve_dependency(&registry_to_local, &all).map(|p| p.name.clone()),
        Some("c".to_owned())
    );

    let local_to_git = local("b", "../b").with_override(Dependency::Git {
        name: "b".to_owned(),
        git: "git://repo".to_owned(),
        path: "b".to_owned(),
        overridden: Box::new(None),
    });
    assert!(all[0].resolve_dependency(&local_to_git, &all).is_none());
}

#[test]
fn excluded_package_is_silent_but_still_a_target() {
    let mut config = base_config();
    config.blacklist = vec![Regex::new("/pkg_gen/").unwrap()];
    let all = vec![
        Pubspec {
            dependencies: vec![local("nowhere", "../nowhere"), local("app_x", "../app_x")],
            dev_dependencies: vec![local("pkg_user", "../pkg_user")],
            is_public: true,
            ..pkg("pkg_gen", "/tmp/pkg_gen")
        },
        Pubspec {
            dependencies: vec![local("pkg_gen", "../pkg_gen")],
            ..pkg("pkg_user", "/tmp/pkg_user")
        },
        pkg("app_x", "/tmp/app_x"),
    ];

    assert_eq!(all[0].validate(&config, &all).len(), 0);
    let target = all[1].resolve_dependency(&all[1].dependencies[0], &all);
    assert_eq!(target.map(|p| p.name.clone()), Some("pkg_gen".to_owned()));
    assert_eq!(codes(all[1].validate(&config, &all)), vec![ValidationType::CyclicDependency]);

    let open = base_config();
    assert_eq!(
        codes(all[0].validate(&open, &all)),
        vec![
            ValidationType::UnknownDependency,
            ValidationType::NonGitDependencyInPublicPackage,
            ValidationType::DependencyNotAllowed,
            ValidationType::NonGitDependencyInPublicPackage,
            ValidationType::CyclicDependency,
        ]
    );
}

#[test]
fn registry_dependency_is_never_questioned() {
    let config = base_config();
    let all = vec![Pubspec {
        dependencies: vec![
            Dependency::PubDev {
                name: "http".to_owned(),
                version: "^1.0.0".to_owned(),
                overridden: Box::new(None),
            },
            Dependency::PubDev {
                name: "path".to_owned(),
                version: "any".to_owned(),
                overridden: Box::new(None),
            }
            .with_override(local("path", "../nowhere")),
        ],
        is_public: true,
        ..pkg("app_foo", "/tmp/app_foo")
    }];

    assert_eq!(all[0].validate(&config, &all).len(), 0);
}

#[test]
fn public_package_and_dev_dependency_rules() {
    let mut config = base_config();
    config.public_repositories = vec![Regex::new("github\\.com").unwrap()];
    config.validations = vec![(ValidationType::GitDevDependency, ValidationLevel::Warning)];
    let git = |name: &str, url: &str| Dependency::Git {
        name: name.to_owned(),
        git: url.to_owned(),
        path: "lib".to_owned(),
        overridden: Box::new(None),
    };
    let all = vec![
        Pubspec {
            dependencies: vec![local("pkg_b", "../pkg_b"), git("open", "https://github.com/a/open")],
            dev_dependencies: vec![
                git("tool", "https://github.com/a/tool"),
                git("inner", "git://internal/inner"),
                local("pkg_b", "../pkg_b"),
            ],
            is_public: true,
            ..pkg("pkg_a", "/tmp/pkg_a")
        },
        pkg("pkg_b", "/tmp/pkg_b"),
    ];

    let found = all[0].validate(&config, &all);
    assert_eq!(
        found,
        vec![
            PackageValidation {
                package_name: "pkg_a".to_owned(),
                error: "non-git dependency 'pkg_b' in public package".to_owned(),
                description: None,
                code: ValidationType::NonGitDependencyInPublicPackage,
                level: ValidationLevel::Error,
            },
            PackageValidation {
                package_name: "pkg_a".to_owned(),
                error: "git dependency in dev_dependencies tool".to_owned(),
                description: None,
                code: ValidationType::GitDevDependency,
                level: ValidationLevel::Warning,
            },
        ]
    );
}

#[test]
fn walk_goes_on_whatever_was_seen_before() {
    let config = base_config();
    let all = vec![
        Pubspec {
            dependencies: vec![local("pkg_b", "../pkg_b")],
            ..pkg("pkg_a", "/tmp/pkg_a")
        },
        Pubspec {
            dependencies: vec![local("pkg_a", "../pkg_a")],
            ..pkg("pkg_b", "/tmp/pkg_b")
        },
    ];
    let seen = vec!["/x".to_owned(), "/y".to_owned(), "/tmp/pkg_a".to_owned()];

    let found = all[0].cyclic_dependency(&config, &all[0].dependencies[0], &all, seen);
    assert_eq!(
        found,
        Some(PackageValidation {
            package_name: "pkg_a".to_owned(),
            error: "cyclic dependency pkg_a -> pkg_b -> 'pkg_a'".to_owned(),
            description: None,
            code: ValidationType::CyclicDependency,
            level: ValidationLevel::Error,
        })
    );

    let twice = vec!["/tmp/pkg_a".to_owned(), "/q".to_owned(), "/q".to_owned(), "/q".to_owned()];
    let found = all[0].cyclic_dependency(&config, &all[0].dependencies[0], &all, twice);
    assert_eq!(
        found.map(|v| v.error),
        Some("cyclic dependency pkg_a -> q -> q -> q -> pkg_b -> 'pkg_a'".to_owned())
    );
}
