use flcheck::config::Config;
use flcheck::config::PackageType;
use flcheck::error::FlError;
use flcheck::error::ValidationLevel;
use flcheck::error::ValidationType;
use flcheck::util::load_yaml;
use flcheck::yaml::YamlNode;
use regex::Regex;
use yaml_rust::YamlLoader;

fn document(text: &str) -> YamlNode {
    load_yaml("flcheck.yaml", text).unwrap()
}

fn app_type() -> PackageType {
    PackageType {
        name: "app".to_owned(),
        prefixes: vec!["app".to_owned()],
        includes: Vec::new(),
    }
}

#[test]
fn load_config_empty() {
    let docs = YamlLoader::load_from_str("").unwrap();

    assert_eq!(docs.is_empty(), true);
}

#[test]
fn load_config_no_package_types() {
    let config = Config::load_from_yaml(document("package_types:"));

    assert_eq!(config.is_err(), true);
}

#[test]
fn load_config_missing_dir_prefix() {
    let config = Config::load_from_yaml(document(
        "
package_types:
  app:
    dir_prefix:
    ",
    ));

    assert_eq!(config.is_err(), true);
}

#[test]
fn load_config_minimal() {
    let config = Config::load_from_yaml(document(
        "
package_types:
  app:
    dir_prefix: app
    ",
    ))
    .unwrap();

    assert_eq!(
        config,
        Config {
            package_types: vec![app_type()],
            blacklist: Vec::new(),
            validations: Vec::new(),
            public_repositories: Vec::new(),
        }
    )
}

#[test]
fn load_config_blacklist() {
    let config = Config::load_from_yaml(document(
        "
package_types:
  app:
    dir_prefix: app
blacklist:
- one
- two
    ",
    ))
    .unwrap();

    assert_eq!(
        config,
        Config {
            package_types: vec![app_type()],
            blacklist: vec![Regex::new("one").unwrap(), Regex::new("two").unwrap()],
            validations: Vec::new(),
            public_repositories: Vec::new(),
        }
    )
}

#[test]
fn load_config_public_repositories() {
    let config = Config::load_from_yaml(document(
        "
package_types:
  app:
    dir_prefix: app
public_repositories:
- one
- two
    ",
    ))
    .unwrap();

    assert_eq!(
        config,
        Config {
            package_types: vec![app_type()],
            blacklist: Vec::new(),
            validations: Vec::new(),
            public_repositories: vec![Regex::new("one").unwrap(), Regex::new("two").unwrap()],
        }
    )
}

#[test]
fn load_config_invalid_yaml() {
    let text = "
package_types:
  app:
    dir_prefix: app
public_repositories:
- **
    ";
    let docs = YamlLoader::load_from_str(text);

    assert_eq!(docs.is_err(), true);
    assert!(matches!(load_yaml("flcheck.yaml", text), Err(FlError::YamlReadError(_))));
}

#[test]
fn load_config_invalid_public_repositories() {
    let config = Config::load_from_yaml(document(
        "
package_types:
  app:
    dir_prefix: app
public_repositories:
- '**'
    ",
    ));

    assert_eq!(config.is_err(), true)
}

#[test]
fn load_config_multiple_prefixes() {
    let config = Config::load_from_yaml(document(
        "
package_types:
  app:
    dir_prefix:
    - 'app-'
    - 'app_'
    ",
    ))
    .unwrap();

    assert_eq!(
        config,
        Config {
            package_types: vec![PackageType {
                name: "app".to_owned(),
                prefixes: vec!["app-".to_owned(), "app_".to_owned()],
                includes: Vec::new()
            }],
            blacklist: Vec::new(),
            validations: Vec::new(),
            public_repositories: Vec::new(),
        }
    )
}

#[test]
fn load_config_includes() {
    let config = Config::load_from_yaml(document(
        "
package_types:
  app:
    dir_prefix: app
  pkg:
    dir_prefix: pkg
    includes:
    - app
    ",
    ))
    .unwrap();

    assert_eq!(
        config,
        Config {
            package_types: vec![
                app_type(),
                PackageType {
                    name: "pkg".to_owned(),
                    prefixes: vec!["pkg".to_owned()],
                    includes: vec!["app".to_owned()]
                }
            ],
            blacklist: Vec::new(),
            validations: Vec::new(),
            public_repositories: Vec::new(),
        }
    )
}

fn message(result: Result<Config, FlError>) -> String {
    match result {
        Err(FlError::ConfigValidation(text)) => text,
        other => panic!("expected a refused configuration, got {:?}", other),
    }
}

#[test]
fn refused_policies_say_why() {
    assert_eq!(
        message(Config::load_from_yaml(document("package_types:"))),
        "no package types configured"
    );
    assert_eq!(
        message(Config::load_from_yaml(document(
            "
package_types:
  app:
    dir_prefix: app_
    includes:
    - shared
    - other
"
        ))),
        "package 'app': unknown include 'shared'"
    );
    assert_eq!(
        message(Config::load_from_yaml(document(
            "
package_types:
  app:
    includes:
    - app
"
        ))),
        "package 'app': empty dir_prefix"
    );
    assert_eq!(
        message(Config::load_from_yaml(document(
            "
package_types:
  app:
    dir_prefix: app_
blacklist:
- 'fine'
- '('
"
        ))),
        "invalid regex in blacklist entry: '('"
    );
    assert_eq!(
        message(Config::load_from_yaml(document(
            "
package_types:
  app:
    dir_prefix: app_
public_repositories:
- '['
blacklist:
- '('
"
        ))),
        "invalid regex in public repository entry: '['"
    );
}

#[test]
fn first_refused_pattern_decides() {
    assert_eq!(
        message(Config::load_from_yaml(document(
            "
package_types:
  app:
    dir_prefix: app_
blacklist:
- 'fine'
- '(first'
- 'also fine'
- '[second'
"
        ))),
        "invalid regex in blacklist entry: '(first'"
    );
    assert_eq!(
        message(Config::load_from_yaml(document(
            "
blacklist:
- '('
"
        ))),
        "invalid regex in blacklist entry: '('"
    );
    let loaded = Config::load_from_yaml(document(
        "
package_types:
  app:
    dir_prefix: app_
blacklist:
- '^/gen/'
- ''
- 7
public_repositories:
- 'github\\.com'
",
    ))
    .unwrap();
    assert_eq!(loaded.blacklist.len(), 1);
    assert_eq!(loaded.blacklist[0].as_str(), "^/gen/");
    assert_eq!(loaded.public_repositories[0].as_str(), "github\\.com");
    assert!(loaded.is_public_repo("https://github.com/a"));
}

#[test]
fn validations_are_read_and_checked() {
    let config = Config::load_from_yaml(document(
        "
package_types:
  app:
    dir_prefix: app_
validations:
  'validation:dependency:cyclic': warn
  'validation:dependency:unknown': none
  'validation:dependency:cyclic': error
",
    ))
    .unwrap();
    assert_eq!(config.validation_level(&ValidationType::UnknownDependency), ValidationLevel::Suppressed);
    assert_eq!(config.validation_level(&ValidationType::DependencyNotAllowed), ValidationLevel::Error);
    assert_eq!(config.validation_level(&ValidationType::CyclicDependency), ValidationLevel::Error);

    let wrong_kind = Config::load_from_yaml(document(
        "
validations:
  'validation:nothing': warn
",
    ));
    assert!(matches!(wrong_kind, Err(FlError::InvalidValidationType(kind)) if kind == "validation:nothing"));

    let wrong_level = Config::load_from_yaml(document(
        "
validations:
  'validation:dependency:cyclic': loud
",
    ));
    assert!(matches!(
        wrong_level,
        Err(FlError::InvalidValidationLevel(level, kind))
            if level == "loud" && kind == "validation:dependency:cyclic"
    ));
}

#[test]
fn first_level_of_a_kind_decides() {
    let mut config = Config::from_packages(vec![app_type()]);
    config.validations = vec![
        (ValidationType::CyclicDependency, ValidationLevel::Warning),
        (ValidationType::CyclicDependency, ValidationLevel::Suppressed),
    ];
    assert_eq!(config.validation_level(&ValidationType::CyclicDependency), ValidationLevel::Warning);
    assert_eq!(config.validation_level(&ValidationType::GitDevDependency), ValidationLevel::Error);
}

#[test]
fn load_reads_the_first_document() {
    let config = Config::load("flcheck.yaml", "package_types:\n  app:\n    dir_prefix: app_\n---\nother: 1\n").unwrap();
    assert_eq!(config.package_types.len(), 1);
    assert!(config.is_valid());

    assert!(matches!(Config::load("empty.yaml", ""), Err(FlError::EmptyFile(file)) if file == "empty.yaml"));
    assert!(matches!(Config::load("bad.yaml", "a: [1"), Err(FlError::YamlReadError(_))));
}

#[test]
fn patterns_match_paths_and_repositories() {
    let mut config = Config::from_packages(vec![app_type()]);
    config.blacklist = vec![Regex::new("/example").unwrap(), Regex::new("^/gen/").unwrap()];
    config.public_repositories = vec![Regex::new("^https://github\\.com/").unwrap()];

    assert!(config.is_blacklisted("/repo/pkg_a/example/pubspec.yaml"));
    assert!(config.is_blacklisted("/gen/x/pubspec.yaml"));
    assert!(!config.is_blacklisted("/repo/pkg_a/pubspec.yaml"));
    assert!(config.is_public_repo("https://github.com/a/b"));
    assert!(!config.is_public_repo("git://internal/a"));
}

#[test]
fn configurations_compare_by_their_contents() {
    let mut left = Config::from_packages(vec![app_type()]);
    let mut right = Config::from_packages(vec![app_type()]);
    assert!(left == right);

    left.blacklist = vec![Regex::new("one").unwrap()];
    assert!(left != right);
    right.blacklist = vec![Regex::new("one").unwrap()];
    assert!(left == right);

    right.validations = vec![(ValidationType::CyclicDependency, ValidationLevel::Warning)];
    assert!(left != right);
    left.validations = vec![(ValidationType::CyclicDependency, ValidationLevel::Warning)];
    assert!(left == right);

    right.package_types[0].includes.push("app".to_owned());
    assert!(left != right);
}

#[test]
fn package_types_match_by_prefix() {
    let package_type = PackageType {
        name: "app".to_owned(),
        prefixes: vec!["app-".to_owned(), "app_".to_owned()],
        includes: Vec::new(),
    };
    assert!(package_type.matches_prefix("app_foo"));
    assert!(package_type.matches_prefix("app-foo"));
    assert!(package_type.matches_prefix("app_"));
    assert!(!package_type.matches_prefix("app"));
    assert!(!package_type.matches_prefix("my_app_foo"));
}
