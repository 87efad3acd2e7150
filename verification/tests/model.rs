use flcheck::cli::get_opts;
use flcheck::cli::parse_format;
use flcheck::cli::OptCommand;
use flcheck::cli::OutputFormat;
use flcheck::config::Config;
use flcheck::config::PackageType;
use flcheck::dependency::Dependency;
use flcheck::error::FlError;
use flcheck::error::ValidationLevel;
use flcheck::error::ValidationType;
use flcheck::policy::valid_include_prefixes;
use flcheck::pubspec::extract_dependency;
use flcheck::pubspec::file_name;
use flcheck::pubspec::is_hidden;
use flcheck::pubspec::is_pubspec_file;
use flcheck::pubspec::pubspec_dir;
use flcheck::pubspec::Pubspec;
use flcheck::text::has_prefix;
use flcheck::text::join_texts;
use flcheck::text::precedes;
use flcheck::text::quote;
use flcheck::text::same_text;
use flcheck::text::sorted_unique;
use flcheck::util::load_yaml;
use flcheck::util::normalize_path;
use flcheck::util::normalize_path_str;
use flcheck::util::yaml_str_list;
use flcheck::yaml::YamlNode;

fn text(value: &str) -> YamlNode {
    YamlNode::Text(value.to_owned())
}

fn package_type(name: &str, prefixes: Vec<&str>, includes: Vec<&str>) -> PackageType {
    PackageType {
        name: name.to_owned(),
        prefixes: prefixes.into_iter().map(|p| p.to_owned()).collect(),
        includes: includes.into_iter().map(|p| p.to_owned()).collect(),
    }
}

fn closure_of(config: &Config, name: &str) -> Vec<String> {
    let package_type = config.package_types.iter().find(|t| t.name == name).unwrap();
    let mut prefixes = valid_include_prefixes(package_type, config);
    let count = prefixes.len();
    prefixes.sort();
    prefixes.dedup();
    assert_eq!(prefixes.len(), count);
    prefixes
}

#[test]
fn closure_follows_includes_through_other_types() {
    let config = Config::from_packages(vec![
        package_type("main", vec!["main"], vec!["app"]),
        package_type("app", vec!["app_"], vec!["shared"]),
        package_type("shared", vec!["shared_"], vec!["shared", "package"]),
        package_type("package", vec!["pkg_", "lib_"], vec!["package"]),
        package_type("alone", vec!["alone_"], vec![]),
    ]);

    assert_eq!(closure_of(&config, "main"), vec!["app_", "lib_", "pkg_", "shared_"]);
    assert_eq!(closure_of(&config, "app"), vec!["lib_", "pkg_", "shared_"]);
    assert_eq!(closure_of(&config, "shared"), vec!["lib_", "pkg_", "shared_"]);
    assert_eq!(closure_of(&config, "package"), vec!["lib_", "pkg_"]);
    assert_eq!(closure_of(&config, "alone"), Vec::<String>::new());
}

#[test]
fn closure_lists_prefixes_in_the_order_of_the_policy() {
    let config = Config::from_packages(vec![
        package_type("main", vec!["main"], vec!["package", "app"]),
        package_type("app", vec!["app_", "lib_"], vec!["shared"]),
        package_type("shared", vec!["shared_"], vec!["shared", "package"]),
        package_type("package", vec!["pkg_", "lib_", "pkg_"], vec!["package"]),
    ]);

    assert_eq!(
        valid_include_prefixes(&config.package_types[0], &config),
        vec!["app_", "lib_", "shared_", "pkg_"]
    );
    assert_eq!(
        valid_include_prefixes(&config.package_types[3], &config),
        vec!["pkg_", "lib_"]
    );
}

#[test]
fn closure_ends_on_a_cycle_of_includes() {
    let config = Config::from_packages(vec![
        package_type("a", vec!["a_"], vec!["b"]),
        package_type("b", vec!["b_"], vec!["c"]),
        package_type("c", vec!["c_"], vec!["a"]),
    ]);

    assert_eq!(closure_of(&config, "a"), vec!["a_", "b_", "c_"]);
    assert_eq!(closure_of(&config, "b"), vec!["a_", "b_", "c_"]);

    let pair = Config::from_packages(vec![
        package_type("a", vec!["a_"], vec!["b"]),
        package_type("b", vec!["b_"], vec!["a"]),
    ]);
    assert_eq!(closure_of(&pair, "a"), vec!["a_", "b_"]);
}

#[test]
fn closure_reaches_types_behind_a_shared_prefix() {
    let config = Config::from_packages(vec![
        package_type("top", vec!["top_"], vec!["left", "right"]),
        package_type("left", vec!["x_"], vec![]),
        package_type("right", vec!["x_"], vec!["deep"]),
        package_type("deep", vec!["deep_"], vec![]),
    ]);

    assert_eq!(closure_of(&config, "top"), vec!["deep_", "x_"]);
}

#[test]
fn closure_of_a_type_outside_the_policy_starts_at_its_includes() {
    let config = Config::from_packages(vec![
        package_type("app", vec!["app_"], vec!["package"]),
        package_type("package", vec!["pkg_"], vec![]),
    ]);
    let visitor = package_type("visitor", vec!["v_"], vec!["app", "missing"]);

    let mut prefixes = valid_include_prefixes(&visitor, &config);
    prefixes.sort();
    assert_eq!(prefixes, vec!["app_", "pkg_"]);
}

#[test]
fn paths_are_normalized_on_the_text() {
    assert_eq!(normalize_path("/tmp/app_foo/../app_bar"), "/tmp/app_bar");
    assert_eq!(normalize_path("/tmp/./a//b/"), "/tmp/a/b");
    assert_eq!(normalize_path("a/b/../../c"), "c");
    assert_eq!(normalize_path("../a"), "a");
    assert_eq!(normalize_path("/../.."), "/");
    assert_eq!(normalize_path("/"), "/");
    assert_eq!(normalize_path(""), "");
    assert_eq!(normalize_path("."), "");
    assert_eq!(normalize_path("a/..b/...//c."), "a/..b/.../c.");
    assert_eq!(normalize_path_str("/tmp/pkg/lib/../../other".to_owned()), "/tmp/other");
}

#[test]
fn file_names_and_manifest_directories() {
    assert_eq!(file_name("/tmp/app_foo"), Some("app_foo".to_owned()));
    assert_eq!(file_name("/tmp/app_foo/"), Some("app_foo".to_owned()));
    assert_eq!(file_name("/tmp/app_foo/."), Some("app_foo".to_owned()));
    assert_eq!(file_name("app_foo"), Some("app_foo".to_owned()));
    assert_eq!(file_name("/tmp/.."), None);
    assert_eq!(file_name("/"), None);
    assert_eq!(file_name(""), None);
    assert_eq!(file_name("."), None);

    assert_eq!(
        pubspec_dir("/tmp/app_foo/pubspec.yaml"),
        Some(("app_foo".to_owned(), "/tmp/app_foo".to_owned()))
    );
    assert_eq!(
        pubspec_dir("./apps//app_foo/./pubspec.yaml"),
        Some(("app_foo".to_owned(), "./apps//app_foo".to_owned()))
    );
    assert_eq!(pubspec_dir("a/pubspec.yaml"), Some(("a".to_owned(), "a".to_owned())));
    assert_eq!(pubspec_dir("pubspec.yaml"), None);
    assert_eq!(pubspec_dir("/pubspec.yaml"), None);
    assert_eq!(pubspec_dir("./pubspec.yaml"), None);
    assert_eq!(pubspec_dir("../pubspec.yaml"), None);
    assert_eq!(pubspec_dir(""), None);
}

#[test]
fn manifest_file_names() {
    assert!(is_pubspec_file("pubspec.yaml"));
    assert!(is_pubspec_file("PubSpec.YML"));
    assert!(!is_pubspec_file("pubspec.yaml.bak"));
    assert!(!is_pubspec_file("pubspec"));
    assert!(is_hidden(".git"));
    assert!(is_hidden("."));
    assert!(!is_hidden("git."));
    assert!(!is_hidden(""));
}

#[test]
fn normal_form_is_its_own_normal_form() {
    for path in ["/tmp/a/../b/./c//", "a/../../b", "/..", "./x", "", "/", "a/b/"] {
        let once = normalize_path(path);
        assert_eq!(normalize_path(&once), once);
        assert!(once.split('/').all(|part| part != "." && part != ".."));
    }
}

#[test]
fn texts_are_compared_by_their_characters() {
    assert!(same_text("", ""));
    assert!(same_text("app_é", "app_é"));
    assert!(!same_text("app_", "app"));
    assert!(!same_text("app_", "apq_"));
    assert!(has_prefix("app_foo", "app_"));
    assert!(has_prefix("app_", "app_"));
    assert!(has_prefix("app_", ""));
    assert!(!has_prefix("app", "app_"));
    assert!(!has_prefix("xapp_", "app_"));
    for (a, b) in [("", "a"), ("a", "ab"), ("ab", "b"), ("B", "a"), ("a ", "a'"), ("z", "é"), ("é", "\u{10000}")] {
        assert!(precedes(a, b));
        assert!(!precedes(b, a));
        assert_eq!(a < b, true);
    }
    assert!(!precedes("a", "a"));
    assert!(!precedes("", ""));
}

#[test]
fn texts_are_quoted_joined_and_sorted() {
    assert_eq!(quote("a"), "'a'");
    assert_eq!(quote(""), "''");
    let parts = vec!["b".to_owned(), "a".to_owned(), "".to_owned()];
    assert_eq!(join_texts(&parts, ", "), "b, a, ");
    assert_eq!(join_texts(&Vec::new(), ", "), "");
    assert_eq!(join_texts(&vec!["only".to_owned()], " -> "), "only");

    let items = vec![
        "'b'".to_owned(),
        "'a'".to_owned(),
        "'a '".to_owned(),
        "'b'".to_owned(),
        "'é'".to_owned(),
        "'B'".to_owned(),
        "'a'".to_owned(),
    ];
    assert_eq!(sorted_unique(&items), vec!["'B'", "'a '", "'a'", "'b'", "'é'"]);
    assert_eq!(sorted_unique(&Vec::new()), Vec::<String>::new());
}

#[test]
fn yaml_documents_become_nodes() {
    let doc = load_yaml(
        "pubspec.yaml",
        "name: demo\nversion: 1.5\ncount: 3\nlist:\n- a\n- ''\n- 2\n- b\nflag: true\nnothing: ~\n",
    )
    .unwrap();

    assert_eq!(doc.get("name"), &text("demo"));
    assert_eq!(doc.get("version"), &YamlNode::Real("1.5".to_owned()));
    assert_eq!(doc.get("count"), &YamlNode::Integer(3));
    assert_eq!(doc.get("flag").as_bool(), Some(true));
    assert_eq!(doc.get("nothing"), &YamlNode::Null);
    assert_eq!(doc.get("missing"), &YamlNode::BadValue);
    assert_eq!(doc.get("name").get("deeper"), &YamlNode::BadValue);
    assert_eq!(doc.get("name").text_or_empty(), "demo");
    assert_eq!(doc.get("count").text_or_empty(), "");
    assert_eq!(yaml_str_list(doc.get("list")), vec!["a", "b"]);
    assert_eq!(yaml_str_list(doc.get("name")), Vec::<String>::new());

    let keys: Vec<&str> = doc.as_hash().unwrap().iter().map(|entry| entry.0.text_or_empty()).collect();
    assert_eq!(keys, vec!["name", "version", "count", "list", "flag", "nothing"]);

    assert!(matches!(load_yaml("none.yaml", "# nothing\n"), Err(FlError::EmptyFile(file)) if file == "none.yaml"));
}

#[test]
fn first_entry_of_a_key_is_found() {
    let node = YamlNode::Hash(vec![
        (YamlNode::Integer(1), text("number")),
        (text("a"), text("first")),
        (text("a"), text("second")),
    ]);
    assert_eq!(node.get("a"), &text("first"));
    assert_eq!(node.get("1"), &YamlNode::BadValue);
    assert_eq!(YamlNode::Array(vec![text("a")]).get("a"), &YamlNode::BadValue);
}

fn entry(body: &str) -> YamlNode {
    load_yaml("pubspec.yaml", body).unwrap()
}

#[test]
fn dependencies_are_told_apart() {
    let local = extract_dependency("a", &entry("path: ../a\ngit:\n  url: u\n  path: p\n")).unwrap();
    assert!(local.is_local() && !local.is_git() && !local.is_pubdev());
    assert_eq!(local.name(), "a");
    assert_eq!(local.details(), "[local, ../a]");

    let git = extract_dependency("b", &entry("git:\n  url: git://repo\n  path: lib\n")).unwrap();
    assert!(git.is_git() && !git.is_local());
    assert_eq!(git.details(), "[git, git://repo]");

    assert!(extract_dependency("c", &entry("git:\n  url: git://repo\n")).is_none());
    assert!(extract_dependency("c", &entry("git: git://repo\n")).is_none());
    assert!(extract_dependency("c", &entry("path: ''\n")).is_none());

    let version = extract_dependency("d", &text("^1.2.3")).unwrap();
    assert!(version.is_pubdev());
    assert_eq!(version.details(), "[public, ^1.2.3]");

    let number = extract_dependency("e", &YamlNode::Real("1.50".to_owned())).unwrap();
    assert_eq!(number.details(), "[public, 1.5]");
    let whole = extract_dependency("e", &YamlNode::Real("2.0".to_owned())).unwrap();
    assert_eq!(whole.details(), "[public, 2]");
    assert!(extract_dependency("e", &YamlNode::Real("one".to_owned())).is_none());
    let integer = extract_dependency("f", &YamlNode::Integer(2)).unwrap();
    assert!(integer.is_pubdev());
    assert_eq!(integer.name(), "f");
    assert_eq!(integer.details(), "[public, 2]");
    assert!(integer.overridden().is_none());
    let details = |number: i64| extract_dependency("f", &YamlNode::Integer(number)).unwrap().details();
    assert_eq!(details(0), "[public, 0]");
    assert_eq!(details(10), "[public, 10]");
    assert_eq!(details(1907), "[public, 1907]");
    assert_eq!(details(-45), "[public, -45]");
    assert_eq!(details(i64::MAX), "[public, 9223372036854775807]");
    assert_eq!(details(i64::MIN), "[public, -9223372036854775808]");
    assert!(extract_dependency("g", &YamlNode::Null).is_none());
}

#[test]
fn override_replaces_the_dependency_in_use() {
    let plain = Dependency::PubDev {
        name: "a".to_owned(),
        version: "1.0.0".to_owned(),
        overridden: Box::new(None),
    };
    assert!(plain.overridden().is_none());
    assert_eq!(plain.effective().details(), "[public, 1.0.0]");

    let other = Dependency::Local {
        name: "a".to_owned(),
        path: "../a".to_owned(),
        overridden: Box::new(None),
    };
    let both = plain.with_override(other);
    assert!(both.is_pubdev());
    assert_eq!(both.name(), "a");
    assert_eq!(both.details(), "[public, 1.0.0]");
    assert_eq!(both.effective().details(), "[local, ../a]");
    assert!(both.effective().is_local());
    assert!(both.overridden().is_some());

    let again = both.with_override(Dependency::Git {
        name: "a".to_owned(),
        git: "git://repo".to_owned(),
        path: "a".to_owned(),
        overridden: Box::new(None),
    });
    assert_eq!(again.effective().details(), "[git, git://repo]");
}

#[test]
fn manifest_is_read_into_a_package() {
    let content = "
name: app_foo
flcheck:
  is_public: true
dependencies:
  http: ^1.0.0
  number: 1.0
  whole: 1
  pkg_a:
    path: ../pkg_a
  pkg_b:
    path: ../pkg_b
  flutter:
    sdk: flutter
  remote:
    git:
      url: git://repo/remote
      path: lib
dev_dependencies:
  pkg_b:
    path: ../pkg_b
  test: any
dependency_overrides:
  http:
    path: ../http
  pkg_b:
    git:
      url: git://repo/pkg_b
      path: b
  test:
    path: ../test
";
    let pubspec = Pubspec::load("/repo/apps/app_foo/pubspec.yaml", content).unwrap();

    assert_eq!(pubspec.name, "app_foo");
    assert_eq!(pubspec.path, "/repo/apps/app_foo/pubspec.yaml");
    assert_eq!(pubspec.dir_name, "app_foo");
    assert_eq!(pubspec.dir_path, "/repo/apps/app_foo");
    assert!(pubspec.is_public);

    let names: Vec<&str> = pubspec.dependencies.iter().map(|d| d.name().as_str()).collect();
    assert_eq!(names, vec!["http", "number", "whole", "pkg_a", "pkg_b", "remote"]);
    let details: Vec<String> = pubspec.dependencies.iter().map(|d| d.details()).collect();
    assert_eq!(
        details,
        vec![
            "[public, ^1.0.0]",
            "[public, 1]",
            "[public, 1]",
            "[local, ../pkg_a]",
            "[local, ../pkg_b]",
            "[git, git://repo/remote]"
        ]
    );
    let used: Vec<String> = pubspec.dependencies.iter().map(|d| d.effective().details()).collect();
    assert_eq!(
        used,
        vec![
            "[local, ../http]",
            "[public, 1]",
            "[public, 1]",
            "[local, ../pkg_a]",
            "[git, git://repo/pkg_b]",
            "[git, git://repo/remote]"
        ]
    );

    let dev: Vec<String> = pubspec.dev_dependencies.iter().map(|d| d.effective().details()).collect();
    assert_eq!(dev, vec!["[local, ../pkg_b]", "[public, any]"]);
}

#[test]
fn malformed_manifest_degrades_to_defaults() {
    let pubspec = Pubspec::load("/repo/pkg/pubspec.yaml", "- just\n- a list\n").unwrap();
    assert_eq!(pubspec.name, "");
    assert_eq!(pubspec.dependencies.len(), 0);
    assert_eq!(pubspec.dev_dependencies.len(), 0);
    assert!(!pubspec.is_public);

    let odd = Pubspec::load("/repo/pkg/pubspec.yaml", "name: 12\ndependencies: none\nflcheck:\n  is_public: yes\n").unwrap();
    assert_eq!(odd.name, "");
    assert_eq!(odd.dependencies.len(), 0);
    assert!(!odd.is_public);
}

#[test]
fn manifest_without_a_directory_is_an_error() {
    let missing = Pubspec::load("pubspec.yaml", "name: a\n");
    assert!(matches!(
        missing,
        Err(FlError::ConfigValidation(message))
            if message == "cannot determine parent directory for pubspec.yaml"
    ));
    assert!(matches!(Pubspec::load("/a/pubspec.yaml", "a: [1"), Err(FlError::YamlReadError(_))));
    assert!(matches!(Pubspec::load("/a/pubspec.yaml", ""), Err(FlError::EmptyFile(_))));
}

#[test]
fn levels_and_kinds_have_words() {
    assert_eq!(ValidationLevel::values(), vec![ValidationLevel::Error, ValidationLevel::Warning, ValidationLevel::Suppressed]);
    assert_eq!(ValidationLevel::Error.as_str(), "error");
    assert_eq!(ValidationLevel::Warning.as_str(), "warn");
    assert_eq!(ValidationLevel::Suppressed.as_str(), "none");
    for level in ValidationLevel::values() {
        assert_eq!(ValidationLevel::from_str(level.as_str()), Some(level));
    }
    assert_eq!(ValidationLevel::from_str("warning"), None);
    assert_eq!(ValidationLevel::from_str(""), None);

    assert_eq!(ValidationType::values().len(), 5);
    assert_eq!(ValidationType::GitDevDependency.as_str(), "validation:dev-dependency:git");
    assert_eq!(ValidationType::UnknownDependency.as_str(), "validation:dependency:unknown");
    assert_eq!(ValidationType::DependencyNotAllowed.as_str(), "validation:dependency:unallowed");
    assert_eq!(ValidationType::CyclicDependency.as_str(), "validation:dependency:cyclic");
    assert_eq!(
        ValidationType::NonGitDependencyInPublicPackage.as_str(),
        "validation:public:dependency:non-git"
    );
    for kind in ValidationType::values() {
        assert_eq!(ValidationType::from_str(kind.as_str()), Some(kind));
    }
    assert_eq!(ValidationType::from_str("validation:dependency"), None);
}

#[test]
fn command_line_is_read() {
    assert_eq!(OptCommand::from("validate"), Some(OptCommand::Validate));
    assert_eq!(OptCommand::from("dump"), Some(OptCommand::Dump));
    assert_eq!(OptCommand::from("check"), Some(OptCommand::Check));
    assert_eq!(OptCommand::from("graph"), Some(OptCommand::Graph));
    assert_eq!(OptCommand::from("example"), Some(OptCommand::ExampleConfig));
    assert_eq!(OptCommand::from("Validate"), None);
    assert_eq!(parse_format("plain"), Ok(OutputFormat::Plain));
    assert_eq!(parse_format("json"), Ok(OutputFormat::Json));
    assert_eq!(parse_format("xml"), Err("invalid output format (valid: json, plain)"));

    let opts = get_opts(&vec!["graph".to_owned()], None, None, None).unwrap();
    assert_eq!(opts.command, OptCommand::Graph);
    assert_eq!(opts.config_file, "flcheck.yaml");
    assert_eq!(opts.root_dir, ".");
    assert_eq!(opts.output, OutputFormat::Plain);

    let opts = get_opts(
        &vec!["validate".to_owned()],
        Some("other.yaml".to_owned()),
        Some("/repo".to_owned()),
        Some("json".to_owned()),
    )
    .unwrap();
    assert_eq!(opts.command, OptCommand::Validate);
    assert_eq!(opts.config_file, "other.yaml");
    assert_eq!(opts.root_dir, "/repo");
    assert_eq!(opts.output, OutputFormat::Json);

    assert_eq!(get_opts(&Vec::new(), None, None, Some("xml".to_owned())).err(), Some("missing command"));
    assert_eq!(
        get_opts(&vec!["a".to_owned(), "b".to_owned()], None, None, None).err(),
        Some("multiple commands are not supported")
    );
    assert_eq!(
        get_opts(&vec!["nothing".to_owned()], None, None, Some("xml".to_owned())).err(),
        Some("invalid output format (valid: json, plain)")
    );
    assert_eq!(get_opts(&vec!["nothing".to_owned()], None, None, None).err(), Some("unknown command"));
}
