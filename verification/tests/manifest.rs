use pax::input_options::PackageManager;
use pax::manifest::{
    BrowserField, BrowserSubstitution, BrowserSubstitutionMap, PackageCache, PackageInfo, Query,
    Step, Subst,
};

fn parse_subst(text: &str) -> Option<BrowserSubstitution> {
    BrowserSubstitution::from_json(text)
}

fn parse_map(text: &str) -> Option<BrowserSubstitutionMap> {
    BrowserSubstitutionMap::from_json(text)
}

// A substitution table in the order of its keys.
fn sorted(mut map: BrowserSubstitutionMap) -> BrowserSubstitutionMap {
    map.0.sort_by(|a, b| a.from.cmp(&b.from));
    map
}

fn map_of(entries: Vec<(&str, BrowserSubstitution)>) -> BrowserSubstitutionMap {
    sorted(BrowserSubstitutionMap(
        entries
            .into_iter()
            .map(|(from, to)| Subst { from: from.to_owned(), to })
            .collect(),
    ))
}

fn replace(to: &str) -> BrowserSubstitution {
    BrowserSubstitution::Replace(to.to_owned())
}

fn info_of(main: &str, entries: Vec<(&str, BrowserSubstitution)>) -> PackageInfo {
    PackageInfo { main: main.to_owned(), browser_substitutions: map_of(entries) }
}

fn parse_info(text: &str, pm: PackageManager) -> Option<PackageInfo> {
    PackageInfo::from_json(text, pm).map(|info| PackageInfo {
        main: info.main,
        browser_substitutions: sorted(info.browser_substitutions),
    })
}

fn deserialize_browser_subst() {
    let parse = parse_subst;
    assert!(matches!(parse("null"), None));
    assert!(matches!(parse("100"), None));
    assert!(matches!(parse("[1, 2, 3]"), None));
    assert!(matches!(parse("false"), Some(BrowserSubstitution::Ignore)));
    assert!(matches!(parse("true"), None));
    assert_eq!(
        parse(r#""asdf""#).unwrap(),
        BrowserSubstitution::Replace("asdf".to_owned())
    );
    assert_eq!(
        parse(r#""""#).unwrap(),
        BrowserSubstitution::Replace("".to_owned())
    );
}

#[test]
fn mod_test_deserialize_browser_subst() {
    deserialize_browser_subst();
}

#[test]
fn manifest_test_deserialize_browser_subst() {
    deserialize_browser_subst();
}

fn deserialize_browser() {
    let parse = |text: &str| parse_map(text).map(sorted);
    assert!(matches!(parse(r#"null"#), None));
    assert!(matches!(parse(r#""simple.browser.js""#), None));
    assert_eq!(parse(r#"{}"#).unwrap(), map_of(vec![]));
    assert_eq!(
        parse(r#"{"mod": "dom"}"#).unwrap(),
        map_of(vec![("mod", replace("dom"))])
    );
    assert_eq!(
        parse(r#"{"./file.js": "./file.browser.js"}"#).unwrap(),
        map_of(vec![("./file.js", replace("./file.browser.js"))])
    );
    assert_eq!(
        parse(r#"{"ignore": false}"#).unwrap(),
        map_of(vec![("ignore", BrowserSubstitution::Ignore)])
    );
    assert_eq!(
        parse(
            r#"{
        "ignore": false,
        "mod": "dom",
        "mod2file": "./modfile.js",
        "mod2up": "../up.js",
        "mod2dir": "./moddir",
        "mod2abs": "/z/y/x",
        "./fileignore.js": false,
        "./file2mod.js": "mod",
        "./file2file.js": "./file.js",
        "./file2dir.js": "./dir",
        "./file2up.js": "../up.js",
        "./file2abs.js": "/x/y/z"
    }"#
        )
        .unwrap(),
        map_of(vec![
            ("ignore", BrowserSubstitution::Ignore),
            ("mod", replace("dom")),
            ("mod2file", replace("./modfile.js")),
            ("mod2up", replace("../up.js")),
            ("mod2dir", replace("./moddir")),
            ("mod2abs", replace("/z/y/x")),
            ("./fileignore.js", BrowserSubstitution::Ignore),
            ("./file2mod.js", replace("mod")),
            ("./file2file.js", replace("./file.js")),
            ("./file2dir.js", replace("./dir")),
            ("./file2up.js", replace("../up.js")),
            ("./file2abs.js", replace("/x/y/z")),
        ])
    );
}

#[test]
fn mod_test_deserialize_browser() {
    deserialize_browser();
}

#[test]
fn manifest_test_deserialize_browser() {
    deserialize_browser();
}

#[test]
fn mod_test_deserialize_package_info() {
    let parse = |text: &str| parse_info(text, PackageManager::Npm);
    assert!(matches!(parse("null"), None));
    assert!(matches!(parse("100"), None));
    assert!(matches!(parse("[1, 2, 3]"), None));
    assert_eq!(parse(r#"{}"#).unwrap(), info_of("./index", vec![]));
    assert_eq!(parse(r#"{"browser": null}"#).unwrap(), info_of("./index", vec![]));
    assert_eq!(
        parse(r#"{"browser": "simple"}"#).unwrap(),
        info_of("./index", vec![("./index", replace("./simple"))])
    );
    assert_eq!(parse(r#"{"browser": {}}"#).unwrap(), info_of("./index", vec![]));
    assert_eq!(
        parse(r#"{"browser": {"mod": false}}"#).unwrap(),
        info_of("./index", vec![("mod", BrowserSubstitution::Ignore)])
    );
}

#[test]
fn manifest_test_deserialize_package_info() {
    let parse = |text: &str| parse_info(text, PackageManager::Bower);
    assert!(matches!(parse("null"), None));
    assert!(matches!(parse("100"), None));
    assert!(matches!(parse("[1, 2, 3]"), None));
    assert_eq!(parse(r#"{}"#).unwrap(), info_of("./index", vec![]));
    assert_eq!(parse(r#"{"browser": null}"#).unwrap(), info_of("./index", vec![]));
    assert_eq!(
        parse(r#"{"browser": "simple"}"#).unwrap(),
        info_of(
            "./index",
            vec![(".", replace("./simple")), ("./index", replace("./simple"))]
        )
    );
    assert_eq!(parse(r#"{"browser": {}}"#).unwrap(), info_of("./index", vec![]));
    assert_eq!(
        parse(r#"{"browser": {"mod": false}}"#).unwrap(),
        info_of("./index", vec![("mod", BrowserSubstitution::Ignore)])
    );
}

#[test]
fn main_is_the_first_script_of_a_list() {
    let parse = |text: &str| parse_info(text, PackageManager::Bower).map(|info| info.main);
    assert_eq!(parse(r#"{"main": "lib/start"}"#).unwrap(), "./lib/start");
    assert_eq!(parse(r#"{"main": "./lib/start"}"#).unwrap(), "./lib/start");
    assert_eq!(parse(r#"{"main": "../start"}"#).unwrap(), "../start");
    assert_eq!(parse(r#"{"main": ["a.css", "b.js", "c.js"]}"#).unwrap(), "./b.js");
    assert_eq!(parse(r#"{"main": ["a.css"]}"#).unwrap(), "./index");
    assert_eq!(parse(r#"{"main": []}"#).unwrap(), "./index");
    assert_eq!(parse(r#"{"main": 7}"#).unwrap(), "./index");
    assert_eq!(parse(r#"{"main": {"a": 1}}"#).unwrap(), "./index");
    assert!(parse(r#"{"main": ["a.js", 1]}"#).is_none());
    assert!(parse(r#"{"main": "#).is_none());
}

#[test]
fn browser_field_of_other_shapes_means_nothing() {
    let parse = |text: &str| parse_info(text, PackageManager::Npm);
    assert_eq!(parse(r#"{"browser": 1}"#).unwrap(), info_of("./index", vec![]));
    assert_eq!(parse(r#"{"browser": [1]}"#).unwrap(), info_of("./index", vec![]));
    assert_eq!(parse(r#"{"browser": true}"#).unwrap(), info_of("./index", vec![]));
    assert!(parse(r#"{"browser": {"mod": true}}"#).is_none());
    assert!(parse(r#"{"browser": {"mod": 1}}"#).is_none());
    assert_eq!(
        parse(r#"{"main": "m.js", "browser": "./b.js"}"#).unwrap(),
        info_of("./m.js", vec![("./m.js", replace("./b.js"))])
    );
}

#[test]
fn keys_with_slashes_and_tildes_are_found() {
    let parse = |text: &str| parse_map(text).map(sorted);
    assert_eq!(
        parse(r#"{"a/b": "c", "~d": false, "e~1": "f/g"}"#).unwrap(),
        map_of(vec![
            ("a/b", replace("c")),
            ("~d", BrowserSubstitution::Ignore),
            ("e~1", replace("f/g")),
        ])
    );
}

#[test]
fn set_base_puts_relative_paths_into_the_package() {
    let mut info = PackageInfo::from_json(
        r#"{"main": "lib/main.js", "browser": {"./a.js": "./b.js", "mod": "./c.js", "./d.js": false, "x": "y"}}"#,
        PackageManager::Npm,
    )
    .unwrap();
    info.set_base("/pkg");
    assert_eq!(info.main, "/pkg/lib/main.js");
    let map = sorted(info.browser_substitutions);
    assert_eq!(
        map,
        map_of(vec![
            ("/pkg/a.js", replace("/pkg/b.js")),
            ("mod", replace("/pkg/c.js")),
            ("/pkg/d.js", BrowserSubstitution::Ignore),
            ("x", replace("y")),
        ])
    );
}

#[test]
fn later_substitution_counts() {
    let map = BrowserSubstitutionMap(vec![
        Subst { from: "a//b".to_owned(), to: replace("first") },
        Subst { from: "a/b/".to_owned(), to: replace("second") },
    ]);
    assert_eq!(map.get("a/b"), Some(&replace("second")));
    assert_eq!(map.get("a/c"), None);
}

#[test]
fn a_directory_is_looked_up_once() {
    let pm = PackageManager::Bower;
    let mut cache = PackageCache::default();
    assert!(matches!(cache.package_info("/a"), Step::Ask(Query::Manifest(d)) if d == "/a"));
    // the preferred file is broken, the next one counts
    cache.load("/a", &vec![Some("{".to_owned()), Some("{\"main\": \"m.js\"}".to_owned())], pm);
    cache.load("/b", &vec![None, None], pm);
    cache.load("/c/bower_components", &vec![None, Some("{}".to_owned())], pm);
    match cache.package_info("/a/") {
        Step::Done(Some(info)) => assert_eq!(info.main, "/a/m.js"),
        _ => panic!("no manifest"),
    }
    assert!(matches!(cache.package_info("/b"), Step::Done(None)));
    // what is known stays
    cache.load("/b", &vec![Some("{}".to_owned())], pm);
    cache.load("/a", &vec![None], pm);
    assert!(matches!(cache.package_info("/b"), Step::Done(None)));
    assert!(matches!(cache.package_info("/a"), Step::Done(Some(_))));
    assert_eq!(cache.pkgs.len(), 3);
    // the nearest manifest: that of the directory or of one above it
    match cache.nearest_package_info("/a", pm) {
        Step::Done(Some(info)) => assert_eq!(info.main, "/a/m.js"),
        _ => panic!("no manifest"),
    }
    assert!(matches!(
        cache.nearest_package_info("/b/x", pm),
        Step::Ask(Query::Manifest(d)) if d == "/b/x"
    ));
    cache.load("/b/x", &vec![], pm);
    assert!(matches!(
        cache.nearest_package_info("/b/x", pm),
        Step::Ask(Query::Manifest(d)) if d == "/"
    ));
    cache.load("/", &vec![None, None], pm);
    assert!(matches!(cache.nearest_package_info("/b/x", pm), Step::Done(None)));
    // a directory of installed packages is passed over
    cache.load("/c", &vec![None, None], pm);
    assert!(matches!(
        cache.nearest_package_info("/c/bower_components", pm),
        Step::Done(None)
    ));
    assert!(matches!(
        cache.nearest_package_info("/c/bower_components", PackageManager::Npm),
        Step::Done(Some(_))
    ));
}

#[test]
fn browser_field_has_three_forms() {
    assert_eq!(BrowserField::from_manifest("{}"), Some(BrowserField::Empty));
    assert_eq!(BrowserField::from_manifest("{\"browser\": null}"), Some(BrowserField::Empty));
    assert_eq!(BrowserField::from_manifest("{\"browser\": [\"a\"]}"), Some(BrowserField::Empty));
    assert_eq!(
        BrowserField::from_manifest("{\"browser\": \"b.js\"}"),
        Some(BrowserField::Main("b.js".to_owned()))
    );
    assert_eq!(
        BrowserField::from_manifest("{\"browser\": {\"a\": false}}"),
        Some(BrowserField::Complex(map_of(vec![("a", BrowserSubstitution::Ignore)])))
    );
    assert_eq!(BrowserField::from_manifest("{\"browser\": {\"a\": 1}}"), None);
    assert_eq!(BrowserField::Empty.to_map("./m", PackageManager::Npm), map_of(vec![]));
    assert_eq!(
        BrowserField::Main("../b".to_owned()).to_map("./m", PackageManager::Npm),
        map_of(vec![("./m", replace("../b"))])
    );
    assert_eq!(
        sorted(BrowserField::Main("b".to_owned()).to_map("./m", PackageManager::Bower)),
        map_of(vec![(".", replace("./b")), ("./m", replace("./b"))])
    );
}
