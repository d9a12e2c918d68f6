use rev_launcher::java_versions::{
    first_line, get_java_version, JavaOnPath, JavaProbe, JavaVersions,
};
use rev_launcher::json::Json;
use rev_launcher::setting_trait::{SettingError, SettingTrait};
use rev_launcher::version::Version;

const BANNER: &str = "openjdk version \"17.0.10\" 2024-01-16 LTS\nOpenJDK Runtime Environment\n";

fn json(text: &str) -> Json {
    Json::decode(text).unwrap()
}

fn on_path(path: &str, output: Option<&str>) -> JavaOnPath {
    JavaOnPath { path: path.to_string(), output: output.map(|s| s.as_bytes().to_vec()) }
}

fn one_java() -> JavaVersions {
    JavaVersions::load_path_versions(Some(&on_path("/usr/bin/java", Some(BANNER))))
}

#[test]
fn test_java_versions() {
    let java_versions = one_java();
    let shown = java_versions.send().unwrap();
    match shown.get("versions") {
        Some(Json::Array(versions)) => assert!(!versions.is_empty()),
        _ => panic!("no list of versions"),
    }
    println!("{:#?}", java_versions);
}

#[test]
fn de_test() {
    let version = Version {
        major: 17,
        minor: Some(0),
        patch: Some(10),
        pre_release: Some("2024-01-16 LTS".to_string()),
    };
    let json = version.serialize().encode().unwrap();
    let deserialized = Version::deserialize(&Json::decode(&json).unwrap()).unwrap();
    assert_eq!(deserialized, version);
    assert_eq!(deserialized.pre_release, version.pre_release);
}

#[test]
fn version_is_saved_as_its_text() {
    let version = Version { major: 1, minor: Some(8), patch: None, pre_release: None };
    assert_eq!(version.serialize(), json("{\"value\": \"1.8\"}"));
    assert_eq!(
        Version::deserialize(&json("{\"other\": 1, \"value\": \"21.0.3 LTS\"}"))
            .unwrap()
            .to_string(),
        "21.0.3 LTS"
    );
}

#[test]
fn version_with_a_malformed_saved_form_is_refused() {
    for text in ["{}", "[]", "\"1.2.3\"", "{\"value\": 3}", "{\"value\": \"none\"}", "null"] {
        assert_eq!(Version::deserialize(&json(text)).unwrap_err(), SettingError::Parse);
    }
}

#[test]
fn new_list_is_empty() {
    let list = JavaVersions::new();
    assert_eq!(list.write().unwrap(), json("{\"select\": 0, \"versions\": []}"));
}

#[test]
fn add_version_appends() {
    let mut list = JavaVersions::new();
    list.add_version(
        "/a/java".to_string(),
        Version { major: 8, minor: None, patch: None, pre_release: None },
    );
    list.add_version(
        "/b/java".to_string(),
        Version { major: 21, minor: Some(0), patch: Some(3), pre_release: Some("LTS".to_string()) },
    );
    assert_eq!(
        list.write().unwrap(),
        json(
            "{\"select\": 0, \"versions\": [
                {\"path\": \"/a/java\", \"version\": {\"value\": \"8\"}},
                {\"path\": \"/b/java\", \"version\": {\"value\": \"21.0.3 LTS\"}}]}"
        )
    );
}

#[test]
fn first_line_ends_at_the_line_feed() {
    assert_eq!(first_line(""), None);
    assert_eq!(first_line("\n"), Some("".to_string()));
    assert_eq!(first_line("one"), Some("one".to_string()));
    assert_eq!(first_line("one\ntwo\n"), Some("one".to_string()));
    assert_eq!(first_line("one\r\ntwo"), Some("one".to_string()));
    assert_eq!(first_line("one\r"), Some("one\r".to_string()));
    assert_eq!(first_line("\r\nrest"), Some("".to_string()));
    assert_eq!(first_line("a\rb\n"), Some("a\rb".to_string()));
}

#[test]
fn first_line_agrees_with_std() {
    for text in ["", "\n", "x", "x\ny", "x\r\ny", "x\r", "\r\n", "\r", "a\r\r\nb"] {
        assert_eq!(first_line(text), text.lines().next().map(|s| s.to_string()));
    }
}

#[test]
fn get_java_version_reads_bytes_leniently() {
    assert_eq!(
        get_java_version(BANNER.as_bytes()),
        Some("openjdk version \"17.0.10\" 2024-01-16 LTS".to_string())
    );
    assert_eq!(get_java_version(b""), None);
    assert_eq!(get_java_version(b"java \xff 9\nmore"), Some("java \u{fffd} 9".to_string()));
}

#[test]
fn load_path_versions_takes_the_java_that_was_found() {
    assert_eq!(
        one_java().write().unwrap(),
        json(
            "{\"select\": 0, \"versions\": [{\"path\": \"/usr/bin/java\",
                \"version\": {\"value\": \"17.0.10 2024-01-16 LTS\"}}]}"
        )
    );
}

#[test]
fn load_path_versions_without_a_version_is_empty() {
    let empty = json("{\"select\": 0, \"versions\": []}");
    assert_eq!(JavaVersions::load_path_versions(None).write().unwrap(), empty);
    for found in [
        on_path("/usr/bin/java", None),
        on_path("/usr/bin/java", Some("")),
        on_path("/usr/bin/java", Some("no version\n17.0.1\n")),
        on_path("/usr/bin/java", Some("java 99999999999\n")),
    ] {
        assert_eq!(JavaVersions::load_path_versions(Some(&found)).write().unwrap(), empty);
    }
}

#[test]
fn read_with_a_saved_form_passes_over_the_probe() {
    let saved = json(
        "{\"select\": 3, \"versions\": [{\"path\": \"p\", \"version\": {\"value\": \"1.2.3\"}}]}",
    );
    let probe = JavaProbe::Path(Some(on_path("/usr/bin/java", Some(BANNER))));
    let list = JavaVersions::read(Some(&saved), &probe).unwrap();
    assert_eq!(list.write().unwrap(), saved);
}

#[test]
fn read_without_a_saved_form_makes_a_first_run() {
    let probe = JavaProbe::Path(Some(on_path("/usr/bin/java", Some(BANNER))));
    let list = JavaVersions::read(None, &probe).unwrap();
    assert_eq!(list.write().unwrap(), one_java().write().unwrap());

    let kept = json("{\"select\": 1, \"versions\": []}");
    let probe = JavaProbe::Saved(json("{\"select\": 1, \"versions\": []}"));
    assert_eq!(JavaVersions::read(None, &probe).unwrap().write().unwrap(), kept);

    let probe = JavaProbe::Saved(json("{\"select\": 1}"));
    assert_eq!(JavaVersions::read(None, &probe).unwrap_err(), SettingError::Parse);

    let probe = JavaProbe::Path(None);
    assert_eq!(
        JavaVersions::first_run(&probe).unwrap().write().unwrap(),
        JavaVersions::new().write().unwrap()
    );
}

#[test]
fn read_modpack_without_a_saved_form_is_absent() {
    assert!(JavaVersions::read_modpack(None).unwrap().is_none());
    let saved = json("{\"select\": 0, \"versions\": []}");
    let list = JavaVersions::read_modpack(Some(&saved)).unwrap().unwrap();
    assert_eq!(list.write().unwrap(), saved);
    assert_eq!(
        JavaVersions::read_modpack(Some(&json("[]"))).unwrap_err(),
        SettingError::Parse
    );
}

#[test]
fn restore_refuses_a_malformed_saved_form() {
    for text in [
        "null",
        "[]",
        "{}",
        "{\"select\": 0}",
        "{\"versions\": []}",
        "{\"select\": \"0\", \"versions\": []}",
        "{\"select\": 256, \"versions\": []}",
        "{\"select\": -1, \"versions\": []}",
        "{\"select\": 1.0, \"versions\": []}",
        "{\"select\": 0, \"versions\": {}}",
        "{\"select\": 0, \"versions\": [1]}",
        "{\"select\": 0, \"versions\": [{\"path\": \"p\"}]}",
        "{\"select\": 0, \"versions\": [{\"version\": {\"value\": \"1\"}}]}",
        "{\"select\": 0, \"versions\": [{\"path\": 1, \"version\": {\"value\": \"1\"}}]}",
        "{\"select\": 0, \"versions\": [{\"path\": \"p\", \"version\": {\"value\": \"x\"}}]}",
        "{\"select\": 0, \"versions\": [{\"path\": \"p\", \"version\": {\"value\": \"1\"}}, 2]}",
    ] {
        let refused = JavaVersions::restore(&json(text)).unwrap_err();
        assert_eq!(refused, SettingError::Parse, "{}", text);
    }
}

#[test]
fn restore_takes_the_largest_select() {
    let saved = json("{\"select\": 255, \"versions\": [], \"more\": true}");
    assert_eq!(
        JavaVersions::restore(&saved).unwrap().write().unwrap(),
        json("{\"select\": 255, \"versions\": []}")
    );
}

#[test]
fn write_then_read_gives_the_list_back() {
    let mut list = one_java();
    list.add_version(
        "/opt/jdk8/bin/java".to_string(),
        Version::from_string(&"java version \"1.8.0_281\"".to_string(), Some(&vec!['"'])).unwrap(),
    );
    list.add_version(
        "/opt/jdk9/bin/java".to_string(),
        Version { major: 9, minor: None, patch: None, pre_release: None },
    );
    let written = list.write().unwrap();
    let back = JavaVersions::restore(&written).unwrap();
    assert_eq!(back.write().unwrap(), written);
    assert_eq!(back.send().unwrap(), list.send().unwrap());
    let text = written.encode().unwrap();
    let again = JavaVersions::restore(&Json::decode(&text).unwrap()).unwrap();
    assert_eq!(again.write().unwrap(), written);
}

#[test]
fn send_is_the_saved_form() {
    let list = one_java();
    assert_eq!(list.send().unwrap(), list.write().unwrap());
}

#[test]
fn receive_adds_a_path_and_its_version() {
    let mut list = one_java();
    list.receive(vec!["/opt/jdk/bin/java".to_string(), "java version \"21.0.3\" LTS".to_string()])
        .unwrap();
    assert_eq!(
        list.write().unwrap(),
        json(
            "{\"select\": 0, \"versions\": [
                {\"path\": \"/usr/bin/java\", \"version\": {\"value\": \"17.0.10 2024-01-16 LTS\"}},
                {\"path\": \"/opt/jdk/bin/java\", \"version\": {\"value\": \"21.0.3 LTS\"}}]}"
        )
    );
}

#[test]
fn receive_refuses_what_it_cannot_take() {
    let mut list = one_java();
    let before = list.write().unwrap();
    assert_eq!(list.receive(vec![]).unwrap_err(), SettingError::Unsupported);
    assert_eq!(list.receive(vec!["/opt/java".to_string()]).unwrap_err(), SettingError::Unsupported);
    assert_eq!(
        list.receive(vec!["a".to_string(), "1".to_string(), "b".to_string()]).unwrap_err(),
        SettingError::Unsupported
    );
    assert_eq!(
        list.receive(vec!["/opt/java".to_string(), "unknown".to_string()]).unwrap_err(),
        SettingError::Parse
    );
    assert_eq!(list.write().unwrap(), before);
}

#[test]
fn a_field_that_is_there_twice_is_refused() {
    let twice = Json::Object(vec![
        ("value".to_string(), Json::Text("1.2.3".to_string())),
        ("value".to_string(), Json::Text("1.2.3".to_string())),
    ]);
    assert_eq!(Version::deserialize(&twice).unwrap_err(), SettingError::Parse);
    let list = Json::Object(vec![
        ("select".to_string(), Json::Number("0".to_string())),
        ("versions".to_string(), Json::Array(vec![])),
        ("select".to_string(), Json::Number("1".to_string())),
    ]);
    assert_eq!(JavaVersions::restore(&list).unwrap_err(), SettingError::Parse);
}

#[test]
fn text_of_a_parsed_version_is_parsed_to_the_same() {
    for text in
        ["7", "v1.8", "1.8.0_281", "openjdk 17.0.10 2024-01-16 LTS ", "3.2.1 \u{3000}x y\t"]
    {
        let version = Version::from_string(&text.to_string(), None).unwrap();
        let again = Version::from_string(&version.to_string(), None).unwrap();
        assert_eq!(
            (again.major, again.minor, again.patch, again.pre_release.clone()),
            (version.major, version.minor, version.patch, version.pre_release.clone())
        );
    }
}

#[test]
fn a_patch_number_without_a_minor_number_is_not_read_back() {
    let untidy = Version { major: 1, minor: None, patch: Some(0), pre_release: None };
    let mut list = JavaVersions::new();
    list.add_version("/p".to_string(), untidy.clone());
    let written = list.write().unwrap();
    assert_eq!(
        written,
        json("{\"select\": 0, \"versions\": [{\"path\": \"/p\", \"version\": {\"value\": \"1\"}}]}")
    );
    let back = Version::deserialize(&untidy.serialize()).unwrap();
    assert_eq!((back.major, back.minor, back.patch), (1, None, None));
    assert!(back != untidy);
}

#[test]
fn a_digit_in_the_suffix_of_two_numbers_is_read_as_a_number() {
    let untidy =
        Version { major: 1, minor: Some(0), patch: None, pre_release: Some("2 beta".to_string()) };
    let back = Version::deserialize(&untidy.serialize()).unwrap();
    assert_eq!((back.major, back.minor, back.patch), (1, Some(0), Some(2)));
    assert_eq!(back.pre_release, Some("beta".to_string()));
    assert!(back != untidy);
}
