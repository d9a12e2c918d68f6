use rev_launcher::java_versions::{JavaOnPath, JavaProbe};
use rev_launcher::json::Json;
use rev_launcher::setting_manager::{
    join_path, ItemName, ModpackSetting, ModpackSettingManager, SettingManager, Settings,
};
use rev_launcher::setting_trait::SettingError;

const V1: &str = "{\"select\": 0, \"versions\": [{\"path\": \"/usr/bin/java\",
    \"version\": {\"value\": \"17.0.10 2024-01-16 LTS\"}}]}";

const V1_AND_21: &str = "{\"select\": 0, \"versions\": [
    {\"path\": \"/usr/bin/java\", \"version\": {\"value\": \"17.0.10 2024-01-16 LTS\"}},
    {\"path\": \"/opt/jdk/bin/java\", \"version\": {\"value\": \"21.0.3 LTS\"}}]}";

fn json(text: &str) -> Json {
    Json::decode(text).unwrap()
}

fn object(fields: Vec<(&str, Json)>) -> Json {
    Json::Object(fields.into_iter().map(|(k, v)| (k.to_string(), v)).collect())
}

fn no_java() -> JavaProbe {
    JavaProbe::Path(None)
}

fn found_java() -> JavaProbe {
    JavaProbe::Path(Some(JavaOnPath {
        path: "/usr/bin/java".to_string(),
        output: Some(b"openjdk version \"17.0.10\" 2024-01-16 LTS\n".to_vec()),
    }))
}

fn globle() -> Settings {
    Settings::read(object(vec![("java", json(V1))]), &no_java()).unwrap()
}

fn add_21() -> Vec<String> {
    vec!["/opt/jdk/bin/java".to_string(), "openjdk version \"21.0.3\" LTS".to_string()]
}

#[test]
fn item_names_are_closed() {
    assert_eq!(ItemName::of(&"java".to_string()), Some(ItemName::Java));
    for name in ["", "Java", "java ", "jav", "javax", "nonexistent"] {
        assert_eq!(ItemName::of(&name.to_string()), None);
    }
}

#[test]
fn settings_read_takes_each_item_from_its_field() {
    let settings = globle();
    assert_eq!(settings.save().unwrap(), object(vec![("java", json(V1))]));
    assert_eq!(settings.get("java".to_string()).unwrap(), json(V1));
}

#[test]
fn settings_read_makes_a_missing_item_as_on_a_first_run() {
    let settings = Settings::read(object(vec![]), &found_java()).unwrap();
    assert_eq!(settings.get("java".to_string()).unwrap(), json(V1));
    let settings = Settings::read(Json::Null, &no_java()).unwrap();
    assert_eq!(
        settings.get("java".to_string()).unwrap(),
        json("{\"select\": 0, \"versions\": []}")
    );
}

#[test]
fn settings_read_refuses_a_malformed_item() {
    let saved = object(vec![("java", json("{\"select\": 0}"))]);
    assert_eq!(Settings::read(saved, &found_java()).unwrap_err(), SettingError::Parse);
}

#[test]
fn settings_create_is_a_first_run() {
    let settings = Settings::create(&found_java()).unwrap();
    assert_eq!(settings.save().unwrap(), object(vec![("java", json(V1))]));
    let saved = JavaProbe::Saved(json("[]"));
    assert_eq!(Settings::create(&saved).unwrap_err(), SettingError::Parse);
}

#[test]
fn settings_get_of_an_unknown_name_is_not_found() {
    assert_eq!(globle().get("nonexistent".to_string()).unwrap_err(), SettingError::NotFound);
}

#[test]
fn settings_change_applies_to_the_item() {
    let mut settings = globle();
    settings.change("java".to_string(), add_21()).unwrap();
    assert_eq!(settings.get("java".to_string()).unwrap(), json(V1_AND_21));
}

#[test]
fn settings_change_that_fails_changes_nothing() {
    let mut settings = globle();
    assert_eq!(
        settings.change("nonexistent".to_string(), add_21()).unwrap_err(),
        SettingError::NotFound
    );
    assert_eq!(
        settings.change("java".to_string(), vec!["/opt/java".to_string()]).unwrap_err(),
        SettingError::Unsupported
    );
    assert_eq!(
        settings.change("java".to_string(), vec!["p".to_string(), "v".to_string()]).unwrap_err(),
        SettingError::Parse
    );
    assert_eq!(settings.get("java".to_string()).unwrap(), json(V1));
}

#[test]
fn modpack_create_has_no_item_of_its_own() {
    let scope = ModpackSetting::create().unwrap();
    assert_eq!(scope.save().unwrap(), object(vec![]));
    assert_eq!(scope.get("java".to_string(), &globle()).unwrap(), json(V1));
}

#[test]
fn modpack_read_takes_the_items_that_are_there() {
    let scope = ModpackSetting::read(object(vec![])).unwrap();
    assert_eq!(scope.save().unwrap(), object(vec![]));
    let scope = ModpackSetting::read(object(vec![("java", json(V1_AND_21))])).unwrap();
    assert_eq!(scope.save().unwrap(), object(vec![("java", json(V1_AND_21))]));
    assert_eq!(scope.get("java".to_string(), &globle()).unwrap(), json(V1_AND_21));
    assert_eq!(
        ModpackSetting::read(object(vec![("java", Json::Null)])).unwrap_err(),
        SettingError::Parse
    );
}

#[test]
fn modpack_get_of_an_unknown_name_is_not_found() {
    let scope = ModpackSetting::create().unwrap();
    assert_eq!(
        scope.get("nonexistent".to_string(), &globle()).unwrap_err(),
        SettingError::NotFound
    );
    let scope = ModpackSetting::read(object(vec![("java", json(V1))])).unwrap();
    assert_eq!(
        scope.get("nonexistent".to_string(), &globle()).unwrap_err(),
        SettingError::NotFound
    );
}

#[test]
fn modpack_change_copies_and_then_changes() {
    let globle = globle();
    let mut scope = ModpackSetting::create().unwrap();
    scope.change("java".to_string(), add_21(), &globle).unwrap();
    assert_eq!(scope.get("java".to_string(), &globle).unwrap(), json(V1_AND_21));
    assert_eq!(scope.save().unwrap(), object(vec![("java", json(V1_AND_21))]));
    assert_eq!(globle.get("java".to_string()).unwrap(), json(V1));
}

#[test]
fn modpack_follows_the_whole_application_until_it_changes() {
    let mut globle = globle();
    let mut scope = ModpackSetting::create().unwrap();
    globle.change("java".to_string(), add_21()).unwrap();
    assert_eq!(scope.get("java".to_string(), &globle).unwrap(), json(V1_AND_21));
    scope
        .change("java".to_string(), vec!["/p".to_string(), "8".to_string()], &globle)
        .unwrap();
    let own = scope.get("java".to_string(), &globle).unwrap();
    globle.change("java".to_string(), vec!["/q".to_string(), "9".to_string()]).unwrap();
    assert_eq!(scope.get("java".to_string(), &globle).unwrap(), own);
    assert_ne!(globle.get("java".to_string()).unwrap(), own);
}

#[test]
fn modpack_change_of_its_own_item_leaves_the_copy_out() {
    let mut scope =
        ModpackSetting::read(object(vec![("java", json("{\"select\": 2, \"versions\": []}"))]))
            .unwrap();
    scope.change("java".to_string(), vec!["/p".to_string(), "1.2".to_string()], &globle()).unwrap();
    assert_eq!(
        scope.save().unwrap(),
        object(vec![(
            "java",
            json(
                "{\"select\": 2, \"versions\": [
                    {\"path\": \"/p\", \"version\": {\"value\": \"1.2\"}}]}"
            )
        )])
    );
}

#[test]
fn modpack_change_that_fails_changes_nothing() {
    let globle = globle();
    let mut scope = ModpackSetting::create().unwrap();
    assert_eq!(
        scope.change("nonexistent".to_string(), add_21(), &globle).unwrap_err(),
        SettingError::NotFound
    );
    assert_eq!(
        scope.change("java".to_string(), vec![], &globle).unwrap_err(),
        SettingError::Unsupported
    );
    assert_eq!(
        scope
            .change("java".to_string(), vec!["p".to_string(), "".to_string()], &globle)
            .unwrap_err(),
        SettingError::Parse
    );
    assert_eq!(scope.save().unwrap(), object(vec![]));
}

#[test]
fn join_path_adds_one_slash() {
    assert_eq!(join_path("/home/me", "rev"), "/home/me/rev");
    assert_eq!(join_path("/home/me/", "rev"), "/home/me/rev");
    assert_eq!(join_path("", "rev"), "rev");
    assert_eq!(join_path("/", "rev"), "/rev");
    assert_eq!(join_path("a", ""), "a/");
}

#[test]
fn setting_manager_reads_saves_and_hands_out_its_settings() {
    let manager = SettingManager::read(Some(object(vec![("java", json(V1))])), &no_java()).unwrap();
    assert_eq!(manager.save().unwrap(), object(vec![("java", json(V1))]));
    assert_eq!(manager.get_setting().get("java".to_string()).unwrap(), json(V1));
    assert_eq!(
        manager.get_setting_file_path("/home/me/.config/rev-launcher"),
        "/home/me/.config/rev-launcher/setting.json"
    );
    assert_eq!(SettingManager::setting_file_path("conf/"), "conf/setting.json");
    assert_eq!(
        ModpackSettingManager::setting_file_path("/packs/one"),
        "/packs/one/rev/settings.json"
    );

    let mut first = SettingManager::read(None, &found_java()).unwrap();
    assert_eq!(first.save().unwrap(), object(vec![("java", json(V1))]));
    first.get_setting_mut().change("java".to_string(), add_21()).unwrap();
    assert_eq!(first.save().unwrap(), object(vec![("java", json(V1_AND_21))]));

    let created = SettingManager::create(&no_java()).unwrap();
    assert_eq!(
        created.save().unwrap(),
        object(vec![("java", json("{\"select\": 0, \"versions\": []}"))])
    );
    assert_eq!(
        SettingManager::read(Some(object(vec![("java", Json::Null)])), &no_java()).unwrap_err(),
        SettingError::Parse
    );
}

#[test]
fn modpack_setting_manager_reads_saves_and_hands_out_its_settings() {
    let globle = globle();
    let mut scope = ModpackSettingManager::create(4, "/packs/four".to_string()).unwrap();
    assert_eq!(scope.get_id(), 4);
    assert_eq!(scope.get_setting_file_path(), "/packs/four/rev/settings.json");
    assert_eq!(scope.save().unwrap(), object(vec![]));
    scope.get_setting_mut().change("java".to_string(), add_21(), &globle).unwrap();
    assert_eq!(scope.save().unwrap(), object(vec![("java", json(V1_AND_21))]));
    assert_eq!(scope.get_setting().get("java".to_string(), &globle).unwrap(), json(V1_AND_21));

    let read = ModpackSettingManager::read(
        5,
        "packs/five/".to_string(),
        Some(object(vec![("java", json(V1))])),
    )
    .unwrap();
    assert_eq!(read.get_id(), 5);
    assert_eq!(read.get_setting_file_path(), "packs/five/rev/settings.json");
    assert_eq!(read.save().unwrap(), object(vec![("java", json(V1))]));

    let absent = ModpackSettingManager::read(6, "".to_string(), None).unwrap();
    assert_eq!(absent.get_setting_file_path(), "rev/settings.json");
    assert_eq!(absent.save().unwrap(), object(vec![]));
    assert_eq!(
        ModpackSettingManager::read(7, "p".to_string(), Some(object(vec![("java", json("[]"))])))
            .unwrap_err(),
        SettingError::Parse
    );
}
