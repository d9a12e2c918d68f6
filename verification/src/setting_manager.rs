use vstd::prelude::*;
use crate::java_versions::{JavaList, JavaProbe, JavaVersions};
use crate::json::{lemma_fields_push, Json, JsonValue};
use crate::setting_trait::{change_of, viewed, SettingError, SettingTrait};
use crate::text::{chars_of, string_of};

verus! {

/// The items of the settings, by name.
#[derive(Debug, Clone, Copy, PartialEq, Eq, Structural)]
pub enum ItemName {
    Java,
}

/// The item that a name stands for, if it is the name of one.
pub open spec fn item_named(name: Seq<char>) -> Option<ItemName> {
    if name == "java"@ {
        Some(ItemName::Java)
    } else {
        None
    }
}

impl ItemName {
    /// The item that a name stands for.
    pub fn of(name: &String) -> (r: Option<ItemName>)
        ensures
            r == item_named(name@),
    {
        if *name == String::from_str("java") {
            Some(ItemName::Java)
        } else {
            None
        }
    }
}

/// The settings of the whole application: every item is there.
#[derive(Debug, Clone)]
pub struct Settings {
    java: JavaVersions,
}

/// The settings of one scope: an item that is absent is taken from the
/// settings of the whole application.
#[derive(Debug)]
pub struct ModpackSetting {
    java: Option<JavaVersions>,
}

/// What a [`Settings`] holds.
pub ghost struct SettingsModel {
    pub java: JavaList,
}

/// What a [`ModpackSetting`] holds.
pub ghost struct ModpackModel {
    pub java: Option<JavaList>,
}

impl View for Settings {
    type V = SettingsModel;

    closed spec fn view(&self) -> SettingsModel {
        SettingsModel { java: self.java@ }
    }
}

impl View for ModpackSetting {
    type V = ModpackModel;

    closed spec fn view(&self) -> ModpackModel {
        ModpackModel {
            java: match self.java {
                Some(java) => Some(java@),
                None => None,
            },
        }
    }
}

/// The settings that a saved form holds. An item that the form lacks is made
/// as on a first run.
pub open spec fn settings_restored(json: JsonValue, probe: &JavaProbe) -> Result<
    SettingsModel,
    SettingError,
> {
    let java = match json.get("java"@) {
        Some(saved) => JavaVersions::restored(saved),
        None => JavaVersions::first(probe),
    };
    match java {
        Ok(java) => Ok(SettingsModel { java }),
        Err(e) => Err(e),
    }
}

/// The saved form of the settings: an object with one field for each item.
pub open spec fn settings_saved(settings: SettingsModel) -> JsonValue {
    JsonValue::Object(seq![("java"@, JavaVersions::written(settings.java))])
}

/// What the settings show of the item with a name.
pub open spec fn settings_get(settings: SettingsModel, name: Seq<char>) -> Result<
    JsonValue,
    SettingError,
> {
    match item_named(name) {
        Some(ItemName::Java) => Ok(JavaVersions::sent(settings.java)),
        None => Err(SettingError::NotFound),
    }
}

/// The settings after a change of the item with a name.
pub open spec fn settings_changed(
    settings: SettingsModel,
    name: Seq<char>,
    change: Seq<Seq<char>>,
) -> Result<SettingsModel, SettingError> {
    match item_named(name) {
        Some(ItemName::Java) => match JavaVersions::received(settings.java, change) {
            Ok(java) => Ok(SettingsModel { java }),
            Err(e) => Err(e),
        },
        None => Err(SettingError::NotFound),
    }
}

/// The settings of a scope that a saved form holds. An item that the form
/// lacks is absent.
pub open spec fn modpack_restored(json: JsonValue) -> Result<ModpackModel, SettingError> {
    match json.get("java"@) {
        Some(saved) => match JavaVersions::restored(saved) {
            Ok(java) => Ok(ModpackModel { java: Some(java) }),
            Err(e) => Err(e),
        },
        None => Ok(ModpackModel { java: None }),
    }
}

/// The saved form of the settings of a scope: an object with one field for
/// each item that is present.
pub open spec fn modpack_saved(setting: ModpackModel) -> JsonValue {
    match setting.java {
        Some(java) => JsonValue::Object(seq![("java"@, JavaVersions::written(java))]),
        None => JsonValue::Object(Seq::empty()),
    }
}

/// What a scope shows of the item with a name: its own item where it has
/// one, else what the settings of the whole application show.
pub open spec fn modpack_get(
    setting: ModpackModel,
    name: Seq<char>,
    globle: SettingsModel,
) -> Result<JsonValue, SettingError> {
    match item_named(name) {
        Some(ItemName::Java) => match setting.java {
            Some(java) => Ok(JavaVersions::sent(java)),
            None => settings_get(globle, name),
        },
        None => Err(SettingError::NotFound),
    }
}

/// The item that a scope changes where it has none of its own: the one that
/// is read from what the settings of the whole application show.
pub open spec fn copied_item(name: Seq<char>, globle: SettingsModel) -> Result<
    JavaList,
    SettingError,
> {
    match settings_get(globle, name) {
        Ok(shown) => JavaVersions::restored(shown),
        Err(e) => Err(e),
    }
}

/// The settings of a scope after a change of the item with a name. The change
/// is made to the scope's own item, or else to a copy of the item of the whole
/// application, which then is the scope's own.
pub open spec fn modpack_changed(
    setting: ModpackModel,
    name: Seq<char>,
    change: Seq<Seq<char>>,
    globle: SettingsModel,
) -> Result<ModpackModel, SettingError> {
    match item_named(name) {
        Some(ItemName::Java) => {
            let before = match setting.java {
                Some(java) => Ok(java),
                None => copied_item(name, globle),
            };
            match before {
                Ok(java) => match JavaVersions::received(java, change) {
                    Ok(after) => Ok(ModpackModel { java: Some(after) }),
                    Err(e) => Err(e),
                },
                Err(e) => Err(e),
            }
        },
        None => Err(SettingError::NotFound),
    }
}

impl Settings {
    /// Reads the settings from their saved form.
    pub fn read(json: Json, probe: &JavaProbe) -> (r: Result<Self, SettingError>)
        ensures
            viewed(r) == settings_restored(json@, probe),
    {
        let java = JavaVersions::read(json.get("java"), probe)?;
        Ok(Settings { java })
    }

    /// Makes the settings of a first run.
    pub fn create(probe: &JavaProbe) -> (r: Result<Self, SettingError>)
        ensures
            viewed(r) == match JavaVersions::first(probe) {
                Ok(java) => Ok(SettingsModel { java }),
                Err(e) => Err(e),
            },
    {
        let java = JavaVersions::read(None, probe)?;
        Ok(Settings { java })
    }

    /// The saved form of the settings.
    pub fn save(&self) -> (r: Result<Json, SettingError>)
        ensures
            r matches Ok(json) && json@ == settings_saved(self@),
    {
        let mut fields: Vec<(String, Json)> = Vec::new();
        let name = String::from_str("java");
        let java = self.java.write()?;
        proof {
            lemma_fields_push(fields@, name, java);
        }
        fields.push((name, java));
        Ok(Json::Object(fields))
    }

    /// What the settings show of the item with a name.
    pub fn get(&self, item_name: String) -> (r: Result<Json, SettingError>)
        ensures
            match r {
                Ok(json) => settings_get(self@, item_name@) == Ok::<JsonValue, SettingError>(json@),
                Err(e) => settings_get(self@, item_name@) == Err::<JsonValue, SettingError>(e),
            },
    {
        match ItemName::of(&item_name) {
            Some(ItemName::Java) => self.java.send(),
            None => Err(SettingError::NotFound),
        }
    }

    /// Changes the item with a name. A change that fails leaves the settings
    /// as they were.
    pub fn change(&mut self, item_name: String, value: Vec<String>) -> (r: Result<
        (),
        SettingError,
    >)
        ensures
            match settings_changed(old(self)@, item_name@, change_of(value)) {
                Ok(after) => r is Ok && final(self)@ == after,
                Err(e) => r == Err::<(), SettingError>(e) && final(self)@ == old(self)@,
            },
    {
        match ItemName::of(&item_name) {
            Some(ItemName::Java) => {
                self.java.receive(value)?;
                Ok(())
            },
            None => Err(SettingError::NotFound),
        }
    }
}

impl ModpackSetting {
    /// Reads the settings of a scope from their saved form.
    pub fn read(json: Json) -> (r: Result<Self, SettingError>)
        ensures
            viewed(r) == modpack_restored(json@),
    {
        let java = JavaVersions::read_modpack(json.get("java"))?;
        Ok(ModpackSetting { java })
    }

    /// The settings of a scope in which every item is absent.
    pub fn create() -> (r: Result<Self, SettingError>)
        ensures
            r matches Ok(setting) && setting@ == (ModpackModel { java: None }),
    {
        Ok(ModpackSetting { java: None })
    }

    /// The saved form of the settings of a scope.
    pub fn save(&self) -> (r: Result<Json, SettingError>)
        ensures
            r matches Ok(json) && json@ == modpack_saved(self@),
    {
        let mut fields: Vec<(String, Json)> = Vec::new();
        if let Some(item) = &self.java {
            let name = String::from_str("java");
            let java = item.write()?;
            proof {
                lemma_fields_push(fields@, name, java);
            }
            fields.push((name, java));
        }
        Ok(Json::Object(fields))
    }

    /// What the scope shows of the item with a name.
    pub fn get(&self, item_name: String, globle: &Settings) -> (r: Result<Json, SettingError>)
        ensures
            match r {
                Ok(json) => modpack_get(self@, item_name@, globle@) == Ok::<
                    JsonValue,
                    SettingError,
                >(json@),
                Err(e) => modpack_get(self@, item_name@, globle@) == Err::<JsonValue, SettingError>(
                    e,
                ),
            },
    {
        match ItemName::of(&item_name) {
            Some(ItemName::Java) => match &self.java {
                Some(v) => v.send(),
                None => globle.get(item_name),
            },
            None => Err(SettingError::NotFound),
        }
    }

    /// Changes the item with a name. Where the scope has no item of its own,
    /// the change is made to a copy of the item of the whole application, and
    /// the copy becomes the scope's own. A change that fails leaves the scope
    /// as it was.
    pub fn change(&mut self, item_name: String, value: Vec<String>, globle: &Settings) -> (r:
        Result<(), SettingError>)
        ensures
            match modpack_changed(old(self)@, item_name@, change_of(value), globle@) {
                Ok(after) => r is Ok && final(self)@ == after,
                Err(e) => r == Err::<(), SettingError>(e) && final(self)@ == old(self)@,
            },
    {
        match ItemName::of(&item_name) {
            Some(ItemName::Java) => match &mut self.java {
                Some(v) => v.receive(value),
                None => {
                    let item_value = globle.get(item_name)?;
                    let mut item = JavaVersions::restore(&item_value)?;
                    item.receive(value)?;
                    self.java = Some(item);
                    Ok(())
                },
            },
            None => Err(SettingError::NotFound),
        }
    }
}

/// A path with one more part: the part alone where the path is empty, else
/// the path, a slash unless the path ends in one, and the part.
pub open spec fn joined(base: Seq<char>, part: Seq<char>) -> Seq<char> {
    if base.len() == 0 {
        part
    } else if base.last() == '/' {
        base + part
    } else {
        base + seq!['/'] + part
    }
}

/// A path with one more part.
pub fn join_path(base: &str, part: &str) -> (r: String)
    ensures
        r@ == joined(base@, part@),
{
    let mut out = chars_of(base);
    let mut more = chars_of(part);
    if out.len() > 0 && out[out.len() - 1] != '/' {
        out.push('/');
    }
    out.append(&mut more);
    assert(out@ =~= joined(base@, part@));
    string_of(&out)
}

/// Where the settings of the whole application are kept: in `setting.json`
/// under the directory of the application's configuration.
pub open spec fn globle_file(config_dir: Seq<char>) -> Seq<char> {
    joined(config_dir, "setting.json"@)
}

/// Where the settings of a scope are kept: in `rev/settings.json` under the
/// directory of the scope.
pub open spec fn modpack_file(modpack_path: Seq<char>) -> Seq<char> {
    joined(joined(modpack_path, "rev"@), "settings.json"@)
}

/// The settings of the whole application, as they are kept in their file.
#[derive(Debug)]
pub struct SettingManager {
    setting: Settings,
}

/// The settings of one scope, as they are kept in the file of that scope.
#[derive(Debug)]
pub struct ModpackSettingManager {
    id: i32,
    modpack_path: String,
    setting: ModpackSetting,
}

/// What a [`ModpackSettingManager`] holds.
pub ghost struct ScopeModel {
    pub id: i32,
    pub modpack_path: Seq<char>,
    pub setting: ModpackModel,
}

impl View for SettingManager {
    type V = SettingsModel;

    closed spec fn view(&self) -> SettingsModel {
        self.setting@
    }
}

impl View for ModpackSettingManager {
    type V = ScopeModel;

    closed spec fn view(&self) -> ScopeModel {
        ScopeModel { id: self.id, modpack_path: self.modpack_path@, setting: self.setting@ }
    }
}

impl SettingManager {
    /// The settings that the file holds, or those of a first run where there
    /// is no file.
    pub fn read(saved: Option<Json>, probe: &JavaProbe) -> (r: Result<Self, SettingError>)
        ensures
            viewed(r) == match saved {
                Some(json) => settings_restored(json@, probe),
                None => match JavaVersions::first(probe) {
                    Ok(java) => Ok(SettingsModel { java }),
                    Err(e) => Err(e),
                },
            },
    {
        let setting = match saved {
            Some(json) => Settings::read(json, probe)?,
            None => Settings::create(probe)?,
        };
        Ok(SettingManager { setting })
    }

    /// Whether reading the settings will make an item as on a first run, and
    /// so consult what it is told of the machine: it will where there is no
    /// file, or where the file lacks an item.
    pub fn needs_probe(saved: Option<&Json>) -> (r: bool)
        ensures
            r == match saved {
                Some(json) => json@.get("java"@) is None,
                None => true,
            },
    {
        match saved {
            Some(json) => json.get("java").is_none(),
            None => true,
        }
    }

    /// The settings of a first run.
    pub fn create(probe: &JavaProbe) -> (r: Result<Self, SettingError>)
        ensures
            viewed(r) == match JavaVersions::first(probe) {
                Ok(java) => Ok(SettingsModel { java }),
                Err(e) => Err(e),
            },
    {
        let setting = Settings::create(probe)?;
        Ok(SettingManager { setting })
    }

    /// Where the settings are kept, given the directory of the application's
    /// configuration.
    pub fn setting_file_path(config_dir: &str) -> (r: String)
        ensures
            r@ == globle_file(config_dir@),
    {
        join_path(config_dir, "setting.json")
    }

    /// Where these settings are kept, given the directory of the
    /// application's configuration.
    pub fn get_setting_file_path(&self, config_dir: &str) -> (r: String)
        ensures
            r@ == globle_file(config_dir@),
    {
        SettingManager::setting_file_path(config_dir)
    }

    /// What is to be written to the file.
    pub fn save(&self) -> (r: Result<Json, SettingError>)
        ensures
            r matches Ok(json) && json@ == settings_saved(self@),
    {
        self.setting.save()
    }

    /// The settings.
    pub fn get_setting(&self) -> (r: &Settings)
        ensures
            r@ == self@,
    {
        &self.setting
    }

    /// The settings, to be changed.
    pub fn get_setting_mut(&mut self) -> (r: &mut Settings)
        ensures
            (*r)@ == old(self)@,
            final(self)@ == (*final(r))@,
    {
        &mut self.setting
    }
}

impl ModpackSettingManager {
    /// The settings of a scope that its file holds, or a scope in which every
    /// item is absent where there is no file.
    pub fn read(id: i32, modpack_path: String, saved: Option<Json>) -> (r: Result<
        Self,
        SettingError,
    >)
        ensures
            viewed(r) == match (match saved {
                Some(json) => modpack_restored(json@),
                None => Ok(ModpackModel { java: None }),
            }) {
                Ok(setting) => Ok(ScopeModel { id, modpack_path: modpack_path@, setting }),
                Err(e) => Err(e),
            },
    {
        let setting = match saved {
            Some(json) => ModpackSetting::read(json)?,
            None => ModpackSetting::create()?,
        };
        Ok(ModpackSettingManager { id, modpack_path, setting })
    }

    /// A scope in which every item is absent.
    pub fn create(id: i32, modpack_path: String) -> (r: Result<Self, SettingError>)
        ensures
            r matches Ok(scope) && scope@ == (ScopeModel {
                id,
                modpack_path: modpack_path@,
                setting: ModpackModel { java: None },
            }),
    {
        let setting = ModpackSetting::create()?;
        Ok(ModpackSettingManager { id, modpack_path, setting })
    }

    /// The id of the scope.
    pub fn get_id(&self) -> (r: i32)
        ensures
            r == self@.id,
    {
        self.id
    }

    /// Where the settings of a scope are kept, given the directory of the
    /// scope.
    pub fn setting_file_path(modpack_path: &str) -> (r: String)
        ensures
            r@ == modpack_file(modpack_path@),
    {
        let rev = join_path(modpack_path, "rev");
        join_path(rev.as_str(), "settings.json")
    }

    /// Where the settings of this scope are kept.
    pub fn get_setting_file_path(&self) -> (r: String)
        ensures
            r@ == modpack_file(self@.modpack_path),
    {
        ModpackSettingManager::setting_file_path(self.modpack_path.as_str())
    }

    /// What is to be written to the file.
    pub fn save(&self) -> (r: Result<Json, SettingError>)
        ensures
            r matches Ok(json) && json@ == modpack_saved(self@.setting),
    {
        self.setting.save()
    }

    /// The settings of the scope.
    pub fn get_setting(&self) -> (r: &ModpackSetting)
        ensures
            r@ == self@.setting,
    {
        &self.setting
    }

    /// The settings of the scope, to be changed.
    pub fn get_setting_mut(&mut self) -> (r: &mut ModpackSetting)
        ensures
            (*r)@ == old(self)@.setting,
            final(self)@ == (ScopeModel {
                id: old(self)@.id,
                modpack_path: old(self)@.modpack_path,
                setting: (*final(r))@,
            }),
    {
        &mut self.setting
    }
}

} // verus!
