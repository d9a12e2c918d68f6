use std::collections::HashMap;
use vstd::prelude::*;
use crate::decimal::{integer, read_integer};
use crate::json::{lemma_values_of, values_of, Json, JsonValue};
use crate::setting_manager::{
    modpack_changed, modpack_get, modpack_saved, settings_changed, settings_get, settings_saved,
    ModpackSettingManager, ScopeModel, SettingManager, SettingsModel,
};
use crate::setting_trait::{change_of, viewed, SettingError};
use crate::text::chars_of;

verus! {

broadcast use vstd::std_specs::hash::group_hash_axioms;

/// The id that stands for the settings of the whole application.
pub const GLOBLE: i32 = -1;

/// All the settings: those of the whole application, and those of each scope
/// by the id of the scope.
pub struct Setting {
    globle: SettingManager,
    settings: HashMap<i32, ModpackSettingManager>,
}

/// What a [`Setting`] holds.
pub ghost struct SettingModel {
    pub globle: SettingsModel,
    pub scopes: Map<i32, ScopeModel>,
}

/// What the scopes of a table hold, by their ids.
pub open spec fn scopes_of(held: Map<i32, ModpackSettingManager>) -> Map<i32, ScopeModel> {
    held.map_values(|s: ModpackSettingManager| s@)
}

impl View for Setting {
    type V = SettingModel;

    closed spec fn view(&self) -> SettingModel {
        SettingModel { globle: self.globle@, scopes: scopes_of(self.settings@) }
    }
}

/// The scopes of a list by their ids. Where two have the same id the later
/// one stays; one with the id of the whole application is left out.
pub open spec fn scope_table(scopes: Seq<ScopeModel>) -> Map<i32, ScopeModel>
    decreases scopes.len(),
{
    if scopes.len() == 0 {
        Map::empty()
    } else if scopes.last().id == GLOBLE {
        scope_table(scopes.drop_last())
    } else {
        scope_table(scopes.drop_last()).insert(scopes.last().id, scopes.last())
    }
}

/// The table of scopes holds nothing under the id of the whole application.
pub proof fn lemma_no_globle_scope(scopes: Seq<ScopeModel>)
    ensures
        !scope_table(scopes).contains_key(GLOBLE),
    decreases scopes.len(),
{
    if scopes.len() > 0 {
        lemma_no_globle_scope(scopes.drop_last());
    }
}

/// What the scope with an id shows of the item with a name.
pub open spec fn setting_get(all: SettingModel, id: i32, name: Seq<char>) -> Result<
    JsonValue,
    SettingError,
> {
    if id == GLOBLE {
        settings_get(all.globle, name)
    } else if all.scopes.contains_key(id) {
        modpack_get(all.scopes[id].setting, name, all.globle)
    } else {
        Err(SettingError::ScopeNotFound)
    }
}

/// All the settings after a change of the item with a name in the scope with
/// an id.
pub open spec fn setting_changed(
    all: SettingModel,
    id: i32,
    name: Seq<char>,
    change: Seq<Seq<char>>,
) -> Result<SettingModel, SettingError> {
    if id == GLOBLE {
        match settings_changed(all.globle, name, change) {
            Ok(globle) => Ok(SettingModel { globle, scopes: all.scopes }),
            Err(e) => Err(e),
        }
    } else if all.scopes.contains_key(id) {
        match modpack_changed(all.scopes[id].setting, name, change, all.globle) {
            Ok(setting) => Ok(
                SettingModel {
                    globle: all.globle,
                    scopes: all.scopes.insert(
                        id,
                        ScopeModel {
                            id: all.scopes[id].id,
                            modpack_path: all.scopes[id].modpack_path,
                            setting,
                        },
                    ),
                },
            ),
            Err(e) => Err(e),
        }
    } else {
        Err(SettingError::ScopeNotFound)
    }
}

/// What is written to the file of the scope with an id.
pub open spec fn setting_saved(all: SettingModel, id: i32) -> JsonValue {
    if id == GLOBLE {
        settings_saved(all.globle)
    } else {
        modpack_saved(all.scopes[id].setting)
    }
}

/// `HashMap::get_mut` of the standard library: a mutable reference to the
/// value that the map holds for the key, if it holds one. What is written
/// through the reference is what the map then holds for that key; nothing else
/// in the map changes.
#[verifier::external_body]
fn scope_mut(settings: &mut HashMap<i32, ModpackSettingManager>, id: i32) -> (r: Option<
    &mut ModpackSettingManager,
>)
    ensures
        match r {
            Some(scope) => {
                &&& old(settings)@.contains_key(id)
                &&& *scope == old(settings)@[id]
                &&& final(settings)@ == old(settings)@.insert(id, *final(scope))
            },
            None => !old(settings)@.contains_key(id) && final(settings)@ == old(settings)@,
        },
{
    settings.get_mut(&id)
}

impl Setting {
    /// The settings of the scope with an id, to be changed, if there is such
    /// a scope.
    pub fn get_mut(&mut self, id: i32) -> (r: Option<&mut ModpackSettingManager>)
        ensures
            match r {
                Some(scope) => {
                    &&& old(self)@.scopes.contains_key(id)
                    &&& (*scope)@ == old(self)@.scopes[id]
                    &&& final(self)@ == (SettingModel {
                        globle: old(self)@.globle,
                        scopes: old(self)@.scopes.insert(id, (*final(scope))@),
                    })
                },
                None => !old(self)@.scopes.contains_key(id) && final(self)@ == old(self)@,
            },
    {
        proof {
            let held = self.settings@;
            assert forall|scope: ModpackSettingManager| #[trigger]
                scopes_of(held.insert(id, scope)) == scopes_of(held).insert(id, scope@) by {
                assert(scopes_of(held.insert(id, scope)) =~= scopes_of(held).insert(id, scope@));
            }
        }
        scope_mut(&mut self.settings, id)
    }

    /// All the settings, from those of the whole application and those of the
    /// scopes.
    pub fn create(globle: SettingManager, scopes: Vec<ModpackSettingManager>) -> (r: Self)
        ensures
            r@.globle == globle@,
            r@.scopes == scope_table(scopes@.map_values(|s: ModpackSettingManager| s@)),
            !r@.scopes.contains_key(GLOBLE),
    {
        let ghost listed = scopes@.map_values(|s: ModpackSettingManager| s@);
        let mut settings: HashMap<i32, ModpackSettingManager> = HashMap::new();
        assert(scopes_of(settings@) =~= scope_table(listed.take(0)));
        for scope in it: scopes
            invariant
                listed == it.seq().map_values(|s: ModpackSettingManager| s@),
                scopes_of(settings@) == scope_table(listed.take(it.index() as int)),
        {
            let id = scope.get_id();
            proof {
                let i = it.index() as int;
                assert(listed.take(i + 1).drop_last() =~= listed.take(i));
                assert(listed.take(i + 1).last() == scope@);
            }
            if id != GLOBLE {
                let ghost before = settings@;
                settings.insert(id, scope);
                assert(scopes_of(settings@) =~= scopes_of(before).insert(id, scope@));
            }
        }
        proof {
            assert(listed.take(listed.len() as int) =~= listed);
            lemma_no_globle_scope(listed);
        }
        Setting { globle, settings }
    }

    /// The settings of the whole application.
    pub fn get_globle(&self) -> (r: &SettingManager)
        ensures
            r@ == self@.globle,
    {
        &self.globle
    }

    /// The settings of the whole application, to be changed.
    pub fn get_globle_mut(&mut self) -> (r: &mut SettingManager)
        ensures
            (*r)@ == old(self)@.globle,
            final(self)@ == (SettingModel { globle: (*final(r))@, scopes: old(self)@.scopes }),
    {
        &mut self.globle
    }

    /// The settings of the scope with an id, if there is such a scope.
    pub fn get(&self, id: i32) -> (r: Option<&ModpackSettingManager>)
        ensures
            match r {
                Some(scope) => self@.scopes.contains_key(id) && scope@ == self@.scopes[id],
                None => !self@.scopes.contains_key(id),
            },
    {
        self.settings.get(&id)
    }

    /// What the scope with an id shows of the item with a name.
    pub fn get_value(&self, id: i32, item_name: String) -> (r: Result<Json, SettingError>)
        ensures
            match r {
                Ok(json) => setting_get(self@, id, item_name@) == Ok::<JsonValue, SettingError>(
                    json@,
                ),
                Err(e) => setting_get(self@, id, item_name@) == Err::<JsonValue, SettingError>(e),
            },
    {
        let globle_setting = self.globle.get_setting();
        if id == GLOBLE {
            globle_setting.get(item_name)
        } else {
            match self.settings.get(&id) {
                Some(scope) => scope.get_setting().get(item_name, globle_setting),
                None => Err(SettingError::ScopeNotFound),
            }
        }
    }

    /// Changes the item with a name in the scope with an id, and gives what
    /// is to be written to the file of that scope. A change that fails leaves
    /// all the settings as they were.
    pub fn change(&mut self, id: i32, name: String, value: Vec<String>) -> (r: Result<
        Json,
        SettingError,
    >)
        ensures
            match setting_changed(old(self)@, id, name@, change_of(value)) {
                Ok(after) => {
                    &&& final(self)@ == after
                    &&& r matches Ok(json) && json@ == setting_saved(after, id)
                },
                Err(e) => r == Err::<Json, SettingError>(e) && final(self)@ == old(self)@,
            },
    {
        if id == GLOBLE {
            self.globle.get_setting_mut().change(name, value)?;
            self.globle.save()
        } else {
            proof {
                let held = self.settings@;
                assert forall|scope: ModpackSettingManager| #[trigger]
                    scopes_of(held.insert(id, scope)) == scopes_of(held).insert(id, scope@) by {
                    assert(scopes_of(held.insert(id, scope)) =~= scopes_of(held).insert(
                        id,
                        scope@,
                    ));
                }
                assert(held.contains_key(id) ==> scopes_of(held).insert(id, held[id]@)
                    =~= scopes_of(held));
            }
            match scope_mut(&mut self.settings, id) {
                Some(setting_manager) => {
                    setting_manager.get_setting_mut().change(
                        name,
                        value,
                        self.globle.get_setting(),
                    )?;
                    setting_manager.save()
                },
                None => Err(SettingError::ScopeNotFound),
            }
        }
    }
}

/// One line of the list of scopes: the id of a scope, and the directory in
/// which the scope keeps its settings.
#[derive(Debug)]
pub struct SettingPath {
    pub id: i32,
    pub modpack_path: String,
}

/// What a [`SettingPath`] holds.
pub ghost struct PathModel {
    pub id: i32,
    pub modpack_path: Seq<char>,
}

impl View for SettingPath {
    type V = PathModel;

    open spec fn view(&self) -> PathModel {
        PathModel { id: self.id, modpack_path: self.modpack_path@ }
    }
}

/// What a list of lines holds, line by line.
pub open spec fn paths_of(paths: Seq<SettingPath>) -> Seq<PathModel> {
    paths.map_values(|p: SettingPath| p@)
}

/// The line that a saved form holds: its field `id` is an integer of 32 bits,
/// and its field `modpack_path` a text.
pub open spec fn path_restored(json: JsonValue) -> Result<PathModel, SettingError> {
    match (json.only("id"@), json.only("modpack_path"@)) {
        (Some(JsonValue::Number(text)), Some(JsonValue::Text(modpack_path))) => match integer(
            text,
        ) {
            Some(id) => Ok(PathModel { id, modpack_path }),
            None => Err(SettingError::Parse),
        },
        _ => Err(SettingError::Parse),
    }
}

/// The lines that the saved list of scopes holds: the list is an array of
/// lines.
pub open spec fn paths_restored(json: JsonValue) -> Result<Seq<PathModel>, SettingError> {
    match json {
        JsonValue::Array(items) => {
            if forall|i: int| 0 <= i < items.len() ==> (#[trigger] path_restored(items[i])) is Ok {
                Ok(items.map_values(|j: JsonValue| path_restored(j)->Ok_0))
            } else {
                Err(SettingError::Parse)
            }
        },
        _ => Err(SettingError::Parse),
    }
}

/// The lines of a list that stand for a scope: all but those with the id of
/// the whole application.
pub open spec fn scope_paths(paths: Seq<PathModel>) -> Seq<PathModel> {
    paths.filter(|p: PathModel| p.id != GLOBLE)
}

impl SettingPath {
    /// Reads one line from its saved form.
    pub fn read(json: &Json) -> (r: Result<SettingPath, SettingError>)
        ensures
            viewed(r) == path_restored(json@),
    {
        match (json.only("id"), json.only("modpack_path")) {
            (Some(Json::Number(text)), Some(Json::Text(modpack_path))) => {
                let digits = chars_of(text.as_str());
                match read_integer(&digits) {
                    Some(id) => Ok(SettingPath { id, modpack_path: modpack_path.clone() }),
                    None => Err(SettingError::Parse),
                }
            },
            _ => Err(SettingError::Parse),
        }
    }

    /// Reads the saved list of scopes, and gives the lines that stand for a
    /// scope, in their order. A list with a malformed line is malformed, be
    /// the line one of a scope or not.
    pub fn scopes(json: &Json) -> (r: Result<Vec<SettingPath>, SettingError>)
        ensures
            match r {
                Ok(paths) => paths_restored(json@) matches Ok(all) && paths_of(paths@)
                    == scope_paths(all),
                Err(e) => paths_restored(json@) == Err::<Seq<PathModel>, SettingError>(e),
            },
    {
        match json {
            Json::Array(items) => {
                let ghost values = values_of(items@);
                let ghost keep = |p: PathModel| p.id != GLOBLE;
                let ghost all = values.map_values(|j: JsonValue| path_restored(j)->Ok_0);
                proof {
                    lemma_values_of(items@);
                    reveal(Seq::filter);
                }
                let mut paths: Vec<SettingPath> = Vec::new();
                let mut i: usize = 0;
                assert(paths_of(paths@) =~= all.take(0).filter(keep));
                while i < items.len()
                    invariant
                        i <= items.len(),
                        json@ == JsonValue::Array(values),
                        values.len() == items.len(),
                        forall|k: int| 0 <= k < items.len() ==> (#[trigger] values[k]) == items[k]@,
                        all == values.map_values(|j: JsonValue| path_restored(j)->Ok_0),
                        keep == (|p: PathModel| p.id != GLOBLE),
                        forall|k: int| 0 <= k < i ==> (#[trigger] path_restored(values[k])) is Ok,
                        paths_of(paths@) == all.take(i as int).filter(keep),
                    decreases items.len() - i,
                {
                    match SettingPath::read(&items[i]) {
                        Ok(path) => {
                            proof {
                                reveal(Seq::filter);
                                assert(all.take(i + 1).drop_last() =~= all.take(i as int));
                                assert(all.take(i + 1).last() == path@);
                            }
                            if path.id != GLOBLE {
                                let ghost before = paths@;
                                paths.push(path);
                                assert(paths_of(paths@) =~= paths_of(before).push(path@));
                            }
                        },
                        Err(_) => {
                            assert(!(path_restored(values[i as int]) is Ok));
                            return Err(SettingError::Parse);
                        },
                    }
                    i += 1;
                }
                assert(all.take(all.len() as int) =~= all);
                Ok(paths)
            },
            _ => Err(SettingError::Parse),
        }
    }
}

} // verus!
