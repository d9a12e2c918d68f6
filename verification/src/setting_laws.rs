use vstd::prelude::*;
use crate::java_versions::{
    lemma_list_read_of_written_exactly, list_reads_back, list_tidy, same_list, JavaList, JavaProbe,
    JavaVersions,
};
use crate::json::{field_from, JsonValue};
use crate::setting::{scope_table, setting_changed, setting_get, SettingModel, GLOBLE};
use crate::setting_manager::{
    copied_item, item_named, modpack_restored, modpack_saved, settings_restored, settings_saved,
    ItemName, ModpackModel, ScopeModel, SettingsModel,
};
use crate::setting_trait::{SettingError, SettingTrait};

verus! {

/// A scope that has no item of its own shows, under every name, what the
/// whole application shows.
pub proof fn lemma_scope_inherits(all: SettingModel, id: i32, name: Seq<char>)
    requires
        id != GLOBLE,
        all.scopes.contains_key(id),
        all.scopes[id].setting.java is None,
    ensures
        setting_get(all, id, name) == setting_get(all, GLOBLE, name),
{
}

/// A change in a scope leaves the settings of the whole application and of
/// every other scope as they were. The scope then has an item of its own, and
/// shows it: its own item as it was, or else a copy of the item of the whole
/// application, with the change made to it.
pub proof fn lemma_change_in_scope(
    all: SettingModel,
    id: i32,
    name: Seq<char>,
    change: Seq<Seq<char>>,
    other: Seq<char>,
)
    requires
        id != GLOBLE,
        setting_changed(all, id, name, change) is Ok,
    ensures
        ({
            let after = setting_changed(all, id, name, change)->Ok_0;
            let before = match all.scopes[id].setting.java {
                Some(java) => Ok(java),
                None => copied_item(name, all.globle),
            };
            &&& after.globle == all.globle
            &&& setting_get(after, GLOBLE, other) == setting_get(all, GLOBLE, other)
            &&& after.scopes.dom() == all.scopes.dom()
            &&& forall|j: i32|
                j != id && all.scopes.contains_key(j) ==> after.scopes[j] == all.scopes[j]
            &&& before is Ok
            &&& JavaVersions::received(before->Ok_0, change) is Ok
            &&& after.scopes[id].setting.java == Some(
                JavaVersions::received(before->Ok_0, change)->Ok_0,
            )
            &&& setting_get(after, id, name) == Ok::<JsonValue, SettingError>(
                JavaVersions::sent(JavaVersions::received(before->Ok_0, change)->Ok_0),
            )
        }),
{
    let after = setting_changed(all, id, name, change)->Ok_0;
    assert(after.scopes.dom() =~= all.scopes.dom());
}

/// A change to the whole application leaves every scope as it was: a scope
/// with an item of its own goes on showing that item, and a scope without one
/// shows the changed item of the whole application.
pub proof fn lemma_change_in_globle(
    all: SettingModel,
    name: Seq<char>,
    change: Seq<Seq<char>>,
    id: i32,
    other: Seq<char>,
)
    requires
        id != GLOBLE,
        all.scopes.contains_key(id),
        setting_changed(all, GLOBLE, name, change) is Ok,
    ensures
        ({
            let after = setting_changed(all, GLOBLE, name, change)->Ok_0;
            &&& after.scopes == all.scopes
            &&& all.scopes[id].setting.java is Some ==> setting_get(after, id, other)
                == setting_get(all, id, other)
            &&& all.scopes[id].setting.java is None ==> setting_get(after, id, other)
                == setting_get(after, GLOBLE, other)
        }),
{
}

/// Under a name that is the name of no item, nothing is shown and nothing is
/// changed, in whatever scope there is.
pub proof fn lemma_unknown_name(
    all: SettingModel,
    id: i32,
    name: Seq<char>,
    change: Seq<Seq<char>>,
)
    requires
        item_named(name) is None,
        id == GLOBLE || all.scopes.contains_key(id),
    ensures
        setting_get(all, id, name) == Err::<JsonValue, SettingError>(SettingError::NotFound),
        setting_changed(all, id, name, change) == Err::<SettingModel, SettingError>(
            SettingError::NotFound,
        ),
{
}

/// Under an id that is the id of no scope, nothing is shown and nothing is
/// changed, whatever the name.
pub proof fn lemma_unknown_scope(
    all: SettingModel,
    id: i32,
    name: Seq<char>,
    change: Seq<Seq<char>>,
)
    requires
        id != GLOBLE,
        !all.scopes.contains_key(id),
    ensures
        setting_get(all, id, name) == Err::<JsonValue, SettingError>(SettingError::ScopeNotFound),
        setting_changed(all, id, name, change) == Err::<SettingModel, SettingError>(
            SettingError::ScopeNotFound,
        ),
{
}

/// The only name of an item is `java`.
pub proof fn lemma_item_names(name: Seq<char>)
    ensures
        item_named(name) == Some(ItemName::Java) <==> name == seq!['j', 'a', 'v', 'a'],
{
    reveal_strlit("java");
    assert("java"@ =~= seq!['j', 'a', 'v', 'a']);
}

/// The saved form of settings whose list is tidy holds exactly those
/// settings, whatever a first run would be told.
pub proof fn lemma_settings_read_of_saved(settings: SettingsModel, probe: &JavaProbe)
    requires
        list_tidy(settings.java),
    ensures
        settings_restored(settings_saved(settings), probe) == Ok::<SettingsModel, SettingError>(
            settings,
        ),
{
    reveal_with_fuel(field_from, 2);
    lemma_list_read_of_written_exactly(settings.java);
}

/// The saved form of the settings of a scope holds exactly those settings,
/// where the scope's own list, if it has one, is tidy: an item that is absent
/// is absent from the saved form, and is absent again when the form is read.
pub proof fn lemma_modpack_read_of_saved(setting: ModpackModel)
    requires
        setting.java matches Some(java) ==> list_tidy(java),
    ensures
        modpack_restored(modpack_saved(setting)) == Ok::<ModpackModel, SettingError>(setting),
{
    reveal_with_fuel(field_from, 2);
    if let Some(java) = setting.java {
        lemma_list_read_of_written_exactly(java);
    }
}

/// The copy that a scope makes of the item of the whole application is the
/// same setting as that item, where the item is one whose saved form holds
/// all of it; and it is exactly that item where the item is tidy.
pub proof fn lemma_copy_of_item(name: Seq<char>, globle: SettingsModel)
    requires
        item_named(name) is Some,
    ensures
        list_reads_back(globle.java) ==> (copied_item(name, globle) matches Ok(copy) && same_list(
            copy,
            globle.java,
        )),
        list_tidy(globle.java) ==> copied_item(name, globle) == Ok::<JavaList, SettingError>(
            globle.java,
        ),
{
    if list_reads_back(globle.java) {
        JavaVersions::lemma_read_of_written(globle.java);
    }
    if list_tidy(globle.java) {
        lemma_list_read_of_written_exactly(globle.java);
    }
}

/// The table that is made of a list of scopes holds each scope under its own
/// id, and holds under the id of a scope the last scope of the list that has
/// that id.
pub proof fn lemma_scope_table(scopes: Seq<ScopeModel>)
    ensures
        forall|id: i32| #[trigger]
            scope_table(scopes).contains_key(id) ==> scope_table(scopes)[id].id == id,
        forall|i: int|
            0 <= i < scopes.len() && (#[trigger] scopes[i]).id != GLOBLE ==> scope_table(
                scopes,
            ).contains_key(scopes[i].id),
        forall|i: int|
            0 <= i < scopes.len() && (#[trigger] scopes[i]).id != GLOBLE && (forall|j: int|
                i < j < scopes.len() ==> scopes[j].id != scopes[i].id) ==> scope_table(
                scopes,
            )[scopes[i].id] == scopes[i],
    decreases scopes.len(),
{
    if scopes.len() > 0 {
        let front = scopes.drop_last();
        lemma_scope_table(front);
        assert forall|i: int|
            0 <= i < scopes.len() && (#[trigger] scopes[i]).id != GLOBLE implies scope_table(
            scopes,
        ).contains_key(scopes[i].id) by {
            if i < front.len() {
                assert(front[i] == scopes[i]);
            }
        }
        assert forall|i: int|
            0 <= i < scopes.len() && (#[trigger] scopes[i]).id != GLOBLE && (forall|j: int|
                i < j < scopes.len() ==> scopes[j].id != scopes[i].id) implies scope_table(
            scopes,
        )[scopes[i].id] == scopes[i] by {
            if i < front.len() {
                assert(front[i] == scopes[i]);
                assert forall|j: int| i < j < front.len() implies front[j].id != front[i].id by {
                    assert(front[j] == scopes[j]);
                }
                assert(scopes[scopes.len() - 1].id != scopes[i].id);
            }
        }
    }
}

} // verus!
