use vstd::prelude::*;
use crate::json::{Json, JsonValue};

verus! {

/// Why a setting could not be read or changed.
#[derive(Debug, Clone, Copy, PartialEq, Eq, Structural)]
pub enum SettingError {
    /// No item has the name that was asked for.
    NotFound,
    /// No scope has the id that was asked for.
    ScopeNotFound,
    /// A saved form, or a text within it or within a change, is malformed.
    Parse,
    /// The item does not take a change of this shape.
    Unsupported,
}

/// A result with what it holds on success replaced by its view.
pub open spec fn viewed<T: View>(r: Result<T, SettingError>) -> Result<T::V, SettingError> {
    match r {
        Ok(item) => Ok(item@),
        Err(e) => Err(e),
    }
}

/// The strings of a change, each as its characters.
pub open spec fn change_of(value: Vec<String>) -> Seq<Seq<char>> {
    value@.map_values(|s: String| s@)
}

/// What every item of the settings can do: be read from its saved form or
/// made on a first run, be written back, be shown, and take a change.
pub trait SettingTrait: Sized + View {
    /// What a first run is told of the machine it runs on.
    type Probe;

    /// The item that a saved form holds.
    spec fn restored(json: JsonValue) -> Result<Self::V, SettingError>;

    /// The item that a first run makes.
    spec fn first(probe: &Self::Probe) -> Result<Self::V, SettingError>;

    /// The saved form of an item.
    spec fn written(item: Self::V) -> JsonValue;

    /// The form in which an item is shown.
    spec fn sent(item: Self::V) -> JsonValue;

    /// The item after a change.
    spec fn received(item: Self::V, change: Seq<Seq<char>>) -> Result<Self::V, SettingError>;

    /// The items whose saved form holds all of them.
    spec fn reads_back(item: Self::V) -> bool;

    /// Whether two items are the same setting.
    spec fn same(a: Self::V, b: Self::V) -> bool;

    /// Writing an item and reading the saved form gives the same setting.
    proof fn lemma_read_of_written(item: Self::V)
        requires
            Self::reads_back(item),
        ensures
            Self::restored(Self::written(item)) matches Ok(back) && Self::same(back, item),
    ;

    /// Reads an item from its saved form.
    fn restore(json: &Json) -> (r: Result<Self, SettingError>)
        ensures
            viewed(r) == Self::restored(json@),
    ;

    /// Makes the item of a first run.
    fn first_run(probe: &Self::Probe) -> (r: Result<Self, SettingError>)
        ensures
            viewed(r) == Self::first(probe),
    ;

    /// The saved form of the item.
    fn write(&self) -> (r: Result<Json, SettingError>)
        ensures
            r matches Ok(json) ==> json@ == Self::written(self@),
    ;

    /// The form in which the item is shown.
    fn send(&self) -> (r: Result<Json, SettingError>)
        ensures
            r matches Ok(json) ==> json@ == Self::sent(self@),
    ;

    /// Applies a change to the item. A change that fails leaves it as it was.
    fn receive(&mut self, value: Vec<String>) -> (r: Result<(), SettingError>)
        ensures
            match Self::received(old(self)@, change_of(value)) {
                Ok(item) => r is Ok && final(self)@ == item,
                Err(e) => r == Err::<(), SettingError>(e) && final(self)@ == old(self)@,
            },
    ;

    /// Reads the item from its saved form where there is one, and makes it as
    /// on a first run where there is none.
    fn read(json: Option<&Json>, probe: &Self::Probe) -> (r: Result<Self, SettingError>)
        ensures
            viewed(r) == match json {
                Some(j) => Self::restored(j@),
                None => Self::first(probe),
            },
    {
        match json {
            Some(j) => Self::restore(j),
            None => Self::first_run(probe),
        }
    }

    /// Reads the item from its saved form where there is one.
    fn read_modpack(json: Option<&Json>) -> (r: Result<Option<Self>, SettingError>)
        ensures
            match json {
                Some(j) => match r {
                    Ok(item) => item matches Some(i) && Self::restored(j@) == Ok::<
                        Self::V,
                        SettingError,
                    >(i@),
                    Err(e) => Self::restored(j@) == Err::<Self::V, SettingError>(e),
                },
                None => r matches Ok(None),
            },
    {
        match json {
            Some(j) => {
                let setting = Self::restore(j)?;
                Ok(Some(setting))
            },
            None => Ok(None),
        }
    }
}

} // verus!
