use vstd::prelude::*;
use crate::decimal::{decimal, lemma_natural_of_decimal, natural, push_decimal, read_natural};
use crate::json::{
    count_from, field_from, fields_of, lemma_fields_push, lemma_values_of, lemma_values_push,
    values_of, Json, JsonValue,
};
use crate::setting_trait::{change_of, viewed, SettingError, SettingTrait};
use crate::text::{chars_of, string_of};
use crate::version::{parsed, same_numbers, Version, VersionModel};
use crate::version_laws::{
    lemma_display_parses, lemma_display_parses_exactly, lemma_parsed_tidy,
    lemma_reads_back_is_needed, reads_back, tidy,
};
use crate::version_json::{version_restored, version_written};

verus! {

/// One installation of Java: where it is, and its version.
#[derive(Debug, Clone)]
struct JavaVersion {
    path: String,
    version: Version,
}

/// The installations of Java that are known, and which of them is chosen.
#[derive(Debug, Clone)]
pub struct JavaVersions {
    versions: Vec<JavaVersion>,
    select: u8,
}

/// What a [`JavaVersion`] holds.
pub ghost struct JavaEntry {
    pub path: Seq<char>,
    pub version: VersionModel,
}

/// What a [`JavaVersions`] holds.
pub ghost struct JavaList {
    pub versions: Seq<JavaEntry>,
    pub select: u8,
}

/// A `java` that was found on the search path.
#[derive(Debug)]
pub struct JavaOnPath {
    /// Where it was found.
    pub path: String,
    /// The bytes that it wrote when asked for its version, where it could be
    /// run.
    pub output: Option<Vec<u8>>,
}

/// What a first run is told of the machine: the list that an earlier run
/// saved, or else what the search path holds.
#[derive(Debug)]
pub enum JavaProbe {
    /// The list that an earlier run saved.
    Saved(Json),
    /// The `java` on the search path, if there is one.
    Path(Option<JavaOnPath>),
}

impl View for JavaVersion {
    type V = JavaEntry;

    closed spec fn view(&self) -> JavaEntry {
        JavaEntry { path: self.path@, version: self.version@ }
    }
}

impl View for JavaVersions {
    type V = JavaList;

    closed spec fn view(&self) -> JavaList {
        JavaList { versions: self.versions@.map_values(|e: JavaVersion| e@), select: self.select }
    }
}

/// The position of the first line feed of `t` at or after `i`, or the length
/// of `t` where none follows.
pub open spec fn line_end(t: Seq<char>, i: int) -> int
    decreases t.len() - i,
{
    if 0 <= i < t.len() && t[i] != '\n' {
        line_end(t, i + 1)
    } else {
        i
    }
}

/// The first line of a text, without the line feed that ends it or the
/// carriage return and line feed that end it. An empty text has no line.
pub open spec fn first_line_of(t: Seq<char>) -> Option<Seq<char>> {
    let end = line_end(t, 0);
    if t.len() == 0 {
        None
    } else if 0 < end < t.len() && t[end - 1] == '\r' {
        Some(t.subrange(0, end - 1))
    } else {
        Some(t.subrange(0, end))
    }
}

/// The list with nothing in it.
pub open spec fn no_versions() -> JavaList {
    JavaList { versions: Seq::empty(), select: 0 }
}

/// The text that `String::from_utf8_lossy` makes of bytes.
pub uninterp spec fn lossy_text(bytes: Seq<u8>) -> Seq<char>;

/// `String::from_utf8_lossy` of the standard library, and `Cow::into_owned`
/// on what it gives. The text depends on the bytes alone, so it has a name.
#[verifier::external_body]
fn from_utf8_lossy(bytes: &[u8]) -> (r: String)
    ensures
        r@ == lossy_text(bytes@),
{
    String::from_utf8_lossy(bytes).into_owned()
}

/// The list that the search path gives: the `java` that was found, where the
/// first line of what it wrote denotes a version once the double quotes are
/// passed over; else nothing.
pub open spec fn path_versions(found: Option<JavaOnPath>) -> JavaList {
    match found {
        Some(JavaOnPath { path, output: Some(bytes) }) => match first_line_of(lossy_text(bytes@)) {
            Some(line) => match parsed(line, seq!['"']) {
                Ok(version) => JavaList {
                    versions: seq![JavaEntry { path: path@, version }],
                    select: 0,
                },
                Err(_) => no_versions(),
            },
            None => no_versions(),
        },
        _ => no_versions(),
    }
}

/// The saved form of one installation.
pub open spec fn entry_written(e: JavaEntry) -> JsonValue {
    JsonValue::Object(
        seq![("path"@, JsonValue::Text(e.path)), ("version"@, version_written(e.version))],
    )
}

/// The installation that a saved form holds. Each of the two fields is there
/// once; other fields are passed over.
pub open spec fn entry_restored(json: JsonValue) -> Result<JavaEntry, SettingError> {
    match (json.only("path"@), json.only("version"@)) {
        (Some(JsonValue::Text(path)), Some(inner)) => match version_restored(inner) {
            Ok(version) => Ok(JavaEntry { path, version }),
            Err(e) => Err(e),
        },
        _ => Err(SettingError::Parse),
    }
}

/// The saved form of a list.
pub open spec fn list_written(list: JavaList) -> JsonValue {
    JsonValue::Object(
        seq![
            ("select"@, JsonValue::Number(decimal(list.select as nat))),
            (
                "versions"@,
                JsonValue::Array(list.versions.map_values(|e: JavaEntry| entry_written(e))),
            ),
        ],
    )
}

/// The list that a saved form holds: its field `select` is the numeral of a
/// number up to 255, and its field `versions` an array of installations.
pub open spec fn list_restored(json: JsonValue) -> Result<JavaList, SettingError> {
    match (json.only("select"@), json.only("versions"@)) {
        (Some(JsonValue::Number(text)), Some(JsonValue::Array(items))) => {
            if natural(text, 255) is Some && forall|i: int|
                0 <= i < items.len() ==> (#[trigger] entry_restored(items[i])) is Ok {
                Ok(
                    JavaList {
                        versions: items.map_values(|j: JsonValue| entry_restored(j)->Ok_0),
                        select: natural(text, 255)->0 as u8,
                    },
                )
            } else {
                Err(SettingError::Parse)
            }
        },
        _ => Err(SettingError::Parse),
    }
}

/// The list after a change. A change of two strings, a path and the text of a
/// version, adds that installation at the end; the text is read with the
/// double quotes passed over. No other change is taken.
pub open spec fn list_received(list: JavaList, change: Seq<Seq<char>>) -> Result<
    JavaList,
    SettingError,
> {
    if change.len() == 2 {
        match parsed(change[1], seq!['"']) {
            Ok(version) => Ok(
                JavaList {
                    versions: list.versions.push(JavaEntry { path: change[0], version }),
                    select: list.select,
                },
            ),
            Err(_) => Err(SettingError::Parse),
        }
    } else {
        Err(SettingError::Unsupported)
    }
}

/// The first line of a text.
pub fn first_line(text: &str) -> (r: Option<String>)
    ensures
        match r {
            Some(line) => first_line_of(text@) == Some(line@),
            None => first_line_of(text@) is None,
        },
{
    let t = chars_of(text);
    if t.len() == 0 {
        return None;
    }
    let mut end: usize = 0;
    while end < t.len() && t[end] != '\n'
        invariant
            end <= t.len(),
            line_end(t@, 0) == line_end(t@, end as int),
        decreases t.len() - end,
    {
        end += 1;
    }
    let stop: usize = if 0 < end && end < t.len() && t[end - 1] == '\r' {
        end - 1
    } else {
        end
    };
    let mut line: Vec<char> = Vec::new();
    let mut k: usize = 0;
    while k < stop
        invariant
            k <= stop <= t.len(),
            line@ == t@.subrange(0, k as int),
        decreases stop - k,
    {
        line.push(t[k]);
        assert(t@.subrange(0, k + 1) =~= t@.subrange(0, k as int).push(t@[k as int]));
        k += 1;
    }
    Some(string_of(&line))
}

/// The line in which a `java` names its version: the first line of what it
/// wrote.
pub fn get_java_version(output: &[u8]) -> (r: Option<String>)
    ensures
        match r {
            Some(line) => first_line_of(lossy_text(output@)) == Some(line@),
            None => first_line_of(lossy_text(output@)) is None,
        },
{
    let text = from_utf8_lossy(output);
    first_line(text.as_str())
}

impl JavaVersion {
    fn write(&self) -> (json: Json)
        ensures
            json@ == entry_written(self@),
    {
        let mut fields: Vec<(String, Json)> = Vec::new();
        let path_name = String::from_str("path");
        let path = Json::Text(self.path.clone());
        proof {
            lemma_fields_push(fields@, path_name, path);
        }
        fields.push((path_name, path));
        let version_name = String::from_str("version");
        let version = self.version.serialize();
        proof {
            lemma_fields_push(fields@, version_name, version);
        }
        fields.push((version_name, version));
        assert(fields_of(fields@) =~= seq![
            ("path"@, JsonValue::Text(self.path@)),
            ("version"@, version_written(self.version@)),
        ]);
        Json::Object(fields)
    }

    fn read(json: &Json) -> (r: Result<JavaVersion, SettingError>)
        ensures
            viewed(r) == entry_restored(json@),
    {
        match (json.only("path"), json.only("version")) {
            (Some(Json::Text(path)), Some(inner)) => match Version::deserialize(inner) {
                Ok(version) => Ok(JavaVersion { path: path.clone(), version }),
                Err(e) => Err(e),
            },
            _ => Err(SettingError::Parse),
        }
    }
}

impl JavaVersions {
    /// A list with nothing in it.
    pub fn new() -> (r: Self)
        ensures
            r@ == no_versions(),
    {
        let r = JavaVersions { versions: Vec::new(), select: 0 };
        assert(r@.versions =~= Seq::empty());
        r
    }

    /// Adds an installation at the end of the list.
    pub fn add_version(&mut self, path: String, version: Version)
        ensures
            final(self)@ == (JavaList {
                versions: old(self)@.versions.push(JavaEntry { path: path@, version: version@ }),
                select: old(self)@.select,
            }),
    {
        self.versions.push(JavaVersion { path, version });
        assert(final(self)@.versions =~= old(self)@.versions.push(
            JavaEntry { path: path@, version: version@ },
        ));
    }

    /// The list that the search path gives.
    pub fn load_path_versions(found: Option<&JavaOnPath>) -> (r: Self)
        ensures
            r@ == path_versions(
                match found {
                    Some(f) => Some(*f),
                    None => None,
                },
            ),
    {
        let mut versions = JavaVersions::new();
        if let Some(java) = found {
            if let Some(bytes) = &java.output {
                if let Some(line) = get_java_version(bytes.as_slice()) {
                    let ignore: Vec<char> = vec!['"'];
                    if let Ok(version) = Version::from_string(&line, Some(&ignore)) {
                        assert(ignore@ =~= seq!['"']);
                        versions.add_version(java.path.clone(), version);
                        assert(versions@.versions =~= seq![
                            JavaEntry { path: java.path@, version: version@ },
                        ]);
                    } else {
                        assert(ignore@ =~= seq!['"']);
                    }
                }
            }
        }
        versions
    }
}

/// The lists in which the text of every version is read back with the same
/// numbers.
pub open spec fn list_reads_back(list: JavaList) -> bool {
    forall|i: int| 0 <= i < list.versions.len() ==> reads_back(#[trigger] list.versions[i].version)
}

/// Whether two lists choose the same installation and hold the same
/// installations in the same order: the same paths, and versions with the
/// same numbers.
pub open spec fn same_list(a: JavaList, b: JavaList) -> bool {
    &&& a.select == b.select
    &&& a.versions.len() == b.versions.len()
    &&& forall|i: int|
        0 <= i < a.versions.len() ==> (#[trigger] a.versions[i]).path == b.versions[i].path
            && same_numbers(a.versions[i].version, b.versions[i].version)
}

/// The saved form of an installation holds its path and a version with the
/// same numbers.
pub proof fn lemma_entry_read_of_written(e: JavaEntry)
    requires
        reads_back(e.version),
    ensures
        entry_restored(entry_written(e)) matches Ok(back) && back.path == e.path && same_numbers(
            back.version,
            e.version,
        ),
{
    reveal_strlit("path");
    reveal_strlit("version");
    reveal_strlit("value");
    reveal_with_fuel(field_from, 3);
    reveal_with_fuel(count_from, 3);
    lemma_display_parses(e.version);
    assert("path"@ != "version"@) by {
        assert("path"@.len() == 4);
        assert("version"@.len() == 7);
    }
}

/// The saved form of a list that is not one that reads back does not hold the
/// same list: the condition leaves out no list that it could keep.
pub proof fn lemma_list_reads_back_is_needed(list: JavaList)
    requires
        !list_reads_back(list),
    ensures
        !(list_restored(list_written(list)) matches Ok(back) && same_list(back, list)),
{
    reveal_strlit("select");
    reveal_strlit("versions");
    reveal_strlit("path");
    reveal_strlit("version");
    reveal_strlit("value");
    reveal_with_fuel(field_from, 3);
    reveal_with_fuel(count_from, 3);
    let i = choose|i: int|
        0 <= i < list.versions.len() && !reads_back(#[trigger] list.versions[i].version);
    lemma_reads_back_is_needed(list.versions[i].version);
    let items = list.versions.map_values(|e: JavaEntry| entry_written(e));
    assert("select"@ != "versions"@) by {
        assert("select"@.len() == 6);
        assert("versions"@.len() == 8);
    }
    assert("path"@ != "version"@) by {
        assert("path"@.len() == 4);
        assert("version"@.len() == 7);
    }
    assert(list_written(list).only("versions"@) == Some(JsonValue::Array(items)));
    assert(items[i] == entry_written(list.versions[i]));
    if let Ok(back) = list_restored(list_written(list)) {
        assert(back.versions[i] == entry_restored(items[i])->Ok_0);
    }
}

/// The lists in which every version is one that a text can denote.
pub open spec fn list_tidy(list: JavaList) -> bool {
    forall|i: int| 0 <= i < list.versions.len() ==> tidy(#[trigger] list.versions[i].version)
}

/// The saved form of an installation with a tidy version holds exactly that
/// installation.
pub proof fn lemma_entry_read_of_written_exactly(e: JavaEntry)
    requires
        tidy(e.version),
    ensures
        entry_restored(entry_written(e)) == Ok::<JavaEntry, SettingError>(e),
{
    reveal_strlit("path");
    reveal_strlit("version");
    reveal_strlit("value");
    reveal_with_fuel(field_from, 3);
    reveal_with_fuel(count_from, 3);
    lemma_display_parses_exactly(e.version);
    assert("path"@ != "version"@) by {
        assert("path"@.len() == 4);
        assert("version"@.len() == 7);
    }
}

/// The saved form of a tidy list holds exactly that list.
pub proof fn lemma_list_read_of_written_exactly(list: JavaList)
    requires
        list_tidy(list),
    ensures
        list_restored(list_written(list)) == Ok::<JavaList, SettingError>(list),
{
    reveal_strlit("select");
    reveal_strlit("versions");
    reveal_with_fuel(field_from, 3);
    reveal_with_fuel(count_from, 3);
    lemma_natural_of_decimal(list.select as nat, 255);
    let json = list_written(list);
    let items = list.versions.map_values(|e: JavaEntry| entry_written(e));
    assert("select"@ != "versions"@) by {
        assert("select"@.len() == 6);
        assert("versions"@.len() == 8);
    }
    assert(json.only("select"@) == Some(JsonValue::Number(decimal(list.select as nat))));
    assert(json.only("versions"@) == Some(JsonValue::Array(items)));
    assert forall|i: int| 0 <= i < items.len() implies (#[trigger] entry_restored(items[i]))
        == Ok::<JavaEntry, SettingError>(list.versions[i]) by {
        lemma_entry_read_of_written_exactly(list.versions[i]);
    }
    assert(items.map_values(|j: JsonValue| entry_restored(j)->Ok_0) =~= list.versions);
}

/// A list that is read from a saved form is tidy: so its own saved form holds
/// exactly that list.
pub proof fn lemma_restored_tidy(json: JsonValue)
    ensures
        list_restored(json) matches Ok(read) ==> list_tidy(read) && list_restored(
            list_written(read),
        ) == Ok::<JavaList, SettingError>(read),
{
    if let Ok(read) = list_restored(json) {
        assert forall|i: int| 0 <= i < read.versions.len() implies tidy(
            #[trigger] read.versions[i].version,
        ) by {
            let item = json.only("versions"@)->0->Array_0[i];
            assert(entry_restored(item) is Ok);
            let text = item.only("version"@)->0.only("value"@)->0->Text_0;
            lemma_parsed_tidy(text, Seq::empty());
        }
        lemma_list_read_of_written_exactly(read);
    }
}

/// A tidy list is tidy after a change.
pub proof fn lemma_received_tidy(list: JavaList, change: Seq<Seq<char>>)
    requires
        list_tidy(list),
    ensures
        list_received(list, change) matches Ok(after) ==> list_tidy(after),
{
    if let Ok(after) = list_received(list, change) {
        lemma_parsed_tidy(change[1], seq!['"']);
        assert forall|i: int| 0 <= i < after.versions.len() implies tidy(
            #[trigger] after.versions[i].version,
        ) by {
            if i < list.versions.len() {
                assert(after.versions[i] == list.versions[i]);
            }
        }
    }
}

/// The list that the search path gives is tidy.
pub proof fn lemma_path_versions_tidy(found: Option<JavaOnPath>)
    ensures
        list_tidy(path_versions(found)),
{
    if let Some(JavaOnPath { path, output: Some(bytes) }) = found {
        if let Some(line) = first_line_of(lossy_text(bytes@)) {
            lemma_parsed_tidy(line, seq!['"']);
        }
    }
}

impl SettingTrait for JavaVersions {
    type Probe = JavaProbe;

    open spec fn restored(json: JsonValue) -> Result<JavaList, SettingError> {
        list_restored(json)
    }

    open spec fn first(probe: &JavaProbe) -> Result<JavaList, SettingError> {
        match *probe {
            JavaProbe::Saved(json) => list_restored(json@),
            JavaProbe::Path(found) => Ok(path_versions(found)),
        }
    }

    open spec fn written(item: JavaList) -> JsonValue {
        list_written(item)
    }

    open spec fn sent(item: JavaList) -> JsonValue {
        list_written(item)
    }

    open spec fn received(item: JavaList, change: Seq<Seq<char>>) -> Result<
        JavaList,
        SettingError,
    > {
        list_received(item, change)
    }

    open spec fn reads_back(item: JavaList) -> bool {
        list_reads_back(item)
    }

    open spec fn same(a: JavaList, b: JavaList) -> bool {
        same_list(a, b)
    }

    proof fn lemma_read_of_written(item: JavaList) {
        reveal_strlit("select");
        reveal_strlit("versions");
        reveal_with_fuel(field_from, 3);
        reveal_with_fuel(count_from, 3);
        lemma_natural_of_decimal(item.select as nat, 255);
        let json = list_written(item);
        let items = item.versions.map_values(|e: JavaEntry| entry_written(e));
        assert("select"@ != "versions"@) by {
            assert("select"@.len() == 6);
            assert("versions"@.len() == 8);
        }
        assert(json.only("select"@) == Some(JsonValue::Number(decimal(item.select as nat))));
        assert(json.only("versions"@) == Some(JsonValue::Array(items)));
        assert forall|i: int| 0 <= i < items.len() implies {
            &&& (#[trigger] entry_restored(items[i])) matches Ok(back)
            &&& back.path == item.versions[i].path
            &&& same_numbers(back.version, item.versions[i].version)
        } by {
            lemma_entry_read_of_written(item.versions[i]);
        }
    }

    fn restore(json: &Json) -> (r: Result<Self, SettingError>) {
        match (json.only("select"), json.only("versions")) {
            (Some(Json::Number(text)), Some(Json::Array(items))) => {
                let digits = chars_of(text.as_str());
                assert(digits@.skip(0) =~= digits@);
                let select: u8 = match read_natural(&digits, 0, 255) {
                    Some(n) => n as u8,
                    None => {
                        return Err(SettingError::Parse);
                    },
                };
                let ghost values = values_of(items@);
                proof {
                    lemma_values_of(items@);
                }
                let mut versions: Vec<JavaVersion> = Vec::new();
                let mut i: usize = 0;
                while i < items.len()
                    invariant
                        i <= items.len(),
                        json@.only("select"@) == Some(JsonValue::Number(text@)),
                        json@.only("versions"@) == Some(JsonValue::Array(values)),
                        natural(text@, 255) == Some(select as nat),
                        values == values_of(items@),
                        values.len() == items.len(),
                        forall|k: int| 0 <= k < items.len() ==> (#[trigger] values[k]) == items[k]@,
                        versions.len() == i,
                        forall|k: int| 0 <= k < i ==> (#[trigger] entry_restored(values[k])) is Ok,
                        forall|k: int|
                            0 <= k < i ==> (#[trigger] versions[k])@ == entry_restored(
                                values[k],
                            )->Ok_0,
                    decreases items.len() - i,
                {
                    match JavaVersion::read(&items[i]) {
                        Ok(entry) => {
                            versions.push(entry);
                        },
                        Err(_) => {
                            assert(!(entry_restored(values[i as int]) is Ok));
                            return Err(SettingError::Parse);
                        },
                    }
                    i += 1;
                }
                let r = JavaVersions { versions, select };
                assert(r@.versions =~= values.map_values(|j: JsonValue| entry_restored(j)->Ok_0));
                Ok(r)
            },
            _ => Err(SettingError::Parse),
        }
    }

    fn first_run(probe: &JavaProbe) -> (r: Result<Self, SettingError>) {
        match probe {
            JavaProbe::Saved(json) => JavaVersions::restore(json),
            JavaProbe::Path(found) => Ok(JavaVersions::load_path_versions(found.as_ref())),
        }
    }

    fn write(&self) -> (r: Result<Json, SettingError>)
        ensures
            r is Ok,
    {
        let mut items: Vec<Json> = Vec::new();
        let mut i: usize = 0;
        let ghost all = self@.versions.map_values(|e: JavaEntry| entry_written(e));
        assert(values_of(items@) =~= all.take(0));
        while i < self.versions.len()
            invariant
                i <= self.versions.len(),
                all == self@.versions.map_values(|e: JavaEntry| entry_written(e)),
                all.len() == self.versions.len(),
                values_of(items@) == all.take(i as int),
            decreases self.versions.len() - i,
        {
            let item = self.versions[i].write();
            proof {
                lemma_values_push(items@, item);
                assert(all.take(i + 1) =~= all.take(i as int).push(item@));
            }
            items.push(item);
            i += 1;
        }
        assert(all.take(all.len() as int) =~= all);
        let mut digits: Vec<char> = Vec::new();
        push_decimal(&mut digits, self.select as u64);
        assert(digits@ =~= decimal(self.select as nat));
        let mut fields: Vec<(String, Json)> = Vec::new();
        let select_name = String::from_str("select");
        let select = Json::Number(string_of(&digits));
        proof {
            lemma_fields_push(fields@, select_name, select);
        }
        fields.push((select_name, select));
        let versions_name = String::from_str("versions");
        let versions = Json::Array(items);
        proof {
            lemma_fields_push(fields@, versions_name, versions);
        }
        fields.push((versions_name, versions));
        assert(fields_of(fields@) =~= seq![
            ("select"@, JsonValue::Number(decimal(self.select as nat))),
            ("versions"@, JsonValue::Array(all)),
        ]);
        Ok(Json::Object(fields))
    }

    fn send(&self) -> (r: Result<Json, SettingError>)
        ensures
            r is Ok,
    {
        self.write()
    }

    fn receive(&mut self, value: Vec<String>) -> (r: Result<(), SettingError>) {
        if value.len() == 2 {
            let ignore: Vec<char> = vec!['"'];
            assert(ignore@ =~= seq!['"']);
            assert(change_of(value)[1] == value[1]@);
            assert(change_of(value)[0] == value[0]@);
            match Version::from_string(&value[1], Some(&ignore)) {
                Ok(version) => {
                    self.add_version(value[0].clone(), version);
                    Ok(())
                },
                Err(_) => Err(SettingError::Parse),
            }
        } else {
            Err(SettingError::Unsupported)
        }
    }
}

} // verus!
