use vstd::prelude::*;

verus! {

/// A JSON value. A number is held as the characters of its literal.
#[derive(Debug, PartialEq)]
pub enum Json {
    Null,
    Bool(bool),
    /// A number, as the characters of its literal.
    Number(String),
    Text(String),
    Array(Vec<Json>),
    /// The fields of an object, in their order.
    Object(Vec<(String, Json)>),
}

/// What a [`Json`] holds, as sequences.
pub ghost enum JsonValue {
    Null,
    Bool(bool),
    Number(Seq<char>),
    Text(Seq<char>),
    Array(Seq<JsonValue>),
    Object(Seq<(Seq<char>, JsonValue)>),
}

/// What a [`Json`] holds.
pub open spec fn value_of(json: Json) -> JsonValue
    decreases json,
{
    match json {
        Json::Null => JsonValue::Null,
        Json::Bool(b) => JsonValue::Bool(b),
        Json::Number(n) => JsonValue::Number(n@),
        Json::Text(s) => JsonValue::Text(s@),
        Json::Array(items) => JsonValue::Array(values_of(items@)),
        Json::Object(fields) => JsonValue::Object(fields_of(fields@)),
    }
}

/// What the items of an array hold, one for one.
pub open spec fn values_of(items: Seq<Json>) -> Seq<JsonValue>
    decreases items,
{
    if items.len() == 0 {
        Seq::empty()
    } else {
        values_of(items.drop_last()).push(value_of(items.last()))
    }
}

/// What the fields of an object hold, one for one.
pub open spec fn fields_of(fields: Seq<(String, Json)>) -> Seq<(Seq<char>, JsonValue)>
    decreases fields,
{
    if fields.len() == 0 {
        Seq::empty()
    } else {
        fields_of(fields.drop_last()).push((fields.last().0@, value_of(fields.last().1)))
    }
}

impl View for Json {
    type V = JsonValue;

    open spec fn view(&self) -> JsonValue {
        value_of(*self)
    }
}

/// The items of an array are held one for one.
pub proof fn lemma_values_of(items: Seq<Json>)
    ensures
        values_of(items).len() == items.len(),
        forall|i: int| 0 <= i < items.len() ==> (#[trigger] values_of(items)[i]) == items[i]@,
    decreases items.len(),
{
    if items.len() > 0 {
        lemma_values_of(items.drop_last());
    }
}

/// The fields of an object are held one for one.
pub proof fn lemma_fields_of(fields: Seq<(String, Json)>)
    ensures
        fields_of(fields).len() == fields.len(),
        forall|i: int|
            0 <= i < fields.len() ==> (#[trigger] fields_of(fields)[i]) == (
                fields[i].0@,
                fields[i].1@,
            ),
    decreases fields.len(),
{
    if fields.len() > 0 {
        lemma_fields_of(fields.drop_last());
    }
}

/// The value of the first field named `key` among `fields`, from `from` on.
pub open spec fn field_from(
    fields: Seq<(Seq<char>, JsonValue)>,
    key: Seq<char>,
    from: int,
) -> Option<JsonValue>
    decreases fields.len() - from,
{
    if 0 <= from < fields.len() {
        if fields[from].0 == key {
            Some(fields[from].1)
        } else {
            field_from(fields, key, from + 1)
        }
    } else {
        None
    }
}

/// The number of fields named `key` among `fields`, from `from` on.
pub open spec fn count_from(fields: Seq<(Seq<char>, JsonValue)>, key: Seq<char>, from: int) -> nat
    decreases fields.len() - from,
{
    if 0 <= from < fields.len() {
        if fields[from].0 == key {
            1 + count_from(fields, key, from + 1)
        } else {
            count_from(fields, key, from + 1)
        }
    } else {
        0
    }
}

impl JsonValue {
    /// The value of the field `key` of an object: of the first one where
    /// several have that name. Anything but an object has no fields.
    pub open spec fn get(self, key: Seq<char>) -> Option<JsonValue> {
        match self {
            JsonValue::Object(fields) => field_from(fields, key, 0),
            _ => None,
        }
    }

    /// The value of the field `key` of an object that has exactly one field
    /// of that name.
    pub open spec fn only(self, key: Seq<char>) -> Option<JsonValue> {
        match self {
            JsonValue::Object(fields) => if count_from(fields, key, 0) == 1 {
                field_from(fields, key, 0)
            } else {
                None
            },
            _ => None,
        }
    }
}

impl Json {
    /// The value of the field `key`, where `self` is an object that has one.
    pub fn get(&self, key: &str) -> (r: Option<&Json>)
        ensures
            match r {
                Some(j) => self@.get(key@) == Some(j@),
                None => self@.get(key@) is None,
            },
    {
        match self {
            Json::Object(fields) => {
                let name = String::from_str(key);
                let mut i: usize = 0;
                proof {
                    lemma_fields_of(fields@);
                }
                while i < fields.len()
                    invariant
                        i <= fields.len(),
                        name@ == key@,
                        self@ matches JsonValue::Object(fs) && fs.len() == fields.len()
                            && field_from(fs, key@, 0) == field_from(fs, key@, i as int)
                            && forall|k: int|
                            0 <= k < fs.len() ==> #[trigger] fs[k] == (fields[k].0@, fields[k].1@),
                    decreases fields.len() - i,
                {
                    if fields[i].0 == name {
                        return Some(&fields[i].1);
                    }
                    i += 1;
                }
                None
            },
            _ => None,
        }
    }
}

impl Json {
    /// The value of the field `key`, where `self` is an object that has
    /// exactly one field of that name.
    pub fn only(&self, key: &str) -> (r: Option<&Json>)
        ensures
            match r {
                Some(j) => self@.only(key@) == Some(j@),
                None => self@.only(key@) is None,
            },
    {
        match self {
            Json::Object(fields) => {
                let name = String::from_str(key);
                proof {
                    lemma_fields_of(fields@);
                }
                let ghost fs = fields_of(fields@);
                let mut found: Option<usize> = None;
                let mut i: usize = 0;
                while i < fields.len()
                    invariant
                        i <= fields.len(),
                        name@ == key@,
                        self@ == JsonValue::Object(fs),
                        fs.len() == fields.len(),
                        forall|k: int|
                            0 <= k < fs.len() ==> #[trigger] fs[k] == (fields[k].0@, fields[k].1@),
                        match found {
                            Some(at) => at < i && count_from(fs, key@, 0) == 1 + count_from(
                                fs,
                                key@,
                                i as int,
                            ) && field_from(fs, key@, 0) == Some(fs[at as int].1),
                            None => count_from(fs, key@, 0) == count_from(fs, key@, i as int)
                                && field_from(fs, key@, 0) == field_from(fs, key@, i as int),
                        },
                    decreases fields.len() - i,
                {
                    if fields[i].0 == name {
                        if found.is_some() {
                            return None;
                        }
                        found = Some(i);
                    }
                    i += 1;
                }
                match found {
                    Some(at) => Some(&fields[at].1),
                    None => None,
                }
            },
            _ => None,
        }
    }
}

/// Whether the arrays and objects of a value stand at most `depth` deep
/// within each other.
pub open spec fn nested_within(json: JsonValue, depth: nat) -> bool
    decreases depth, 0nat,
{
    match json {
        JsonValue::Array(items) => depth > 0 && items_within(items, (depth - 1) as nat, 0),
        JsonValue::Object(fields) => depth > 0 && fields_within(fields, (depth - 1) as nat, 0),
        _ => true,
    }
}

/// Whether each of the items from `from` on is nested at most `depth` deep.
pub open spec fn items_within(items: Seq<JsonValue>, depth: nat, from: int) -> bool
    decreases depth, items.len() - from + 1,
{
    if 0 <= from < items.len() {
        nested_within(items[from], depth) && items_within(items, depth, from + 1)
    } else {
        true
    }
}

/// Whether the value of each of the fields from `from` on is nested at most
/// `depth` deep.
pub open spec fn fields_within(fields: Seq<(Seq<char>, JsonValue)>, depth: nat, from: int) -> bool
    decreases depth, fields.len() - from + 1,
{
    if 0 <= from < fields.len() {
        nested_within(fields[from].1, depth) && fields_within(fields, depth, from + 1)
    } else {
        true
    }
}

impl Json {
    /// Whether the arrays and objects of the value stand at most `depth`
    /// deep within each other.
    pub fn fits(&self, depth: usize) -> (r: bool)
        ensures
            r == nested_within(self@, depth as nat),
        decreases depth,
    {
        match self {
            Json::Array(items) => {
                if depth == 0 {
                    return false;
                }
                let ghost values = values_of(items@);
                let ghost below = (depth - 1) as nat;
                proof {
                    lemma_values_of(items@);
                }
                let mut i: usize = 0;
                while i < items.len()
                    invariant
                        i <= items.len(),
                        depth > 0,
                        below == depth - 1,
                        self@ == JsonValue::Array(values),
                        values.len() == items.len(),
                        forall|k: int| 0 <= k < items.len() ==> (#[trigger] values[k]) == items[k]@,
                        items_within(values, below, 0) == items_within(values, below, i as int),
                    decreases items.len() - i,
                {
                    if !items[i].fits(depth - 1) {
                        return false;
                    }
                    i += 1;
                }
                true
            },
            Json::Object(fields) => {
                if depth == 0 {
                    return false;
                }
                let ghost held = fields_of(fields@);
                let ghost below = (depth - 1) as nat;
                proof {
                    lemma_fields_of(fields@);
                }
                let mut i: usize = 0;
                while i < fields.len()
                    invariant
                        i <= fields.len(),
                        depth > 0,
                        below == depth - 1,
                        self@ == JsonValue::Object(held),
                        held.len() == fields.len(),
                        forall|k: int|
                            0 <= k < fields.len() ==> (#[trigger] held[k]) == (
                                fields[k].0@,
                                fields[k].1@,
                            ),
                        fields_within(held, below, 0) == fields_within(held, below, i as int),
                    decreases fields.len() - i,
                {
                    if !fields[i].1.fits(depth - 1) {
                        return false;
                    }
                    i += 1;
                }
                true
            },
            _ => true,
        }
    }
}

/// An array with one more item holds what it held, and the item.
pub proof fn lemma_values_push(items: Seq<Json>, item: Json)
    ensures
        values_of(items.push(item)) == values_of(items).push(item@),
{
    assert(items.push(item).drop_last() =~= items);
}

/// An object with one more field holds what it held, and the field.
pub proof fn lemma_fields_push(fields: Seq<(String, Json)>, name: String, json: Json)
    ensures
        fields_of(fields.push((name, json))) == fields_of(fields).push((name@, json@)),
{
    assert(fields.push((name, json)).drop_last() =~= fields);
}

} // verus!
