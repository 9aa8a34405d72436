use vstd::prelude::*;

verus! {

#[verifier::external_type_specification]
#[verifier::external_body]
pub struct ExValue(serde_json::Value);

/// Whether serde_json accepts this text as a JSON document. Parsing looks
/// at the characters alone, so acceptance is a function of them.
pub uninterp spec fn json_accepted(s: Seq<char>) -> bool;

/// The scripts table a manifest text holds: the (name, command) pairs of
/// its `scripts` member, when the text is JSON whose `scripts` member is
/// an object binding every name to a string; nothing otherwise. Parsing
/// looks at the characters alone, so this is a function of them.
pub uninterp spec fn manifest_entries(s: Seq<char>) -> Option<Seq<(Seq<char>, Seq<char>)>>;

/// The string table under the member `key` of a JSON value: the table of
/// that member's object when the value is an object holding `key`, and
/// nothing when it is no object or has no such member.
pub uninterp spec fn member_table(v: serde_json::Value, key: Seq<char>) -> Option<
    Seq<(Seq<char>, Seq<char>)>,
>;

/// The (name, text) pairs of a JSON object whose member values are all
/// strings, in the order the object hands its members out; nothing when
/// the value is no object or some member value is no string.
pub uninterp spec fn string_table(v: serde_json::Value) -> Option<Seq<(Seq<char>, Seq<char>)>>;

/// The text of a JSON string value; nothing for every other value.
pub uninterp spec fn string_of(v: serde_json::Value) -> Option<Seq<char>>;

/// Relies on serde_json::from_str::<Value>: it parses the given text and
/// nothing else, succeeding exactly on well-formed JSON; the document it
/// returns stands for that text, so what its `scripts` member holds is
/// the text's own scripts table.
#[verifier::external_body]
fn parse_json(data: &str) -> (r: Option<serde_json::Value>)
    ensures
        r is Some <==> json_accepted(data@),
        r is None ==> manifest_entries(data@) is None,
        r matches Some(doc) ==> member_table(doc, "scripts"@) == manifest_entries(data@),
{
    serde_json::from_str(data).ok()
}

/// Relies on serde_json::Value::get: looks a key up when the value is a
/// JSON object holding it, and is None on every other value, so it hands
/// back exactly the member whose table `member_table` names.
#[verifier::external_body]
fn value_member<'a>(v: &'a serde_json::Value, key: &str) -> (r: Option<&'a serde_json::Value>)
    ensures
        r matches Some(m) ==> string_table(*m) == member_table(*v, key@),
        r is None ==> member_table(*v, key@) is None,
{
    v.get(key)
}

/// Relies on serde_json::Value::as_object and Map::iter: hands out the
/// members of a JSON object as owned pairs in iteration order, and is
/// None on every value that is not an object; the object's string table
/// exists exactly when every member value is a string, and then holds the
/// members' names and texts in that same order.
#[verifier::external_body]
fn object_entries(v: &serde_json::Value) -> (r: Option<Vec<(String, serde_json::Value)>>)
    ensures
        r is None ==> string_table(*v) is None,
        r matches Some(pairs) ==> {
            &&& (string_table(*v) is Some <==> (forall|i: int|
                0 <= i < pairs@.len() ==> (#[trigger] string_of(pairs@[i].1)) is Some))
            &&& (string_table(*v) matches Some(tab) ==> {
                &&& tab.len() == pairs@.len()
                &&& forall|i: int|
                    0 <= i < pairs@.len() ==> (#[trigger] tab[i]).0 == pairs@[i].0@ && Some(
                        tab[i].1,
                    ) == string_of(pairs@[i].1)
            })
        },
{
    match v.as_object() {
        Some(m) => Some(m.iter().map(|(k, val)| (k.clone(), val.clone())).collect()),
        None => None,
    }
}

/// Relies on serde_json::Value::as_str: the owned text of a JSON string
/// value, and None on every value that is not a string.
#[verifier::external_body]
fn value_as_str(v: &serde_json::Value) -> (r: Option<String>)
    ensures
        r matches Some(text) ==> string_of(*v) == Some(text@),
        r is None ==> string_of(*v) is None,
{
    match v.as_str() {
        Some(s) => Some(s.to_owned()),
        None => None,
    }
}

/// The outcome of fetching the manifest text: its script entries, or the
/// file was not there, or its content was no use.
pub enum ManifestLoad {
    Loaded(Vec<(String, String)>),
    MissingFile,
    ParseError,
}

/// The shape of a parsed manifest: the script entries found in it.
pub struct Package {
    pub scripts: Vec<(String, String)>,
}

/// The views of a list of entries: each name and command as its character
/// sequence.
pub open spec fn entry_views(entries: Seq<(String, String)>) -> Seq<(Seq<char>, Seq<char>)> {
    entries.map_values(|e: (String, String)| (e.0@, e.1@))
}

/// Pulls the entries of the manifest's `scripts` object out of the raw
/// manifest text: exactly the scripts table the text holds. Text that is
/// not JSON, has no `scripts` object, or binds a script name to anything
/// but a string holds no table and counts as a parse failure.
pub fn parse_manifest(data: &str) -> (r: ManifestLoad)
    ensures
        !(r is MissingFile),
        !json_accepted(data@) ==> r is ParseError,
        r is Loaded <==> manifest_entries(data@) is Some,
        r matches ManifestLoad::Loaded(entries) ==> Some(entry_views(entries@))
            == manifest_entries(data@),
{
    let doc = match parse_json(data) {
        Some(d) => d,
        None => {
            return ManifestLoad::ParseError;
        },
    };
    let scripts_val = match value_member(&doc, "scripts") {
        Some(v) => v,
        None => {
            return ManifestLoad::ParseError;
        },
    };
    let entries_raw = match object_entries(scripts_val) {
        Some(e) => e,
        None => {
            return ManifestLoad::ParseError;
        },
    };
    let ghost pairs = entries_raw@;
    let ghost table = string_table(*scripts_val);
    let mut entries: Vec<(String, String)> = Vec::new();
    let mut i: usize = 0;
    while i < entries_raw.len()
        invariant
            i <= entries_raw.len(),
            pairs == entries_raw@,
            table == string_table(*scripts_val),
            table == manifest_entries(data@),
            table is Some <==> (forall|k: int|
                0 <= k < pairs.len() ==> (#[trigger] string_of(pairs[k].1)) is Some),
            table matches Some(tab) ==> tab.len() == pairs.len() && forall|k: int|
                0 <= k < pairs.len() ==> (#[trigger] tab[k]).0 == pairs[k].0@ && Some(tab[k].1)
                    == string_of(pairs[k].1),
            entries@.len() == i,
            forall|k: int|
                0 <= k < i ==> (#[trigger] entries@[k]).0@ == pairs[k].0@ && Some(entries@[k].1@)
                    == string_of(pairs[k].1),
        decreases entries_raw.len() - i,
    {
        match value_as_str(&entries_raw[i].1) {
            Some(command) => {
                let name = entries_raw[i].0.clone();
                entries.push((name, command));
            },
            None => {
                proof {
                    assert(string_of(pairs[i as int].1) is None);
                    assert(table is None);
                }
                return ManifestLoad::ParseError;
            },
        }
        i += 1;
    }
    proof {
        assert forall|k: int| 0 <= k < pairs.len() implies (#[trigger] string_of(
            pairs[k].1,
        )) is Some by {
            assert(Some(entries@[k].1@) == string_of(pairs[k].1));
        }
        assert(table is Some);
        let tab = table->Some_0;
        assert(entry_views(entries@) =~= tab) by {
            assert forall|k: int| 0 <= k < pairs.len() implies entry_views(entries@)[k]
                == tab[k] by {
                assert((#[trigger] tab[k]).0 == pairs[k].0@);
                assert(entries@[k].0@ == pairs[k].0@);
                assert(Some(entries@[k].1@) == string_of(pairs[k].1));
                assert(Some(tab[k].1) == string_of(pairs[k].1));
            }
        }
    }
    ManifestLoad::Loaded(entries)
}

/// The script entries for a manifest load outcome. A missing file and a
/// failed parse each degrade to a single placeholder entry describing the
/// failure, so the caller always has something to show.
pub fn read_scripts(load: ManifestLoad) -> (r: Vec<(String, String)>)
    ensures
        match load {
            ManifestLoad::Loaded(entries) => r@ == entries@,
            ManifestLoad::MissingFile => r@.len() == 1 && r@[0].0@ == "file_not_found"@ && r@[0].1@
                == "package.json could not be found in this directory"@,
            ManifestLoad::ParseError => r@.len() == 1 && r@[0].0@ == "Error parsing json"@
                && r@[0].1@ == "There was an error parsing your package.json"@,
        },
{
    match load {
        ManifestLoad::Loaded(entries) => entries,
        ManifestLoad::MissingFile => {
            let mut placeholder: Vec<(String, String)> = Vec::new();
            placeholder.push(
                (
                    "file_not_found".to_owned(),
                    "package.json could not be found in this directory".to_owned(),
                ),
            );
            placeholder
        },
        ManifestLoad::ParseError => {
            let mut placeholder: Vec<(String, String)> = Vec::new();
            placeholder.push(
                (
                    "Error parsing json".to_owned(),
                    "There was an error parsing your package.json".to_owned(),
                ),
            );
            placeholder
        },
    }
}

} // verus!
