//! Records as JSON: a document is an array of objects, one per record.

use vstd::prelude::*;
use crate::error::Error;
use crate::json::{json_parse, json_pretty, parse_json, render_json, Json, JsonView};
use crate::record::{GenericEntry, RecordView};

verus! {

/// The first member of an object with the given key.
pub open spec fn member_of(ms: Seq<(Seq<char>, JsonView)>, key: Seq<char>) -> Option<JsonView>
    decreases ms.len(),
{
    if ms.len() == 0 {
        None
    } else if ms[0].0 == key {
        Some(ms[0].1)
    } else {
        member_of(ms.drop_first(), key)
    }
}

pub open spec fn text_value(j: Option<JsonView>) -> Option<Seq<char>> {
    match j {
        Some(JsonView::Text(s)) => Some(s),
        _ => None,
    }
}

/// An output member: absent or null means none, a string names the output.
pub open spec fn output_value(j: Option<JsonView>) -> Option<Option<Seq<char>>> {
    match j {
        None => Some(None),
        Some(JsonView::Null) => Some(None),
        Some(JsonView::Text(s)) => Some(Some(s)),
        _ => None,
    }
}

/// The strings of an array whose items are all strings.
pub open spec fn texts_of(items: Seq<JsonView>) -> Option<Seq<Seq<char>>> {
    if forall|i: int| 0 <= i < items.len() ==> (#[trigger] items[i]) is Text {
        Some(Seq::new(items.len(), |i: int| items[i]->Text_0))
    } else {
        None
    }
}

pub open spec fn args_value(j: Option<JsonView>) -> Option<Seq<Seq<char>>> {
    match j {
        Some(JsonView::Array(items)) => texts_of(items),
        _ => None,
    }
}

/// The record that a JSON value holds: an object with string members
/// `directory` and `file`, an optional string `output`, and either an
/// `arguments` array of strings or, failing that, a string `command`.
pub open spec fn record_from_json(j: JsonView) -> Option<RecordView> {
    match j {
        JsonView::Object(ms) => {
            let d = text_value(member_of(ms, "directory"@));
            let f = text_value(member_of(ms, "file"@));
            let o = output_value(member_of(ms, "output"@));
            let a = args_value(member_of(ms, "arguments"@));
            let c = text_value(member_of(ms, "command"@));
            if d is Some && f is Some && o is Some {
                if a is Some {
                    Some(
                        RecordView::Tokens {
                            directory: d->Some_0,
                            file: f->Some_0,
                            arguments: a->Some_0,
                            output: o->Some_0,
                        },
                    )
                } else if c is Some {
                    Some(
                        RecordView::Line {
                            directory: d->Some_0,
                            file: f->Some_0,
                            command: c->Some_0,
                            output: o->Some_0,
                        },
                    )
                } else {
                    None
                }
            } else {
                None
            }
        },
        _ => None,
    }
}

/// The records of a document: an array whose every item is a record.
pub open spec fn records_from_json(j: JsonView) -> Option<Seq<RecordView>> {
    match j {
        JsonView::Array(items) => if forall|i: int|
            0 <= i < items.len() ==> (#[trigger] record_from_json(items[i])) is Some {
            Some(Seq::new(items.len(), |i: int| record_from_json(items[i])->Some_0))
        } else {
            None
        },
        _ => None,
    }
}

/// The records of a text, where it is a JSON document of records.
pub open spec fn records_of_text(text: Seq<char>) -> Option<Seq<RecordView>> {
    match json_parse(text) {
        Some(doc) => records_from_json(doc),
        None => None,
    }
}

pub open spec fn output_members(o: Option<Seq<char>>) -> Seq<(Seq<char>, JsonView)> {
    match o {
        Some(p) => seq![("output"@, JsonView::Text(p))],
        None => Seq::empty(),
    }
}

pub open spec fn texts_json(ts: Seq<Seq<char>>) -> Seq<JsonView> {
    Seq::new(ts.len(), |i: int| JsonView::Text(ts[i]))
}

/// The JSON object that a record is written as; `output` only where there is one.
pub open spec fn record_json(r: RecordView) -> JsonView {
    match r {
        RecordView::Line { directory, file, command, output } => JsonView::Object(
            seq![
                ("directory"@, JsonView::Text(directory)),
                ("file"@, JsonView::Text(file)),
                ("command"@, JsonView::Text(command)),
            ] + output_members(output),
        ),
        RecordView::Tokens { directory, file, arguments, output } => JsonView::Object(
            seq![
                ("directory"@, JsonView::Text(directory)),
                ("file"@, JsonView::Text(file)),
                ("arguments"@, JsonView::Array(texts_json(arguments))),
            ] + output_members(output),
        ),
    }
}

/// The JSON document that a sequence of records is written as.
pub open spec fn document_json(rs: Seq<RecordView>) -> JsonView {
    JsonView::Array(Seq::new(rs.len(), |i: int| record_json(rs[i])))
}

pub open spec fn record_views(gs: Seq<GenericEntry>) -> Seq<RecordView> {
    gs.map_values(|g: GenericEntry| g@)
}

fn member<'a>(obj: &'a Json, key: &String) -> (r: Option<&'a Json>)
    requires
        obj@ is Object,
    ensures
        match r {
            Some(j) => member_of(obj@->Object_0, key@) == Some(j@),
            None => member_of(obj@->Object_0, key@) is None,
        },
{
    match obj {
        Json::Object(ms) => {
            let ghost view = obj@->Object_0;
            proof {
                crate::json::lemma_object_view(*obj);
                assert(view.subrange(0, view.len() as int) =~= view);
            }
            let mut i: usize = 0;
            while i < ms.len()
                invariant
                    view == obj@->Object_0,
                    obj@ == JsonView::Object(view),
                    *obj == Json::Object(*ms),
                    view.len() == ms@.len(),
                    forall|k: int| 0 <= k < ms@.len() ==> view[k] == ((#[trigger] ms@[k]).0@, ms@[k].1@),
                    0 <= i <= ms@.len(),
                    member_of(view, key@) == member_of(view.subrange(i as int, view.len() as int), key@),
                decreases ms@.len() - i,
            {
                let ghost rest = view.subrange(i as int, view.len() as int);
                assert(rest[0] == view[i as int]);
                if ms[i].0 == *key {
                    return Some(&ms[i].1);
                }
                assert(rest.drop_first() =~= view.subrange(i + 1, view.len() as int));
                i = i + 1;
            }
            None
        },
        _ => None,
    }
}

fn text_of(j: Option<&Json>) -> (r: Option<String>)
    ensures
        r matches Some(t) ==> text_value(opt_view(j)) == Some(t@),
        r is None ==> text_value(opt_view(j)) is None,
{
    match j {
        Some(Json::Text(s)) => Some(s.clone()),
        _ => None,
    }
}

pub open spec fn opt_view(j: Option<&Json>) -> Option<JsonView> {
    match j {
        Some(x) => Some(x@),
        None => None,
    }
}

fn output_of(j: Option<&Json>) -> (r: Option<Option<String>>)
    ensures
        match r {
            Some(o) => output_value(opt_view(j)) == Some(crate::record::opt_text(o)),
            None => output_value(opt_view(j)) is None,
        },
{
    match j {
        None => Some(None),
        Some(Json::Null) => Some(None),
        Some(Json::Text(s)) => Some(Some(s.clone())),
        _ => None,
    }
}

fn args_of(j: Option<&Json>) -> (r: Option<Vec<String>>)
    ensures
        match r {
            Some(ts) => args_value(opt_view(j)) == Some(crate::shell::token_views(ts@)),
            None => args_value(opt_view(j)) is None,
        },
{
    match j {
        Some(arr) => match arr {
            Json::Array(items) => {
                proof {
                    crate::json::lemma_array_view(*arr);
                }
                let ghost view = arr@->Array_0;
                let mut ts: Vec<String> = Vec::new();
                let mut i: usize = 0;
                while i < items.len()
                    invariant
                        view == arr@->Array_0,
                        opt_view(j) == Some(arr@),
                        arr@ == JsonView::Array(view),
                        *arr == Json::Array(*items),
                        view.len() == items@.len(),
                        forall|k: int| 0 <= k < items@.len() ==> view[k] == (#[trigger] items@[k])@,
                        0 <= i <= items@.len(),
                        ts@.len() == i,
                        forall|k: int| 0 <= k < i ==> view[k] == JsonView::Text((#[trigger] ts@[k])@),
                    decreases items@.len() - i,
                {
                    match &items[i] {
                        Json::Text(t) => {
                            ts.push(t.clone());
                        },
                        _ => {
                            assert(!(view[i as int] is Text));
                            return None;
                        },
                    }
                    i = i + 1;
                }
                assert forall|k: int| 0 <= k < view.len() implies (#[trigger] view[k]) is Text by {
                    assert(view[k] == JsonView::Text(ts@[k]@));
                }
                assert(crate::shell::token_views(ts@) =~= Seq::new(view.len(), |k: int| view[k]->Text_0));
                Some(ts)
            },
            _ => None,
        },
        None => None,
    }
}

/// Reads a record from a JSON value: an object with string members
/// `directory` and `file`, an optional string `output`, and either an
/// `arguments` array of strings or a string `command`.
pub fn record_from(j: &Json) -> (r: Option<GenericEntry>)
    ensures
        match r {
            Some(g) => record_from_json(j@) == Some(g@),
            None => record_from_json(j@) is None,
        },
{
    match j {
        Json::Object(_) => {
            proof {
                crate::json::lemma_object_view(*j);
            }
            let directory = match text_of(member(j, &String::from_str("directory"))) {
                Some(s) => s,
                None => return None,
            };
            let file = match text_of(member(j, &String::from_str("file"))) {
                Some(s) => s,
                None => return None,
            };
            let output = match output_of(member(j, &String::from_str("output"))) {
                Some(o) => o,
                None => return None,
            };
            match args_of(member(j, &String::from_str("arguments"))) {
                Some(arguments) => Some(GenericEntry::ArrayEntry { directory, file, arguments, output }),
                None => match text_of(member(j, &String::from_str("command"))) {
                    Some(command) => Some(GenericEntry::StringEntry { directory, file, command, output }),
                    None => None,
                },
            }
        },
        _ => None,
    }
}

/// Reads the records of a JSON document, which must be an array of records.
pub fn records_from(doc: &Json) -> (r: Option<Vec<GenericEntry>>)
    ensures
        match r {
            Some(gs) => records_from_json(doc@) == Some(record_views(gs@)),
            None => records_from_json(doc@) is None,
        },
{
    match doc {
        Json::Array(items) => {
            proof {
                crate::json::lemma_array_view(*doc);
            }
            let ghost view = doc@->Array_0;
            let mut gs: Vec<GenericEntry> = Vec::new();
            let mut i: usize = 0;
            while i < items.len()
                invariant
                    view == doc@->Array_0,
                    view.len() == items@.len(),
                    forall|k: int| 0 <= k < items@.len() ==> view[k] == (#[trigger] items@[k])@,
                    0 <= i <= items@.len(),
                    gs@.len() == i,
                    forall|k: int|
                        0 <= k < i ==> record_from_json(view[k]) == Some((#[trigger] gs@[k])@),
                decreases items@.len() - i,
            {
                match record_from(&items[i]) {
                    Some(g) => gs.push(g),
                    None => return None,
                }
                i = i + 1;
            }
            assert forall|k: int| 0 <= k < view.len() implies (#[trigger] record_from_json(view[k])) is Some by {
                assert(record_from_json(view[k]) == Some(gs@[k]@));
            }
            assert(record_views(gs@) =~= Seq::new(view.len(), |k: int| record_from_json(view[k])->Some_0));
            Some(gs)
        },
        _ => None,
    }
}

fn text_json(ts: &Vec<String>) -> (r: Json)
    ensures
        r@ == JsonView::Array(texts_json(crate::shell::token_views(ts@))),
{
    let mut items: Vec<Json> = Vec::new();
    let mut i: usize = 0;
    while i < ts.len()
        invariant
            0 <= i <= ts@.len(),
            items@.len() == i,
            forall|k: int| 0 <= k < i ==> (#[trigger] items@[k])@ == JsonView::Text(ts@[k]@),
        decreases ts@.len() - i,
    {
        items.push(Json::Text(ts[i].clone()));
        i = i + 1;
    }
    let r = Json::Array(items);
    proof {
        crate::json::lemma_array_view(r);
        assert(r@->Array_0 =~= texts_json(crate::shell::token_views(ts@)));
    }
    r
}

/// Writes a record as a JSON object; `output` only where there is one.
pub fn record_to(g: &GenericEntry) -> (r: Json)
    ensures
        r@ == record_json(g@),
{
    let (directory, file, key, value, output) = match g {
        GenericEntry::StringEntry { directory, file, command, output } => (
            directory,
            file,
            String::from_str("command"),
            Json::Text(command.clone()),
            output,
        ),
        GenericEntry::ArrayEntry { directory, file, arguments, output } => (
            directory,
            file,
            String::from_str("arguments"),
            text_json(arguments),
            output,
        ),
    };
    let mut members: Vec<(String, Json)> = Vec::new();
    members.push((String::from_str("directory"), Json::Text(directory.clone())));
    members.push((String::from_str("file"), Json::Text(file.clone())));
    members.push((key, value));
    match output {
        Some(o) => members.push((String::from_str("output"), Json::Text(o.clone()))),
        None => {},
    }
    let r = Json::Object(members);
    proof {
        crate::json::lemma_object_view(r);
        match record_json(g@) {
            JsonView::Object(ms) => {
                assert(r@->Object_0 =~= ms);
            },
            _ => {},
        }
    }
    r
}

/// Writes records as a JSON array, in order.
pub fn records_to(gs: &Vec<GenericEntry>) -> (r: Json)
    ensures
        r@ == document_json(record_views(gs@)),
{
    let mut items: Vec<Json> = Vec::new();
    let mut i: usize = 0;
    while i < gs.len()
        invariant
            0 <= i <= gs@.len(),
            items@.len() == i,
            forall|k: int| 0 <= k < i ==> (#[trigger] items@[k])@ == record_json(gs@[k]@),
        decreases gs@.len() - i,
    {
        items.push(record_to(&gs[i]));
        i = i + 1;
    }
    let r = Json::Array(items);
    proof {
        crate::json::lemma_array_view(r);
        assert(r@->Array_0 =~= document_json(record_views(gs@))->Array_0);
    }
    r
}

/// Reads the records of a document's text; fails with `Error::Format` where
/// the text is not JSON or not an array of records.
pub fn load(text: &str) -> (r: Result<Vec<GenericEntry>, Error>)
    ensures
        match r {
            Ok(gs) => records_of_text(text@) == Some(record_views(gs@)),
            Err(e) => records_of_text(text@) is None && e is Format,
        },
{
    match parse_json(text) {
        Some(doc) => match records_from(&doc) {
            Some(gs) => Ok(gs),
            None => Err(Error::Format),
        },
        None => Err(Error::Format),
    }
}

/// Writes records as a pretty-printed JSON document.
pub fn save(entries: &Vec<GenericEntry>) -> (r: String)
    ensures
        r@ == json_pretty(document_json(record_views(entries@))),
{
    render_json(&records_to(entries))
}

} // verus!
