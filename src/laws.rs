//! What holds of loading and saving taken together.

use vstd::prelude::*;
use crate::codec::{
    document_json, member_of, output_members, record_from_json, record_json, records_from_json,
    texts_json, texts_of,
};
use crate::database::{
    all_convert, all_textual, entries_loaded, entries_of, failure_messages, joined,
    records_of_entries,
};
use crate::entry::{entry_map, Entries, EntryView};
use crate::record::{entry_of, opt_decode, opt_encode, quote_message, record_of, textual, RecordView};
use crate::shell::{shell_join, shell_split};

verus! {

proof fn lemma_keys_differ()
    ensures
        "directory"@ != "file"@,
        "directory"@ != "command"@,
        "directory"@ != "arguments"@,
        "directory"@ != "output"@,
        "file"@ != "command"@,
        "file"@ != "arguments"@,
        "file"@ != "output"@,
        "command"@ != "arguments"@,
        "command"@ != "output"@,
        "arguments"@ != "output"@,
{
    reveal_strlit("directory");
    reveal_strlit("file");
    reveal_strlit("command");
    reveal_strlit("arguments");
    reveal_strlit("output");
    assert("directory"@.len() != "file"@.len());
    assert("directory"@[0] != "arguments"@[0]);
    assert("command"@.len() != "output"@.len());
}

/// A record written as JSON reads back as the same record.
pub proof fn lemma_record_json_round_trip(r: RecordView)
    ensures
        record_from_json(record_json(r)) == Some(r),
{
    lemma_keys_differ();
    reveal_with_fuel(member_of, 5);
    match r {
        RecordView::Line { directory, file, command, output } => {
            let ms = record_json(r)->Object_0;
            assert(ms[0] == ("directory"@, crate::json::JsonView::Text(directory)));
            assert(ms[1] == ("file"@, crate::json::JsonView::Text(file)));
            assert(ms[2] == ("command"@, crate::json::JsonView::Text(command)));
            assert(ms.drop_first().drop_first().drop_first() =~= output_members(output));
            assert(ms.drop_first()[0] == ms[1]);
            assert(ms.drop_first().drop_first()[0] == ms[2]);
        },
        RecordView::Tokens { directory, file, arguments, output } => {
            let ms = record_json(r)->Object_0;
            assert(ms.drop_first().drop_first().drop_first() =~= output_members(output));
            assert(ms.drop_first()[0] == ms[1]);
            assert(ms.drop_first().drop_first()[0] == ms[2]);
            assert(texts_of(texts_json(arguments)) == Some(arguments)) by {
                assert(Seq::new(arguments.len(), |i: int| texts_json(arguments)[i]->Text_0) =~= arguments);
            }
        },
    }
}

/// A document written from records reads back as the same records.
pub proof fn lemma_document_round_trip(rs: Seq<RecordView>)
    ensures
        records_from_json(document_json(rs)) == Some(rs),
{
    let items = document_json(rs)->Array_0;
    assert forall|i: int| 0 <= i < items.len() implies (#[trigger] record_from_json(items[i])) == Some(rs[i]) by {
        lemma_record_json_round_trip(rs[i]);
    }
    assert(Seq::new(items.len(), |i: int| record_from_json(items[i])->Some_0) =~= rs);
}

proof fn lemma_entry_record_round_trip(e: EntryView, as_array: bool)
    requires
        textual(e),
        !as_array ==> shell_split(shell_join(e.command)) == Some(e.command),
    ensures
        entry_of(record_of(e, as_array)->Some_0) == Some(e),
{
    vstd::utf8::decode_utf8_encode_utf8(e.directory);
    vstd::utf8::decode_utf8_encode_utf8(e.file);
    if let Some(o) = e.output {
        vstd::utf8::decode_utf8_encode_utf8(o);
    }
    assert(opt_encode(opt_decode(e.output)) == e.output);
}

proof fn lemma_round_trip(entries: Entries, as_array: bool)
    requires
        all_textual(entries.members()),
        !as_array ==> forall|i: int| 0 <= i < entries.members().len()
            ==> shell_split(shell_join((#[trigger] entries.members()[i]).command)) == Some(entries.members()[i].command),
    ensures
        records_from_json(document_json(records_of_entries(entries.members(), as_array)))
            == Some(records_of_entries(entries.members(), as_array)),
        entries_loaded(records_of_entries(entries.members(), as_array)) == Some(entries@),
{
    let es = entries.members();
    let rs = records_of_entries(es, as_array);
    lemma_document_round_trip(rs);
    assert forall|i: int| 0 <= i < rs.len() implies (#[trigger] entry_of(rs[i])) == Some(es[i]) by {
        assert(textual(es[i]));
        lemma_entry_record_round_trip(es[i], as_array);
    }
    assert(all_convert(rs));
    assert(entries_of(rs) =~= es);
}

/// Writing a set of entries with commands as token arrays, then reading the
/// document back, gives the same set with the same outputs, where every path
/// is text.
pub proof fn lemma_round_trip_array(entries: Entries)
    requires
        all_textual(entries.members()),
    ensures
        records_from_json(document_json(records_of_entries(entries.members(), true)))
            == Some(records_of_entries(entries.members(), true)),
        entries_loaded(records_of_entries(entries.members(), true)) == Some(entries@),
{
    lemma_round_trip(entries, true);
}

/// Writing a set of entries with commands as quoted lines, then reading the
/// document back, gives the same set with the same outputs, where every path
/// is text and splitting each joined command gives its tokens back.
pub proof fn lemma_round_trip_line(entries: Entries)
    requires
        all_textual(entries.members()),
        forall|i: int| 0 <= i < entries.members().len()
            ==> shell_split(shell_join((#[trigger] entries.members()[i]).command)) == Some(entries.members()[i].command),
    ensures
        records_from_json(document_json(records_of_entries(entries.members(), false)))
            == Some(records_of_entries(entries.members(), false)),
        entries_loaded(records_of_entries(entries.members(), false)) == Some(entries@),
{
    lemma_round_trip(entries, false);
}

/// Records that all convert load into one entry per distinct directory, file
/// and command: a key is in the set exactly where some record stands for it,
/// and it holds the output of the last record that does.
pub proof fn lemma_dedup(rs: Seq<RecordView>, i: int)
    requires
        all_convert(rs),
        0 <= i < rs.len(),
        forall|j: int| i < j < rs.len() ==> (#[trigger] entries_of(rs)[j]).key() != entries_of(rs)[i].key(),
    ensures
        entries_loaded(rs) == Some(entry_map(entries_of(rs))),
        entry_map(entries_of(rs)).dom() == Set::new(
            |k: crate::entry::EntryKey| exists|j: int| 0 <= j < rs.len() && entries_of(rs)[j].key() == k,
        ),
        entry_map(entries_of(rs))[entries_of(rs)[i].key()] == entries_of(rs)[i].output,
{
    let es = entries_of(rs);
    crate::entry::lemma_entry_map_last(es, i);
    assert forall|k: crate::entry::EntryKey| #[trigger] entry_map(es).dom().contains(k) == (exists|j: int| 0 <= j < rs.len() && es[j].key() == k) by {
        crate::entry::lemma_entry_map_dom(es, k);
    }
    assert(entry_map(es).dom() =~= Set::new(
        |k: crate::entry::EntryKey| exists|j: int| 0 <= j < rs.len() && es[j].key() == k,
    ));
}

/// Two records that stand for entries with the same directory, file and
/// command load into a set of one entry, with the later record's output.
pub proof fn lemma_dedup_pair(a: RecordView, b: RecordView)
    requires
        entry_of(a) is Some,
        entry_of(b) is Some,
        entry_of(a)->Some_0.key() == entry_of(b)->Some_0.key(),
    ensures
        entries_loaded(seq![a, b]) == Some(
            Map::empty().insert(entry_of(b)->Some_0.key(), entry_of(b)->Some_0.output),
        ),
        entries_loaded(seq![a, b])->Some_0.len() == 1,
{
    let rs = seq![a, b];
    assert(all_convert(rs));
    let es = entries_of(rs);
    let ea = entry_of(a)->Some_0;
    let eb = entry_of(b)->Some_0;
    assert(es[0] == ea && es[1] == eb);
    assert(es.drop_last().drop_last() =~= Seq::empty());
    assert(es.drop_last().last() == ea);
    assert(entry_map(es.drop_last().drop_last()) == Map::<crate::entry::EntryKey, Option<Seq<u8>>>::empty());
    assert(es.drop_last().len() == 1);
    assert(entry_map(es.drop_last()) == entry_map(es.drop_last().drop_last()).insert(ea.key(), ea.output));
    assert(entry_map(es.drop_last()) == Map::<crate::entry::EntryKey, Option<Seq<u8>>>::empty().insert(ea.key(), ea.output));
    assert(entry_map(es) == entry_map(es.drop_last()).insert(eb.key(), eb.output));
    assert(entry_map(es) =~= Map::empty().insert(entry_of(b)->Some_0.key(), entry_of(b)->Some_0.output));
    assert(entry_map(es).dom() =~= set![entry_of(b)->Some_0.key()]);
}

/// Whether `t` stands in `s` from position `off` on.
pub open spec fn occurs_at(s: Seq<char>, t: Seq<char>, off: int) -> bool {
    0 <= off && off + t.len() <= s.len() && s.subrange(off, off + t.len()) == t
}

proof fn lemma_occurs_trans(s: Seq<char>, t: Seq<char>, u: Seq<char>, a: int, b: int)
    requires
        occurs_at(s, t, a),
        occurs_at(t, u, b),
    ensures
        occurs_at(s, u, a + b),
{
    assert(s.subrange(a + b, a + b + u.len()) =~= t.subrange(b, b + u.len()));
}

proof fn lemma_message_listed(rs: Seq<RecordView>, i: int) -> (k: int)
    requires
        0 <= i < rs.len(),
        entry_of(rs[i]) is None,
    ensures
        0 <= k < failure_messages(rs).len(),
        failure_messages(rs)[k] == quote_message(rs[i]),
    decreases rs.len(),
{
    if i == rs.len() - 1 {
        failure_messages(rs.drop_last()).len() as int
    } else {
        assert(rs.drop_last()[i] == rs[i]);
        lemma_message_listed(rs.drop_last(), i)
    }
}

proof fn lemma_joined_holds(ms: Seq<Seq<char>>, k: int) -> (off: int)
    requires
        0 <= k < ms.len(),
    ensures
        occurs_at(joined(ms), ms[k], off),
    decreases ms.len(),
{
    if ms.len() == 1 {
        assert(joined(ms).subrange(0, ms[0].len() as int) =~= ms[0]);
        0
    } else {
        let front = joined(ms.drop_last()) + ", "@;
        assert(joined(ms) == front + ms.last());
        if k == ms.len() - 1 {
            assert(joined(ms).subrange(front.len() as int, (front.len() + ms[k].len()) as int) =~= ms[k]);
            front.len() as int
        } else {
            assert(ms.drop_last()[k] == ms[k]);
            let o = lemma_joined_holds(ms.drop_last(), k);
            assert(joined(ms).subrange(o, o + ms[k].len()) =~= joined(ms.drop_last()).subrange(o, o + ms[k].len()));
            o
        }
    }
}

/// A record whose command line has mismatched quotes makes loading fail, and
/// the message of the failed load holds that command line as `{:?}` writes it.
pub proof fn lemma_quote_failure_reported(rs: Seq<RecordView>, i: int)
    requires
        0 <= i < rs.len(),
        entry_of(rs[i]) is None,
    ensures
        entries_loaded(rs) is None,
        rs[i] is Line,
        exists|off: int|
            occurs_at(joined(failure_messages(rs)), crate::error::str_debug(rs[i]->Line_command), off),
{
    assert(!all_convert(rs));
    let k = lemma_message_listed(rs, i);
    let o = lemma_joined_holds(failure_messages(rs), k);
    let c = crate::error::str_debug(rs[i]->Line_command);
    let prefix = "Quotes are mismatch in "@;
    let m = quote_message(rs[i]);
    assert(m.subrange(prefix.len() as int, (prefix.len() + c.len()) as int) =~= c);
    lemma_occurs_trans(joined(failure_messages(rs)), m, c, o, prefix.len() as int);
}

} // verus!
