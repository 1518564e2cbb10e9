//! The compilation database: a backing file's text read into a set of entries,
//! and a set of entries written back as that text.

use vstd::prelude::*;
use crate::codec::{document_json, records_of_text, record_views};
use crate::entry::{entry_map, entry_views, Entries, EntryKey, EntryView};
use crate::error::{ConversionError, Error};
use crate::json::json_pretty;
use crate::record::{entry_of, first_untextual, quote_message, record_of, textual, DatabaseFormat, GenericEntry, RecordView};

verus! {

/// Whether every record stands for an entry.
pub open spec fn all_convert(rs: Seq<RecordView>) -> bool {
    forall|i: int| 0 <= i < rs.len() ==> (#[trigger] entry_of(rs[i])) is Some
}

/// The entries that records stand for, in order.
pub open spec fn entries_of(rs: Seq<RecordView>) -> Seq<EntryView> {
    Seq::new(rs.len(), |i: int| entry_of(rs[i])->Some_0)
}

/// The set that records load into, or `None` where one of them cannot be converted.
pub open spec fn entries_loaded(rs: Seq<RecordView>) -> Option<Map<EntryKey, Option<Seq<u8>>>> {
    if all_convert(rs) {
        Some(entry_map(entries_of(rs)))
    } else {
        None
    }
}

/// The messages of the records that cannot be converted, in order.
pub open spec fn failure_messages(rs: Seq<RecordView>) -> Seq<Seq<char>>
    decreases rs.len(),
{
    if rs.len() == 0 {
        Seq::empty()
    } else if entry_of(rs.last()) is None {
        failure_messages(rs.drop_last()).push(quote_message(rs.last()))
    } else {
        failure_messages(rs.drop_last())
    }
}

/// Messages joined by `", "`.
pub open spec fn joined(ms: Seq<Seq<char>>) -> Seq<char>
    decreases ms.len(),
{
    if ms.len() == 0 {
        Seq::empty()
    } else if ms.len() == 1 {
        ms[0]
    } else {
        joined(ms.drop_last()) + ", "@ + ms.last()
    }
}

/// Whether every entry's paths are text.
pub open spec fn all_textual(es: Seq<EntryView>) -> bool {
    forall|i: int| 0 <= i < es.len() ==> textual(#[trigger] es[i])
}

/// The records that entries are written as, in order.
pub open spec fn records_of_entries(es: Seq<EntryView>, as_array: bool) -> Seq<RecordView> {
    Seq::new(es.len(), |i: int| record_of(es[i], as_array)->Some_0)
}

/// A compilation database bound to the path of its backing file.
#[derive(Debug)]
pub struct Database {
    path: Vec<u8>,
}

impl Database {
    /// A database for the file at this path; nothing is read or written.
    pub fn new(path: &[u8]) -> (r: Database)
        ensures
            r.spec_path() == path@,
    {
        Database { path: vstd::slice::slice_to_vec(path) }
    }

    pub closed spec fn spec_path(&self) -> Seq<u8> {
        self.path@
    }

    /// The path of the backing file.
    pub fn path(&self) -> (r: &Vec<u8>)
        ensures
            r@ == self.spec_path(),
    {
        &self.path
    }

    /// Reads the backing file's text into a set of entries. The text must be a
    /// JSON array of records, else `Error::Format`. Where every record converts,
    /// the set holds their entries, a later one replacing an earlier one with the
    /// same directory, file and command; else the error joins the message of each
    /// record that does not, by `", "`.
    pub fn load(&self, content: &str) -> (r: Result<Entries, Error>)
        ensures
            match records_of_text(content@) {
                None => r matches Err(Error::Format),
                Some(rs) => match entries_loaded(rs) {
                    Some(m) => r matches Ok(es) && es@ == m,
                    None => r matches Err(Error::Aggregate(msg)) && msg@ == joined(failure_messages(rs)),
                },
            },
    {
        let records = match crate::codec::load(content) {
            Ok(gs) => gs,
            Err(e) => return Err(e),
        };
        let ghost rs = record_views(records@);
        let mut entries = Entries::new();
        let mut message = String::new();
        let mut failed: usize = 0;
        let mut i: usize = 0;
        while i < records.len()
            invariant
                rs == record_views(records@),
                0 <= i <= records@.len(),
                failed as int == failure_messages(rs.take(i as int)).len(),
                failed <= i,
                message@ == joined(failure_messages(rs.take(i as int))),
                all_convert(rs.take(i as int)) ==> entries@ == entry_map(entries_of(rs.take(i as int))),
            decreases records@.len() - i,
        {
            let ghost before = rs.take(i as int);
            let ghost after = rs.take(i + 1);
            proof {
                assert(after.drop_last() =~= before);
                assert(after.last() == records@[i as int]@);
            }
            match crate::record::into(&records[i]) {
                Ok(e) => {
                    proof {
                        if all_convert(after) {
                            assert(all_convert(before)) by {
                                assert forall|k: int| 0 <= k < before.len() implies (#[trigger] entry_of(before[k])) is Some by {
                                    assert(before[k] == after[k]);
                                }
                            }
                            assert(entries_of(after).drop_last() =~= entries_of(before));
                        }
                    }
                    entries.insert(e);
                },
                Err(err) => {
                    let m = err.message();
                    if failed > 0 {
                        message.append(", ");
                    }
                    message.append(m.as_str());
                    failed = failed + 1;
                    proof {
                        let fa = failure_messages(after);
                        assert(fa == failure_messages(before).push(quote_message(after.last())));
                        assert(fa.drop_last() =~= failure_messages(before));
                        assert(!(entry_of(after[i as int]) is Some));
                    }
                },
            }
            i = i + 1;
        }
        proof {
            assert(rs.take(records@.len() as int) =~= rs);
        }
        if failed > 0 {
            proof {
                assert(!all_convert(rs)) by {
                    lemma_no_failure_messages(rs);
                }
            }
            Err(Error::Aggregate(message))
        } else {
            proof {
                lemma_no_failure_messages(rs);
            }
            Ok(entries)
        }
    }

    /// Writes a set of entries as the backing file's text, each entry as a
    /// record of the requested shape. Fails, writing nothing, where a path of
    /// some entry is not text: with the first such path of the first such entry.
    pub fn save(&self, entries: &Entries, format: &DatabaseFormat) -> (r: Result<String, Error>)
        ensures
            all_textual(entries.members()) ==> (r matches Ok(text) && text@ == json_pretty(
                document_json(records_of_entries(entries.members(), format.command_as_array)),
            )),
            !all_textual(entries.members()) ==> exists|i: int|
                0 <= i < entries.members().len() && !textual(entries.members()[i]) && (forall|j: int|
                    0 <= j < i ==> textual(#[trigger] entries.members()[j])) && match r {
                    Err(Error::Conversion(ConversionError::NotText(b))) => first_untextual(
                        entries.members()[i],
                    ) == Some(b@),
                    _ => false,
                },
    {
        let items = entries.as_vec();
        let ghost es = entries.members();
        let mut records: Vec<GenericEntry> = Vec::new();
        let mut i: usize = 0;
        while i < items.len()
            invariant
                entry_views(items@) == es,
                es == entries.members(),
                0 <= i <= items@.len(),
                records@.len() == i,
                forall|j: int| 0 <= j < i ==> textual(#[trigger] es[j]),
                forall|j: int|
                    0 <= j < i ==> record_of(es[j], format.command_as_array) == Some(
                        (#[trigger] records@[j])@,
                    ),
            decreases items@.len() - i,
        {
            proof {
                assert(es[i as int] == items@[i as int]@);
            }
            match crate::record::from(&items[i], format) {
                Ok(g) => records.push(g),
                Err(e) => {
                    let r = Err(Error::Conversion(e));
                    proof {
                        assert(!textual(es[i as int]));
                        assert(!all_textual(es));
                        assert(match r {
                            Err(Error::Conversion(ConversionError::NotText(b))) => first_untextual(es[i as int]) == Some(b@),
                            _ => false,
                        });
                    }
                    return r;
                },
            }
            i = i + 1;
        }
        proof {
            assert(record_views(records@) =~= records_of_entries(es, format.command_as_array));
        }
        Ok(crate::codec::save(&records))
    }
}

/// No message is collected exactly where every record converts.
proof fn lemma_no_failure_messages(rs: Seq<RecordView>)
    ensures
        all_convert(rs) <==> failure_messages(rs).len() == 0,
    decreases rs.len(),
{
    if rs.len() > 0 {
        lemma_no_failure_messages(rs.drop_last());
        if all_convert(rs) {
            assert forall|k: int| 0 <= k < rs.drop_last().len() implies (#[trigger] entry_of(rs.drop_last()[k])) is Some by {
                assert(rs.drop_last()[k] == rs[k]);
            }
            assert(entry_of(rs[rs.len() - 1]) is Some);
        }
        if failure_messages(rs).len() == 0 {
            assert forall|k: int| 0 <= k < rs.len() implies (#[trigger] entry_of(rs[k])) is Some by {
                if k < rs.len() - 1 {
                    assert(rs.drop_last()[k] == rs[k]);
                }
            }
        }
    }
}

} // verus!
