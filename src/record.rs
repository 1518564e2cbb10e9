//! The two on-disk shapes of a build-command record, and their conversion to
//! and from entries and JSON.

use vstd::prelude::*;
use vstd::utf8::{decode_utf8, encode_utf8, valid_utf8};
use crate::entry::{Entry, EntryView};
use crate::error::ConversionError;
use crate::shell::{join_words, shell_join, shell_split, split_words, token_views};

verus! {

/// The shape in which entries are written.
#[derive(Debug, Clone, Copy)]
pub struct DatabaseFormat {
    /// Write the command as a list of tokens rather than as one quoted line.
    pub command_as_array: bool,
}

/// A record as it stands on disk: the command as one shell-quoted line, or as
/// a list of tokens. Nothing on disk names the shape; the fields tell them apart.
#[derive(Debug)]
pub enum GenericEntry {
    StringEntry { directory: String, file: String, command: String, output: Option<String> },
    ArrayEntry { directory: String, file: String, arguments: Vec<String>, output: Option<String> },
}

/// The mathematical form of a record.
pub enum RecordView {
    Line { directory: Seq<char>, file: Seq<char>, command: Seq<char>, output: Option<Seq<char>> },
    Tokens {
        directory: Seq<char>,
        file: Seq<char>,
        arguments: Seq<Seq<char>>,
        output: Option<Seq<char>>,
    },
}

pub open spec fn opt_text(o: Option<String>) -> Option<Seq<char>> {
    match o {
        Some(s) => Some(s@),
        None => None,
    }
}

impl View for GenericEntry {
    type V = RecordView;

    open spec fn view(&self) -> RecordView {
        match self {
            GenericEntry::StringEntry { directory, file, command, output } => RecordView::Line {
                directory: directory@,
                file: file@,
                command: command@,
                output: opt_text(*output),
            },
            GenericEntry::ArrayEntry { directory, file, arguments, output } => RecordView::Tokens {
                directory: directory@,
                file: file@,
                arguments: token_views(arguments@),
                output: opt_text(*output),
            },
        }
    }
}

pub open spec fn opt_encode(o: Option<Seq<char>>) -> Option<Seq<u8>> {
    match o {
        Some(s) => Some(encode_utf8(s)),
        None => None,
    }
}

/// The entry that a record stands for, or `None` where its command line has
/// mismatched quotes.
pub open spec fn entry_of(r: RecordView) -> Option<EntryView> {
    match r {
        RecordView::Tokens { directory, file, arguments, output } => Some(
            EntryView {
                directory: encode_utf8(directory),
                file: encode_utf8(file),
                command: arguments,
                output: opt_encode(output),
            },
        ),
        RecordView::Line { directory, file, command, output } => match shell_split(command) {
            Some(tokens) => Some(
                EntryView {
                    directory: encode_utf8(directory),
                    file: encode_utf8(file),
                    command: tokens,
                    output: opt_encode(output),
                },
            ),
            None => None,
        },
    }
}

/// The message that reports a record whose command line cannot be split.
pub open spec fn quote_message(r: RecordView) -> Seq<char> {
    match r {
        RecordView::Line { command, .. } => "Quotes are mismatch in "@ + crate::error::str_debug(command),
        RecordView::Tokens { .. } => Seq::empty(),
    }
}

/// Whether every path of an entry is text.
pub open spec fn textual(e: EntryView) -> bool {
    &&& valid_utf8(e.directory)
    &&& valid_utf8(e.file)
    &&& (e.output matches Some(o) ==> valid_utf8(o))
}

/// The first path of an entry that is not text: directory, then file, then output.
pub open spec fn first_untextual(e: EntryView) -> Option<Seq<u8>> {
    if !valid_utf8(e.directory) {
        Some(e.directory)
    } else if !valid_utf8(e.file) {
        Some(e.file)
    } else {
        match e.output {
            Some(o) => if valid_utf8(o) {
                None
            } else {
                Some(o)
            },
            None => None,
        }
    }
}

pub open spec fn opt_decode(o: Option<Seq<u8>>) -> Option<Seq<char>> {
    match o {
        Some(b) => Some(decode_utf8(b)),
        None => None,
    }
}

/// The record that an entry is written as, or `None` where a path is not text.
pub open spec fn record_of(e: EntryView, as_array: bool) -> Option<RecordView> {
    if !textual(e) {
        None
    } else if as_array {
        Some(
            RecordView::Tokens {
                directory: decode_utf8(e.directory),
                file: decode_utf8(e.file),
                arguments: e.command,
                output: opt_decode(e.output),
            },
        )
    } else {
        Some(
            RecordView::Line {
                directory: decode_utf8(e.directory),
                file: decode_utf8(e.file),
                command: shell_join(e.command),
                output: opt_decode(e.output),
            },
        )
    }
}

/// Relies on String::from_utf8: takes the bytes as text where they are valid
/// UTF-8, and fails otherwise.
#[verifier::external_body]
fn utf8_text(b: &Vec<u8>) -> (r: Option<String>)
    ensures
        match r {
            Some(s) => valid_utf8(b@) && s@ == decode_utf8(b@),
            None => !valid_utf8(b@),
        },
{
    String::from_utf8(b.clone()).ok()
}

fn path_bytes(s: &String) -> (r: Vec<u8>)
    ensures
        r@ == encode_utf8(s@),
{
    vstd::slice::slice_to_vec(s.as_str().as_bytes())
}

fn path_text(b: &Vec<u8>) -> (r: Result<String, ConversionError>)
    ensures
        match r {
            Ok(s) => valid_utf8(b@) && s@ == decode_utf8(b@),
            Err(e) => !valid_utf8(b@) && match e {
                ConversionError::NotText(x) => x@ == b@,
                _ => false,
            },
        },
{
    match utf8_text(b) {
        Some(s) => Ok(s),
        None => Err(ConversionError::NotText(vstd::slice::slice_to_vec(b.as_slice()))),
    }
}

fn copy_tokens(v: &Vec<String>) -> (r: Vec<String>)
    ensures
        token_views(r@) == token_views(v@),
{
    let mut r: Vec<String> = Vec::new();
    let mut i: usize = 0;
    while i < v.len()
        invariant
            0 <= i <= v@.len(),
            r@.len() == i,
            forall|j: int| 0 <= j < i ==> r@[j]@ == v@[j]@,
        decreases v@.len() - i,
    {
        r.push(v[i].clone());
        i = i + 1;
    }
    assert(token_views(r@) =~= token_views(v@));
    r
}

fn copy_output(o: &Option<String>) -> (r: Option<Vec<u8>>)
    ensures
        match r {
            Some(b) => opt_encode(opt_text(*o)) == Some(b@),
            None => o.is_none(),
        },
{
    match o {
        Some(s) => Some(path_bytes(s)),
        None => None,
    }
}

/// Converts a record into the entry it stands for; a command line is split
/// into tokens, and fails where its quotes do not match.
pub fn into(entry: &GenericEntry) -> (r: Result<Entry, ConversionError>)
    ensures
        match r {
            Ok(e) => entry_of(entry@) == Some(e@),
            Err(err) => entry_of(entry@) is None && err is MismatchedQuotes
                && crate::error::message_of(err) == quote_message(entry@),
        },
{
    match entry {
        GenericEntry::ArrayEntry { directory, file, arguments, output } => {
            let e = Entry {
                directory: path_bytes(directory),
                file: path_bytes(file),
                command: copy_tokens(arguments),
                output: copy_output(output),
            };
            proof {
                assert(e@.output == opt_encode(opt_text(*output)));
            }
            Ok(e)
        },
        GenericEntry::StringEntry { directory, file, command, output } => {
            match split_words(command.as_str()) {
                Some(tokens) => {
                    let e = Entry {
                        directory: path_bytes(directory),
                        file: path_bytes(file),
                        command: tokens,
                        output: copy_output(output),
                    };
                    proof {
                        assert(e@.output == opt_encode(opt_text(*output)));
                    }
                    Ok(e)
                },
                None => Err(ConversionError::MismatchedQuotes(command.clone())),
            }
        },
    }
}

/// Converts an entry into a record of the requested shape; a token list is
/// joined into one quoted line unless the format asks for the list. Fails
/// where the directory, the file or the output is not text.
pub fn from(entry: &Entry, format: &DatabaseFormat) -> (r: Result<GenericEntry, ConversionError>)
    ensures
        match r {
            Ok(g) => record_of(entry@, format.command_as_array) == Some(g@),
            Err(err) => record_of(entry@, format.command_as_array) is None && match err {
                ConversionError::NotText(b) => first_untextual(entry@) == Some(b@),
                _ => false,
            },
        },
{
    let directory = match path_text(&entry.directory) {
        Ok(s) => s,
        Err(e) => return Err(e),
    };
    let file = match path_text(&entry.file) {
        Ok(s) => s,
        Err(e) => return Err(e),
    };
    let output = match &entry.output {
        Some(p) => match path_text(p) {
            Ok(s) => Some(s),
            Err(e) => return Err(e),
        },
        None => None,
    };
    proof {
        assert(opt_text(output) == opt_decode(entry@.output));
    }
    if format.command_as_array {
        Ok(GenericEntry::ArrayEntry { directory, file, arguments: copy_tokens(&entry.command), output })
    } else {
        Ok(GenericEntry::StringEntry { directory, file, command: join_words(&entry.command), output })
    }
}

} // verus!
