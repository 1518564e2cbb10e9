//! The ways in which reading or writing a compilation database fails.

use vstd::prelude::*;

verus! {

/// A record that cannot be turned into the other form.
#[derive(Debug)]
pub enum ConversionError {
    /// A command line whose quotes do not match; it holds the line.
    MismatchedQuotes(String),
    /// A path whose bytes are not text; it holds the bytes.
    NotText(Vec<u8>),
}

/// A failed load or save.
#[derive(Debug)]
pub enum Error {
    /// The backing file could not be read or written.
    Io(String),
    /// The document is not a JSON array of build-command records.
    Format,
    /// One record could not be converted.
    Conversion(ConversionError),
    /// The messages of every record that could not be converted, joined by `", "`.
    Aggregate(String),
}

/// What `{:?}` writes for a string: the string between double quotes, with
/// quotes, backslashes and control characters escaped.
pub uninterp spec fn str_debug(s: Seq<char>) -> Seq<char>;

/// What `char::escape_debug` writes for one character.
pub uninterp spec fn char_debug(c: char) -> Seq<char>;

/// The valid and invalid runs into which `<[u8]>::utf8_chunks` cuts bytes: each
/// run of valid UTF-8 as its characters, then the invalid bytes after it.
pub uninterp spec fn utf8_chunks_of(b: Seq<u8>) -> Seq<(Seq<char>, Seq<u8>)>;

/// Relies on the `Debug` impl of `str`.
#[verifier::external_body]
fn debug_str(s: &str) -> (r: String)
    ensures
        r@ == str_debug(s@),
{
    format!("{:?}", s)
}

/// Relies on char::escape_debug.
#[verifier::external_body]
fn debug_char(c: char) -> (r: String)
    ensures
        r@ == char_debug(c),
{
    c.escape_debug().to_string()
}

pub open spec fn chunk_views(cs: Seq<(Vec<char>, Vec<u8>)>) -> Seq<(Seq<char>, Seq<u8>)> {
    cs.map_values(|c: (Vec<char>, Vec<u8>)| (c.0@, c.1@))
}

/// Relies on <[u8]>::utf8_chunks.
#[verifier::external_body]
fn utf8_chunks(b: &Vec<u8>) -> (r: Vec<(Vec<char>, Vec<u8>)>)
    ensures
        chunk_views(r@) == utf8_chunks_of(b@),
{
    b.utf8_chunks().map(|c| (c.valid().chars().collect(), c.invalid().to_vec())).collect()
}

/// One hexadecimal digit, upper case.
pub open spec fn hex_digit(n: u8) -> Seq<char> {
    if n == 0 { "0"@ } else if n == 1 { "1"@ } else if n == 2 { "2"@ } else if n == 3 { "3"@ }
    else if n == 4 { "4"@ } else if n == 5 { "5"@ } else if n == 6 { "6"@ } else if n == 7 { "7"@ }
    else if n == 8 { "8"@ } else if n == 9 { "9"@ } else if n == 10 { "A"@ } else if n == 11 { "B"@ }
    else if n == 12 { "C"@ } else if n == 13 { "D"@ } else if n == 14 { "E"@ } else { "F"@ }
}

fn hex_str(n: u8) -> (r: &'static str)
    requires
        n < 16,
    ensures
        r@ == hex_digit(n),
{
    if n == 0 { "0" } else if n == 1 { "1" } else if n == 2 { "2" } else if n == 3 { "3" }
    else if n == 4 { "4" } else if n == 5 { "5" } else if n == 6 { "6" } else if n == 7 { "7" }
    else if n == 8 { "8" } else if n == 9 { "9" } else if n == 10 { "A" } else if n == 11 { "B" }
    else if n == 12 { "C" } else if n == 13 { "D" } else if n == 14 { "E" } else { "F" }
}

/// One character of a path as `{:?}` writes it: as `char::escape_debug` does,
/// but for a single quote, which stays as it is.
pub open spec fn path_char_debug(c: char) -> Seq<char> {
    if c == '\'' {
        "'"@
    } else {
        char_debug(c)
    }
}

/// The characters of a path, each as `{:?}` writes it.
pub open spec fn chars_debug(cs: Seq<char>) -> Seq<char>
    decreases cs.len(),
{
    if cs.len() == 0 {
        Seq::empty()
    } else {
        chars_debug(cs.drop_last()) + path_char_debug(cs.last())
    }
}

/// The bytes, each as `\x` and two upper-case hexadecimal digits.
pub open spec fn bytes_debug(bs: Seq<u8>) -> Seq<char>
    decreases bs.len(),
{
    if bs.len() == 0 {
        Seq::empty()
    } else {
        let b = bs.last();
        bytes_debug(bs.drop_last()) + "\\x"@ + hex_digit(b / 16) + hex_digit(b % 16)
    }
}

pub open spec fn chunks_debug(cs: Seq<(Seq<char>, Seq<u8>)>) -> Seq<char>
    decreases cs.len(),
{
    if cs.len() == 0 {
        Seq::empty()
    } else {
        chunks_debug(cs.drop_last()) + chars_debug(cs.last().0) + bytes_debug(cs.last().1)
    }
}

/// A path as `{:?}` writes it where paths are bytes: between double quotes,
/// each valid run with its characters escaped, each invalid byte in hexadecimal.
pub open spec fn path_debug(b: Seq<u8>) -> Seq<char> {
    "\""@ + chunks_debug(utf8_chunks_of(b)) + "\""@
}

fn path_debug_text(b: &Vec<u8>) -> (r: String)
    ensures
        r@ == path_debug(b@),
{
    let chunks = utf8_chunks(b);
    let ghost cv = chunk_views(chunks@);
    let mut out = String::from_str("\"");
    let mut i: usize = 0;
    while i < chunks.len()
        invariant
            cv == chunk_views(chunks@),
            cv == utf8_chunks_of(b@),
            0 <= i <= chunks@.len(),
            out@ == "\""@ + chunks_debug(cv.take(i as int)),
        decreases chunks@.len() - i,
    {
        let ghost before = out@;
        let valid = &chunks[i].0;
        let mut j: usize = 0;
        while j < valid.len()
            invariant
                0 <= j <= valid@.len(),
                out@ == before + chars_debug(valid@.take(j as int)),
            decreases valid@.len() - j,
        {
            let c = valid[j];
            if c == '\'' {
                out.append("'");
            } else {
                let piece = debug_char(c);
                out.append(piece.as_str());
            }
            proof {
                assert(valid@.take(j + 1).drop_last() =~= valid@.take(j as int));
            }
            j = j + 1;
        }
        let ghost middle = out@;
        let invalid = &chunks[i].1;
        let mut k: usize = 0;
        while k < invalid.len()
            invariant
                0 <= k <= invalid@.len(),
                out@ == middle + bytes_debug(invalid@.take(k as int)),
            decreases invalid@.len() - k,
        {
            let byte = invalid[k];
            out.append("\\x");
            out.append(hex_str(byte / 16));
            out.append(hex_str(byte % 16));
            proof {
                assert(invalid@.take(k + 1).drop_last() =~= invalid@.take(k as int));
            }
            k = k + 1;
        }
        proof {
            assert(valid@.take(valid@.len() as int) =~= valid@);
            assert(invalid@.take(invalid@.len() as int) =~= invalid@);
            assert(cv.take(i + 1).drop_last() =~= cv.take(i as int));
            assert(cv[i as int] == (valid@, invalid@));
            assert(out@ =~= "\""@ + chunks_debug(cv.take(i + 1)));
        }
        i = i + 1;
    }
    proof {
        assert(cv.take(chunks@.len() as int) =~= cv);
    }
    out.append("\"");
    out
}

/// The text that reports a conversion error.
pub open spec fn message_of(e: ConversionError) -> Seq<char> {
    match e {
        ConversionError::MismatchedQuotes(line) => "Quotes are mismatch in "@ + str_debug(line@),
        ConversionError::NotText(b) => "Failed to convert to string "@ + path_debug(b@),
    }
}

impl ConversionError {
    /// The text that reports this error: the command line or the path as
    /// `{:?}` writes it.
    pub fn message(&self) -> (r: String)
        ensures
            r@ == message_of(*self),
    {
        match self {
            ConversionError::MismatchedQuotes(line) => {
                let m = String::from_str("Quotes are mismatch in ");
                let quoted = debug_str(line.as_str());
                m.concat(quoted.as_str())
            },
            ConversionError::NotText(b) => {
                let m = String::from_str("Failed to convert to string ");
                let quoted = path_debug_text(b);
                m.concat(quoted.as_str())
            },
        }
    }
}

} // verus!
