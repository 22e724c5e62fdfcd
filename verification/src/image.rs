//! Pasted images: how their files are named and what is recorded of each.
//!
//! An image file is named by the time at which it was saved, in milliseconds,
//! followed by a dot and its extension. The record of an image reads that
//! time back from the name.

use crate::decimal::{
    decimal, decimal_string, is_digit, lemma_decimal_is_read_back, lemma_parse_of_decimal,
    parse_u64_in, parsed_u64,
};
use crate::text::chars_of;
use vstd::prelude::*;
use vstd::string::StringExecFns;

verus! {

/// How many characters of `name` come before its first dot; all of them if
/// it has none.
pub open spec fn stem_len(name: Seq<char>) -> nat
    decreases name.len(),
{
    if name.len() == 0 || name[0] == '.' {
        0
    } else {
        1 + stem_len(name.drop_first())
    }
}

/// The part of `name` before its first dot.
pub open spec fn stem(name: Seq<char>) -> Seq<char> {
    name.take(stem_len(name) as int)
}

/// The time that a file name records: the number that its stem writes, and
/// zero if the stem writes none.
pub open spec fn created_at_of(name: Seq<char>) -> u64 {
    match parsed_u64(stem(name)) {
        Some(time) => time,
        None => 0,
    }
}

/// The name of the file that holds an image saved at `time` with the given
/// extension.
pub open spec fn file_name_of(time: nat, extension: Seq<char>) -> Seq<char> {
    decimal(time) + seq!['.'] + extension
}

/// The stem ends at the first dot: a position with no dot before it that is
/// the end of the name or holds a dot is the length of the stem.
pub proof fn lemma_stem_ends_at(name: Seq<char>, end: int)
    requires
        0 <= end <= name.len(),
        forall|i: int| 0 <= i < end ==> name[i] != '.',
        end == name.len() || name[end] == '.',
    ensures
        stem_len(name) == end,
        stem(name) == name.take(end),
    decreases end,
{
    if end > 0 {
        let rest = name.drop_first();
        assert forall|i: int| 0 <= i < end - 1 implies rest[i] != '.' by {
            assert(rest[i] == name[i + 1]);
        }
        lemma_stem_ends_at(rest, end - 1);
    }
}

/// The time at which an image was saved can be read back from the name of
/// its file, whatever the extension, as long as it fits in 64 bits.
pub proof fn lemma_file_name_records_time(time: nat, extension: Seq<char>)
    requires
        time <= u64::MAX,
    ensures
        created_at_of(file_name_of(time, extension)) == time,
{
    let digits = decimal(time);
    let name = file_name_of(time, extension);
    lemma_decimal_is_read_back(time);
    lemma_parse_of_decimal(time);
    assert forall|i: int| 0 <= i < digits.len() implies name[i] != '.' by {
        assert(name[i] == digits[i]);
        assert(is_digit(digits[i]));
    }
    assert(name[digits.len() as int] == '.');
    lemma_stem_ends_at(name, digits.len() as int);
    assert(name.take(digits.len() as int) =~= digits);
}

/// The time that the file name records.
pub fn created_at(filename: &str) -> (time: u64)
    ensures
        time == created_at_of(filename@),
{
    let chars = chars_of(filename);
    let mut end: usize = 0;
    while end < chars.len() && chars[end] != '.'
        invariant
            end <= chars.len(),
            forall|i: int| 0 <= i < end ==> chars@[i] != '.',
        decreases chars.len() - end,
    {
        end = end + 1;
    }
    proof {
        lemma_stem_ends_at(chars@, end as int);
    }
    match parse_u64_in(&chars, 0, end) {
        Some(time) => time,
        None => 0,
    }
}

/// The name of the file for an image saved at `time_ms`, in milliseconds
/// since the epoch, with the given extension.
pub fn image_file_name(time_ms: u128, extension: &str) -> (name: String)
    ensures
        name@ == file_name_of(time_ms as nat, extension@),
{
    let mut name = decimal_string(time_ms);
    proof {
        reveal_strlit(".");
    }
    name.append(".");
    name.append(extension);
    assert(name@ =~= file_name_of(time_ms as nat, extension@));
    name
}

/// What a listing says of one stored image.
#[derive(Clone, Debug, PartialEq, Eq)]
pub struct ImageInfo {
    /// The name of the image's file.
    pub filename: String,
    /// The absolute path of the file.
    pub path: String,
    /// The size of the file in bytes.
    pub size: u64,
    /// When the image was saved, in milliseconds since the epoch.
    pub created_at: u64,
}

/// The mathematical content of an [`ImageInfo`].
pub struct ImageRecord {
    pub filename: Seq<char>,
    pub path: Seq<char>,
    pub size: nat,
    pub created_at: nat,
}

impl View for ImageInfo {
    type V = ImageRecord;

    open spec fn view(&self) -> ImageRecord {
        ImageRecord {
            filename: self.filename@,
            path: self.path@,
            size: self.size as nat,
            created_at: self.created_at as nat,
        }
    }
}

impl ImageRecord {
    /// Whether the record's time is the one that its file name records.
    pub open spec fn wf(self) -> bool {
        self.created_at == created_at_of(self.filename)
    }
}

impl ImageInfo {
    /// Whether the record's time is the one that its file name records.
    pub open spec fn wf(&self) -> bool {
        self@.wf()
    }

    /// The record of the file with the given name, path and size.
    pub fn new(filename: String, path: String, size: u64) -> (info: ImageInfo)
        ensures
            info.wf(),
            info@.filename == filename@,
            info@.path == path@,
            info@.size == size,
    {
        let time = created_at(filename.as_str());
        ImageInfo { filename, path, size, created_at: time }
    }
}

} // verus!
