//! The bytes of a pasted image.
//!
//! An image arrives as text: standard base64, on its own or behind the
//! prefix of a data URI such as `data:image/png;base64,`. The prefix ends
//! with the first marker `base64,`; everything after that marker is decoded,
//! and a text without a marker is decoded whole.

use crate::image::{file_name_of, image_file_name};
use vstd::prelude::*;
use vstd::slice::slice_subrange;
use vstd::string::StringSliceAdditionalSpecFns;
use vstd::utf8::is_ascii_chars_encode_utf8;

verus! {

/// The marker `base64,` in bytes.
pub open spec fn marker() -> Seq<u8> {
    seq![98u8, 97u8, 115u8, 101u8, 54u8, 52u8, 44u8]
}

/// Whether `pattern` stands in `data` at position `at`.
pub open spec fn occurs_at(data: Seq<u8>, pattern: Seq<u8>, at: int) -> bool {
    &&& 0 <= at
    &&& at + pattern.len() <= data.len()
    &&& data.subrange(at, at + pattern.len()) == pattern
}

/// Whether `pattern` stands somewhere in `data`.
pub open spec fn contains(data: Seq<u8>, pattern: Seq<u8>) -> bool {
    exists|at: int| occurs_at(data, pattern, at)
}

/// Whether `at` is the first position at which `pattern` stands in `data`.
pub open spec fn is_first_occurrence(data: Seq<u8>, pattern: Seq<u8>, at: int) -> bool {
    &&& occurs_at(data, pattern, at)
    &&& forall|before: int| 0 <= before < at ==> !occurs_at(data, pattern, before)
}

/// The first position at which `pattern` stands in `data`, if it stands
/// there at all.
pub open spec fn first_occurrence(data: Seq<u8>, pattern: Seq<u8>) -> int {
    choose|at: int| is_first_occurrence(data, pattern, at)
}

/// What comes after the first `pattern` in `data`, if it holds one.
pub open spec fn after_first(data: Seq<u8>, pattern: Seq<u8>) -> Seq<u8> {
    data.skip(first_occurrence(data, pattern) + pattern.len())
}

/// The part of the text of an image that is decoded: everything after the
/// first marker, and the whole text if it holds no marker.
pub open spec fn image_payload(data: Seq<u8>) -> Seq<u8> {
    if contains(data, marker()) {
        after_first(data, marker())
    } else {
        data
    }
}

/// Whether `byte` is a sign of standard base64: a letter, a digit, `+`, `/`
/// or the padding sign `=`.
pub open spec fn is_base64_byte(byte: u8) -> bool {
    ||| 65 <= byte <= 90
    ||| 97 <= byte <= 122
    ||| 48 <= byte <= 57
    ||| byte == 43
    ||| byte == 47
    ||| byte == 61
}

/// Whether `text` holds signs of standard base64 only.
pub open spec fn is_base64_text(text: Seq<u8>) -> bool {
    forall|i: int| 0 <= i < text.len() ==> is_base64_byte(#[trigger] text[i])
}

/// What the decoder makes of `input`: the bytes that it encodes, or `None`
/// where the decoder reports an error.
pub uninterp spec fn base64_decoded(input: Seq<u8>) -> Option<Seq<u8>>;

/// The bytes that `text` encodes in standard base64 with canonical padding,
/// or `None` where it is no such text.
pub open spec fn encoded_bytes(text: Seq<u8>) -> Option<Seq<u8>> {
    if is_base64_text(text) {
        base64_decoded(text)
    } else {
        None
    }
}

/// A first occurrence is the first occurrence.
pub proof fn lemma_first_occurrence(data: Seq<u8>, pattern: Seq<u8>, at: int)
    requires
        is_first_occurrence(data, pattern, at),
    ensures
        contains(data, pattern),
        first_occurrence(data, pattern) == at,
{
    let chosen = first_occurrence(data, pattern);
    assert(is_first_occurrence(data, pattern, chosen));
    if chosen < at {
        assert(!occurs_at(data, pattern, chosen));
    } else if at < chosen {
        assert(!occurs_at(data, pattern, at));
    }
}

/// The marker does not overlap itself: where it stands at `at`, it stands
/// at no earlier position that reaches into it.
pub proof fn lemma_marker_has_no_overlap(data: Seq<u8>, at: int, before: int)
    requires
        occurs_at(data, marker(), at),
        0 <= before < at < before + marker().len(),
    ensures
        !occurs_at(data, marker(), before),
{
    let here = data.subrange(at, at + marker().len());
    assert(here[0] == data[at]);
    assert(data[at] == 98u8);
    if occurs_at(data, marker(), before) {
        let found = data.subrange(before, before + marker().len());
        let offset = at - before;
        assert(found[offset] == data[at]);
        assert(marker()[offset] != 98u8);
    }
}

/// What follows a data-URI prefix is decoded whole: a prefix without a
/// marker, the marker and then `rest` give `rest`, whatever `rest` holds.
pub proof fn lemma_payload_after_prefix(prefix: Seq<u8>, rest: Seq<u8>)
    requires
        !contains(prefix, marker()),
    ensures
        image_payload(prefix + marker() + rest) == rest,
{
    let whole = prefix + marker() + rest;
    let at = prefix.len() as int;
    let width = marker().len() as int;
    assert(whole.subrange(at, at + width) =~= marker());
    assert(occurs_at(whole, marker(), at));
    assert forall|before: int| 0 <= before < at implies !occurs_at(whole, marker(), before) by {
        if before + width <= at {
            assert(prefix.subrange(before, before + width) =~= whole.subrange(
                before,
                before + width,
            ));
            assert(!occurs_at(prefix, marker(), before));
        } else {
            lemma_marker_has_no_overlap(whole, at, before);
        }
    }
    lemma_first_occurrence(whole, marker(), at);
    assert(whole.skip(at + width) =~= rest);
}

/// A text of base64 signs holds no marker, for the marker ends in a comma:
/// such a text is decoded whole.
pub proof fn lemma_base64_text_has_no_marker(text: Seq<u8>)
    requires
        is_base64_text(text),
    ensures
        !contains(text, marker()),
        image_payload(text) == text,
{
    assert forall|at: int| !occurs_at(text, marker(), at) by {
        if occurs_at(text, marker(), at) {
            let found = text.subrange(at, at + marker().len());
            assert(found[6] == text[at + 6]);
            assert(marker()[6] == 44u8);
            assert(is_base64_byte(text[at + 6]));
        }
    }
}

/// A data-URI prefix changes nothing: where neither the prefix nor the text
/// after it holds a marker, the same text is decoded with the prefix as
/// without it.
pub proof fn lemma_prefix_is_stripped(prefix: Seq<u8>, text: Seq<u8>)
    requires
        !contains(prefix, marker()),
        !contains(text, marker()),
    ensures
        image_payload(prefix + marker() + text) == image_payload(text),
{
    lemma_payload_after_prefix(prefix, text);
}

/// A valid image decodes alike with a data-URI prefix and without one: for
/// every text that is standard base64, and every prefix without a marker,
/// both ways give the bytes that the text encodes.
pub proof fn lemma_prefixed_image_decodes_alike(prefix: Seq<u8>, text: Seq<u8>)
    requires
        !contains(prefix, marker()),
        encoded_bytes(text) is Some,
    ensures
        encoded_bytes(image_payload(prefix + marker() + text)) == encoded_bytes(text),
        encoded_bytes(image_payload(text)) == encoded_bytes(text),
{
    lemma_payload_after_prefix(prefix, text);
    lemma_base64_text_has_no_marker(text);
}

fn matches_at(data: &[u8], pattern: &[u8], at: usize) -> (matches: bool)
    requires
        at + pattern.len() <= data.len(),
    ensures
        matches == occurs_at(data@, pattern@, at as int),
{
    let mut i: usize = 0;
    while i < pattern.len()
        invariant
            i <= pattern.len(),
            at + pattern.len() <= data.len(),
            forall|j: int| 0 <= j < i ==> data@[at + j] == pattern@[j],
        decreases pattern.len() - i,
    {
        if data[at + i] != pattern[i] {
            assert(data@.subrange(at as int, at + pattern.len())[i as int] != pattern@[i as int]);
            return false;
        }
        i = i + 1;
    }
    assert(data@.subrange(at as int, at + pattern.len()) =~= pattern@);
    true
}

/// Finds the first position at which `pattern` stands in `data`.
pub fn find_first(data: &[u8], pattern: &[u8]) -> (found: Option<usize>)
    ensures
        match found {
            Some(at) => is_first_occurrence(data@, pattern@, at as int),
            None => !contains(data@, pattern@),
        },
{
    if pattern.len() > data.len() {
        return None;
    }
    let last: usize = data.len() - pattern.len();
    let mut at: usize = 0;
    while at <= last
        invariant
            last == data.len() - pattern.len(),
            forall|before: int| 0 <= before < at ==> !occurs_at(data@, pattern@, before),
        decreases data.len() - at,
    {
        if matches_at(data, pattern, at) {
            return Some(at);
        }
        assert(pattern@.len() > 0) by {
            if pattern@.len() == 0 {
                assert(data@.subrange(at as int, at as int) =~= pattern@);
            }
        }
        at = at + 1;
    }
    None
}

/// Cuts the part that is decoded out of the text of an image.
pub fn payload_of(data: &[u8]) -> (payload: &[u8])
    ensures
        payload@ == image_payload(data@),
{
    let text = "base64,";
    let pattern = text.as_bytes();
    proof {
        reveal_strlit("base64,");
        is_ascii_chars_encode_utf8(text@);
        assert(pattern@ =~= marker());
    }
    match find_first(data, pattern) {
        None => data,
        Some(first) => {
            proof {
                lemma_first_occurrence(data@, marker(), first as int);
            }
            assert(first + pattern.len() <= data.len());
            slice_subrange(data, first + pattern.len(), data.len())
        },
    }
}

/// Declares the error type `base64::DecodeError` of the crate `base64`. Its
/// values are carried through unread.
#[verifier::external_type_specification]
#[verifier::external_body]
pub struct ExDecodeError(base64::DecodeError);

/// Calls `Engine::decode` of the crate `base64` on its `STANDARD` engine.
/// The call reads nothing but `input`, so its result is named by
/// [`base64_decoded`]: the decoded bytes where it succeeds, and `None` where
/// it reports an error. The engine looks every byte of the input up in the
/// standard alphabet and lets only the padding sign pass beside it, so an
/// input that it accepts holds base64 signs only.
#[verifier::external_body]
fn decode_standard(input: &[u8]) -> (decoded: Result<Vec<u8>, base64::DecodeError>)
    ensures
        match decoded {
            Ok(bytes) => base64_decoded(input@) == Some(bytes@) && is_base64_text(input@),
            Err(_) => base64_decoded(input@) is None,
        },
{
    base64::Engine::decode(&base64::engine::general_purpose::STANDARD, input)
}

/// Why an image could not be taken in.
#[derive(Clone, Debug, PartialEq, Eq)]
pub enum ImageError {
    /// The text of the image is not standard base64.
    Decode {
        /// What the decoder found wrong.
        message: String,
    },
}

impl ImageError {
    /// The error as a message for the user.
    pub fn message(&self) -> (message: String)
        ensures
            match self {
                ImageError::Decode { message: text } => message@ == text@,
            },
    {
        match self {
            ImageError::Decode { message } => message.clone(),
        }
    }
}

/// Turns what the decoder returned into the bytes of the image, or into the
/// error that the user is shown, whose message is the decoder's own
/// description of what it found wrong.
pub fn decoded_image(decoded: Result<Vec<u8>, base64::DecodeError>) -> (image: Result<
    Vec<u8>,
    ImageError,
>)
    ensures
        match decoded {
            Ok(bytes) => image == Ok::<Vec<u8>, ImageError>(bytes),
            Err(error) => image matches Err(ImageError::Decode { message })
                && vstd::string::to_string_from_display_ensures::<base64::DecodeError>(
                &error,
                message,
            ),
        },
{
    match decoded {
        Ok(bytes) => Ok(bytes),
        Err(error) => Err(ImageError::Decode { message: error.to_string() }),
    }
}

/// Decodes the text of an image: standard base64, or a data URI that ends
/// in it. Succeeds exactly where the part that is decoded is standard
/// base64, and then gives the bytes that it encodes.
pub fn decode_image(image_data: &str) -> (image: Result<Vec<u8>, ImageError>)
    ensures
        match encoded_bytes(image_payload(image_data.spec_bytes())) {
            Some(bytes) => image is Ok && image.unwrap()@ == bytes,
            None => image is Err,
        },
{
    let payload = payload_of(image_data.as_bytes());
    decoded_image(decode_standard(payload))
}

/// An image that is ready to be written to the images directory.
#[derive(Clone, Debug, PartialEq, Eq)]
pub struct NewImage {
    /// The name of the file to write.
    pub filename: String,
    /// The bytes to write.
    pub bytes: Vec<u8>,
}

/// Prepares a pasted image for storing: decodes its text and names its file
/// by the time of saving, in milliseconds since the epoch, and the given
/// extension.
pub fn prepare_image(image_data: &str, extension: &str, time_ms: u128) -> (image: Result<
    NewImage,
    ImageError,
>)
    ensures
        match encoded_bytes(image_payload(image_data.spec_bytes())) {
            Some(bytes) => {
                &&& image is Ok
                &&& image.unwrap().bytes@ == bytes
                &&& image.unwrap().filename@ == file_name_of(time_ms as nat, extension@)
            },
            None => image is Err,
        },
{
    match decode_image(image_data) {
        Ok(bytes) => Ok(NewImage { filename: image_file_name(time_ms, extension), bytes }),
        Err(error) => Err(error),
    }
}

} // verus!
