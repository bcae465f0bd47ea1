//! Paths of the local file system, as the bytes that they are made of.

use vstd::prelude::*;
use vstd::slice::slice_to_vec;
use vstd::utf8::{decode_utf8, encode_utf8, valid_utf8};

verus! {

/// The byte that parts the components of a path.
pub const SLASH: u8 = 47;

/// The path of `name` as seen from `base`: a name that starts with a slash
/// stands for itself, any other is put behind `base` and one slash.
pub open spec fn joined(base: Seq<u8>, name: Seq<char>) -> Seq<u8> {
    let bytes = encode_utf8(name);
    if bytes.len() > 0 && bytes[0] == SLASH {
        bytes
    } else if base.len() > 0 && base.last() != SLASH {
        base.push(SLASH) + bytes
    } else {
        base + bytes
    }
}

/// The path of `name` as seen from `base`.
pub fn join(base: &[u8], name: &str) -> (r: Vec<u8>)
    ensures
        r@ == joined(base@, name@),
{
    let bytes = name.as_bytes();
    let mut r = slice_to_vec(base);
    if bytes.len() > 0 && bytes[0] == SLASH {
        return slice_to_vec(bytes);
    }
    if base.len() > 0 && base[base.len() - 1] != SLASH {
        r.push(SLASH);
    }
    let mut tail = slice_to_vec(bytes);
    r.append(&mut tail);
    r
}

/// The text in which a path is shown to a reader.
pub uninterp spec fn shown(path: Seq<u8>) -> Seq<char>;

/// `String::from_utf8_lossy`: a path of valid UTF-8 is shown as the text that
/// it encodes. How the bytes of any other path are shown is named, and
/// nothing more is said of it.
#[verifier::external_body]
pub(crate) fn show(path: &[u8]) -> (r: String)
    ensures
        r@ == shown(path@),
        valid_utf8(path@) ==> r@ == decode_utf8(path@),
{
    String::from_utf8_lossy(path).into_owned()
}

/// What is said of bytes that are not valid UTF-8.
pub uninterp spec fn utf8_complaint(bytes: Seq<u8>) -> Seq<char>;

/// `String::from_utf8`: the text that the bytes encode, where they are valid
/// UTF-8. Where they are not, the words of the error are named.
#[verifier::external_body]
pub(crate) fn text_of_utf8(bytes: Vec<u8>) -> (r: Result<String, String>)
    ensures
        match r {
            Ok(text) => valid_utf8(bytes@) && text@ == decode_utf8(bytes@),
            Err(words) => !valid_utf8(bytes@) && words@ == utf8_complaint(bytes@),
        },
{
    String::from_utf8(bytes).map_err(|e| e.to_string())
}

/// The bytes of a text.
pub(crate) fn bytes_of(text: &str) -> (r: Vec<u8>)
    ensures
        r@ == encode_utf8(text@),
{
    slice_to_vec(text.as_bytes())
}

/// A copy of some bytes.
pub(crate) fn copy_of(bytes: &Vec<u8>) -> (r: Vec<u8>)
    ensures
        r@ == bytes@,
{
    slice_to_vec(bytes.as_slice())
}

/// The bytes of a text end as the text does.
pub(crate) proof fn lemma_encoded_end(name: Seq<char>)
    requires
        name.len() > 0,
        '\0' <= name.last() <= '\u{7f}',
    ensures
        encode_utf8(name).len() > 0,
        encode_utf8(name).last() == name.last() as u8,
    decreases name.len(),
{
    let first = vstd::utf8::encode_scalar(name[0] as u32);
    let rest = encode_utf8(name.drop_first());
    if name.len() > 1 {
        lemma_encoded_end(name.drop_first());
        assert((first + rest).last() == rest.last());
    } else {
        vstd::utf8::is_ascii_chars_encode_utf8(name);
    }
}

/// A path that was joined ends as its last component does.
pub(crate) proof fn lemma_joined_end(base: Seq<u8>, name: Seq<char>)
    requires
        name.len() > 0,
        '\0' <= name.last() <= '\u{7f}',
    ensures
        joined(base, name).len() > 0,
        joined(base, name).last() == name.last() as u8,
{
    lemma_encoded_end(name);
}

} // verus!
