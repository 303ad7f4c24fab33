//! Identifiers for files, and the keys made of them.

use vstd::prelude::*;
use vstd::string::StringExecFns;
use crate::text::{
    decimal, decimal_text, joined, lemma_occurs_in_itself, lemma_occurs_in_part, occurs_in,
};

verus! {

/// Whether `c` is a hexadecimal digit in small letters.
pub open spec fn is_lower_hex(c: char) -> bool {
    ('0' <= c && c <= '9') || ('a' <= c && c <= 'f')
}

/// Whether a hyphen stands at place `i` of an identifier.
pub open spec fn is_hyphen_place(i: int) -> bool {
    i == 8 || i == 13 || i == 18 || i == 23
}

/// Whether `s` is written as a random universally unique identifier:
/// thirty-two hexadecimal digits in small letters, in groups of 8, 4, 4,
/// 4 and 12 with a hyphen between two groups, where the third group
/// begins with the version digit 4 and the fourth with one of 8, 9, a, b.
pub open spec fn is_identifier(s: Seq<char>) -> bool {
    &&& s.len() == 36
    &&& forall|i: int| 0 <= i < 36 ==> is_lower_hex(#[trigger] s[i]) || is_hyphen_place(i)
    &&& forall|i: int| 0 <= i < 36 && is_hyphen_place(i) ==> #[trigger] s[i] == '-'
    &&& s[14] == '4'
    &&& s[19] == '8' || s[19] == '9' || s[19] == 'a' || s[19] == 'b'
}

/// A new identifier, drawn at random by `uuid::Uuid::new_v4` and written
/// out by the `Display` of `uuid::Uuid`, which is the hyphenated form in
/// small letters. The contract claims only that form; that two calls
/// differ is a matter of chance and is not claimed. `uuid` does not
/// return where the system has no random numbers to give.
#[verifier::external_body]
pub(crate) fn new_identifier() -> (id: String)
    ensures
        is_identifier(id@),
{
    uuid::Uuid::new_v4().to_string()
}

/// The key `prefix/id`.
pub open spec fn upload_key_text(prefix: Seq<char>, id: Seq<char>) -> Seq<char> {
    prefix + "/"@ + id
}

/// The key `driver_images/driver_id/id`, with `driver_id` in decimal.
pub open spec fn driver_image_key_text(driver_id: i32, id: Seq<char>) -> Seq<char> {
    upload_key_text("driver_images/"@ + decimal_text(driver_id as int), id)
}

/// The key under which the file with identifier `id` is stored below
/// `prefix`.
pub fn upload_key(prefix: &str, id: &str) -> (key: String)
    ensures
        key@ == upload_key_text(prefix@, id@),
{
    joined(prefix, "/", id)
}

/// The key under which the picture with identifier `id` of driver
/// `driver_id` is stored.
pub fn driver_image_key(driver_id: i32, id: &str) -> (key: String)
    ensures
        key@ == driver_image_key_text(driver_id, id@),
{
    let prefix = joined("driver_images/", decimal(driver_id).as_str(), "");
    proof {
        reveal_strlit("");
        assert(prefix@ =~= "driver_images/"@ + decimal_text(driver_id as int));
    }
    upload_key(prefix.as_str(), id)
}

/// The number of seconds for which an upload credential stays valid: one
/// hour.
pub const UPLOAD_VALIDITY_SECS: u64 = 3600;

/// The address at which the file under `key` in the bucket `bucket` can
/// be read.
pub open spec fn public_url_text(bucket: Seq<char>, key: Seq<char>) -> Seq<char> {
    "https://"@ + bucket + ".s3.amazonaws.com/"@ + key
}

/// The address at which the file under `key` in the bucket `bucket` can
/// be read.
pub fn public_object_url(bucket: &str, key: &str) -> (url: String)
    ensures
        url@ == public_url_text(bucket@, key@),
        occurs_in(key@, url@),
{
    let mut url = joined("https://", bucket, ".s3.amazonaws.com/");
    url.append(key);
    proof {
        let head = "https://"@ + bucket@ + ".s3.amazonaws.com/"@;
        lemma_occurs_in_itself(key@);
        lemma_occurs_in_part(key@, head, key@, Seq::empty());
        assert(head + key@ + Seq::empty() =~= url@);
    }
    url
}

} // verus!
