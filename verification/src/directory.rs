//! Sizes and mailbox ids of the Payjoin Directory.
use vstd::prelude::*;
use vstd::slice::*;

use crate::bech32::{
    bech32_decoded, bech32_encoded, decode_no_checksum, encode_no_checksum, is_bech32_char,
};
use crate::bytes::to_array;
use crate::text::{lowered, str_equal, to_lower};
use crate::url::{ends_path, law_segment_is_put_behind_the_path, Url, UrlModel};

verus! {

/// Size of an OHTTP encapsulated request or response.
pub const ENCAPSULATED_MESSAGE_BYTES: usize = 8192;

/// Size of one mailbox frame.
pub const PADDED_MESSAGE_BYTES: usize = 7168;

/// The SHA-256 digest of some bytes.
pub uninterp spec fn sha256_digest(data: Seq<u8>) -> Seq<u8>;

/// `bitcoin::hashes::sha256::Hash::hash`: the 32-byte SHA-256 digest of `data`, named
/// `sha256_digest`.
#[verifier::external_body]
pub(crate) fn sha256(data: &[u8]) -> (r: [u8; 32])
    ensures
        r@ == sha256_digest(data@),
{
    let digest: bitcoin::hashes::sha256::Hash = bitcoin::hashes::Hash::hash(data);
    bitcoin::hashes::Hash::to_byte_array(digest)
}

/// The id of a directory mailbox.
#[derive(Debug, Clone, Copy, PartialEq, Eq)]
pub struct ShortId(pub [u8; 8]);

impl View for ShortId {
    type V = Seq<u8>;

    open spec fn view(&self) -> Seq<u8> {
        self.0@
    }
}

/// The mailbox id made from some bytes: the first 8 bytes of their SHA-256 digest.
pub open spec fn short_id_of(data: Seq<u8>) -> Seq<u8> {
    sha256_digest(data).take(8)
}

/// The text of a mailbox id.
pub open spec fn short_id_text(id: Seq<u8>) -> Seq<char> {
    bech32_encoded("ID"@, id)
}

/// The mailbox id that a text stands for.
pub open spec fn parse_short_id(s: Seq<char>) -> Option<Seq<u8>> {
    match bech32_decoded(s) {
        Some((hrp, data)) => if lowered(hrp) == "id"@ && data.len() == 8 {
            Some(data)
        } else {
            None
        },
        None => None,
    }
}

impl ShortId {
    /// The mailbox id made from some bytes.
    pub fn of_bytes(data: &[u8]) -> (r: ShortId)
        ensures
            r@ == short_id_of(data@),
    {
        let digest = sha256(data);
        let head = slice_subrange(digest.as_slice(), 0, 8);
        assert(head@ =~= digest@.take(8));
        ShortId(to_array(head))
    }

    /// The id as text.
    pub fn as_string(&self) -> (r: String)
        ensures
            r@ == short_id_text(self@),
            parse_short_id(r@) == Some(self@),
            forall|i: int| 0 <= i < r@.len() ==> is_bech32_char(#[trigger] r@[i]),
            r@.len() > 0,
    {
        let text = encode_no_checksum("ID", &self.0);
        proof {
            reveal_strlit("ID");
            reveal_strlit("id");
            assert(lowered("ID"@) =~= "id"@);
        }
        text
    }

    /// The id that `s` stands for.
    pub fn parse(s: &str) -> (r: Option<ShortId>)
        ensures
            match parse_short_id(s@) {
                Some(id) => r is Some && r->0@ == id,
                None => r is None,
            },
    {
        let (hrp, data) = decode_no_checksum(s)?;
        if str_equal(&to_lower(&hrp), "id") && data.len() == 8 {
            Some(ShortId(to_array(&data)))
        } else {
            None
        }
    }
}

/// The URL of a mailbox: the directory's, with the mailbox id as one more path segment.
pub open spec fn mailbox_url(directory: UrlModel, mailbox: Seq<u8>) -> UrlModel {
    directory.join_segment(short_id_text(mailbox))
}

/// The URL of a mailbox.
pub fn mailbox_endpoint(directory: &Url, mailbox: &ShortId) -> (r: Url)
    ensures
        r@ == mailbox_url(directory@, mailbox@),
        directory@.well_formed() ==> r@.well_formed(),
{
    let text = mailbox.as_string();
    proof {
        if directory@.well_formed() {
            let u = mailbox_url(directory@, mailbox@);
            assert forall|i: int| 0 <= i < u.path.len() implies !ends_path(#[trigger] u.path[i]) by {
                let n = u.path.len() - text@.len();
                if i >= n {
                    assert(u.path[i] == text@[i - n]);
                    assert(is_bech32_char(text@[i - n]));
                } else if directory@.path.len() > 1 && i < directory@.path.len() {
                    assert(u.path[i] == directory@.path[i]);
                }
            }
        }
    }
    directory.push_segment(&text)
}

/// A mailbox stands one segment below its directory: the text of its id.
pub proof fn law_mailbox_stands_below_its_directory(directory: UrlModel, mailbox: Seq<u8>)
    requires
        directory.well_formed(),
    ensures
        mailbox_url(directory, mailbox).scheme == directory.scheme,
        mailbox_url(directory, mailbox).authority == directory.authority,
        mailbox_url(directory, mailbox).query == directory.query,
        mailbox_url(directory, mailbox).fragment == directory.fragment,
        mailbox_url(directory, mailbox).path == (if directory.path == seq!['/'] {
            Seq::<char>::empty()
        } else {
            directory.path
        }) + seq!['/'] + bech32_encoded("ID"@, mailbox),
{
    law_segment_is_put_behind_the_path(directory, bech32_encoded("ID"@, mailbox));
}

/// A mailbox id is the first eight bytes of a digest.
pub proof fn law_mailbox_id_begins_the_digest(data: Seq<u8>, id: Seq<u8>)
    requires
        sha256_digest(data).len() == 32,
        id == short_id_of(data),
    ensures
        id.len() == 8,
        forall|i: int| 0 <= i < 8 ==> #[trigger] id[i] == sha256_digest(data)[i],
{
}

/// A text stands for a mailbox id where it is bech32 for eight bytes under `id`, in upper or in lower
/// case.
pub proof fn law_mailbox_id_is_read(s: Seq<char>)
    ensures
        match parse_short_id(s) {
            Some(id) => bech32_decoded(s) matches Some((hrp, data)) && data == id && id.len() == 8
                && lowered(hrp) == "id"@,
            None => bech32_decoded(s) matches Some((hrp, data)) ==> data.len() != 8 || lowered(hrp)
                != "id"@,
        },
{
}

} // verus!
