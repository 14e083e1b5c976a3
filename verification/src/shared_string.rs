//! Shared binary blobs, keyed by the MD5 digest of their content.

use vstd::prelude::*;

verus! {

/// The MD5 digest of a byte string: 16 bytes.
pub uninterp spec fn md5_digest(data: Seq<u8>) -> Seq<u8>;

/// The standard base64 text of a byte string, with padding.
pub uninterp spec fn base64_text(data: Seq<u8>) -> Seq<char>;

/// The bytes that a standard base64 text with padding stands for, or `None`
/// for a text that is no such text.
pub uninterp spec fn base64_bytes(text: Seq<char>) -> Option<Seq<u8>>;

/// Decodes a text with `base64::decode`, that is with the standard alphabet
/// and padding; `None` stands for any of its errors. The result depends on
/// the text alone.
#[verifier::external_body]
pub(crate) fn decode_base64(text: &str) -> (data: Option<Vec<u8>>)
    ensures
        match data {
            Some(bytes) => base64_bytes(text@) == Some(bytes@),
            None => base64_bytes(text@) is None,
        },
{
    base64::decode(text).ok()
}

/// Computes the MD5 digest of `data` with `rbx_dom_weak::SharedString::new`,
/// which hashes the buffer it is given, and reads the digest back with
/// `SharedString::md5_hash`. The digest depends on the bytes alone.
#[verifier::external_body]
fn compute_md5(data: &Vec<u8>) -> (hash: [u8; 16])
    ensures
        hash@ == md5_digest(data@),
{
    rbx_dom_weak::SharedString::new(data.clone()).md5_hash()
}

/// Encodes bytes with `base64::encode`, that is with the standard alphabet
/// and padding. The text depends on the bytes alone.
#[verifier::external_body]
pub(crate) fn encode_base64(data: &[u8]) -> (text: String)
    ensures
        text@ == base64_text(data@),
{
    base64::encode(data)
}

/// What a shared string holds: its digest and its content.
#[verifier::ext_equal]
pub struct SharedBlob {
    pub hash: Seq<u8>,
    pub data: Seq<u8>,
}

/// A buffer of bytes together with the MD5 digest of its content. The digest
/// identifies the buffer on the wire and is the key by which buffers are
/// deduplicated.
#[derive(Debug)]
pub struct SharedString {
    data: Vec<u8>,
    hash: [u8; 16],
}

impl View for SharedString {
    type V = SharedBlob;

    closed spec fn view(&self) -> SharedBlob {
        SharedBlob { hash: self.hash@, data: self.data@ }
    }
}

impl SharedString {
    #[verifier::type_invariant]
    spec fn digest_matches(self) -> bool {
        self.hash@ == md5_digest(self.data@)
    }

    /// Constructs a shared string from a buffer of data.
    pub fn new(data: Vec<u8>) -> (shared: SharedString)
        ensures
            shared@.data == data@,
            shared@.hash == md5_digest(data@),
    {
        let hash = compute_md5(&data);
        SharedString { data, hash }
    }

    /// Returns the MD5 digest of the content.
    pub fn md5_hash(&self) -> (hash: [u8; 16])
        ensures
            hash@ == self@.hash,
            hash@ == md5_digest(self@.data),
    {
        proof {
            use_type_invariant(self);
        }
        self.hash
    }

    /// Returns the content of the buffer.
    pub fn data(&self) -> (data: &[u8])
        ensures
            data@ == self@.data,
    {
        self.data.as_slice()
    }

    /// Whether this buffer and `other` carry the same digest.
    pub fn same_hash(&self, other: &SharedString) -> (same: bool)
        ensures
            same == (self@.hash == other@.hash),
    {
        let mut i: usize = 0;
        while i < 16
            invariant
                i <= 16,
                forall|k: int| 0 <= k < i ==> self.hash@[k] == other.hash@[k],
            decreases 16 - i,
        {
            if self.hash[i] != other.hash[i] {
                return false;
            }
            i += 1;
        }
        assert(self.hash@ =~= other.hash@);
        true
    }

    /// A copy of this buffer.
    pub fn duplicate(&self) -> (copy: SharedString)
        ensures
            copy@ == self@,
    {
        proof {
            use_type_invariant(self);
        }
        SharedString { data: self.data.clone(), hash: self.hash }
    }
}

} // verus!
