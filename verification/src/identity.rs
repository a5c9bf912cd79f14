use vstd::prelude::*;
use vstd::slice::slice_to_vec;
use crate::signature::{hex_bytes, is_hex_text, parse_signature, SignatureError};

verus! {

/// The key under which results are gathered: the package name and the
/// signature bytes.
pub type IdentityKey = (Seq<char>, Seq<u8>);

/// A client application build: a package name and the signature of the
/// certificate that signed it. The signature is kept both as the text that
/// was supplied, which is what goes on the wire, and as the bytes it spells.
/// An identity cannot be changed once it is made, and none exists whose
/// signature text is malformed.
#[derive(Debug)]
pub struct Identity {
    package_name: String,
    signature_hex: String,
    signature: Vec<u8>,
}

/// Tells whether two runs of bytes are equal.
pub fn same_bytes(a: &[u8], b: &[u8]) -> (same: bool)
    ensures
        same == (a@ == b@),
{
    if a.len() != b.len() {
        return false;
    }
    let n: usize = a.len();
    let mut i: usize = 0;
    while i < n
        invariant
            i <= n,
            n == a@.len(),
            n == b@.len(),
            forall|k: int| 0 <= k < i ==> a@[k] == b@[k],
        decreases n - i,
    {
        if a[i] != b[i] {
            return false;
        }
        i += 1;
    }
    proof {
        assert(a@ =~= b@);
    }
    true
}

impl Identity {
    #[verifier::type_invariant]
    spec fn well_formed(self) -> bool {
        is_hex_text(self.signature_hex@) && self.signature@ == hex_bytes(self.signature_hex@)
    }

    /// The package name.
    pub closed spec fn package(&self) -> Seq<char> {
        self.package_name@
    }

    /// The signature as the text that was supplied.
    pub closed spec fn signature_text(&self) -> Seq<char> {
        self.signature_hex@
    }

    /// The signature as bytes.
    pub closed spec fn signature_bytes(&self) -> Seq<u8> {
        self.signature@
    }

    /// The key of the identity.
    pub open spec fn key(&self) -> IdentityKey {
        (self.package(), self.signature_bytes())
    }

    /// Builds an identity from a package name and a signature in
    /// hexadecimal. A malformed signature is refused.
    pub fn new(package_name: &str, signature_hex: &str) -> (r: Result<Identity, SignatureError>)
        ensures
            r.is_ok() == is_hex_text(signature_hex@),
            r.is_ok() ==> r.unwrap().package() == package_name@ && r.unwrap().signature_text()
                == signature_hex@ && r.unwrap().signature_bytes() == hex_bytes(signature_hex@),
            r.is_err() ==> r.unwrap_err() == SignatureError::NotHex,
    {
        match parse_signature(signature_hex) {
            Ok(signature) => Ok(
                Identity {
                    package_name: package_name.to_owned(),
                    signature_hex: signature_hex.to_owned(),
                    signature,
                },
            ),
            Err(e) => Err(e),
        }
    }

    /// Builds an identity from a signature text and the bytes that were
    /// already decoded from it.
    pub(crate) fn from_decoded(package_name: &str, signature_hex: &str, signature: Vec<u8>) -> (id:
        Identity)
        requires
            is_hex_text(signature_hex@),
            signature@ == hex_bytes(signature_hex@),
        ensures
            id.package() == package_name@,
            id.signature_text() == signature_hex@,
            id.signature_bytes() == signature@,
    {
        Identity {
            package_name: package_name.to_owned(),
            signature_hex: signature_hex.to_owned(),
            signature,
        }
    }

    /// The package name.
    pub fn package_name(&self) -> (name: &String)
        ensures
            name@ == self.package(),
    {
        &self.package_name
    }

    /// The signature as the text that was supplied: well-formed
    /// hexadecimal.
    pub fn signature_hex(&self) -> (text: &String)
        ensures
            text@ == self.signature_text(),
            is_hex_text(text@),
    {
        proof {
            use_type_invariant(self);
        }
        &self.signature_hex
    }

    /// The signature as bytes: those that the signature text spells.
    pub fn signature(&self) -> (bytes: &Vec<u8>)
        ensures
            bytes@ == self.signature_bytes(),
            bytes@ == hex_bytes(self.signature_text()),
    {
        proof {
            use_type_invariant(self);
        }
        &self.signature
    }

    /// A copy of the identity.
    pub fn duplicate(&self) -> (copy: Identity)
        ensures
            copy.package() == self.package(),
            copy.signature_text() == self.signature_text(),
            copy.signature_bytes() == self.signature_bytes(),
    {
        proof {
            use_type_invariant(self);
        }
        Identity {
            package_name: self.package_name.clone(),
            signature_hex: self.signature_hex.clone(),
            signature: slice_to_vec(self.signature.as_slice()),
        }
    }

    /// Tells whether both identities have the same key.
    pub fn same_key(&self, other: &Identity) -> (same: bool)
        ensures
            same == (self.key() == other.key()),
    {
        self.package_name == other.package_name && same_bytes(
            self.signature.as_slice(),
            other.signature.as_slice(),
        )
    }
}

} // verus!
