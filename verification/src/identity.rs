//! Who is calling: an opaque, already authenticated identifier.

use candid::Principal;
use vstd::prelude::*;
use vstd::slice::slice_to_vec;
use vstd::std_specs::cmp::PartialEqSpecImpl;

verus! {

/// The longest identifier, in bytes.
pub const MAX_IDENTITY_LEN: usize = 29;

/// The text form of the identifier made of `bytes`: a checksum and the bytes
/// in base 32, lower case, in groups of five characters joined by dashes.
pub uninterp spec fn principal_text(bytes: Seq<u8>) -> Seq<char>;

/// Calls `candid::Principal::from_slice` and then `Principal::to_text`. The
/// first panics on more than 29 bytes, which `requires` leaves out; the second
/// is a function of the bytes alone, so its result is named and nothing more
/// is claimed of it.
#[verifier::external_body]
fn principal_to_text(bytes: &[u8]) -> (text: String)
    requires
        bytes@.len() <= MAX_IDENTITY_LEN,
    ensures
        text@ == principal_text(bytes@),
{
    Principal::from_slice(bytes).to_text()
}

/// The identity of a caller, an organizer or a ticket owner: a blob of at
/// most [`MAX_IDENTITY_LEN`] bytes that the host has authenticated. The
/// store compares identities and never looks inside one.
#[derive(Debug, Eq)]
pub struct Identity {
    bytes: Vec<u8>,
}

impl View for Identity {
    type V = Seq<u8>;

    closed spec fn view(&self) -> Seq<u8> {
        self.bytes@
    }
}

impl Identity {
    #[verifier::type_invariant]
    spec fn within_limit(&self) -> bool {
        self.bytes@.len() <= MAX_IDENTITY_LEN
    }

    /// The identity made of `bytes`, or `None` where there are more than
    /// [`MAX_IDENTITY_LEN`] of them.
    pub fn from_slice(bytes: &[u8]) -> (made: Option<Identity>)
        ensures
            made is Some <==> bytes@.len() <= MAX_IDENTITY_LEN,
            made is Some ==> made->0@ == bytes@,
    {
        if bytes.len() <= MAX_IDENTITY_LEN {
            Some(Identity { bytes: slice_to_vec(bytes) })
        } else {
            None
        }
    }

    /// The bytes of the identity.
    pub fn as_slice(&self) -> (bytes: &[u8])
        ensures
            bytes@ == self@,
            bytes@.len() <= MAX_IDENTITY_LEN,
    {
        proof {
            use_type_invariant(self);
        }
        self.bytes.as_slice()
    }

    /// The text form of the identity, as it is shown to people and as it
    /// enters a proof token.
    pub fn to_text(&self) -> (text: String)
        ensures
            text@ == principal_text(self@),
    {
        principal_to_text(self.as_slice())
    }
}

impl Clone for Identity {
    fn clone(&self) -> (copy: Self)
        ensures
            copy@ == self@,
    {
        proof {
            use_type_invariant(self);
        }
        let bytes = self.bytes.clone();
        assert(bytes@ =~= self.bytes@);
        Identity { bytes }
    }
}

impl PartialEq for Identity {
    fn eq(&self, other: &Identity) -> (same: bool) {
        let same = self.bytes == other.bytes;
        proof {
            if same {
                assert(self.bytes@ =~= other.bytes@);
            }
        }
        same
    }
}

impl PartialEqSpecImpl for Identity {
    open spec fn obeys_eq_spec() -> bool {
        true
    }

    open spec fn eq_spec(&self, other: &Identity) -> bool {
        self@ == other@
    }
}

} // verus!
