//! The cross-domain policy probe that may open a connection.

use vstd::prelude::*;
use vstd::string::StringSliceAdditionalSpecFns;

verus! {

/// The document served to a policy probe, with its closing NUL.
pub const POLICY_XML: &'static str = "<?xml version=\"1.0\"?>\n<!DOCTYPE cross-domain-policy SYSTEM \"/xml/dtds/cross-domain-policy.dtd\">\n<cross-domain-policy>\n<allow-access-from domain=\"*\" to-ports=\"1-31111\" />\n</cross-domain-policy>\u{0}";

/// Byte that opens a policy probe: `<`.
pub const POLICY_PROBE_BYTE: u8 = 60;

/// Checks the first bytes of a connection for a policy probe.
pub struct GamePolicyDecoder {
    checked: bool,
}

impl GamePolicyDecoder {
    /// Whether the first bytes of the connection have been seen.
    pub closed spec fn spec_checked(&self) -> bool {
        self.checked
    }

    pub fn new() -> (r: Self)
        ensures
            !r.spec_checked(),
    {
        GamePolicyDecoder { checked: false }
    }

    pub fn get_policy_string() -> (r: String)
        ensures
            r@ == POLICY_XML@,
    {
        POLICY_XML.to_owned()
    }

    /// The policy document as the bytes sent on the wire.
    pub fn policy_bytes() -> (r: Vec<u8>)
        ensures
            r@ == POLICY_XML.spec_bytes(),
    {
        vstd::slice::slice_to_vec(POLICY_XML.as_bytes())
    }

    fn is_policy_request(buffer: &[u8]) -> (r: bool)
        ensures
            r == (buffer@.len() > 0 && buffer@[0] == POLICY_PROBE_BYTE),
    {
        buffer.len() > 0 && buffer[0] == POLICY_PROBE_BYTE
    }

    /// On the first non-empty bytes of a connection that open with `<`,
    /// returns the policy document flagged `true`; any other bytes come back
    /// unchanged, flagged `false`. Empty input gives `None` and changes
    /// nothing.
    pub fn decode(&mut self, src: &[u8]) -> (r: Option<(Vec<u8>, bool)>)
        ensures
            src@.len() == 0 ==> r is None && final(self).spec_checked() == old(self).spec_checked(),
            src@.len() > 0 ==> final(self).spec_checked() && r is Some,
            src@.len() > 0 ==> match r {
                Some((bytes, is_policy)) => if !old(self).spec_checked() && src@[0]
                    == POLICY_PROBE_BYTE {
                    is_policy && bytes@ == POLICY_XML.spec_bytes()
                } else {
                    !is_policy && bytes@ == src@
                },
                None => false,
            },
    {
        if src.len() == 0 {
            return None;
        }
        if !self.checked && Self::is_policy_request(src) {
            self.checked = true;
            return Some((Self::policy_bytes(), true));
        }
        self.checked = true;
        Some((vstd::slice::slice_to_vec(src), false))
    }
}

} // verus!
