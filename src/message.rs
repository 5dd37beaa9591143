//! Messages: a decrypted frame split into a 2-byte opcode and a body.

use vstd::prelude::*;
use crate::rc4::{HabboRC4, keystream, xor_seq, advance};

verus! {

/// A decoded message from a client.
pub struct ClientMessage {
    header: u16,
    body: Vec<u8>,
}

impl ClientMessage {
    pub closed spec fn spec_header(&self) -> u16 {
        self.header
    }

    pub closed spec fn spec_body(&self) -> Seq<u8> {
        self.body@
    }

    pub fn new(header: u16, body: Vec<u8>) -> (r: Self)
        ensures
            r.spec_header() == header,
            r.spec_body() == body@,
    {
        ClientMessage { header, body }
    }

    pub fn get_header(&self) -> (r: u16)
        ensures
            r == self.spec_header(),
    {
        self.header
    }

    pub fn get_body(&self) -> (r: &Vec<u8>)
        ensures
            r@ == self.spec_body(),
    {
        &self.body
    }

    pub fn get_body_mut(&mut self) -> (r: &mut Vec<u8>)
        ensures
            (*r)@ == old(self).spec_body(),
            final(self).spec_header() == old(self).spec_header(),
            final(self).spec_body() == (*final(r))@,
    {
        &mut self.body
    }
}

/// Opcode of a frame: its first two bytes, big-endian.
pub open spec fn frame_opcode(frame: Seq<u8>) -> u16 {
    (frame[0] as nat * 256 + frame[1] as nat) as u16
}

/// Splits frames into opcode and body.
pub struct GameByteDecoder;

impl GameByteDecoder {
    pub fn new() -> (r: Self) {
        GameByteDecoder
    }

    /// The message a frame holds; `None` for a frame shorter than its opcode.
    pub fn decode(&self, src: &[u8]) -> (r: Option<ClientMessage>)
        ensures
            src@.len() < 2 ==> r is None,
            src@.len() >= 2 ==> r is Some && r->0.spec_header() == frame_opcode(src@)
                && r->0.spec_body() == src@.skip(2),
    {
        if src.len() < 2 {
            return None;
        }
        let header: u16 = (src[0] as u16) * 256 + src[1] as u16;
        let body = vstd::slice::slice_to_vec(vstd::slice::slice_subrange(src, 2, src.len()));
        proof {
            assert(src@.subrange(2, src@.len() as int) =~= src@.skip(2));
        }
        Some(ClientMessage::new(header, body))
    }
}

/// Applies the connection's cipher, once one is installed, to framed bytes.
pub struct GameByteDecryption;

impl GameByteDecryption {
    pub fn new() -> (r: Self) {
        GameByteDecryption
    }

    /// Decrypts `data` in place with `cipher`; without a cipher the bytes
    /// pass unchanged.
    pub fn decode(&self, cipher: &mut Option<HabboRC4>, data: &mut Vec<u8>)
        requires
            *old(cipher) is Some ==> (*old(cipher))->0.wf(),
        ensures
            *final(cipher) is Some <==> *old(cipher) is Some,
            *old(cipher) is None ==> final(data)@ == old(data)@,
            *old(cipher) is Some ==> {
                &&& (*final(cipher))->0.wf()
                &&& final(data)@ == xor_seq(
                    old(data)@,
                    keystream((*old(cipher))->0.state(), old(data)@.len()),
                )
                &&& (*final(cipher))->0.state() == advance((*old(cipher))->0.state(), old(data)@.len())
            },
    {
        match cipher {
            Some(c) => {
                c.parse(data.as_mut_slice());
            },
            None => {},
        }
    }
}

} // verus!
