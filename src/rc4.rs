//! RC4 stream cipher with a position that persists across calls.

use vstd::prelude::*;

verus! {

/// The cipher's state: the two indices and the 256-entry permutation.
pub struct Rc4State {
    pub i: nat,
    pub j: nat,
    pub table: Seq<u8>,
}

pub open spec fn swap_entries(t: Seq<u8>, a: int, b: int) -> Seq<u8> {
    t.update(a, t[b]).update(b, t[a])
}

pub open spec fn identity_table() -> Seq<u8> {
    Seq::new(256, |i: int| i as u8)
}

/// Table and `j` after the first `k` rounds of key scheduling.
pub open spec fn key_schedule(key: Seq<u8>, k: nat) -> (Seq<u8>, nat)
    decreases k,
{
    if k == 0 {
        (identity_table(), 0)
    } else {
        let (t, j) = key_schedule(key, (k - 1) as nat);
        let i = (k - 1) as int;
        let j2 = ((j + t[i] + key[i % key.len() as int]) % 256) as nat;
        (swap_entries(t, i, j2 as int), j2)
    }
}

/// State of a freshly keyed cipher.
pub open spec fn initial_state(key: Seq<u8>) -> Rc4State {
    Rc4State { i: 0, j: 0, table: key_schedule(key, 256).0 }
}

/// One step of the keystream generator.
pub open spec fn step(s: Rc4State) -> Rc4State {
    let i = (s.i + 1) % 256;
    let j = (s.j + s.table[i as int]) % 256;
    Rc4State { i: i as nat, j: j as nat, table: swap_entries(s.table, i as int, j as int) }
}

/// Keystream byte produced by the step taken from `s`.
pub open spec fn out_byte(s: Rc4State) -> u8 {
    let t = step(s);
    t.table[((t.table[t.i as int] + t.table[t.j as int]) % 256) as int]
}

pub open spec fn advance(s: Rc4State, n: nat) -> Rc4State
    decreases n,
{
    if n == 0 {
        s
    } else {
        step(advance(s, (n - 1) as nat))
    }
}

/// The next `n` keystream bytes from `s`.
pub open spec fn keystream(s: Rc4State, n: nat) -> Seq<u8>
    decreases n,
{
    if n == 0 {
        Seq::empty()
    } else {
        keystream(s, (n - 1) as nat).push(out_byte(advance(s, (n - 1) as nat)))
    }
}

pub open spec fn xor_seq(a: Seq<u8>, b: Seq<u8>) -> Seq<u8> {
    Seq::new(a.len(), |k: int| a[k] ^ b[k])
}

pub open spec fn state_ok(s: Rc4State) -> bool {
    s.i < 256 && s.j < 256 && s.table.len() == 256
}

pub struct HabboRC4 {
    i: usize,
    j: usize,
    table: Vec<u8>,
}

impl HabboRC4 {
    pub closed spec fn state(&self) -> Rc4State {
        Rc4State { i: self.i as nat, j: self.j as nat, table: self.table@ }
    }

    pub closed spec fn wf(&self) -> bool {
        state_ok(self.state())
    }

    /// A cipher keyed with `key` by the standard key scheduling.
    pub fn new(key: &[u8]) -> (r: Self)
        requires
            key@.len() > 0,
        ensures
            r.wf(),
            r.state() == initial_state(key@),
    {
        let mut rc4 = HabboRC4 { i: 0, j: 0, table: Vec::new() };
        let length = key.len();
        while rc4.i < 256
            invariant
                rc4.i <= 256,
                rc4.table@.len() == rc4.i,
                forall|t: int| 0 <= t < rc4.i ==> rc4.table@[t] == t as u8,
            decreases 256 - rc4.i,
        {
            rc4.table.push(rc4.i as u8);
            rc4.i += 1;
        }
        proof {
            assert(rc4.table@ =~= identity_table());
        }
        rc4.i = 0;
        rc4.j = 0;
        while rc4.i < 256
            invariant
                rc4.i <= 256,
                length == key@.len(),
                length > 0,
                rc4.j < 256,
                key_schedule(key@, rc4.i as nat) == (rc4.table@, rc4.j as nat),
                rc4.table@.len() == 256,
            decreases 256 - rc4.i,
        {
            rc4.j = (rc4.j + rc4.table[rc4.i] as usize + key[rc4.i % length] as usize) % 256;
            rc4.swap(rc4.i, rc4.j);
            rc4.i += 1;
        }
        rc4.i = 0;
        rc4.j = 0;
        rc4
    }

    fn swap(&mut self, a: usize, b: usize)
        requires
            a < old(self).table@.len(),
            b < old(self).table@.len(),
        ensures
            final(self).table@ == swap_entries(old(self).table@, a as int, b as int),
            final(self).i == old(self).i,
            final(self).j == old(self).j,
    {
        let temp = self.table[a];
        let other = self.table[b];
        self.table.set(a, other);
        self.table.set(b, temp);
    }

    /// XORs `bytes` in place with the next `bytes.len()` keystream bytes.
    pub fn parse(&mut self, bytes: &mut [u8])
        requires
            old(self).wf(),
        ensures
            final(self).wf(),
            final(bytes)@ == xor_seq(old(bytes)@, keystream(old(self).state(), old(bytes)@.len())),
            final(self).state() == advance(old(self).state(), old(bytes)@.len()),
    {
        let ghost s0 = self.state();
        let ghost b0 = bytes@;
        let n = bytes.len();
        let mut index: usize = 0;
        while index < n
            invariant
                n == bytes@.len(),
                b0.len() == n,
                index <= n,
                self.wf(),
                self.state() == advance(s0, index as nat),
                bytes@.subrange(0, index as int) == xor_seq(
                    b0.subrange(0, index as int),
                    keystream(s0, index as nat),
                ),
                bytes@.subrange(index as int, n as int) == b0.subrange(index as int, n as int),
            decreases n - index,
        {
            let ghost before = bytes@;
            self.i = (self.i + 1) % 256;
            self.j = (self.j + self.table[self.i] as usize) % 256;
            self.swap(self.i, self.j);
            let k = (self.table[self.i] as usize + self.table[self.j] as usize) % 256;
            let x = bytes[index] ^ self.table[k];
            bytes[index] = x;
            proof {
                assert(before[index as int] == b0[index as int]) by {
                    assert(before.subrange(index as int, n as int)[0] == b0.subrange(
                        index as int,
                        n as int,
                    )[0]);
                }
                lemma_keystream_len(s0, index as nat);
                assert(self.state() == step(advance(s0, index as nat)));
                assert(self.table@[k as int] == out_byte(advance(s0, index as nat)));
                assert(keystream(s0, (index + 1) as nat) == keystream(s0, index as nat).push(
                    out_byte(advance(s0, index as nat)),
                ));
                assert(bytes@.subrange(0, index + 1) =~= xor_seq(
                    b0.subrange(0, index + 1),
                    keystream(s0, (index + 1) as nat),
                )) by {
                    assert forall|t: int| 0 <= t < index implies bytes@[t] == before[t] by {}
                    assert forall|t: int| 0 <= t < index implies #[trigger] before[t] == (
                    b0[t] ^ keystream(s0, index as nat)[t]) by {
                        assert(before.subrange(0, index as int)[t] == before[t]);
                    }
                }
                assert(bytes@.subrange(index + 1, n as int) =~= b0.subrange(index + 1, n as int))
                    by {
                    assert forall|t: int| index + 1 <= t < n implies bytes@[t] == b0[t] by {
                        assert(before.subrange(index as int, n as int)[t - index] == b0.subrange(
                            index as int,
                            n as int,
                        )[t - index]);
                    }
                }
            }
            index = index + 1;
        }
        proof {
            assert(bytes@ =~= bytes@.subrange(0, n as int));
            assert(b0 =~= b0.subrange(0, n as int));
        }
    }
}

pub proof fn lemma_keystream_len(s: Rc4State, n: nat)
    ensures
        keystream(s, n).len() == n,
    decreases n,
{
    if n > 0 {
        lemma_keystream_len(s, (n - 1) as nat);
    }
}

/// Two ciphers keyed alike undo each other: encrypting with one and then
/// decrypting with a second, freshly keyed with the same key, gives the data
/// back.
pub proof fn lemma_rc4_symmetric(key: Seq<u8>, data: Seq<u8>)
    requires
        key.len() > 0,
    ensures
        xor_seq(
            xor_seq(data, keystream(initial_state(key), data.len())),
            keystream(initial_state(key), data.len()),
        ) == data,
{
    let ks = keystream(initial_state(key), data.len());
    lemma_keystream_len(initial_state(key), data.len());
    let once = xor_seq(data, ks);
    assert forall|k: int| 0 <= k < data.len() implies #[trigger] xor_seq(once, ks)[k] == data[k] by {
        let a = data[k];
        let b = ks[k];
        assert((a ^ b) ^ b == a) by (bit_vector);
    }
    assert(xor_seq(once, ks) =~= data);
}

} // verus!
