//! Addresses and the trie keys derived from them.

use vstd::prelude::*;
use nimiq_primitives::key_nibbles::KeyNibbles;

verus! {

/// A 20-byte account address.
#[derive(Clone, Copy, Debug, PartialEq, Eq, Hash)]
pub struct Address {
    pub bytes: [u8; 20],
}

impl View for Address {
    type V = Seq<u8>;

    open spec fn view(&self) -> Seq<u8> {
        self.bytes@
    }
}

/// The trie key type of `nimiq_primitives`: a sequence of at most 126
/// nibbles. Verified code carries such keys through and reads them only
/// by `key_nibbles`.
#[verifier::external_type_specification]
#[verifier::external_body]
pub struct ExKeyNibbles(KeyNibbles);

/// The nibbles a key holds, first nibble first.
pub uninterp spec fn key_nibbles(key: KeyNibbles) -> Seq<u8>;

/// The nibbles of a byte string: for each byte its high half, then its low
/// half.
pub open spec fn bytes_nibbles(bytes: Seq<u8>) -> Seq<u8> {
    Seq::new(
        2 * bytes.len(),
        |i: int| if i % 2 == 0 { bytes[i / 2] / 16 } else { bytes[i / 2] % 16 },
    )
}

/// `KeyNibbles::from(&Address)`, on the `nimiq_keys::Address` made of the
/// 20 bytes: the key of an address holds the 40 nibbles of its bytes, the
/// high nibble of each byte first.
#[verifier::external_body]
pub(crate) fn key_of_address(address: &Address) -> (key: KeyNibbles)
    ensures
        key_nibbles(key) == bytes_nibbles(address@),
{
    KeyNibbles::from(&nimiq_keys::Address::from(address.bytes))
}

/// `KeyNibbles::eq`: two keys are equal exactly when they hold the same
/// nibbles. It compares the length and the bytes of the keys, and a key
/// keeps the nibbles it does not use at zero.
#[verifier::external_body]
pub(crate) fn key_eq(a: &KeyNibbles, b: &KeyNibbles) -> (r: bool)
    ensures
        r == (key_nibbles(*a) == key_nibbles(*b)),
{
    a == b
}

/// `KeyNibbles::clone`: the copy holds the same nibbles.
#[verifier::external_body]
pub(crate) fn key_clone(key: &KeyNibbles) -> (copy: KeyNibbles)
    ensures
        key_nibbles(copy) == key_nibbles(*key),
{
    key.clone()
}

/// Two addresses never share a key: the nibbles determine the bytes.
pub proof fn lemma_address_key_injective(a: Seq<u8>, b: Seq<u8>)
    requires
        bytes_nibbles(a) == bytes_nibbles(b),
    ensures
        a == b,
{
    assert(2 * a.len() == bytes_nibbles(a).len());
    assert(2 * b.len() == bytes_nibbles(b).len());
    assert(a.len() == b.len());
    assert forall|i: int| 0 <= i < a.len() implies a[i] == b[i] by {
        let na = bytes_nibbles(a);
        let nb = bytes_nibbles(b);
        assert(na[2 * i] == a[i] / 16);
        assert(nb[2 * i] == b[i] / 16);
        assert(na[2 * i + 1] == a[i] % 16);
        assert(nb[2 * i + 1] == b[i] % 16);
    }
    assert(a =~= b);
}

} // verus!
