use vstd::prelude::*;

verus! {

/// Number of bytes in a public key.
pub const PUBKEY_LEN: usize = 32;

/// A public key: the identity of a principal, or of a program.
#[derive(Clone, Copy, Debug)]
pub struct Pubkey {
    pub bytes: [u8; 32],
}

impl View for Pubkey {
    type V = Seq<u8>;

    open spec fn view(&self) -> Seq<u8> {
        self.bytes@
    }
}

impl Pubkey {
    pub fn new(bytes: [u8; 32]) -> (r: Pubkey)
        ensures
            r@ == bytes@,
    {
        Pubkey { bytes }
    }

    /// Whether two identities are the same principal.
    pub fn same_as(&self, other: &Pubkey) -> (r: bool)
        ensures
            r == (self@ == other@),
    {
        bytes_equal(self.bytes.as_slice(), other.bytes.as_slice())
    }
}

/// The UTF-8 bytes of a string.
pub open spec fn utf8_bytes(s: Seq<char>) -> Seq<u8> {
    vstd::utf8::encode_utf8(s)
}

/// The storage key of the entry titled `title` and owned by `owner`: the
/// title's bytes followed by the owner's bytes.
pub open spec fn derived_key(title: Seq<char>, owner: Seq<u8>) -> Seq<u8> {
    utf8_bytes(title) + owner
}

/// Byte-wise equality of two slices.
pub fn bytes_equal(a: &[u8], b: &[u8]) -> (r: bool)
    ensures
        r == (a@ == b@),
{
    if a.len() != b.len() {
        return false;
    }
    let mut i: usize = 0;
    while i < a.len()
        invariant
            a@.len() == b@.len(),
            0 <= i <= a@.len(),
            forall|j: int| 0 <= j < i ==> a@[j] == b@[j],
        decreases a@.len() - i,
    {
        if a[i] != b[i] {
            return false;
        }
        i = i + 1;
    }
    assert(a@ =~= b@);
    true
}

/// Computes the storage key of the entry titled `title` and owned by
/// `owner`.
pub fn derive_key(title: &str, owner: &Pubkey) -> (r: Vec<u8>)
    ensures
        r@ == derived_key(title@, owner@),
{
    let tb = title.as_bytes();
    let ob = owner.bytes.as_slice();
    let mut out: Vec<u8> = Vec::new();
    let mut i: usize = 0;
    while i < tb.len()
        invariant
            0 <= i <= tb@.len(),
            out@ == tb@.subrange(0, i as int),
        decreases tb@.len() - i,
    {
        out.push(tb[i]);
        i = i + 1;
        assert(out@ =~= tb@.subrange(0, i as int));
    }
    let mut j: usize = 0;
    while j < ob.len()
        invariant
            0 <= j <= ob@.len(),
            out@ == tb@ + ob@.subrange(0, j as int),
        decreases ob@.len() - j,
    {
        out.push(ob[j]);
        j = j + 1;
        assert(out@ =~= tb@ + ob@.subrange(0, j as int));
    }
    assert(tb@ =~= tb@.subrange(0, tb@.len() as int));
    assert(ob@ =~= ob@.subrange(0, ob@.len() as int));
    out
}

/// The key derivation is deterministic and injective: two (title, owner)
/// pairs share a key exactly when they are the same pair.
pub proof fn lemma_derived_key_unique(t1: Seq<char>, o1: Seq<u8>, t2: Seq<char>, o2: Seq<u8>)
    requires
        o1.len() == PUBKEY_LEN,
        o2.len() == PUBKEY_LEN,
    ensures
        (derived_key(t1, o1) == derived_key(t2, o2)) <==> (t1 == t2 && o1 == o2),
{
    if derived_key(t1, o1) == derived_key(t2, o2) {
        let k = derived_key(t1, o1);
        let n = k.len() - PUBKEY_LEN;
        assert(utf8_bytes(t1) =~= k.subrange(0, n));
        assert(utf8_bytes(t2) =~= k.subrange(0, n));
        assert(o1 =~= k.subrange(n, k.len() as int));
        assert(o2 =~= k.subrange(n, k.len() as int));
        vstd::utf8::encode_utf8_decode_utf8(t1);
        vstd::utf8::encode_utf8_decode_utf8(t2);
    }
}

} // verus!
