//! SHA-1 digests, computed by the `sha1` crate.

use crate::config::SyncMode;
use crate::text::concat2;
use vstd::prelude::*;
use vstd::string::*;

verus! {

/// `sha1::Sha1`, a digest that is being computed. Its type parameters are kept out of sight; what
/// is known of a value is what it has taken in.
#[verifier::external_body]
pub struct Hasher {
    inner: sha1::Sha1,
}

/// The bytes that a digest has taken in.
pub uninterp spec fn absorbed(hasher: Hasher) -> Seq<u8>;

/// The SHA-1 digest of bytes.
pub uninterp spec fn sha1_of(bytes: Seq<u8>) -> Seq<u8>;

/// Inputs of this length on are too long: their length in bits is no 64-bit number.
pub const SHA1_INPUT_LIMIT: u64 = 0x2000_0000_0000_0000;

/// `Sha1::new` starts a digest that has taken in nothing.
#[verifier::external_body]
fn new_hasher() -> (r: Hasher)
    ensures
        absorbed(r) == Seq::<u8>::empty(),
{
    Hasher { inner: sha1::Digest::new() }
}

/// `Sha1::update` takes in bytes after those it has.
#[verifier::external_body]
fn absorb(hasher: &mut Hasher, bytes: &[u8])
    requires
        absorbed(*old(hasher)).len() + bytes@.len() < SHA1_INPUT_LIMIT,
    ensures
        absorbed(*final(hasher)) == absorbed(*old(hasher)) + bytes@,
{
    sha1::Digest::update(&mut hasher.inner, bytes)
}

/// `Sha1::finalize` gives the digest of all that was taken in: twenty bytes that depend on nothing
/// else.
#[verifier::external_body]
fn finalize(hasher: Hasher) -> (r: Vec<u8>)
    requires
        absorbed(hasher).len() < SHA1_INPUT_LIMIT,
    ensures
        r@ == sha1_of(absorbed(hasher)),
        r@.len() == 20,
{
    sha1::Digest::finalize(hasher.inner).to_vec()
}

/// A hexadecimal digit.
pub open spec fn hex_digit(value: int) -> char {
    if value < 10 {
        ('0' as int + value) as char
    } else {
        ('a' as int + value - 10) as char
    }
}

/// Bytes in lower case hexadecimal digits, two for each byte.
pub open spec fn hex(bytes: Seq<u8>) -> Seq<char>
    decreases bytes.len(),
{
    if bytes.len() == 0 {
        Seq::empty()
    } else {
        hex(bytes.drop_last()).push(hex_digit(bytes.last() as int / 16)).push(
            hex_digit(bytes.last() as int % 16),
        )
    }
}

fn digit_char(value: u8) -> (r: char)
    requires
        value < 16,
    ensures
        r == hex_digit(value as int),
{
    if value < 10 {
        (48u8 + value) as char
    } else {
        (97u8 + (value - 10)) as char
    }
}

/// Bytes in lower case hexadecimal digits.
pub fn hex_text(bytes: &Vec<u8>) -> (r: String)
    ensures
        r@ == hex(bytes@),
{
    let mut text = String::new();
    let mut i: usize = 0;
    assert(text@ =~= hex(bytes@.take(0)));
    while i < bytes.len()
        invariant
            i <= bytes.len(),
            text@ == hex(bytes@.take(i as int)),
        decreases bytes.len() - i,
    {
        assert(bytes@.take(i + 1).drop_last() =~= bytes@.take(i as int));
        text.push(digit_char(bytes[i] / 16));
        text.push(digit_char(bytes[i] % 16));
        i += 1;
    }
    assert(bytes@.take(i as int) =~= bytes@);
    text
}

/// The digest of a file that is read piece by piece.
pub struct FileDigest {
    hasher: Hasher,
    taken: u64,
}

impl View for FileDigest {
    type V = Seq<u8>;

    /// The bytes read so far.
    closed spec fn view(&self) -> Seq<u8> {
        absorbed(self.hasher)
    }
}

impl FileDigest {
    #[verifier::type_invariant]
    spec fn counted(self) -> bool {
        self.taken == absorbed(self.hasher).len() && self.taken < SHA1_INPUT_LIMIT
    }

    /// Nothing read yet.
    pub fn new() -> (r: Self)
        ensures
            r@ == Seq::<u8>::empty(),
    {
        FileDigest { hasher: new_hasher(), taken: 0 }
    }

    /// How many bytes can still be read.
    pub fn room(&self) -> (r: u64)
        ensures
            r == SHA1_INPUT_LIMIT - 1 - self@.len(),
    {
        proof {
            use_type_invariant(self);
        }
        SHA1_INPUT_LIMIT - 1 - self.taken
    }

    /// Takes in the next piece.
    pub fn update(self, bytes: &[u8]) -> (r: Self)
        requires
            self@.len() + bytes@.len() < SHA1_INPUT_LIMIT,
        ensures
            r@ == self@ + bytes@,
    {
        proof {
            use_type_invariant(&self);
        }
        let FileDigest { hasher, taken } = self;
        let mut hasher = hasher;
        absorb(&mut hasher, bytes);
        FileDigest { hasher, taken: taken + bytes.len() as u64 }
    }

    /// The digest of all that was read, in hexadecimal digits.
    pub fn finish(self) -> (r: String)
        ensures
            r@ == hex(sha1_of(self@)),
            r@.len() == 40,
    {
        proof {
            use_type_invariant(&self);
        }
        let digest = finalize(self.hasher);
        proof {
            hex_length(digest@);
        }
        hex_text(&digest)
    }
}

/// Two digits stand for each byte.
pub proof fn hex_length(bytes: Seq<u8>)
    ensures
        hex(bytes).len() == 2 * bytes.len(),
    decreases bytes.len(),
{
    if bytes.len() > 0 {
        hex_length(bytes.drop_last());
    }
}

/// Different bytes have different digits.
pub proof fn hex_is_injective(a: Seq<u8>, b: Seq<u8>)
    requires
        hex(a) == hex(b),
    ensures
        a == b,
    decreases a.len(),
{
    hex_length(a);
    hex_length(b);
    if a.len() > 0 {
        let (left, right) = (hex(a), hex(b));
        let (high, low) = (a.last() as int / 16, a.last() as int % 16);
        let (other_high, other_low) = (b.last() as int / 16, b.last() as int % 16);
        assert(left.drop_last().drop_last() =~= hex(a.drop_last()));
        assert(right.drop_last().drop_last() =~= hex(b.drop_last()));
        assert(left.last() == hex_digit(low));
        assert(right.last() == hex_digit(other_low));
        assert(left.drop_last().last() == hex_digit(high));
        assert(right.drop_last().last() == hex_digit(other_high));
        hex_is_injective(a.drop_last(), b.drop_last());
        assert(a =~= a.drop_last().push(a.last()));
        assert(b =~= b.drop_last().push(b.last()));
    } else {
        assert(a =~= b);
    }
}

/// The number of a mode.
pub open spec fn mode_number(mode: SyncMode) -> u8 {
    match mode {
        SyncMode::Push => 0,
        SyncMode::Pull => 1,
        SyncMode::TwoWay => 2,
    }
}

/// What the name of a one-off sync is made of: both places and the mode, with zeros between.
pub open spec fn one_off_input(local: Seq<u8>, remote: Seq<u8>, mode: SyncMode) -> Seq<u8> {
    local + seq![0u8] + remote + seq![0u8, mode_number(mode)]
}

/// The name under which the state of a one-off sync is kept.
pub fn one_off_name(local: &str, remote: &str, mode: SyncMode) -> (r: String)
    requires
        local.spec_bytes().len() + remote.spec_bytes().len() + 3 < SHA1_INPUT_LIMIT,
    ensures
        r@ == "one-off-"@ + hex(
            sha1_of(one_off_input(local.spec_bytes(), remote.spec_bytes(), mode)),
        ),
{
    let number: u8 = match mode {
        SyncMode::Push => 0,
        SyncMode::Pull => 1,
        SyncMode::TwoWay => 2,
    };
    let mut zero: Vec<u8> = Vec::new();
    zero.push(0);
    let mut tail: Vec<u8> = Vec::new();
    tail.push(0);
    tail.push(number);
    assert(zero@ =~= seq![0u8]);
    assert(tail@ =~= seq![0u8, mode_number(mode)]);
    let digest = FileDigest::new().update(local.as_bytes()).update(zero.as_slice()).update(
        remote.as_bytes(),
    ).update(tail.as_slice());
    assert(digest@ =~= one_off_input(local.spec_bytes(), remote.spec_bytes(), mode));
    concat2("one-off-", digest.finish().as_str())
}

} // verus!
