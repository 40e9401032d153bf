//! The proof-of-work handshake: find a nonce whose SHA-256 digest of the
//! prefix followed by the nonce in decimal starts with enough zero hex digits.
use vstd::prelude::*;
use sha2::Digest;
use rand::Rng;
use vstd::utf8::encode_utf8;

verus! {

/// Leading hex digits of the digest that must be zero.
pub const DIFFICULTY: usize = 5;

/// Characters in a freshly drawn prefix.
pub const PREFIX_LEN: usize = 10;

/// The SHA-256 digest of `data`.
pub uninterp spec fn sha256_of(data: Seq<u8>) -> Seq<u8>;

/// Relies on sha2's `Sha256::digest`: the 32-byte SHA-256 digest of `data`,
/// which depends on `data` alone.
#[verifier::external_body]
fn sha256(data: &[u8]) -> (r: Vec<u8>)
    ensures
        r@ == sha256_of(data@),
        r@.len() == 32,
{
    sha2::Sha256::digest(data).to_vec()
}

/// ASCII letters and digits.
pub open spec fn is_alphanumeric(c: char) -> bool {
    ('a' <= c && c <= 'z') || ('A' <= c && c <= 'Z') || ('0' <= c && c <= '9')
}

/// Relies on rand's `Alphanumeric` distribution drawn from `thread_rng`: each
/// character comes from `A-Z`, `a-z` and `0-9`.
#[verifier::external_body]
fn random_alphanumeric(n: usize) -> (r: String)
    ensures
        r@.len() == n,
        forall|i: int| 0 <= i < n ==> is_alphanumeric(#[trigger] r@[i]),
{
    rand::thread_rng().sample_iter(&rand::distributions::Alphanumeric).take(n).map(char::from).collect()
}

/// The ASCII decimal digits of `n`, most significant first.
pub open spec fn decimal(n: nat) -> Seq<u8>
    decreases n,
{
    if n < 10 {
        seq![(48 + n) as u8]
    } else {
        decimal(n / 10).push((48 + n % 10) as u8)
    }
}

/// Hex digit `i` (0 = most significant) of the digest `d`.
pub open spec fn hex_digit(d: Seq<u8>, i: int) -> u8 {
    if i % 2 == 0 { d[i / 2] / 16 } else { d[i / 2] % 16 }
}

/// `d` written in hex starts with `DIFFICULTY` zeros.
pub open spec fn meets(d: Seq<u8>) -> bool {
    2 * d.len() >= DIFFICULTY && forall|i: int| 0 <= i < DIFFICULTY ==> hex_digit(d, i) == 0
}

/// The bytes hashed for `nonce` under `prefix`: the prefix, then the nonce in
/// decimal.
pub open spec fn message(prefix: Seq<char>, nonce: u128) -> Seq<u8> {
    encode_utf8(prefix) + decimal(nonce as nat)
}

/// Whether `digest` written in lower-case hex starts with `DIFFICULTY` zeros.
pub fn meets_difficulty(digest: &[u8]) -> (r: bool)
    ensures
        r == meets(digest@),
{
    if digest.len() < 3 {
        return false;
    }
    let mut i: usize = 0;
    while i < DIFFICULTY
        invariant
            i <= DIFFICULTY,
            digest@.len() >= 3,
            forall|k: int| 0 <= k < i ==> hex_digit(digest@, k) == 0,
        decreases DIFFICULTY - i,
    {
        let b = digest[i / 2];
        let h = if i % 2 == 0 { b / 16 } else { b % 16 };
        assert(h == hex_digit(digest@, i as int));
        if h != 0 {
            assert(!meets(digest@));
            return false;
        }
        i = i + 1;
    }
    true
}

/// Appends the decimal digits of `n` to `out`.
fn push_decimal(out: &mut Vec<u8>, n: u128)
    ensures
        final(out)@ == old(out)@ + decimal(n as nat),
    decreases n,
{
    if n >= 10 {
        push_decimal(out, n / 10);
    }
    out.push((48 + n % 10) as u8);
    proof {
        assert(old(out)@ + decimal(n as nat) =~= out@);
    }
}

/// The SHA-256 digest of `prefix` followed by `nonce` in decimal.
pub fn pow_digest(prefix: &str, nonce: u128) -> (r: Vec<u8>)
    ensures
        r@ == sha256_of(message(prefix@, nonce)),
{
    let bytes = prefix.as_bytes();
    let mut msg: Vec<u8> = Vec::new();
    let mut i: usize = 0;
    while i < bytes.len()
        invariant
            i <= bytes@.len(),
            msg@ == bytes@.subrange(0, i as int),
        decreases bytes@.len() - i,
    {
        msg.push(bytes[i]);
        i = i + 1;
        proof {
            assert(msg@ =~= bytes@.subrange(0, i as int));
        }
    }
    assert(msg@ =~= bytes@);
    push_decimal(&mut msg, nonce);
    sha256(msg.as_slice())
}

/// A proof-of-work challenge, given by its prefix.
pub struct ProofOfWork {
    pub prefix: String,
}

impl ProofOfWork {
    /// A challenge with a freshly drawn prefix of `PREFIX_LEN` letters and digits.
    pub fn new() -> (r: Self)
        ensures
            r.prefix@.len() == PREFIX_LEN,
            forall|i: int| 0 <= i < PREFIX_LEN ==> is_alphanumeric(#[trigger] r.prefix@[i]),
    {
        let prefix = random_alphanumeric(PREFIX_LEN);
        ProofOfWork { prefix }
    }

    /// The challenge with the given prefix.
    pub fn from(prefix: String) -> (r: Self)
        ensures
            r.prefix@ == prefix@,
    {
        ProofOfWork { prefix }
    }

    /// Whether `nonce` solves the challenge.
    pub fn verify(&self, nonce: u128) -> (r: bool)
        ensures
            r == meets(sha256_of(message(self.prefix@, nonce))),
    {
        let d = pow_digest(self.prefix.as_str(), nonce);
        meets_difficulty(d.as_slice())
    }

    /// The least nonce that solves the challenge, or `None` when no `u128`
    /// does.
    pub fn calculate(&self) -> (r: Option<u128>)
        ensures
            r matches Some(n) ==> meets(sha256_of(message(self.prefix@, n))) && forall|m: u128|
                m < n ==> !meets(#[trigger] sha256_of(message(self.prefix@, m))),
            r is None ==> forall|m: u128| !meets(#[trigger] sha256_of(message(self.prefix@, m))),
    {
        let mut nonce: u128 = 0;
        loop
            invariant
                forall|m: u128| m < nonce ==> !meets(#[trigger] sha256_of(message(self.prefix@, m))),
            decreases u128::MAX - nonce,
        {
            if self.verify(nonce) {
                return Some(nonce);
            }
            if nonce == u128::MAX {
                return None;
            }
            nonce = nonce + 1;
        }
    }
}

} // verus!
