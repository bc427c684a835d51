//! Signed tokens: minting, the wire form, validation and the children of a
//! token.

use rand::{Rng, SeedableRng};
use std::hash::Hasher;
use vstd::prelude::*;

use crate::user::User;
use crate::wire::{
    all_lower_hex, hex_chars, hex_decode, hex_text, is_hex_char, is_lower_hex, le_bytes, le_value,
    lemma_hex_chars_utf8, lemma_hex_round_trip, lemma_le_bytes_of_value, lemma_le_round_trip, push_le_bytes, read_le_u64,
};

verus! {

/// The most children a token can have.
pub const MAX_CHILDREN: u8 = 8;

/// Bytes of the server-side secret mixed into every signature.
pub open spec fn secret() -> Seq<u8> {
    seq![60u8, 83, 85, 80, 69, 82, 32, 83, 69, 67, 82, 69, 84, 33, 62]
}

fn secret_bytes() -> (r: Vec<u8>)
    ensures
        r@ == secret(),
{
    let r: Vec<u8> = vec![60u8, 83, 85, 80, 69, 82, 32, 83, 69, 67, 82, 69, 84, 33, 62];
    assert(r@ =~= secret());
    r
}

/// What `seahash::hash` returns for the given bytes.
pub uninterp spec fn seahash_of(bytes: Seq<u8>) -> u64;

/// What a default `seahash::SeaHasher` fed the given bytes finishes with.
pub uninterp spec fn seahasher_of(bytes: Seq<u8>) -> u64;

/// What `rand`'s `SmallRng` seeded with `seed` draws from `low..=high`. It depends
/// on the seed alone within one build; `SmallRng` is documented as not
/// portable, as its algorithm differs between 32-bit and 64-bit targets and
/// may change between versions of `rand`.
pub uninterp spec fn child_count_of(seed: u64, low: u8, high: u8) -> u8;

/// Relies on `seahash::hash`: a hash of the bytes alone.
#[verifier::external_body]
fn sea_hash(bytes: &[u8]) -> (r: u64)
    ensures
        r == seahash_of(bytes@),
{
    seahash::hash(bytes)
}

/// Relies on `seahash::SeaHasher` (its `Default`, `Hasher::write` and
/// `Hasher::finish`): the streaming hash of the bytes alone.
#[verifier::external_body]
fn sea_stream_hash(bytes: &[u8]) -> (r: u64)
    ensures
        r == seahasher_of(bytes@),
{
    let mut hasher = seahash::SeaHasher::default();
    hasher.write(bytes);
    hasher.finish()
}

/// Relies on `rand::random`: any `u64` may come back.
#[verifier::external_body]
fn random_u64() -> (r: u64) {
    rand::random::<u64>()
}

/// Relies on `rand::rngs::SmallRng::seed_from_u64` and `Rng::random_range`
/// over `low..=high`: the draw depends on the seed and the bounds alone and
/// lies in the range, which must not be empty.
#[verifier::external_body]
fn child_count(seed: u64, low: u8, high: u8) -> (r: u8)
    requires
        low <= high,
    ensures
        r == child_count_of(seed, low, high),
        low <= r <= high,
{
    rand::rngs::SmallRng::seed_from_u64(seed).random_range(low..=high)
}

/// Relies on `hex::encode`: two lowercase digits per byte, high nibble first.
#[verifier::external_body]
fn encode_hex(bytes: &[u8]) -> (r: String)
    ensures
        r@ == hex_chars(bytes@),
{
    hex::encode(bytes)
}

#[verifier::external_type_specification]
#[verifier::external_body]
pub struct ExFromHexError(hex::FromHexError);

/// Relies on `hex::decode_to_slice`: it succeeds exactly when the text has two
/// digits (of either case) for each byte of `out`, and then fills `out`.
#[verifier::external_body]
fn decode_hex_into(text: &[u8], out: &mut [u8]) -> (r: Result<(), hex::FromHexError>)
    ensures
        final(out)@.len() == old(out)@.len(),
        r is Ok <==> (text@.len() == 2 * old(out)@.len() && forall|i: int|
            0 <= i < text@.len() ==> is_hex_char(#[trigger] text@[i])),
        r is Ok ==> final(out)@ == hex_decode(text@),
{
    hex::decode_to_slice(text, out)
}

/// A node of a user's crawl tree.
#[derive(Clone, Copy, Debug, Hash, PartialEq, Eq, Structural)]
pub struct Token {
    pub index: u8,
    pub source: u64,
    pub user_hash: u64,
}

/// The hash that binds a token to its user.
pub open spec fn user_hash_of(user: User) -> u64 {
    seahash_of(user.id_bytes())
}

/// What the first stage of the signature hashes: the secret, then the user
/// hash, the index and the source.
pub open spec fn signed_bytes(t: Token) -> Seq<u8> {
    secret() + le_bytes(t.user_hash) + seq![t.index] + le_bytes(t.source)
}

/// The signature of a token, and the source of its children.
pub open spec fn target_of(t: Token) -> u64 {
    seahash_of(le_bytes(seahasher_of(signed_bytes(t))))
}

/// The 17 bytes of the wire form: index, source, target.
pub open spec fn wire_bytes(t: Token) -> Seq<u8> {
    seq![t.index] + le_bytes(t.source) + le_bytes(target_of(t))
}

/// The token that `text` stands for, for the user whose hash is `user_hash`,
/// if its signature holds.
pub open spec fn decoded(user_hash: u64, text: Seq<u8>) -> Option<Token> {
    if text.len() == 34 && all_lower_hex(text) {
        let b = hex_decode(text);
        let t = Token { index: b[0], source: le_value(b.subrange(1, 9)), user_hash };
        if le_value(b.subrange(9, 17)) == target_of(t) {
            Some(t)
        } else {
            None
        }
    } else {
        None
    }
}

/// The children of a token, in index order.
pub open spec fn children_of(t: Token) -> Seq<Token> {
    Seq::new(
        child_count_of(t.source, 1, MAX_CHILDREN) as nat,
        |i: int| Token { index: i as u8, source: target_of(t), user_hash: t.user_hash },
    )
}

impl Token {
    pub fn new(index: u8, source: u64, user: &User) -> (r: Token)
        ensures
            r == (Token { index, source, user_hash: user_hash_of(*user) }),
    {
        Token { index, source, user_hash: sea_hash(user.id.as_str().as_bytes()) }
    }

    pub fn target(&self) -> (r: u64)
        ensures
            r == target_of(*self),
    {
        let mut bytes = secret_bytes();
        push_le_bytes(&mut bytes, self.user_hash);
        bytes.push(self.index);
        push_le_bytes(&mut bytes, self.source);
        assert(bytes@ =~= signed_bytes(*self));
        let first = sea_stream_hash(bytes.as_slice());
        let mut second: Vec<u8> = Vec::new();
        push_le_bytes(&mut second, first);
        assert(second@ =~= le_bytes(first));
        sea_hash(second.as_slice())
    }

    /// A fresh root token for `user`, with a random source.
    pub fn from_user(user: &User) -> (r: Token)
        ensures
            r.index == 0,
            r.user_hash == user_hash_of(*user),
    {
        Token::new(0, random_u64(), user)
    }

    /// Reads a token from its wire text and checks its signature for `user`.
    pub fn validate_from_hex(user: &User, val: &[u8]) -> (r: Option<Token>)
        ensures
            r == decoded(user_hash_of(*user), val@),
    {
        if val.len() != 34 || !is_lower_hex(val) {
            return None;
        }
        let mut bytes: Vec<u8> = Vec::new();
        let mut k: usize = 0;
        while k < 17
            invariant
                k <= 17,
                bytes@.len() == k,
            decreases 17 - k,
        {
            bytes.push(0);
            k = k + 1;
        }
        match decode_hex_into(val, bytes.as_mut_slice()) {
            Ok(()) => {},
            Err(_) => {
                return None;
            },
        }
        let index = bytes[0];
        let source = read_le_u64(bytes.as_slice(), 1);
        let claimed = read_le_u64(bytes.as_slice(), 9);
        let token = Token::new(index, source, user);
        if claimed != token.target() {
            return None;
        }
        Some(token)
    }

    /// The wire form in lowercase hexadecimal: 34 characters.
    pub fn as_hex(&self) -> (r: String)
        ensures
            r@ == hex_chars(wire_bytes(*self)),
    {
        let mut bytes: Vec<u8> = Vec::new();
        bytes.push(self.index);
        push_le_bytes(&mut bytes, self.source);
        push_le_bytes(&mut bytes, self.target());
        assert(bytes@ =~= wire_bytes(*self));
        encode_hex(bytes.as_slice())
    }

    /// The children of this token: between one and `MAX_CHILDREN`, indexed
    /// from zero, all with this token's target as source.
    pub fn iter_children(&self) -> (r: Vec<Token>)
        ensures
            r@ == children_of(*self),
            1 <= r@.len() <= MAX_CHILDREN,
            forall|i: int|
                0 <= i < r@.len() ==> (#[trigger] r@[i]).index == i && r@[i].source == target_of(
                    *self,
                ) && r@[i].user_hash == self.user_hash,
    {
        let n = child_count(self.source, 1, MAX_CHILDREN);
        let source = self.target();
        let mut children: Vec<Token> = Vec::new();
        let mut index: u8 = 0;
        while index < n
            invariant
                index <= n,
                n == child_count_of(self.source, 1, MAX_CHILDREN),
                source == target_of(*self),
                children@ == children_of(*self).take(index as int),
            decreases n - index,
        {
            children.push(Token { index, source, user_hash: self.user_hash });
            proof {
                assert(children_of(*self).take(index + 1) =~= children_of(*self).take(
                    index as int,
                ).push(children_of(*self)[index as int]));
            }
            index = index + 1;
        }
        assert(children_of(*self).take(n as int) =~= children_of(*self));
        children
    }
}

/// Decoding the wire text of a token `t` for a user gives `t` back exactly
/// when `t` belongs to that user. When it does not, nothing comes back, unless
/// the signature recomputed with that user's hash is the very signature that
/// `t` carries.
pub proof fn lemma_wire_round_trip(t: Token, user: User)
    ensures
        decoded(user_hash_of(user), vstd::utf8::encode_utf8(hex_chars(wire_bytes(t)))) == Some(t)
            <==> t.user_hash == user_hash_of(user),
        t.user_hash != user_hash_of(user) && target_of(
            Token { index: t.index, source: t.source, user_hash: user_hash_of(user) },
        ) != target_of(t) ==> decoded(
            user_hash_of(user),
            vstd::utf8::encode_utf8(hex_chars(wire_bytes(t))),
        ) is None,
{
    let w = wire_bytes(t);
    lemma_hex_chars_utf8(w);
    lemma_hex_round_trip(w);
    lemma_le_round_trip(t.source);
    lemma_le_round_trip(target_of(t));
    assert(w.subrange(1, 9) =~= le_bytes(t.source));
    assert(w.subrange(9, 17) =~= le_bytes(target_of(t)));
}

/// Two calls of `iter_children` on one token give the same sequence: the
/// children are a function of the token alone.
pub proof fn lemma_children_deterministic(a: Token, b: Token)
    requires
        a == b,
    ensures
        children_of(a) == children_of(b),
{
}

/// Text that decodes to the index and source of a token `t` minted for a
/// user, but to any other signature bytes, is rejected for that user: a
/// token's signature cannot be altered.
pub proof fn lemma_altered_signature_rejected(t: Token, user: User, text: Seq<u8>)
    requires
        t.user_hash == user_hash_of(user),
        text.len() == 34,
        all_lower_hex(text),
        hex_decode(text).subrange(0, 9) == wire_bytes(t).subrange(0, 9),
        hex_decode(text) != wire_bytes(t),
    ensures
        decoded(user_hash_of(user), text) is None,
{
    let b = hex_decode(text);
    let w = wire_bytes(t);
    lemma_le_round_trip(t.source);
    assert(w.subrange(1, 9) =~= le_bytes(t.source));
    assert(b.subrange(1, 9) =~= b.subrange(0, 9).subrange(1, 9));
    assert(w.subrange(1, 9) =~= w.subrange(0, 9).subrange(1, 9));
    assert(b[0] == b.subrange(0, 9)[0]);
    assert(w[0] == w.subrange(0, 9)[0]);
    let claimed = le_value(b.subrange(9, 17));
    if claimed == target_of(t) {
        lemma_le_bytes_of_value(b.subrange(9, 17));
        assert(w.subrange(9, 17) =~= le_bytes(target_of(t)));
        assert forall|i: int| 0 <= i < 17 implies b[i] == w[i] by {
            if i < 9 {
                assert(b.subrange(0, 9)[i] == w.subrange(0, 9)[i]);
            } else {
                assert(b.subrange(9, 17)[i - 9] == w.subrange(9, 17)[i - 9]);
            }
        }
        assert(b =~= w);
    }
}

} // verus!
