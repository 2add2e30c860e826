//! Stable identifiers derived from item names.
use leafwing_manifest::identifier::Id;
use vstd::prelude::*;
use vstd::string::*;
use vstd::utf8::*;

verus! {

/// Multiplier of the rolling hash that turns a name into an identifier.
pub const HASH_BASE: u64 = 53;

/// Prime modulus of the rolling hash that turns a name into an identifier.
pub const HASH_MODULUS: u64 = 1_000_000_009;

/// State of the rolling hash after reading `bytes`: the hash so far and the
/// power of the base that weights the next byte.
pub open spec fn rolling_hash(bytes: Seq<u8>) -> (nat, nat)
    decreases bytes.len(),
{
    if bytes.len() == 0 {
        (0, 1)
    } else {
        let prev = rolling_hash(bytes.drop_last());
        (
            (prev.0 + (bytes.last() as nat + 1) * prev.1) % (HASH_MODULUS as nat),
            (prev.1 * (HASH_BASE as nat)) % (HASH_MODULUS as nat),
        )
    }
}

/// The identifier of a name: the rolling hash of its UTF-8 bytes.
pub open spec fn id_of(name: Seq<char>) -> u64 {
    rolling_hash(encode_utf8(name)).0 as u64
}

/// Identifier of an item, derived from its name alone.
#[derive(Clone, Copy, Debug, Hash, PartialEq, Eq, Structural)]
pub struct ItemId {
    pub raw: u64,
}

/// Relies on leafwing_manifest's `Id::from_name`, which folds the name's bytes into
/// `(value + (byte + 1) * p_pow) % HASH_M` with `p_pow` multiplied by `HASH_P` modulo
/// `HASH_M` after each byte, and on `Id::raw`, which hands that value back.
#[verifier::external_body]
fn id_from_name(name: &str) -> (r: u64)
    ensures
        r as nat == rolling_hash(name.spec_bytes()).0,
{
    Id::<ItemId>::from_name(name).raw()
}

/// The identifier of `name`. Equal names always give equal identifiers, in every
/// process, since the value depends on the name's bytes alone.
pub fn identifier_for(name: &str) -> (r: ItemId)
    ensures
        r.raw == id_of(name@),
{
    ItemId { raw: id_from_name(name) }
}

/// Identifier assignment is a function of the name: two calls with the same name
/// give the same identifier.
pub proof fn lemma_identifier_deterministic(a: Seq<char>, b: Seq<char>)
    requires
        a == b,
    ensures
        id_of(a) == id_of(b),
{
}

} // verus!
