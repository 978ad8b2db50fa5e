//! The particle token that an actor hands to the services it calls.
use vstd::prelude::*;

verus! {

/// The base58 text (Bitcoin alphabet) of a byte string.
pub uninterp spec fn base58_of(b: Seq<u8>) -> Seq<char>;

/// Relies on `bs58::encode(..).into_string()`: the base58 text of the bytes,
/// which depends on the bytes alone; no bytes give the empty text.
#[verifier::external_body]
fn encode_base58(b: &Vec<u8>) -> (r: String)
    ensures
        r@ == base58_of(b@),
        b@.len() == 0 ==> r@.len() == 0,
{
    bs58::encode(b).into_string()
}

/// The message of the error returned where no root signature could be made.
pub open spec fn token_error_message() -> Seq<char> {
    "Could not produce particle token by signing the particle signature"@
}

/// The particle token: the base58 text of the host root key's signature over
/// the particle signature. Fails where that signature could not be produced.
pub fn get_particle_token(root_signature: &Option<Vec<u8>>) -> (r: Result<String, String>)
    ensures
        match root_signature {
            Some(s) => r matches Ok(t) && t@ == base58_of(s@),
            None => r matches Err(e) && e@ == token_error_message(),
        },
{
    match root_signature {
        Some(s) => Ok(encode_base58(s)),
        None => {
            let msg = "Could not produce particle token by signing the particle signature";
            proof {
                reveal_strlit("Could not produce particle token by signing the particle signature");
            }
            Err(msg.to_string())
        },
    }
}

} // verus!
