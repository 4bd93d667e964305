//! A wallet: an Ed25519 key pair, held as its raw bytes. Its address is the
//! lower-case hexadecimal text of the public key.

use crate::crypto::{
    derive_public_key, ed25519_accepts, ed25519_key_decodes, ed25519_public_key,
    ed25519_signature, public_key_decodes, random_secret_key, sign_message, verify_signature,
    KEY_LENGTH, SIGNATURE_LENGTH,
};
use crate::encoding::{hex_encode, hex_lower, lemma_hex_lower_shape};
use vstd::prelude::*;
use vstd::slice::slice_to_vec;
use vstd::string::StrSliceExecFns;
use vstd::string::StringExecFns;

verus! {

/// Number of characters of an address that its short form keeps.
pub const SHORT_ADDRESS_LENGTH: usize = 16;

/// The 32 zero bytes that stand in for a public key of the wrong length.
pub open spec fn zero_key() -> Seq<u8> {
    Seq::new(32, |i: int| 0u8)
}

/// Whether `signature` is a valid signature of `message` under the public key
/// bytes `public`: the signature must be 64 bytes long, and a key that is not
/// 32 bytes long is read as 32 zero bytes.
pub open spec fn signature_valid(public: Seq<u8>, message: Seq<u8>, signature: Seq<u8>) -> bool {
    &&& signature.len() == SIGNATURE_LENGTH
    &&& ed25519_accepts(
        if public.len() == KEY_LENGTH {
            public
        } else {
            zero_key()
        },
        message,
        signature,
    )
}

/// An Ed25519 key pair.
pub struct Wallet {
    secret_key: Vec<u8>,
    public_key: Vec<u8>,
}

impl Wallet {
    #[verifier::type_invariant]
    spec fn keys_are_32_bytes(self) -> bool {
        &&& self.secret_key@.len() == KEY_LENGTH
        &&& self.public_key@.len() == KEY_LENGTH
    }

    /// The 32 bytes of the secret key.
    pub closed spec fn secret_view(self) -> Seq<u8> {
        self.secret_key@
    }

    /// The 32 bytes of the public key.
    pub closed spec fn public_view(self) -> Seq<u8> {
        self.public_key@
    }

    /// The public key is the one that belongs to the secret key (true of
    /// every generated wallet; a wallet read back from stored bytes may pair
    /// keys that do not belong together).
    pub open spec fn keys_match(self) -> bool {
        self.public_view() == ed25519_public_key(self.secret_view())
    }

    /// The address: lower-case hexadecimal text of the public key.
    pub open spec fn address_view(self) -> Seq<char> {
        hex_lower(self.public_view())
    }

    /// A wallet for a fresh secret key from the operating system's random
    /// generator.
    pub fn generate() -> (wallet: Wallet)
        ensures
            wallet.keys_match(),
    {
        let secret = random_secret_key();
        Wallet::from_secret_key(secret.as_slice()).unwrap()
    }

    /// The wallet of a given secret key, or `None` when it is not 32 bytes
    /// long.
    pub fn from_secret_key(secret: &[u8]) -> (wallet: Option<Wallet>)
        ensures
            wallet is Some <==> secret@.len() == KEY_LENGTH,
            wallet matches Some(w) ==> w.secret_view() == secret@ && w.keys_match(),
    {
        if secret.len() != KEY_LENGTH {
            return None;
        }
        let public = derive_public_key(secret);
        let secret_key = slice_to_vec(secret);
        Some(Wallet { secret_key, public_key: public })
    }

    /// A wallet from stored key bytes, as it is read back from disk: `None`
    /// unless both keys are 32 bytes long and the public key decodes. The
    /// two keys are not checked to belong together.
    pub fn from_key_bytes(secret: &[u8], public: &[u8]) -> (wallet: Option<Wallet>)
        ensures
            wallet is Some <==> (secret@.len() == KEY_LENGTH && public@.len() == KEY_LENGTH
                && ed25519_key_decodes(public@)),
            wallet matches Some(w) ==> w.secret_view() == secret@ && w.public_view() == public@,
    {
        if secret.len() != KEY_LENGTH || public.len() != KEY_LENGTH {
            return None;
        }
        if !public_key_decodes(public) {
            return None;
        }
        Some(Wallet { secret_key: slice_to_vec(secret), public_key: slice_to_vec(public) })
    }

    /// The secret key's bytes.
    pub fn secret_key_bytes(&self) -> (bytes: &[u8])
        ensures
            bytes@ == self.secret_view(),
            bytes@.len() == KEY_LENGTH,
    {
        proof {
            use_type_invariant(self);
        }
        self.secret_key.as_slice()
    }

    /// The public key's bytes.
    pub fn public_key_bytes(&self) -> (bytes: &[u8])
        ensures
            bytes@ == self.public_view(),
            bytes@.len() == KEY_LENGTH,
    {
        proof {
            use_type_invariant(self);
        }
        self.public_key.as_slice()
    }

    /// The address: the public key in lower-case hexadecimal, 64 characters.
    pub fn address(&self) -> (address: String)
        ensures
            address@ == self.address_view(),
            address@.len() == 2 * KEY_LENGTH,
    {
        proof {
            use_type_invariant(self);
            lemma_hex_lower_shape(self.public_key@);
        }
        hex_encode(self.public_key.as_slice())
    }

    /// The first 16 characters of the address.
    pub fn short_address(&self) -> (short: String)
        ensures
            short@ == self.address_view().subrange(0, SHORT_ADDRESS_LENGTH as int),
    {
        let full = self.address();
        proof {
            use_type_invariant(self);
            lemma_hex_lower_shape(self.public_key@);
        }
        let prefix = full.as_str().substring_ascii(0, SHORT_ADDRESS_LENGTH);
        String::from_str(prefix)
    }

    /// Signs a message with the secret key. The signature is the one named
    /// `ed25519_signature`, and it is accepted under the public key that
    /// belongs to the secret key.
    pub fn sign(&self, message: &[u8]) -> (signature: Vec<u8>)
        ensures
            signature@ == ed25519_signature(self.secret_view(), message@),
            signature@.len() == SIGNATURE_LENGTH,
            ed25519_accepts(ed25519_public_key(self.secret_view()), message@, signature@),
            self.secret_view().len() == KEY_LENGTH,
            self.public_view().len() == KEY_LENGTH,
    {
        proof {
            use_type_invariant(self);
        }
        sign_message(self.secret_key.as_slice(), message)
    }

    /// Checks a signature of a message under public key bytes.
    pub fn verify(pubkey_bytes: &[u8], message: &[u8], signature_bytes: &[u8]) -> (ok: bool)
        ensures
            ok == signature_valid(pubkey_bytes@, message@, signature_bytes@),
    {
        if signature_bytes.len() != SIGNATURE_LENGTH {
            return false;
        }
        if pubkey_bytes.len() == KEY_LENGTH {
            verify_signature(pubkey_bytes, message, signature_bytes)
        } else {
            let zero: Vec<u8> = vec![0u8; 32];
            assert(zero@ =~= zero_key());
            verify_signature(zero.as_slice(), message, signature_bytes)
        }
    }
}

} // verus!
