//! The block cipher and the random source, as used by the frame codec.
use block_modes::BlockMode;
use rand::RngCore;
use vstd::prelude::*;

verus! {

/// Length in bytes of an AES-256 key.
pub const KEY_LEN: usize = 32;

/// Length in bytes of a CBC initialization vector (one AES block).
pub const IV_LEN: usize = 16;

/// Length in bytes of one cipher block.
pub const BLOCK_LEN: usize = 16;

/// The ciphertext that AES-256-CBC with PKCS#7 padding makes of `plain`
/// under `key` and `iv`.
pub uninterp spec fn cbc_encrypted(key: Seq<u8>, iv: Seq<u8>, plain: Seq<u8>) -> Seq<u8>;

/// What AES-256-CBC decryption with PKCS#7 unpadding makes of `cipher`
/// under `key` and `iv`: `None` where the padding does not validate.
pub uninterp spec fn cbc_decrypted(key: Seq<u8>, iv: Seq<u8>, cipher: Seq<u8>) -> Option<Seq<u8>>;

/// Length of the PKCS#7-padded form of a plaintext of `n` bytes: the next
/// multiple of the block length strictly above `n`.
pub open spec fn padded_len(n: nat) -> nat {
    (n / (BLOCK_LEN as nat) + 1) * (BLOCK_LEN as nat)
}

#[verifier::external_type_specification]
#[verifier::external_body]
pub struct ExBlockModeError(block_modes::BlockModeError);

/// Relies on `block_modes::BlockMode::new_from_slices` (which accepts a
/// 32-byte key and a 16-byte IV) and `BlockMode::encrypt_vec` of
/// `Cbc<Aes256, Pkcs7>`: it pads with PKCS#7 to the next whole block and
/// encrypts; decryption under the same key and IV gives the plaintext back.
#[verifier::external_body]
pub(crate) fn aes_cbc_encrypt(key: &[u8], iv: &[u8], plain: &[u8]) -> (r: Vec<u8>)
    requires
        key@.len() == KEY_LEN,
        iv@.len() == IV_LEN,
    ensures
        r@ == cbc_encrypted(key@, iv@, plain@),
        r@.len() == padded_len(plain@.len()),
        cbc_decrypted(key@, iv@, r@) == Some(plain@),
{
    block_modes::Cbc::<aes::Aes256, block_modes::block_padding::Pkcs7>::new_from_slices(key, iv)
        .unwrap()
        .encrypt_vec(plain)
}

/// Relies on `block_modes::BlockMode::new_from_slices` and
/// `BlockMode::decrypt_vec` of `Cbc<Aes256, Pkcs7>`: it refuses a ciphertext
/// that is not a whole number of blocks, and otherwise decrypts and removes
/// the padding, refusing padding that does not validate.
#[verifier::external_body]
pub(crate) fn aes_cbc_decrypt(key: &[u8], iv: &[u8], cipher: &[u8]) -> (r: Result<Vec<u8>, block_modes::BlockModeError>)
    requires
        key@.len() == KEY_LEN,
        iv@.len() == IV_LEN,
    ensures
        cipher@.len() % (BLOCK_LEN as nat) != 0 ==> r is Err,
        match r {
            Ok(p) => cbc_decrypted(key@, iv@, cipher@) == Some(p@),
            Err(_) => cbc_decrypted(key@, iv@, cipher@) is None,
        },
{
    block_modes::Cbc::<aes::Aes256, block_modes::block_padding::Pkcs7>::new_from_slices(key, iv)
        .unwrap()
        .decrypt_vec(cipher)
}

/// The operating system's random source could not be read.
#[derive(Debug, Clone, Copy, PartialEq, Eq, Structural)]
pub struct RandomSourceFailed;

/// Relies on `rand::rngs::OsRng::try_fill_bytes`: sixteen bytes from the
/// operating system's random source, or `None` where that source fails.
#[verifier::external_body]
pub(crate) fn random_iv() -> (r: Option<Vec<u8>>)
    ensures
        r matches Some(v) ==> v@.len() == IV_LEN,
{
    let mut iv = [0u8; 16];
    match rand::rngs::OsRng.try_fill_bytes(&mut iv) {
        Ok(()) => Some(iv.to_vec()),
        Err(_) => None,
    }
}

} // verus!
