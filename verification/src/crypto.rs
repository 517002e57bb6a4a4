//! AES-128-CBC with PKCS#7 padding, and the keys of a session.
use aes::Aes128;
use cbc::{Decryptor, Encryptor};
use cipher::block_padding::Pkcs7;
use cipher::{BlockModeDecrypt, BlockModeEncrypt, KeyIvInit};
use vstd::prelude::*;
use vstd::slice::slice_to_vec;

verus! {

/// Error of `BlockModeEncrypt::encrypt_padded`: the buffer is too small.
#[verifier::external_type_specification]
#[verifier::external_body]
pub struct ExPadError(cipher::inout::PadError);

/// Error of `BlockModeDecrypt::decrypt_padded`: bad length or malformed padding.
#[verifier::external_type_specification]
#[verifier::external_body]
pub struct ExUnpadError(cipher::block_padding::Error);

/// The ciphertext that AES-128-CBC with PKCS#7 padding makes of `msg`.
pub uninterp spec fn cbc_sealed(key: Seq<u8>, iv: Seq<u8>, msg: Seq<u8>) -> Seq<u8>;

/// The message that AES-128-CBC with PKCS#7 padding finds in `ciphertext`, or `None` where
/// the length or the padding is wrong.
pub uninterp spec fn cbc_opened(key: Seq<u8>, iv: Seq<u8>, ciphertext: Seq<u8>) -> Option<Seq<u8>>;

/// How long the ciphertext of a message of `len` bytes is: PKCS#7 adds one to sixteen bytes.
pub open spec fn padded_len(len: nat) -> nat {
    (len / 16 + 1) * 16
}

/// Calls `BlockModeEncrypt::encrypt_padded` of `cbc::Encryptor<Aes128>` with `Pkcs7` on the
/// first `msg_len` bytes of `buf`. Claimed of it: it fails only where the whole blocks of `buf`
/// do not hold the padded message; otherwise the result is the ciphertext of those bytes, as
/// long as the padded message, and decrypts to them under the same key and IV.
#[verifier::external_body]
fn encrypt_padded(key: &[u8; 16], iv: &[u8; 16], mut buf: Vec<u8>, msg_len: usize) -> (r: Result<
    Vec<u8>,
    cipher::inout::PadError,
>)
    ensures
        r is Ok <==> padded_len(msg_len as nat) <= buf@.len(),
        r matches Ok(ct) ==> {
            &&& ct@ == cbc_sealed(key@, iv@, buf@.take(msg_len as int))
            &&& ct@.len() == padded_len(msg_len as nat)
            &&& cbc_opened(key@, iv@, ct@) == Some(buf@.take(msg_len as int))
        },
{
    Encryptor::<Aes128>::new(key.into(), iv.into())
        .encrypt_padded::<Pkcs7>(&mut buf, msg_len)
        .map(|ct| ct.to_vec())
}

/// Calls `BlockModeDecrypt::decrypt_padded` of `cbc::Decryptor<Aes128>` with `Pkcs7`. Claimed
/// of it: the result depends on key, IV and ciphertext alone; a message is one to sixteen bytes
/// shorter than its ciphertext and encrypts to it again, since the whole padding is checked; and
/// a ciphertext that some message encrypts to gives that message.
#[verifier::external_body]
fn decrypt_padded(key: &[u8; 16], iv: &[u8; 16], mut buf: Vec<u8>) -> (r: Result<
    Vec<u8>,
    cipher::block_padding::Error,
>)
    ensures
        r is Err <==> cbc_opened(key@, iv@, buf@) is None,
        r matches Ok(msg) ==> {
            &&& cbc_opened(key@, iv@, buf@) == Some(msg@)
            &&& cbc_sealed(key@, iv@, msg@) == buf@
            &&& buf@.len() == padded_len(msg@.len())
        },
        forall|p: Seq<u8>| #[trigger] cbc_sealed(key@, iv@, p) == buf@ ==> r is Ok && r->Ok_0@ == p,
{
    Decryptor::<Aes128>::new(key.into(), iv.into())
        .decrypt_padded::<Pkcs7>(&mut buf)
        .map(|msg| msg.to_vec())
}

/// A ciphertext that does not decrypt to a padded message.
#[derive(Debug, Clone, Copy, PartialEq, Eq)]
pub struct DecryptError;

impl DecryptError {
    /// What is printed for the error.
    pub fn message(&self) -> (r: &'static str)
        ensures
            r@ == "AES-CBC decrypt error: Error"@,
    {
        "AES-CBC decrypt error: Error"
    }
}

/// PKCS7-padded AES-128-CBC encrypt.
///
/// The ciphertext decrypts to the plaintext under the same key and IV.
pub fn aes_cbc_encrypt(key: &[u8; 16], iv: &[u8; 16], plaintext: &[u8]) -> (ciphertext: Vec<u8>)
    requires
        padded_len(plaintext@.len()) <= usize::MAX,
    ensures
        ciphertext@ == cbc_sealed(key@, iv@, plaintext@),
        ciphertext@.len() == padded_len(plaintext@.len()),
        cbc_opened(key@, iv@, ciphertext@) == Some(plaintext@),
{
    let msg_len: usize = plaintext.len();
    let full_len: usize = ((msg_len / 16) + 1) * 16;
    let mut buf: Vec<u8> = slice_to_vec(plaintext);
    buf.resize(full_len, 0);
    assert(buf@.take(msg_len as int) =~= plaintext@);
    encrypt_padded(key, iv, buf, msg_len).unwrap()
}

/// PKCS7-unpadded AES-128-CBC decrypt.
///
/// The result is the one message that encrypts to the ciphertext under the same key and IV, and
/// an error where there is none.
pub fn aes_cbc_decrypt(key: &[u8; 16], iv: &[u8; 16], ciphertext: &[u8]) -> (r: Result<
    Vec<u8>,
    DecryptError,
>)
    ensures
        r is Err <==> cbc_opened(key@, iv@, ciphertext@) is None,
        r matches Ok(msg) ==> {
            &&& cbc_opened(key@, iv@, ciphertext@) == Some(msg@)
            &&& cbc_sealed(key@, iv@, msg@) == ciphertext@
            &&& ciphertext@.len() == padded_len(msg@.len())
        },
        forall|p: Seq<u8>| #[trigger]
            cbc_sealed(key@, iv@, p) == ciphertext@ ==> r is Ok && r->Ok_0@ == p,
        r is Err <==> !exists|p: Seq<u8>| #[trigger] cbc_sealed(key@, iv@, p) == ciphertext@,
        ciphertext@.len() == 0 || ciphertext@.len() % 16 != 0 ==> r is Err,
{
    match decrypt_padded(key, iv, slice_to_vec(ciphertext)) {
        Ok(msg) => Ok(msg),
        Err(_) => Err(DecryptError),
    }
}

/// `src` cut to sixteen bytes, or filled up with zeros on the right.
pub open spec fn padded_iv(src: Seq<u8>) -> Seq<u8> {
    Seq::new(
        16,
        |i: int|
            if i < src.len() {
                src[i]
            } else {
                0u8
            },
    )
}

/// Pad or truncate `src` to exactly 16 bytes (zero-padded on the right).
pub fn pad_iv(src: &[u8]) -> (iv: [u8; 16])
    ensures
        iv@ == padded_iv(src@),
{
    let mut iv: [u8; 16] = [0u8; 16];
    let n: usize = if src.len() < 16 {
        src.len()
    } else {
        16
    };
    let mut i: usize = 0;
    while i < n
        invariant
            i <= n <= 16,
            n <= src@.len(),
            iv@ == padded_iv(src@.take(i as int)),
        decreases n - i,
    {
        iv[i] = src[i];
        i += 1;
        assert(iv@ =~= padded_iv(src@.take(i as int)));
    }
    assert(iv@ =~= padded_iv(src@));
    iv
}

/// What `CryptoKeys` stands for.
#[verifier::ext_equal]
pub enum KeysView {
    Absent,
    Initial { key: Seq<u8>, iv: Seq<u8> },
    Session { key: Seq<u8>, iv: Seq<u8> },
}

impl KeysView {
    /// The key and IV in force.
    pub open spec fn pair(self) -> Option<(Seq<u8>, Seq<u8>)> {
        match self {
            KeysView::Absent => None,
            KeysView::Initial { key, iv } => Some((key, iv)),
            KeysView::Session { key, iv } => Some((key, iv)),
        }
    }
}

/// Tracks the three lifecycle stages of the AES session:
///   `Absent` → `Initial` (after S/N extracted) → `Session` (after key exchange).
#[derive(Debug, Clone, Copy)]
pub enum CryptoKeys {
    /// Handshake not yet started.
    Absent,
    /// Plain handshake done; initial key = INITIAL_KEY, IV = pad_iv(serial).
    Initial { key: [u8; 16], iv: [u8; 16] },
    /// Session key exchanged with the device.
    Session { key: [u8; 16], iv: [u8; 16] },
}

impl View for CryptoKeys {
    type V = KeysView;

    open spec fn view(&self) -> KeysView {
        match *self {
            CryptoKeys::Absent => KeysView::Absent,
            CryptoKeys::Initial { key, iv } => KeysView::Initial { key: key@, iv: iv@ },
            CryptoKeys::Session { key, iv } => KeysView::Session { key: key@, iv: iv@ },
        }
    }
}

impl CryptoKeys {
    /// The key and IV in force; `None` before the handshake.
    pub fn key_iv(&self) -> (r: Option<(&[u8; 16], &[u8; 16])>)
        ensures
            r is Some <==> self@.pair() is Some,
            r matches Some((key, iv)) ==> self@.pair() == Some((key@, iv@)),
            *self matches CryptoKeys::Initial { key, iv } ==> r == Some((&key, &iv)),
            *self matches CryptoKeys::Session { key, iv } ==> r == Some((&key, &iv)),
            *self is Absent <==> r is None,
    {
        match self {
            CryptoKeys::Initial { key, iv } => Some((key, iv)),
            CryptoKeys::Session { key, iv } => Some((key, iv)),
            CryptoKeys::Absent => None,
        }
    }

    /// Whether a session key is in force.
    pub fn is_session(&self) -> (r: bool)
        ensures
            r == (self@ is Session),
            r == (*self is Session),
    {
        match self {
            CryptoKeys::Session { .. } => true,
            _ => false,
        }
    }
}

// ---------------------------------------------------------------------------
// Laws
// ---------------------------------------------------------------------------

/// An IV is sixteen bytes: those of the source as far as they go, then zeros.
pub proof fn law_padded_iv(src: Seq<u8>)
    ensures
        padded_iv(src).len() == 16,
        src.len() >= 16 ==> padded_iv(src) == src.take(16),
        src.len() < 16 ==> padded_iv(src).take(src.len() as int) == src,
        forall|i: int| src.len() <= i < 16 ==> #[trigger] padded_iv(src)[i] == 0,
{
    if src.len() >= 16 {
        assert(padded_iv(src) =~= src.take(16));
    } else {
        assert(padded_iv(src).take(src.len() as int) =~= src);
    }
}

/// Before the handshake there is no key; after it, key and IV are those of the stage.
pub proof fn law_keys_of_each_stage(key: [u8; 16], iv: [u8; 16])
    ensures
        CryptoKeys::Absent@.pair() is None,
        (CryptoKeys::Initial { key, iv })@ == (KeysView::Initial { key: key@, iv: iv@ }),
        (CryptoKeys::Initial { key, iv })@.pair() == Some((key@, iv@)),
        (CryptoKeys::Session { key, iv })@ == (KeysView::Session { key: key@, iv: iv@ }),
        (CryptoKeys::Session { key, iv })@.pair() == Some((key@, iv@)),
{
}

} // verus!
