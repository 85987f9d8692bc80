//! The symmetric codec: authenticated encryption of the store's canonical
//! text under a process-wide secret key, with a fresh random nonce per
//! encryption, plus the on-disk envelope framing. Decryption of a genuine
//! envelope is proved to give the store back; everything that is not a
//! genuine envelope decodes to a failure, never to silent garbage.
//!
//! What the cipher computes is named, not written out: `seal_of(msg, nonce,
//! key)` is the tag-and-ciphertext that the secretbox construction produces,
//! a function of the three byte strings alone.

use vstd::prelude::*;
use vstd::slice::{slice_subrange, slice_to_vec};
use vstd::utf8::{encode_scalar, encode_utf8, encode_utf8_decode_utf8, encode_utf8_valid_utf8};

use crate::db::{db_wf, DataBase, DataBaseV};
use crate::serial::{
    db_encodable, dec_db, decode_db, enc_db, encode_db, lemma_enc_dec_db, string_from_chars,
};

verus! {

/// The tag-and-ciphertext of the secretbox construction. Names the result of
/// `dryoc::dryocsecretbox::DryocSecretBox::encrypt_to_vecbox` (XSalsa20 with
/// a Poly1305 tag), serialized as `tag || ciphertext`: a function of message,
/// nonce and key alone.
pub uninterp spec fn seal_of(msg: Seq<u8>, nonce: Seq<u8>, key: Seq<u8>) -> Seq<u8>;

/// An encrypted envelope: the sealed bytes (tag and ciphertext) and the
/// nonce they were sealed under.
pub struct EncryptedData {
    pub data: Vec<u8>,
    pub nonce: Vec<u8>,
}

/// The on-disk frame of an envelope: a marker byte, the nonce, the sealed
/// bytes. A legacy plaintext file never starts with the marker, because the
/// canonical text begins with a hexadecimal digit.
pub open spec fn enc_envelope(nonce: Seq<u8>, sealed: Seq<u8>) -> Seq<u8> {
    seq![1u8] + nonce + sealed
}

/// The process key derived from a passphrase: its UTF-8 bytes, zero-padded
/// or truncated to the cipher's 32-byte key length.
pub open spec fn derived_key(p: Seq<char>) -> Seq<u8> {
    Seq::new(
        32,
        |i: int|
            if i < encode_utf8(p).len() {
                encode_utf8(p)[i]
            } else {
                0u8
            },
    )
}

/// Derive the process key from the configured passphrase.
pub fn derive_key(passphrase: &String) -> (r: Vec<u8>)
    ensures
        r@ == derived_key(passphrase@),
        r@.len() == 32,
{
    let bytes = slice_to_vec(passphrase.as_str().as_bytes());
    let mut v: Vec<u8> = Vec::new();
    let mut i: usize = 0;
    while i < 32
        invariant
            bytes@ == encode_utf8(passphrase@),
            i <= 32,
            v@.len() == i,
            forall|j: int|
                0 <= j < i ==> v@[j] == (if j < bytes@.len() {
                    bytes@[j]
                } else {
                    0u8
                }),
        decreases 32 - i,
    {
        if i < bytes.len() {
            v.push(bytes[i]);
        } else {
            v.push(0);
        }
        i = i + 1;
    }
    proof {
        assert(v@ =~= derived_key(passphrase@));
    }
    v
}

/// Relies on dryoc's `DryocSecretBox::encrypt_to_vecbox` and `to_vec`:
/// seals the message under nonce and key, deterministically in the three
/// inputs, and returns `tag || ciphertext`, sixteen bytes longer than the
/// message. The length bound keeps the message under the construction's
/// input limit on either pointer width, so the call cannot fail.
#[verifier::external_body]
fn secretbox_seal(msg: &Vec<u8>, nonce: &Vec<u8>, key: &Vec<u8>) -> (r: Vec<u8>)
    requires
        msg@.len() <= 0xFFFFFFEF,
        nonce@.len() == 24,
        key@.len() == 32,
    ensures
        r@ == seal_of(msg@, nonce@, key@),
        r@.len() == msg@.len() + 16,
{
    let mut n = [0u8; 24];
    n.copy_from_slice(nonce.as_slice());
    let mut k = [0u8; 32];
    k.copy_from_slice(key.as_slice());
    let sealed: dryoc::dryocsecretbox::VecBox =
        dryoc::dryocsecretbox::DryocSecretBox::encrypt_to_vecbox(msg, &n, &k).unwrap();
    sealed.to_vec()
}

/// Relies on dryoc's `DryocSecretBox::from_bytes` (splits `tag ||
/// ciphertext`) and `decrypt_to_vec` (authenticates, then decrypts): when
/// the input is exactly what sealing some message under this nonce and key
/// produces, that message comes back; of any other outcome nothing is
/// claimed beyond failure or success.
#[verifier::external_body]
fn secretbox_open(data: &Vec<u8>, nonce: &Vec<u8>, key: &Vec<u8>) -> (r: Option<Vec<u8>>)
    requires
        nonce@.len() == 24,
        key@.len() == 32,
    ensures
        r is None ==> forall|m: Seq<u8>| data@ != #[trigger] seal_of(m, nonce@, key@),
        r matches Some(p) ==> forall|m: Seq<u8>|
            data@ == #[trigger] seal_of(m, nonce@, key@) ==> p@ == m,
{
    let mut n = [0u8; 24];
    n.copy_from_slice(nonce.as_slice());
    let mut k = [0u8; 32];
    k.copy_from_slice(key.as_slice());
    let parsed: Result<dryoc::dryocsecretbox::VecBox, dryoc::Error> =
        dryoc::dryocsecretbox::DryocSecretBox::from_bytes(data.as_slice());
    match parsed {
        Ok(sealed) => sealed.decrypt_to_vec(&n, &k).ok(),
        Err(_) => None,
    }
}

/// Relies on dryoc's `rng::randombytes_buf`: the requested number of fresh
/// bytes from the operating system's randomness. Nothing but the length is
/// claimed of the outcome.
#[verifier::external_body]
fn gen_nonce() -> (r: Vec<u8>)
    ensures
        r@.len() == 24,
{
    dryoc::rng::randombytes_buf(24)
}

/// Relies on `String::from_utf8`: succeeds exactly on valid UTF-8, and the
/// returned string's UTF-8 encoding is the input bytes.
#[verifier::external_body]
fn string_from_utf8(b: &Vec<u8>) -> (r: Option<String>)
    ensures
        r matches Some(s) ==> encode_utf8(s@) == b@,
        vstd::utf8::valid_utf8(b@) ==> r is Some,
{
    String::from_utf8(b.clone()).ok()
}

/// A UTF-8 encoding takes at most four bytes per character.
proof fn lemma_utf8_len(s: Seq<char>)
    ensures
        encode_utf8(s).len() <= 4 * s.len(),
    decreases s.len(),
{
    if s.len() == 0 {
    } else {
        lemma_utf8_len(s.drop_first());
        assert(encode_scalar(s[0] as u32).len() <= 4);
    }
}

/// Encrypt the store: encode it to its canonical text, seal the UTF-8 bytes
/// of that text under the key with a fresh nonce. The envelope's sealed
/// bytes are exactly `seal_of` of that plaintext, so decryption under the
/// same key is owed the store back.
pub fn encrypt(db: &DataBase, key: &Vec<u8>) -> (r: EncryptedData)
    requires
        key@.len() == 32,
        db_encodable(db@),
        enc_db(db@).len() <= 0x3FFFFFF0,
    ensures
        r.nonce@.len() == 24,
        r.data@ == seal_of(encode_utf8(enc_db(db@)), r.nonce@, key@),
{
    let doc = encode_db(db);
    let text = string_from_chars(doc.as_slice());
    let bytes = slice_to_vec(text.as_str().as_bytes());
    proof {
        lemma_utf8_len(enc_db(db@));
    }
    let nonce = gen_nonce();
    let data = secretbox_seal(&bytes, &nonce, key);
    EncryptedData { data, nonce }
}

/// A string whose UTF-8 image is a store's canonical image carries exactly
/// that store's text, and that text decodes to the store: the image pins the
/// store down.
proof fn lemma_text_pins_store(d: DataBaseV, text: Seq<char>)
    requires
        db_encodable(d),
        encode_utf8(text) == encode_utf8(enc_db(d)),
    ensures
        text == enc_db(d),
        dec_db(text) == Some(d),
{
    encode_utf8_decode_utf8(text);
    encode_utf8_decode_utf8(enc_db(d));
    lemma_enc_dec_db(d);
}

/// Open a plaintext image of the canonical text: decode it and check the
/// store invariant. On the UTF-8 image of any well-formed store that fits
/// the format the result is owed, and is exactly that store; on anything
/// else every step that can fail fails to `None`.
fn open_text(plain: &Vec<u8>) -> (r: Option<DataBase>)
    ensures
        r matches Some(db) ==> db_wf(db@),
        forall|d: DataBaseV|
            db_wf(d) && db_encodable(d) && plain@ == #[trigger] encode_utf8(enc_db(d)) ==> (
            r matches Some(db) && db@ == d),
{
    let text = match string_from_utf8(plain) {
        None => {
            proof {
                assert forall|d: DataBaseV|
                    db_wf(d) && db_encodable(d) && plain@ == #[trigger] encode_utf8(
                        enc_db(d),
                    ) implies false by {
                    encode_utf8_valid_utf8(enc_db(d));
                }
            }
            return None;
        },
        Some(t) => t,
    };
    let chars = crate::serial::chars_of(text.as_str());
    let db = match decode_db(&chars) {
        None => {
            proof {
                assert forall|d: DataBaseV|
                    db_wf(d) && db_encodable(d) && plain@ == #[trigger] encode_utf8(
                        enc_db(d),
                    ) implies false by {
                    lemma_text_pins_store(d, text@);
                }
            }
            return None;
        },
        Some(db) => db,
    };
    let ok = db.check_wf();
    proof {
        assert forall|d: DataBaseV|
            db_wf(d) && db_encodable(d) && plain@ == #[trigger] encode_utf8(enc_db(d)) implies (ok
            && db@ == d) by {
            lemma_text_pins_store(d, text@);
        }
    }
    if ok {
        Some(db)
    } else {
        None
    }
}

/// Decrypt an envelope: `Some` store whenever the envelope is exactly what
/// `encrypt` produces for that store under this key; any tampered or foreign
/// envelope fails to authenticate or to decode and yields `None`, never
/// silent garbage. Every store handed back is well formed.
pub fn decrypt(e: &EncryptedData, key: &Vec<u8>) -> (r: Option<DataBase>)
    requires
        key@.len() == 32,
    ensures
        r matches Some(db) ==> db_wf(db@),
        forall|d: DataBaseV|
            db_wf(d) && db_encodable(d) && e.nonce@.len() == 24 && e.data@ == seal_of(
                #[trigger] encode_utf8(enc_db(d)),
                e.nonce@,
                key@,
            ) ==> (r matches Some(db) && db@ == d),
{
    if e.nonce.len() != 24 {
        return None;
    }
    let plain = match secretbox_open(&e.data, &e.nonce, key) {
        None => {
            return None;
        },
        Some(p) => p,
    };
    let r = open_text(&plain);
    proof {
        assert forall|d: DataBaseV|
            db_wf(d) && db_encodable(d) && e.nonce@.len() == 24 && e.data@ == seal_of(
                #[trigger] encode_utf8(enc_db(d)),
                e.nonce@,
                key@,
            ) implies (r matches Some(db) && db@ == d) by {
            assert(plain@ == encode_utf8(enc_db(d)));
        }
    }
    r
}

/// The canonical text's first byte is a hexadecimal digit, never the
/// envelope marker: the two on-disk shapes cannot be confused.
proof fn lemma_doc_first_byte(d: DataBaseV)
    requires
        db_encodable(d),
    ensures
        encode_utf8(enc_db(d)).len() > 0,
        encode_utf8(enc_db(d))[0] != 1u8,
{
    let s = enc_db(d);
    let k = ((d.students.len() as u32) >> 28) & 0xF;
    let c = crate::serial::hex_char(k);
    assert(s[0] == c);
    assert(48 <= c as u32 && c as u32 <= 70);
    let v = c as u32;
    assert(vstd::utf8::has_width_1_encoding(v));
    assert(encode_utf8(s)[0] == encode_scalar(v)[0]);
    assert(v & 0x7F == v) by (bit_vector)
        requires
            v < 0x80,
    ;
    assert(encode_scalar(v)[0] == (v & 0x7F) as u8);
}

/// An image that lacks the marker byte or the room for a nonce is not an
/// envelope frame.
proof fn lemma_not_envelope(bytes: Seq<u8>)
    requires
        bytes.len() < 25 || bytes[0] != 1u8,
    ensures
        forall|nonce: Seq<u8>, sealed: Seq<u8>|
            nonce.len() == 24 ==> bytes != #[trigger] enc_envelope(nonce, sealed),
{
    assert forall|nonce: Seq<u8>, sealed: Seq<u8>| nonce.len() == 24 implies bytes
        != #[trigger] enc_envelope(nonce, sealed) by {
        if bytes == enc_envelope(nonce, sealed) {
            assert(bytes.len() == 25 + sealed.len());
            assert(bytes[0] == 1u8);
        }
    }
}

/// Produce the on-disk image of the store: the canonical text, sealed under
/// the key with a fresh nonce, inside the envelope frame. `None` only when
/// the store does not fit the format's size limits.
pub fn to_bytes(db: &DataBase, key: &Vec<u8>) -> (r: Option<Vec<u8>>)
    requires
        key@.len() == 32,
    ensures
        r matches Some(bytes) ==> db_encodable(db@) && (exists|nonce: Seq<u8>|
            nonce.len() == 24 && bytes@ == #[trigger] enc_envelope(
                nonce,
                seal_of(encode_utf8(enc_db(db@)), nonce, key@),
            )),
        db_encodable(db@) && enc_db(db@).len() <= 0x3FFFFFF0 ==> r is Some,
{
    if !crate::serial::check_encodable(db) {
        return None;
    }
    let doc = encode_db(db);
    if doc.len() > 0x3FFFFFF0 {
        return None;
    }
    let e = encrypt(db, key);
    let ghost n0 = e.nonce@;
    let ghost d0 = e.data@;
    let mut outv: Vec<u8> = Vec::new();
    outv.push(1u8);
    let mut nn = e.nonce;
    outv.append(&mut nn);
    let mut dd = e.data;
    outv.append(&mut dd);
    proof {
        assert(outv@ =~= enc_envelope(n0, d0));
        assert(n0.len() == 24 && outv@ == enc_envelope(
            n0,
            seal_of(encode_utf8(enc_db(db@)), n0, key@),
        ));
    }
    Some(outv)
}

/// Load a store from an on-disk image. A genuine envelope written by
/// `to_bytes` under the same key gives back exactly the store it sealed; a
/// legacy plaintext file holding the canonical text of a well-formed store
/// gives back that store; anything else (missing, corrupt, tampered or
/// wrong-key data) falls back to the empty store. The result is always well
/// formed, so the process always starts.
pub fn from_bytes(bytes: &Vec<u8>, key: &Vec<u8>) -> (r: DataBase)
    requires
        key@.len() == 32,
    ensures
        db_wf(r@),
        forall|d: DataBaseV, nonce: Seq<u8>|
            db_wf(d) && db_encodable(d) && nonce.len() == 24 && bytes@ == #[trigger] enc_envelope(
                nonce,
                seal_of(encode_utf8(enc_db(d)), nonce, key@),
            ) ==> r@ == d,
        forall|d: DataBaseV|
            db_wf(d) && db_encodable(d) && bytes@ == #[trigger] encode_utf8(enc_db(d)) ==> r@ == d,
{
    if bytes.len() >= 25 && bytes[0] == 1u8 {
        let nonce = slice_to_vec(slice_subrange(bytes.as_slice(), 1, 25));
        let data = slice_to_vec(slice_subrange(bytes.as_slice(), 25, bytes.len()));
        let env = EncryptedData { data, nonce };
        let out = decrypt(&env, key);
        proof {
            assert forall|d: DataBaseV, nonce0: Seq<u8>|
                db_wf(d) && db_encodable(d) && nonce0.len() == 24 && bytes@
                    == #[trigger] enc_envelope(
                    nonce0,
                    seal_of(encode_utf8(enc_db(d)), nonce0, key@),
                ) implies (out matches Some(db) && db@ == d) by {
                assert(env.nonce@ =~= nonce0);
                assert(env.data@ =~= seal_of(encode_utf8(enc_db(d)), nonce0, key@));
            }
            assert forall|d: DataBaseV|
                db_wf(d) && db_encodable(d) && bytes@ == #[trigger] encode_utf8(enc_db(d)) implies
                false by {
                lemma_doc_first_byte(d);
            }
        }
        match out {
            Some(db) => db,
            None => DataBase::new(),
        }
    } else {
        let out = open_text(bytes);
        proof {
            lemma_not_envelope(bytes@);
        }
        match out {
            Some(db) => db,
            None => DataBase::new(),
        }
    }
}

} // verus!
