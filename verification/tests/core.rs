use king::auth::{authenticate, AuthContext, AuthOutcome, Role};
use king::crypto::{decrypt, derive_key, encrypt, from_bytes, to_bytes, EncryptedData};
use king::db::{AppendOutcome, DataBase, Student, Teacher, GRADE_MAX};
use king::digest::anonymise;
use king::hash::{hash_password, verify_hash};
use king::serial::{decode_db, encode_db};

fn sample_db() -> DataBase {
    let mut db = DataBase::new();
    let ok = db.add_student(
        "alice".to_string(),
        Student { grades: vec![45, 60], password: hash_password("pw1".to_string()) },
    );
    assert!(ok);
    let ok = db.add_teacher(
        "root".to_string(),
        Teacher { name: "Prof. Root".to_string(), password: hash_password("admin".to_string()) },
    );
    assert!(ok);
    db
}

#[test]
fn hash_then_verify_succeeds() {
    let h = hash_password("pw1".to_string());
    assert!(verify_hash("pw1".to_string(), h));
}

#[test]
fn verify_rejects_wrong_secret() {
    let h = hash_password("pw1".to_string());
    assert!(!verify_hash("pw2".to_string(), h.clone()));
    assert!(!verify_hash("".to_string(), h));
}

#[test]
fn hash_twice_gives_fresh_credentials_that_both_verify() {
    let h1 = hash_password("same-secret".to_string());
    let h2 = hash_password("same-secret".to_string());
    assert_ne!(h1, h2);
    assert!(verify_hash("same-secret".to_string(), h1));
    assert!(verify_hash("same-secret".to_string(), h2));
}

#[test]
fn verify_malformed_credential_is_false_not_panic() {
    assert!(!verify_hash("pw".to_string(), "not a credential".to_string()));
    assert!(!verify_hash("pw".to_string(), "".to_string()));
    assert!(!verify_hash("pw".to_string(), "$argon2id$garbage".to_string()));
}

#[test]
fn anonymise_is_fixed_length_deterministic_and_one_way_looking() {
    let a1 = anonymise(&"alice".to_string());
    let a2 = anonymise(&"alice".to_string());
    let b = anonymise(&"bob".to_string());
    assert_eq!(a1, a2);
    assert_eq!(a1.len(), 64);
    assert_eq!(b.len(), 64);
    assert_ne!(a1, b);
    assert_ne!(a1, "alice");
    assert!(a1.chars().all(|c| c.is_ascii_hexdigit()));
    let empty = anonymise(&"".to_string());
    assert_eq!(empty.len(), 64);
}

#[test]
fn encrypt_decrypt_round_trip() {
    let db = sample_db();
    let key = derive_key(&"a process secret".to_string());
    let env = encrypt(&db, &key);
    let back = decrypt(&env, &key).expect("genuine envelope must decrypt");
    assert_eq!(back.students.len(), 1);
    assert_eq!(back.teachers.len(), 1);
    let alice = back.read_record(&"alice".to_string()).expect("alice must exist");
    assert_eq!(alice.grades, vec![45, 60]);
    assert!(verify_hash("pw1".to_string(), alice.password.clone()));
    let root = back.read_teacher(&"root".to_string()).expect("root must exist");
    assert_eq!(root.name, "Prof. Root");
}

#[test]
fn decrypt_detects_any_single_byte_tamper() {
    let db = sample_db();
    let key = derive_key(&"a process secret".to_string());
    let env = encrypt(&db, &key);
    for pos in 0..env.data.len() {
        let mut data = env.data.clone();
        data[pos] ^= 0x01;
        let tampered = EncryptedData { data, nonce: env.nonce.clone() };
        assert!(decrypt(&tampered, &key).is_none(), "tamper at byte {} went undetected", pos);
    }
}

#[test]
fn decrypt_with_wrong_key_fails() {
    let db = sample_db();
    let key = derive_key(&"right key".to_string());
    let other = derive_key(&"wrong key".to_string());
    let env = encrypt(&db, &key);
    assert!(decrypt(&env, &other).is_none());
}

#[test]
fn decrypt_with_bad_nonce_length_fails() {
    let db = sample_db();
    let key = derive_key(&"right key".to_string());
    let env = encrypt(&db, &key);
    let bad = EncryptedData { data: env.data.clone(), nonce: vec![0u8; 7] };
    assert!(decrypt(&bad, &key).is_none());
}

#[test]
fn derive_key_pads_and_truncates() {
    let k1 = derive_key(&"short".to_string());
    assert_eq!(k1.len(), 32);
    assert_eq!(&k1[..5], b"short");
    assert!(k1[5..].iter().all(|&b| b == 0));
    let long = "x".repeat(50);
    let k2 = derive_key(&long);
    assert_eq!(k2.len(), 32);
    assert!(k2.iter().all(|&b| b == b'x'));
}

#[test]
fn authenticate_end_to_end_standard() {
    let db = sample_db();
    let ctx = AuthContext::new();
    let ok = authenticate(&db, &ctx, &"alice".to_string(), &"pw1".to_string(), Role::Standard);
    assert_eq!(ok, AuthOutcome::Authenticated);
    let wrong = authenticate(&db, &ctx, &"alice".to_string(), &"wrong".to_string(), Role::Standard);
    assert_eq!(wrong, AuthOutcome::Rejected);
    let unknown = authenticate(
        &db,
        &ctx,
        &"bob".to_string(),
        &"anything".to_string(),
        Role::Standard,
    );
    assert_eq!(unknown, AuthOutcome::Rejected);
}

#[test]
fn authenticate_elevated_scopes_to_teacher_partition() {
    let db = sample_db();
    let ctx = AuthContext::new();
    let ok = authenticate(&db, &ctx, &"root".to_string(), &"admin".to_string(), Role::Elevated);
    assert_eq!(ok, AuthOutcome::Authenticated);
    // a student identity never authenticates in the elevated partition
    let cross = authenticate(&db, &ctx, &"alice".to_string(), &"pw1".to_string(), Role::Elevated);
    assert_eq!(cross, AuthOutcome::Rejected);
    let wrong = authenticate(&db, &ctx, &"root".to_string(), &"nope".to_string(), Role::Elevated);
    assert_eq!(wrong, AuthOutcome::Rejected);
}

#[test]
fn append_out_of_range_is_rejected_before_the_store() {
    let mut db = sample_db();
    // 7.5 in a 0.0..=6.0 domain, expressed in tenths
    assert_eq!(db.append_entry(&"alice".to_string(), 75), AppendOutcome::OutOfRange);
    assert_eq!(db.append_entry(&"alice".to_string(), GRADE_MAX + 1), AppendOutcome::OutOfRange);
    let alice = db.read_record(&"alice".to_string()).unwrap();
    assert_eq!(alice.grades, vec![45, 60]);
}

#[test]
fn append_to_unknown_identity_is_not_found() {
    let mut db = sample_db();
    assert_eq!(db.append_entry(&"mallory".to_string(), 10), AppendOutcome::NotFound);
    assert_eq!(db.students.len(), 1);
}

#[test]
fn appending_n_entries_keeps_all_n() {
    let mut db = sample_db();
    let before = db.read_record(&"alice".to_string()).unwrap().grades.len();
    let n = 25;
    for i in 0..n {
        let grade = (i % (GRADE_MAX as usize + 1)) as u32;
        assert_eq!(db.append_entry(&"alice".to_string(), grade), AppendOutcome::Appended);
    }
    let after = db.read_record(&"alice".to_string()).unwrap().grades.len();
    assert_eq!(after, before + n);
}

#[test]
fn boundary_grade_is_accepted() {
    let mut db = sample_db();
    assert_eq!(db.append_entry(&"alice".to_string(), GRADE_MAX), AppendOutcome::Appended);
    assert_eq!(db.append_entry(&"alice".to_string(), 0), AppendOutcome::Appended);
    let alice = db.read_record(&"alice".to_string()).unwrap();
    assert_eq!(alice.grades, vec![45, 60, GRADE_MAX, 0]);
}

#[test]
fn add_student_rejects_empty_and_duplicate_identities() {
    let mut db = sample_db();
    assert!(!db.add_student(
        "".to_string(),
        Student { grades: vec![], password: "h".to_string() },
    ));
    assert!(!db.add_student(
        "alice".to_string(),
        Student { grades: vec![], password: "h".to_string() },
    ));
    assert!(!db.add_student(
        "carol".to_string(),
        Student { grades: vec![GRADE_MAX + 1], password: "h".to_string() },
    ));
    assert!(db.add_student(
        "carol".to_string(),
        Student { grades: vec![GRADE_MAX], password: "h".to_string() },
    ));
    assert_eq!(db.students.len(), 2);
}

#[test]
fn save_then_load_reproduces_the_store() {
    let db = sample_db();
    let key = derive_key(&"persistent secret".to_string());
    let image = to_bytes(&db, &key).expect("a small store must serialize");
    let back = from_bytes(&image, &key);
    assert_eq!(back.students.len(), db.students.len());
    assert_eq!(back.teachers.len(), db.teachers.len());
    let alice = back.read_record(&"alice".to_string()).unwrap();
    let alice0 = db.read_record(&"alice".to_string()).unwrap();
    assert_eq!(alice.grades, alice0.grades);
    assert_eq!(alice.password, alice0.password);
    let root = back.read_teacher(&"root".to_string()).unwrap();
    assert_eq!(root.name, "Prof. Root");
}

#[test]
fn load_of_garbage_falls_back_to_an_empty_store() {
    let key = derive_key(&"k".to_string());
    let empty = from_bytes(&Vec::new(), &key);
    assert_eq!(empty.students.len(), 0);
    assert_eq!(empty.teachers.len(), 0);
    let junk = from_bytes(&vec![0xDEu8, 0xAD, 0xBE, 0xEF], &key);
    assert_eq!(junk.students.len(), 0);
    assert_eq!(junk.teachers.len(), 0);
    // an envelope whose ciphertext was truncated also falls back
    let db = sample_db();
    let mut image = to_bytes(&db, &key).unwrap();
    image.truncate(image.len() - 1);
    let cut = from_bytes(&image, &key);
    assert_eq!(cut.students.len(), 0);
}

#[test]
fn load_accepts_a_legacy_plaintext_file() {
    let db = sample_db();
    let key = derive_key(&"irrelevant for plaintext".to_string());
    let text: String = encode_db(&db).into_iter().collect();
    let legacy = text.into_bytes();
    let back = from_bytes(&legacy, &key);
    assert_eq!(back.students.len(), 1);
    let alice = back.read_record(&"alice".to_string()).unwrap();
    assert_eq!(alice.grades, vec![45, 60]);
}

#[test]
fn canonical_text_round_trips_through_the_decoder() {
    let db = sample_db();
    let doc = encode_db(&db);
    let back = decode_db(&doc).expect("an encoded store must decode");
    assert_eq!(back.students.len(), 1);
    assert_eq!(back.teachers.len(), 1);
    assert_eq!(back.read_record(&"alice".to_string()).unwrap().grades, vec![45, 60]);
    // a corrupt document does not decode
    let mut bad = doc.clone();
    bad[0] = 'Z';
    assert!(decode_db(&bad).is_none());
    let mut short = doc.clone();
    short.pop();
    assert!(decode_db(&short).is_none());
}

#[test]
fn read_record_distinguishes_known_and_unknown() {
    let db = sample_db();
    assert!(db.read_record(&"alice".to_string()).is_some());
    assert!(db.read_record(&"nobody".to_string()).is_none());
    assert!(db.read_teacher(&"root".to_string()).is_some());
    assert!(db.read_teacher(&"alice".to_string()).is_none());
}

#[test]
fn empty_store_round_trips() {
    let db = DataBase::new();
    let key = derive_key(&"k".to_string());
    let image = to_bytes(&db, &key).unwrap();
    let back = from_bytes(&image, &key);
    assert_eq!(back.students.len(), 0);
    assert_eq!(back.teachers.len(), 0);
    let doc = encode_db(&db);
    assert_eq!(doc.len(), 16);
    assert!(decode_db(&doc).is_some());
}

#[test]
fn decoy_credential_is_a_real_credential_of_the_seed() {
    let ctx = AuthContext::new();
    assert!(verify_hash("Dodo_fait_dodo".to_string(), ctx.decoy.clone()));
    assert!(!verify_hash("something else".to_string(), ctx.decoy));
}
