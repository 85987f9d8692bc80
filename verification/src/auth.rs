//! The authentication flow: a pure orchestration over the password hasher
//! and the record store. A call ends in one of two outcomes, `Authenticated`
//! or `Rejected`, and an unknown identity still pays for one verification
//! against a fixed decoy credential, so its wall-clock cost matches that of
//! a known identity with a wrong secret (no username-enumeration timing
//! leak). Rejections carry no reason: the caller cannot tell which half of
//! the pair was wrong.

use vstd::prelude::*;

use crate::db::{db_wf, has_student, has_teacher, student_record, teacher_record, DataBase};
use crate::hash::{argon2_verifies, hash_password, verify_hash};

verus! {

/// The role a caller asks to authenticate for; lookup is scoped to the
/// partition of that role.
#[derive(Clone, Copy, PartialEq, Eq, Structural, Debug)]
pub enum Role {
    Standard,
    Elevated,
}

/// The two terminal outcomes of an authentication call.
#[derive(Clone, Copy, PartialEq, Eq, Structural, Debug)]
pub enum AuthOutcome {
    Authenticated,
    Rejected,
}

/// Process-wide authentication context, built once at startup: a decoy
/// credential hashed from a fixed arbitrary secret, verified against
/// whenever an identity is unknown so that both rejection paths cost one
/// hash verification.
pub struct AuthContext {
    pub decoy: String,
}

impl AuthContext {
    /// Hash the fixed decoy secret once; the context is immutable afterwards.
    /// The decoy is a real credential of the fixed seed secret, so verifying
    /// against it costs one genuine hash verification, which is what
    /// equalizes the two rejection paths.
    pub fn new() -> (r: AuthContext)
        ensures
            argon2_verifies(r.decoy@, "Dodo_fait_dodo"@),
            r.decoy@.len() > 0,
    {
        proof {
            reveal_strlit("Dodo_fait_dodo");
        }
        let seed = "Dodo_fait_dodo".to_owned();
        AuthContext { decoy: hash_password(seed) }
    }
}

/// Decide whether this identity/secret pair is valid for the requested role:
/// `Authenticated` exactly when the role's partition holds the identity and
/// the stored credential verifies the secret. On the unknown-identity path a
/// verification against the decoy credential is still performed before
/// `Rejected` is returned.
pub fn authenticate(
    db: &DataBase,
    ctx: &AuthContext,
    identity: &String,
    secret: &String,
    role: Role,
) -> (r: AuthOutcome)
    requires
        db_wf(db@),
    ensures
        r == AuthOutcome::Authenticated <==> match role {
            Role::Standard => has_student(db@, identity@) && argon2_verifies(
                student_record(db@, identity@).password,
                secret@,
            ),
            Role::Elevated => has_teacher(db@, identity@) && argon2_verifies(
                teacher_record(db@, identity@).password,
                secret@,
            ),
        },
        r == AuthOutcome::Authenticated || r == AuthOutcome::Rejected,
{
    match role {
        Role::Standard => {
            match db.read_record(identity) {
                Some(record) => {
                    if verify_hash(secret.clone(), record.password.clone()) {
                        AuthOutcome::Authenticated
                    } else {
                        AuthOutcome::Rejected
                    }
                },
                None => {
                    let _ = verify_hash(secret.clone(), ctx.decoy.clone());
                    AuthOutcome::Rejected
                },
            }
        },
        Role::Elevated => {
            match db.read_teacher(identity) {
                Some(record) => {
                    if verify_hash(secret.clone(), record.password.clone()) {
                        AuthOutcome::Authenticated
                    } else {
                        AuthOutcome::Rejected
                    }
                },
                None => {
                    let _ = verify_hash(secret.clone(), ctx.decoy.clone());
                    AuthOutcome::Rejected
                },
            }
        },
    }
}

} // verus!
