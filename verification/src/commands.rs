//! The decisions of the command-line flows once their files are read: deriving a
//! password after checking the seed's fingerprint, rewrapping a seed, and testing
//! that a backup's seeds decrypt and derive.
use vstd::prelude::*;
use crate::accounts::{first_key, is_first_key};
use crate::crypto::{
    decrypt_outcome, decrypt_seed, encrypt_seed, fingerprint_text, seed_fingerprint_display,
    verify_outcome, verify_seed_fingerprint, CryptoError, CryptoFault, SeedEnvelopeV1,
};
use crate::derive::{derive_password, derived, DeriveError};
use crate::laws::is_recipe_of;
use crate::model::{seed_order, DerivationRecipeV1, RecipesFile, SeedLabel, SeedRecord};
use crate::text::{by_key, same_text};

verus! {

// ---------------------------------------------------------------------------
// Deriving a password

/// Why a password was not derived.
#[derive(Debug)]
pub enum PassError {
    Crypto(CryptoError),
    FingerprintMismatch,
    Derive(DeriveError),
}

/// What deriving a password after checking the seed gives: the envelope must
/// decrypt to a seed whose fingerprint is the recorded one; then the password is
/// derived for the recipe.
pub open spec fn pass_effect(
    envelope: SeedEnvelopeV1,
    password: Seq<u8>,
    expected: Seq<char>,
    recipe: DerivationRecipeV1,
    r: Result<String, PassError>,
) -> bool {
    match verify_outcome(envelope, password, expected) {
        Err(f) => r matches Err(PassError::Crypto(e)) && e@ == f,
        Ok(false) => r matches Err(PassError::FingerprintMismatch),
        Ok(true) => match decrypt_outcome(envelope, password) {
            Ok(seed) => match r {
                Ok(pw) => derived(seed, recipe, Ok(pw)),
                Err(PassError::Derive(e)) => derived(seed, recipe, Err(e)),
                _ => false,
            },
            Err(_) => false,
        },
    }
}

/// Checks the seed's fingerprint, decrypts it, and derives the recipe's password.
pub fn derive_checked(
    envelope: &SeedEnvelopeV1,
    master_password: &[u8],
    expected_fingerprint: &str,
    recipe: &DerivationRecipeV1,
) -> (r: Result<String, PassError>)
    ensures
        pass_effect(*envelope, master_password@, expected_fingerprint@, *recipe, r),
{
    let verified = match verify_seed_fingerprint(envelope, master_password, expected_fingerprint) {
        Ok(b) => b,
        Err(e) => return Err(PassError::Crypto(e)),
    };
    if !verified {
        return Err(PassError::FingerprintMismatch);
    }
    let seed = match decrypt_seed(envelope, master_password) {
        Ok(s) => s,
        Err(e) => return Err(PassError::Crypto(e)),
    };
    match derive_password(&seed, recipe) {
        Ok(pw) => Ok(pw),
        Err(e) => Err(PassError::Derive(e)),
    }
}

// ---------------------------------------------------------------------------
// Rewrapping a seed

/// Why a seed was not rewrapped.
#[derive(Debug)]
pub enum RewrapError {
    Crypto(CryptoError),
    /// The rewrapped seed's fingerprint differs from the seed's before rewrapping.
    FingerprintChanged,
}

/// Decrypts a seed with the old master password, encrypts it under the new one
/// with fresh parameters, checks that the new envelope decrypts to a seed with
/// the same fingerprint, and gives the new envelope and that fingerprint. The
/// fingerprint check never fails.
pub fn rewrap_seed(envelope: &SeedEnvelopeV1, old_master_password: &[u8], new_master_password: &[u8]) -> (r: Result<
    (SeedEnvelopeV1, String),
    RewrapError,
>)
    ensures
        !(r matches Err(RewrapError::FingerprintChanged)),
        match decrypt_outcome(*envelope, old_master_password@) {
            Err(f) => r matches Err(RewrapError::Crypto(e)) && e@ == f,
            Ok(seed) => {
                &&& r is Ok <==> new_master_password@.len() <= 0xFFFF_FFFF
                &&& r matches Err(RewrapError::Crypto(e)) ==> e@ == CryptoFault::InvalidArgon2Params
                &&& r matches Ok((env, fp)) ==> {
                    &&& fp@ == fingerprint_text(seed)
                    &&& decrypt_outcome(env, new_master_password@) == Ok::<Seq<u8>, CryptoFault>(seed)
                }
            },
        },
{
    let seed = match decrypt_seed(envelope, old_master_password) {
        Ok(s) => s,
        Err(e) => return Err(RewrapError::Crypto(e)),
    };
    let fingerprint = match seed_fingerprint_display(&seed) {
        Ok(f) => f,
        Err(e) => return Err(RewrapError::Crypto(e)),
    };
    let new_envelope = match encrypt_seed(&seed, new_master_password) {
        Ok(env) => env,
        Err(e) => return Err(RewrapError::Crypto(e)),
    };
    let after = match decrypt_seed(&new_envelope, new_master_password) {
        Ok(s) => s,
        Err(e) => return Err(RewrapError::Crypto(e)),
    };
    let after_fingerprint = match seed_fingerprint_display(&after) {
        Ok(f) => f,
        Err(e) => return Err(RewrapError::Crypto(e)),
    };
    if !same_text(fingerprint.as_str(), after_fingerprint.as_str()) {
        return Err(RewrapError::FingerprintChanged);
    }
    Ok((new_envelope, fingerprint))
}

// ---------------------------------------------------------------------------
// Testing a backup

/// Why a backup failed its test.
#[derive(Debug)]
pub enum BackupTestError {
    Crypto(CryptoError),
    /// The seed file at this path decrypts to a seed with another fingerprint.
    FingerprintMismatch(String),
    /// The test credential's seed label names no seed.
    SeedNotFound,
    Derive(DeriveError),
}

/// `i` is the first seed whose envelope does not decrypt to the recorded fingerprint.
pub open spec fn is_first_bad_seed(
    seeds: Seq<(SeedLabel, SeedRecord)>,
    envelopes: Seq<SeedEnvelopeV1>,
    password: Seq<u8>,
    i: int,
) -> bool {
    &&& 0 <= i < seeds.len()
    &&& verify_outcome(envelopes[i], password, seeds[i].1.fingerprint@) != Ok::<bool, CryptoFault>(true)
    &&& forall|j: int|
        0 <= j < i ==> verify_outcome(#[trigger] envelopes[j], password, seeds[j].1.fingerprint@)
            == Ok::<bool, CryptoFault>(true)
}

/// What testing a backup gives: every seed envelope (given in the order of the
/// seed labels) must decrypt to its recorded fingerprint, checked in that order;
/// then the first version of the first credential must derive.
pub open spec fn backup_test_effect(
    recipes: RecipesFile,
    envelopes: Seq<SeedEnvelopeV1>,
    password: Seq<u8>,
    r: Result<(), BackupTestError>,
) -> bool {
    let seeds = by_key(recipes.seeds@);
    if exists|i: int| is_first_bad_seed(seeds, envelopes, password, i) {
        let i = choose|i: int| is_first_bad_seed(seeds, envelopes, password, i);
        match verify_outcome(envelopes[i], password, seeds[i].1.fingerprint@) {
            Err(f) => r matches Err(BackupTestError::Crypto(e)) && e@ == f,
            Ok(_) => r matches Err(BackupTestError::FingerprintMismatch(p)) && p@ == seeds[i].1.path@,
        }
    } else if recipes.credentials@.len() == 0 || recipes.credentials@[0].versions@.len() == 0 {
        r is Ok
    } else {
        let record = recipes.credentials@[0];
        let version = record.versions@[0];
        match first_key(seeds, version.seed@) {
            None => r matches Err(BackupTestError::SeedNotFound),
            Some(k) => match decrypt_outcome(envelopes[k], password) {
                Err(f) => r matches Err(BackupTestError::Crypto(e)) && e@ == f,
                Ok(seed) => exists|recipe: DerivationRecipeV1|
                    #[trigger] is_recipe_of(recipe, record, version) && match r {
                        Ok(()) => exists|pw: String| #[trigger] derived(seed, recipe, Ok(pw)),
                        Err(BackupTestError::Derive(e)) => derived(seed, recipe, Err(e)),
                        _ => false,
                    },
            },
        }
    }
}

/// Tests a backup: each seed's envelope (in the order of the seed labels) must
/// decrypt to its recorded fingerprint, and the first version of the first
/// credential must derive a password.
pub fn backup_test(recipes: &RecipesFile, envelopes: &Vec<SeedEnvelopeV1>, master_password: &[u8]) -> (r: Result<(), BackupTestError>)
    requires
        envelopes@.len() == recipes.seeds@.len(),
    ensures
        backup_test_effect(*recipes, envelopes@, master_password@, r),
{
    let order = seed_order(&recipes.seeds);
    let ghost seeds = by_key(recipes.seeds@);
    let ghost pw = master_password@;
    for i in 0..order.len()
        invariant
            seeds == by_key(recipes.seeds@),
            order@.len() == seeds.len(),
            forall|t: int| 0 <= t < order@.len() ==> #[trigger] order@[t] < recipes.seeds@.len(),
            forall|t: int| 0 <= t < order@.len() ==> recipes.seeds@[#[trigger] order@[t] as int] == seeds[t],
            pw == master_password@,
            envelopes@.len() == seeds.len(),
            forall|j: int|
                0 <= j < i ==> verify_outcome(#[trigger] envelopes@[j], pw, seeds[j].1.fingerprint@)
                    == Ok::<bool, CryptoFault>(true),
    {
        assert(recipes.seeds@[order@[i as int] as int] == seeds[i as int]);
        let record = &recipes.seeds[order[i]].1;
        match verify_seed_fingerprint(&envelopes[i], master_password, record.fingerprint.as_str()) {
            Ok(true) => {},
            Ok(false) => {
                proof {
                    assert(is_first_bad_seed(seeds, envelopes@, pw, i as int));
                    let k = choose|k: int| is_first_bad_seed(seeds, envelopes@, pw, k);
                    assert(k == i) by {
                        if k < i {
                            assert(verify_outcome(envelopes@[k], pw, seeds[k].1.fingerprint@) == Ok::<bool, CryptoFault>(true));
                        } else if k > i {
                            assert(verify_outcome(envelopes@[i as int], pw, seeds[i as int].1.fingerprint@) == Ok::<bool, CryptoFault>(true));
                        }
                    }
                }
                return Err(BackupTestError::FingerprintMismatch(record.path.clone()));
            },
            Err(e) => {
                proof {
                    assert(is_first_bad_seed(seeds, envelopes@, pw, i as int));
                    let k = choose|k: int| is_first_bad_seed(seeds, envelopes@, pw, k);
                    assert(k == i) by {
                        if k < i {
                            assert(verify_outcome(envelopes@[k], pw, seeds[k].1.fingerprint@) == Ok::<bool, CryptoFault>(true));
                        } else if k > i {
                            assert(verify_outcome(envelopes@[i as int], pw, seeds[i as int].1.fingerprint@) == Ok::<bool, CryptoFault>(true));
                        }
                    }
                }
                return Err(BackupTestError::Crypto(e));
            },
        }
    }
    assert(!exists|i: int| is_first_bad_seed(seeds, envelopes@, pw, i));
    if recipes.credentials.len() == 0 || recipes.credentials[0].versions.len() == 0 {
        return Ok(());
    }
    let record = &recipes.credentials[0];
    let version = &record.versions[0];
    let mut found: Option<usize> = None;
    for t in 0..order.len()
        invariant
            seeds == by_key(recipes.seeds@),
            order@.len() == seeds.len(),
            forall|u: int| 0 <= u < order@.len() ==> #[trigger] order@[u] < recipes.seeds@.len(),
            forall|u: int| 0 <= u < order@.len() ==> recipes.seeds@[#[trigger] order@[u] as int] == seeds[u],
            found is None ==> forall|u: int| 0 <= u < t ==> (#[trigger] seeds[u]).0@ != version.seed@,
            found matches Some(k) ==> is_first_key(seeds, version.seed@, k as int),
    {
        if found.is_none() {
            assert(recipes.seeds@[order@[t as int] as int] == seeds[t as int]);
            if same_text(recipes.seeds[order[t]].0.as_str(), version.seed.as_str()) {
                found = Some(t);
            }
        }
    }
    let k = match found {
        Some(k) => k,
        None => {
            assert(!exists|k: int| is_first_key(seeds, version.seed@, k));
            return Err(BackupTestError::SeedNotFound);
        },
    };
    proof {
        assert forall|k2: int| is_first_key(seeds, version.seed@, k2) implies k2 == k by {}
    }
    let seed = match decrypt_seed(&envelopes[k], master_password) {
        Ok(s) => s,
        Err(e) => return Err(BackupTestError::Crypto(e)),
    };
    let recipe = DerivationRecipeV1::from_record_version(record, version);
    assert(is_recipe_of(recipe, *record, *version));
    match derive_password(&seed, &recipe) {
        Ok(pw_text) => {
            assert(derived(seed@, recipe, Ok(pw_text)));
            Ok(())
        },
        Err(e) => Err(BackupTestError::Derive(e)),
    }
}

} // verus!
