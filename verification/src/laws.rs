//! Laws of derivation: what every generated password satisfies, and what a
//! derivation depends on.
use vstd::prelude::*;
use crate::codec::canonical_recipe_result;
use crate::derive::{credential_key_result, derived, lemma_valid_profile, profile_password};
use crate::text::is_ascii_graphic;
use crate::model::{
    hard, CredentialRecord, CredentialVersion, DerivationRecipeV1, DiagView, ProfileSnapshot, RecipesFile, SeedLabel, SeedRecord,
    Severity, RECIPE_FORMAT_V1, SCHEME_V1,
};
use crate::profile::diag_if;
use crate::validate::{
    has_seed, max_non_pending, msg_cv, record_diags_at, record_versions_diags, records_diags, records_salts, recipes_diags,
    public_salt_bytes, salt_views, timestamp_diags, version_diags_at, versions_diags,
};
use crate::model::VersionStatus;
use crate::text::decimal;
use crate::derive::{
    digit_class, draw, draw_class, last_index, lower_class, password_from_key, shuffle_from, swap,
    union_class, unshuffled, upper_class,
};

verus! {

/// Upper-case ASCII letters.
pub open spec fn is_upper(c: char) -> bool {
    'A' <= c && c <= 'Z'
}

/// Lower-case ASCII letters.
pub open spec fn is_lower(c: char) -> bool {
    'a' <= c && c <= 'z'
}

/// ASCII digits.
pub open spec fn is_digit(c: char) -> bool {
    '0' <= c && c <= '9'
}

/// How many characters of `s` satisfy `p`.
pub open spec fn count_where(s: Seq<char>, p: spec_fn(char) -> bool) -> nat {
    s.filter(p).len()
}

proof fn lemma_count_update(s: Seq<char>, i: int, x: char, p: spec_fn(char) -> bool)
    requires
        0 <= i < s.len(),
    ensures
        count_where(s.update(i, x), p) + (if p(s[i]) { 1int } else { 0int }) == count_where(s, p)
            + (if p(x) { 1int } else { 0int }),
    decreases s.len(),
{
    let t = s.update(i, x);
    assert(s =~= s.drop_last().push(s.last()));
    assert(t =~= t.drop_last().push(t.last()));
    s.drop_last().lemma_filter_push(s.last(), p);
    t.drop_last().lemma_filter_push(t.last(), p);
    if i < s.len() - 1 {
        lemma_count_update(s.drop_last(), i, x, p);
        assert(t.drop_last() =~= s.drop_last().update(i, x));
    } else {
        assert(t.drop_last() =~= s.drop_last());
    }
}

proof fn lemma_count_swap(s: Seq<char>, i: int, j: int, p: spec_fn(char) -> bool)
    requires
        0 <= i < s.len(),
        0 <= j < s.len(),
    ensures
        count_where(swap(s, i, j), p) == count_where(s, p),
        swap(s, i, j).len() == s.len(),
{
    let s1 = s.update(i, s[j]);
    lemma_count_update(s, i, s[j], p);
    lemma_count_update(s1, j, s[i], p);
    assert(s1[j] == s[j]);
}

proof fn lemma_shuffle_keeps(key: Seq<u8>, pos: nat, cs: Seq<char>, i: nat, p: spec_fn(char) -> bool)
    requires
        i < cs.len() || i == 0,
    ensures
        shuffle_from(key, pos, cs, i) matches Some((out, _)) ==> out.len() == cs.len()
            && count_where(out, p) == count_where(cs, p)
            && (forall|k: int| 0 <= k < out.len() ==> cs.contains(#[trigger] out[k])),
    decreases i,
{
    if i == 0 {
        assert forall|k: int| 0 <= k < cs.len() implies cs.contains(#[trigger] cs[k]) by {}
    } else {
        match draw(key, pos, i + 1) {
            Some((j, p2)) => {
                crate::derive::lemma_draw_bound(key, pos, i + 1);
                let s2 = swap(cs, i as int, j as int);
                lemma_count_swap(cs, i as int, j as int, p);
                lemma_shuffle_keeps(key, p2, s2, (i - 1) as nat, p);
                if let Some((out, _)) = shuffle_from(key, p2, s2, (i - 1) as nat) {
                    assert forall|k: int| 0 <= k < out.len() implies cs.contains(#[trigger] out[k]) by {
                        assert(s2.contains(out[k]));
                        let m = choose|m: int| 0 <= m < s2.len() && s2[m] == out[k];
                        if m == i {
                            assert(s2[m] == cs[j as int]);
                        } else if m == j {
                            assert(s2[m] == cs[i as int]);
                        } else {
                            assert(s2[m] == cs[m]);
                        }
                    }
                }
            },
            None => {},
        }
    }
}

proof fn lemma_draw_class_members(key: Seq<u8>, pos: nat, class: Seq<char>, count: nat)
    ensures
        draw_class(key, pos, class, count) matches Some((cs, _)) ==> cs.len() == count && (forall|k: int|
            0 <= k < cs.len() ==> class.contains(#[trigger] cs[k])),
    decreases count,
{
    if count > 0 {
        lemma_draw_class_members(key, pos, class, (count - 1) as nat);
        if let Some((cs, p1)) = draw_class(key, pos, class, (count - 1) as nat) {
            if let Some((v, p2)) = draw(key, p1, class.len()) {
                crate::derive::lemma_draw_bound(key, p1, class.len());
                let out = cs.push(class[v as int]);
                assert forall|k: int| 0 <= k < out.len() implies class.contains(#[trigger] out[k]) by {
                    if k < cs.len() {
                        assert(out[k] == cs[k]);
                    } else {
                        assert(out[k] == class[v as int]);
                    }
                }
            }
        }
    }
}

proof fn lemma_count_all(s: Seq<char>, p: spec_fn(char) -> bool)
    requires
        forall|k: int| 0 <= k < s.len() ==> p(#[trigger] s[k]),
    ensures
        count_where(s, p) == s.len(),
    decreases s.len(),
{
    if s.len() > 0 {
        lemma_count_all(s.drop_last(), p);
        assert(s =~= s.drop_last().push(s.last()));
        s.drop_last().lemma_filter_push(s.last(), p);
    }
}

proof fn lemma_count_concat(a: Seq<char>, b: Seq<char>, p: spec_fn(char) -> bool)
    ensures
        count_where(a + b, p) == count_where(a, p) + count_where(b, p),
{
    Seq::filter_distributes_over_add(a, b, p);
}

/// Every password generated for a profile has the profile's length, holds at least
/// the required number of upper-case letters, lower-case letters, digits and
/// profile symbols, and draws every character from the allowed union.
pub proof fn law_password_shape(
    key: Seq<u8>,
    length: nat,
    mu: nat,
    ml: nat,
    md: nat,
    ms: nat,
    symbols: Seq<char>,
)
    requires
        mu + ml + md + ms <= length,
    ensures
        password_from_key(key, length, mu, ml, md, ms, symbols) matches Some(pw) ==> {
            &&& pw.len() == length
            &&& count_where(pw, |c: char| is_upper(c)) >= mu
            &&& count_where(pw, |c: char| is_lower(c)) >= ml
            &&& count_where(pw, |c: char| is_digit(c)) >= md
            &&& count_where(pw, |c: char| symbols.contains(c)) >= ms
            &&& forall|k: int| 0 <= k < pw.len() ==> union_class(symbols).contains(#[trigger] pw[k])
        },
{
    if let Some((all, p5)) = unshuffled(key, length, mu, ml, md, ms, symbols) {
        let (a, p1) = draw_class(key, 0, upper_class(), mu)->0;
        let (b, p2) = draw_class(key, p1, lower_class(), ml)->0;
        let (c, p3) = draw_class(key, p2, digit_class(), md)->0;
        let (d, p4) = draw_class(key, p3, symbols, ms)->0;
        let rest = (length - (mu + ml + md + ms)) as nat;
        let (e, p6) = draw_class(key, p4, union_class(symbols), rest)->0;
        lemma_draw_class_members(key, 0, upper_class(), mu);
        lemma_draw_class_members(key, p1, lower_class(), ml);
        lemma_draw_class_members(key, p2, digit_class(), md);
        lemma_draw_class_members(key, p3, symbols, ms);
        lemma_draw_class_members(key, p4, union_class(symbols), rest);
        assert(all == a + b + c + d + e);
        let up = |ch: char| is_upper(ch);
        let lo = |ch: char| is_lower(ch);
        let di = |ch: char| is_digit(ch);
        let sy = |ch: char| symbols.contains(ch);
        assert forall|k: int| 0 <= k < a.len() implies up(#[trigger] a[k]) by {
            let m = choose|m: int| 0 <= m < upper_class().len() && upper_class()[m] == a[k];
        }
        assert forall|k: int| 0 <= k < b.len() implies lo(#[trigger] b[k]) by {
            let m = choose|m: int| 0 <= m < lower_class().len() && lower_class()[m] == b[k];
        }
        assert forall|k: int| 0 <= k < c.len() implies di(#[trigger] c[k]) by {
            let m = choose|m: int| 0 <= m < digit_class().len() && digit_class()[m] == c[k];
        }
        assert forall|k: int| 0 <= k < d.len() implies sy(#[trigger] d[k]) by {}
        lemma_count_all(a, up);
        lemma_count_all(b, lo);
        lemma_count_all(c, di);
        lemma_count_all(d, sy);
        // Counts over the concatenation are at least the counts over each part.
        lemma_count_concat(a, b + c + d + e, up);
        assert(a + (b + c + d + e) =~= all);
        lemma_count_concat(a, b, lo);
        lemma_count_concat(a + b, c + d + e, lo);
        assert(a + b + (c + d + e) =~= all);
        lemma_count_concat(b, Seq::<char>::empty(), lo);
        lemma_count_concat(a + b, c, di);
        lemma_count_concat(a + b + c, d + e, di);
        assert(a + b + c + (d + e) =~= all);
        lemma_count_concat(a + b + c, d, sy);
        lemma_count_concat(a + b + c + d, e, sy);
        lemma_count_concat(a, b, di);
        lemma_count_concat(a, b, sy);
        lemma_count_concat(a + b, c, sy);
        lemma_shuffle_keeps(key, p5, all, last_index(all.len()), up);
        lemma_shuffle_keeps(key, p5, all, last_index(all.len()), lo);
        lemma_shuffle_keeps(key, p5, all, last_index(all.len()), di);
        lemma_shuffle_keeps(key, p5, all, last_index(all.len()), sy);
        // Every unshuffled character lies in the union.
        let u = union_class(symbols);
        assert forall|k: int| 0 <= k < all.len() implies u.contains(#[trigger] all[k]) by {
            let x = all[k];
            if k < a.len() {
                let m = choose|m: int| 0 <= m < upper_class().len() && upper_class()[m] == x;
                assert(u[26 + m] == x);
            } else if k < a.len() + b.len() {
                assert(x == b[k - a.len()]);
                let m = choose|m: int| 0 <= m < lower_class().len() && lower_class()[m] == x;
                assert(u[m] == x);
            } else if k < a.len() + b.len() + c.len() {
                assert(x == c[k - a.len() - b.len()]);
                let m = choose|m: int| 0 <= m < digit_class().len() && digit_class()[m] == x;
                assert(u[52 + m] == x);
            } else if k < a.len() + b.len() + c.len() + d.len() {
                assert(x == d[k - a.len() - b.len() - c.len()]);
                let m = choose|m: int| 0 <= m < symbols.len() && symbols[m] == x;
                assert(u[62 + m] == x);
            } else {
                assert(x == e[k - a.len() - b.len() - c.len() - d.len()]);
            }
        }
        if let Some((pw, _)) = shuffle_from(key, p5, all, last_index(all.len())) {
            assert forall|k: int| 0 <= k < pw.len() implies u.contains(#[trigger] pw[k]) by {
                assert(all.contains(pw[k]));
                let m = choose|m: int| 0 <= m < all.len() && all[m] == pw[k];
                assert(u.contains(all[m]));
            }
        }
    }
}

// ---------------------------------------------------------------------------
// What derivation depends on

/// Two profile snapshots with the same rules.
pub open spec fn same_profile(p: ProfileSnapshot, q: ProfileSnapshot) -> bool {
    match (p, q) {
        (
            ProfileSnapshot::Password {
                length: l1,
                min_uppercase: u1,
                min_lowercase: w1,
                min_digits: d1,
                min_symbols: s1,
                symbols: y1,
            },
            ProfileSnapshot::Password {
                length: l2,
                min_uppercase: u2,
                min_lowercase: w2,
                min_digits: d2,
                min_symbols: s2,
                symbols: y2,
            },
        ) => l1 == l2 && u1 == u2 && w1 == w2 && d1 == d2 && s1 == s2 && y1@ == y2@,
    }
}

/// Two recipes that agree, as values, on every derivation field.
pub open spec fn same_derivation_fields(a: DerivationRecipeV1, b: DerivationRecipeV1) -> bool {
    &&& a.format@ == b.format@
    &&& a.scheme@ == b.scheme@
    &&& a.credential_uid@ == b.credential_uid@
    &&& a.purpose == b.purpose
    &&& a.version == b.version
    &&& a.public_salt@ == b.public_salt@
    &&& same_profile(a.profile_snapshot, b.profile_snapshot)
}

/// Derivation sees only the derivation fields: recipes that agree on them have
/// the same canonical bytes, the same profile findings, the same credential key
/// under any seed, and the same password under any key.
pub proof fn law_derivation_sees_only_recipe_fields(seed: Seq<u8>, a: DerivationRecipeV1, b: DerivationRecipeV1)
    requires
        same_derivation_fields(a, b),
    ensures
        canonical_recipe_result(a) == canonical_recipe_result(b),
        credential_key_result(seed, a) == credential_key_result(seed, b),
        a.profile_snapshot.profile_diags() == b.profile_snapshot.profile_diags(),
        forall|key: Seq<u8>| #[trigger] profile_password(key, a.profile_snapshot) == profile_password(key, b.profile_snapshot),
{
    assert(crate::codec::canonical_recipe_text(a) == crate::codec::canonical_recipe_text(b));
}

/// Canonical recipe bytes are ASCII, and they tell recipes apart: two recipes that
/// both canonicalize give the same bytes exactly when they agree on every
/// derivation field.
pub proof fn law_canonical_bytes_are_ascii_and_distinct(a: DerivationRecipeV1, b: DerivationRecipeV1)
    ensures
        canonical_recipe_result(a) matches Ok(x) ==> forall|i: int| 0 <= i < x.len() ==> #[trigger] x[i] < 128,
        match (canonical_recipe_result(a), canonical_recipe_result(b)) {
            (Ok(x), Ok(y)) => (x == y <==> same_derivation_fields(a, b)),
            _ => true,
        },
{
    broadcast use vstd::utf8::is_ascii_chars_encode_utf8;
    let ta = crate::codec::canonical_recipe_text(a);
    let tb = crate::codec::canonical_recipe_text(b);
    if canonical_recipe_result(a) is Ok {
        crate::codec::lemma_canonical_text_ascii(a);
        let x = vstd::utf8::encode_utf8(ta);
        assert forall|i: int| 0 <= i < x.len() implies #[trigger] x[i] < 128 by {
            assert(ta[i] as u8 == x[i]);
            assert('\0' <= ta[i] <= '\u{7f}');
        }
        if canonical_recipe_result(b) is Ok {
            crate::codec::lemma_canonical_text_ascii(b);
            let y = vstd::utf8::encode_utf8(tb);
            if x == y {
                assert forall|i: int| 0 <= i < ta.len() implies ta[i] == tb[i] by {
                    assert(ta[i] as u8 == x[i]);
                    assert(tb[i] as u8 == y[i]);
                    assert('\0' <= ta[i] <= '\u{7f}');
                    assert('\0' <= tb[i] <= '\u{7f}');
                }
                assert(ta =~= tb);
                crate::codec::lemma_canonical_text_injective(a, b);
            }
            if same_derivation_fields(a, b) {
                law_derivation_sees_only_recipe_fields(Seq::empty(), a, b);
            }
        }
    }
}

/// `r` is the recipe that `DerivationRecipeV1::from_record_version` builds for a
/// record and one of its versions.
pub open spec fn is_recipe_of(r: DerivationRecipeV1, record: CredentialRecord, version: CredentialVersion) -> bool {
    &&& r.format@ == RECIPE_FORMAT_V1@
    &&& r.scheme == version.scheme
    &&& r.credential_uid == record.uid
    &&& r.purpose == record.purpose
    &&& r.version == version.number
    &&& r.public_salt == version.public_salt
    &&& r.profile_snapshot == version.profile_snapshot
}

/// Metadata never reaches a derivation: versions of records that differ only in
/// alias, seed label, status, or timestamps give recipes with the same derivation
/// fields, hence the same canonical bytes and passwords.
pub proof fn law_recipe_ignores_metadata(
    r1: CredentialRecord,
    v1: CredentialVersion,
    a: DerivationRecipeV1,
    r2: CredentialRecord,
    v2: CredentialVersion,
    b: DerivationRecipeV1,
)
    requires
        is_recipe_of(a, r1, v1),
        is_recipe_of(b, r2, v2),
        r1.uid@ == r2.uid@,
        r1.purpose == r2.purpose,
        v1.number == v2.number,
        v1.scheme@ == v2.scheme@,
        v1.public_salt@ == v2.public_salt@,
        same_profile(v1.profile_snapshot, v2.profile_snapshot),
    ensures
        same_derivation_fields(a, b),
{
}

/// Every password that derivation returns fits its profile: it has the profile's
/// length, at least the required number of upper-case letters, lower-case letters,
/// digits and profile symbols, and consists of printable ASCII characters drawn
/// from the allowed union.
pub proof fn law_derived_password_fits_profile(seed: Seq<u8>, recipe: DerivationRecipeV1, pw: String)
    requires
        derived(seed, recipe, Ok(pw)),
    ensures
        match recipe.profile_snapshot {
            ProfileSnapshot::Password {
                length,
                min_uppercase,
                min_lowercase,
                min_digits,
                min_symbols,
                symbols,
            } => {
                &&& pw@.len() == length
                &&& count_where(pw@, |c: char| is_upper(c)) >= min_uppercase
                &&& count_where(pw@, |c: char| is_lower(c)) >= min_lowercase
                &&& count_where(pw@, |c: char| is_digit(c)) >= min_digits
                &&& count_where(pw@, |c: char| symbols@.contains(c)) >= min_symbols
                &&& forall|k: int| 0 <= k < pw@.len() ==> union_class(symbols@).contains(#[trigger] pw@[k])
                &&& forall|k: int| 0 <= k < pw@.len() ==> is_ascii_graphic(#[trigger] pw@[k])
            },
        },
{
    match recipe.profile_snapshot {
        ProfileSnapshot::Password {
            length,
            min_uppercase,
            min_lowercase,
            min_digits,
            min_symbols,
            symbols,
        } => {
            lemma_valid_profile(length, min_uppercase, min_lowercase, min_digits, min_symbols, symbols@);
            let k = credential_key_result(seed, recipe)->Ok_0;
            law_password_shape(
                k,
                length as nat,
                min_uppercase as nat,
                min_lowercase as nat,
                min_digits as nat,
                min_symbols as nat,
                symbols@,
            );
            let u = union_class(symbols@);
            assert forall|k: int| 0 <= k < pw@.len() implies is_ascii_graphic(#[trigger] pw@[k]) by {
                assert(u.contains(pw@[k]));
                let m = choose|m: int| 0 <= m < u.len() && u[m] == pw@[k];
                if m >= 62 {
                    assert(u[m] == symbols@[m - 62]);
                }
            }
        },
    }
}

/// Derivation is deterministic: a seed and a recipe have at most one password, so
/// every run that succeeds returns the same one.
pub proof fn law_derivation_is_deterministic(seed: Seq<u8>, recipe: DerivationRecipeV1, a: String, b: String)
    requires
        derived(seed, recipe, Ok(a)),
        derived(seed, recipe, Ok(b)),
    ensures
        a@ == b@,
{
}


// ---------------------------------------------------------------------------
// Validation: public salts are unique across the whole file

proof fn lemma_contains_left<T>(a: Seq<T>, b: Seq<T>, x: T)
    requires
        a.contains(x),
    ensures
        (a + b).contains(x),
{
    let k = choose|k: int| 0 <= k < a.len() && a[k] == x;
    assert((a + b)[k] == x);
}

proof fn lemma_contains_right<T>(a: Seq<T>, b: Seq<T>, x: T)
    requires
        b.contains(x),
    ensures
        (a + b).contains(x),
{
    let k = choose|k: int| 0 <= k < b.len() && b[k] == x;
    assert((a + b)[a.len() + k] == x);
}

proof fn lemma_records_diags_contains(
    rs: Seq<CredentialRecord>,
    seeds: Seq<(SeedLabel, SeedRecord)>,
    i: int,
    d: DiagView,
)
    requires
        0 <= i < rs.len(),
        record_diags_at(rs.take(i), rs[i], seeds).contains(d),
    ensures
        records_diags(rs, seeds).contains(d),
    decreases rs.len(),
{
    let p = rs.drop_last();
    if i == rs.len() - 1 {
        assert(rs.take(i) =~= p);
        lemma_contains_right(records_diags(p, seeds), record_diags_at(p, rs.last(), seeds), d);
    } else {
        assert(p.take(i) =~= rs.take(i));
        assert(p[i] == rs[i]);
        lemma_records_diags_contains(p, seeds, i, d);
        lemma_contains_left(records_diags(p, seeds), record_diags_at(p, rs.last(), seeds), d);
    }
}

proof fn lemma_versions_diags_contains(
    uid: Seq<char>,
    seeds: Seq<(SeedLabel, SeedRecord)>,
    seen: Seq<Seq<char>>,
    max_np: nat,
    vs: Seq<CredentialVersion>,
    j: int,
    d: DiagView,
)
    requires
        0 <= j < vs.len(),
        version_diags_at(uid, seeds, seen + salt_views(vs.take(j)), max_np, vs[j]).contains(d),
    ensures
        versions_diags(uid, seeds, seen, max_np, vs).contains(d),
    decreases vs.len(),
{
    let p = vs.drop_last();
    let tail = version_diags_at(uid, seeds, seen + salt_views(p), max_np, vs.last());
    if j == vs.len() - 1 {
        assert(vs.take(j) =~= p);
        lemma_contains_right(versions_diags(uid, seeds, seen, max_np, p), tail, d);
    } else {
        assert(p.take(j) =~= vs.take(j));
        assert(p[j] == vs[j]);
        lemma_versions_diags_contains(uid, seeds, seen, max_np, p, j, d);
        lemma_contains_left(versions_diags(uid, seeds, seen, max_np, p), tail, d);
    }
}

proof fn lemma_records_salts_contains(rs: Seq<CredentialRecord>, i: int, j: int)
    requires
        0 <= i < rs.len(),
        0 <= j < rs[i].versions@.len(),
    ensures
        records_salts(rs).contains(rs[i].versions@[j].public_salt@),
    decreases rs.len(),
{
    let p = rs.drop_last();
    let x = rs[i].versions@[j].public_salt@;
    if i == rs.len() - 1 {
        assert(salt_views(rs.last().versions@)[j] == x);
        lemma_contains_right(records_salts(p), salt_views(rs.last().versions@), x);
    } else {
        assert(p[i] == rs[i]);
        lemma_records_salts_contains(p, i, j);
        lemma_contains_left(records_salts(p), salt_views(rs.last().versions@), x);
    }
}

proof fn lemma_version_reports_duplicate_salt(
    uid: Seq<char>,
    seeds: Seq<(SeedLabel, SeedRecord)>,
    seen: Seq<Seq<char>>,
    max_np: nat,
    v: CredentialVersion,
)
    requires
        seen.contains(v.public_salt@),
    ensures
        version_diags_at(uid, seeds, seen, max_np, v).contains(
            (Severity::HardError, "duplicate public salt globally in recipes.yaml: "@ + v.public_salt@),
        ),
{
    let d = (Severity::HardError, "duplicate public salt globally in recipes.yaml: "@ + v.public_salt@);
    let a = diag_if(!has_seed(seeds, v.seed@), hard(msg_cv(uid, v.number) + " references unknown seed: "@ + v.seed@))
        + diag_if(v.scheme@ != SCHEME_V1@, hard(msg_cv(uid, v.number) + " uses unsupported scheme: "@ + v.scheme@));
    let dup = diag_if(seen.contains(v.public_salt@), hard("duplicate public salt globally in recipes.yaml: "@ + v.public_salt@));
    assert(dup[0] == d);
    lemma_contains_right(a, dup, d);
    let b = diag_if(public_salt_bytes(v.public_salt@) is None, hard(msg_cv(uid, v.number) + " has invalid public salt"@));
    lemma_contains_left(a + dup, b, d);
    let c = diag_if(
        v.status == VersionStatus::Pending && v.number <= max_np,
        hard(
            "credential "@ + uid + " pending version "@ + decimal(v.number as nat)
                + " is not greater than previous versions"@,
        ),
    );
    lemma_contains_left(a + dup + b, c, d);
    lemma_contains_left(a + dup + b + c, v.profile_snapshot.profile_diags(), d);
    lemma_contains_left(a + dup + b + c + v.profile_snapshot.profile_diags(), timestamp_diags(uid, v), d);
}

proof fn lemma_record_reports_version(
    prev: Seq<CredentialRecord>,
    r: CredentialRecord,
    seeds: Seq<(SeedLabel, SeedRecord)>,
    d: DiagView,
)
    requires
        versions_diags(r.uid@, seeds, records_salts(prev), max_non_pending(r.versions@), r.versions@).contains(d),
    ensures
        record_diags_at(prev, r, seeds).contains(d),
{
    let vd = versions_diags(r.uid@, seeds, records_salts(prev), max_non_pending(r.versions@), r.versions@);
    let rv = record_versions_diags(r, seeds, records_salts(prev));
    let head = rv.take(rv.len() - vd.len());
    assert(rv =~= head + vd);
    lemma_contains_right(head, vd, d);
    let rd = record_diags_at(prev, r, seeds);
    let top = rd.take(rd.len() - rv.len());
    assert(rd =~= top + rv);
    lemma_contains_right(top, rv, d);
}

/// Public salts are unique across the whole of `recipes.yaml`: when two versions,
/// in one credential or in two, share a public salt, validation reports the hard
/// error `duplicate public salt globally in recipes.yaml: <salt>`.
pub proof fn law_duplicate_public_salts_are_refused(f: RecipesFile, i1: int, j1: int, i2: int, j2: int)
    requires
        0 <= i1 < f.credentials@.len(),
        0 <= i2 < f.credentials@.len(),
        0 <= j1 < f.credentials@[i1].versions@.len(),
        0 <= j2 < f.credentials@[i2].versions@.len(),
        i1 != i2 || j1 != j2,
        f.credentials@[i1].versions@[j1].public_salt@ == f.credentials@[i2].versions@[j2].public_salt@,
    ensures
        recipes_diags(f).contains(
            (
                Severity::HardError,
                "duplicate public salt globally in recipes.yaml: "@ + f.credentials@[i2].versions@[j2].public_salt@,
            ),
        ),
{
    let rs = f.credentials@;
    let early = i1 < i2 || (i1 == i2 && j1 < j2);
    let a = if early { i1 } else { i2 };
    let b = if early { i2 } else { i1 };
    let ja = if early { j1 } else { j2 };
    let jb = if early { j2 } else { j1 };
    let salt = rs[b].versions@[jb].public_salt@;
    let d = (Severity::HardError, "duplicate public salt globally in recipes.yaml: "@ + salt);
    let r = rs[b];
    let vs = r.versions@;
    let prev = rs.take(b);
    let seen = records_salts(prev) + salt_views(vs.take(jb));
    if a < b {
        assert(prev[a] == rs[a]);
        lemma_records_salts_contains(prev, a, ja);
        lemma_contains_left(records_salts(prev), salt_views(vs.take(jb)), salt);
    } else {
        assert(salt_views(vs.take(jb))[ja] == salt);
        lemma_contains_right(records_salts(prev), salt_views(vs.take(jb)), salt);
    }
    lemma_version_reports_duplicate_salt(r.uid@, f.seeds@, seen, max_non_pending(vs), vs[jb]);
    lemma_versions_diags_contains(r.uid@, f.seeds@, records_salts(prev), max_non_pending(vs), vs, jb, d);
    lemma_record_reports_version(prev, r, f.seeds@, d);
    lemma_records_diags_contains(rs, f.seeds@, b, d);
    let fd = recipes_diags(f);
    let rsd = records_diags(rs, f.seeds@);
    let top = fd.take(fd.len() - rsd.len());
    assert(fd =~= top + rsd);
    lemma_contains_right(top, rsd, d);
}

} // verus!
