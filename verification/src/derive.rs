//! Deterministic credential derivation: a root seed plus a canonical recipe give a
//! credential key, a byte stream, and a password.
use vstd::prelude::*;
use vstd::utf8::encode_utf8;
use crate::codec::{canonical_recipe_result, canonical_recipe_v1, CodecError};
use crate::model::{diags_view, hard, is_hard, DerivationRecipeV1, DiagView, ProfileSnapshot};
use crate::profile::{
    diag_if, msg_bad_length, msg_minimums_exceed, msg_symbols_required, password_profile_diags,
    symbol_diags, symbol_diags_at,
};
use crate::text::{is_ascii_alphanumeric, is_ascii_graphic};
use crate::validate::hard_only;
use crate::crypto::{RootSeed, CREDENTIAL_KEY_INFO_V1, STREAM_DOMAIN_V1};
use crate::primitives::{hkdf_sha256, hkdf_sha256_spec, hmac_sha256, hmac_sha256_spec, sha256, sha256_spec};

verus! {

/// Errors of derivation.
#[derive(Debug)]
pub enum DeriveError {
    Canonicalization(CodecError),
    HkdfFailed,
    HmacFailed,
    InvalidProfile(String),
    /// The byte stream has no block left: every one of its 2^64 - 1 blocks was read.
    StreamExhausted,
}

/// The text of a derivation error.
pub open spec fn derive_message(e: DeriveError) -> Seq<char> {
    match e {
        DeriveError::Canonicalization(c) => "canonicalization failed: "@ + crate::codec::codec_message(c),
        DeriveError::HkdfFailed => "HKDF expansion failed"@,
        DeriveError::HmacFailed => "HMAC initialization failed"@,
        DeriveError::InvalidProfile(m) => "invalid password profile: "@ + m@,
        DeriveError::StreamExhausted => "derivation byte stream exhausted"@,
    }
}

impl DeriveError {
    /// The error's text.
    pub fn message(&self) -> (r: String)
        ensures
            r@ == derive_message(*self),
    {
        match self {
            DeriveError::Canonicalization(c) => {
                let m = c.message();
                crate::text::concat2("canonicalization failed: ", m.as_str())
            },
            DeriveError::HkdfFailed => "HKDF expansion failed".to_owned(),
            DeriveError::HmacFailed => "HMAC initialization failed".to_owned(),
            DeriveError::InvalidProfile(m) => crate::text::concat2("invalid password profile: ", m.as_str()),
            DeriveError::StreamExhausted => "derivation byte stream exhausted".to_owned(),
        }
    }
}

// ---------------------------------------------------------------------------
// Recipe hash and credential key

/// SHA-256 of the canonical recipe bytes, or the canonicalization error.
pub open spec fn recipe_hash_result(r: crate::model::DerivationRecipeV1) -> Result<Seq<u8>, CodecError> {
    match canonical_recipe_result(r) {
        Ok(bytes) => Ok(sha256_spec(bytes)),
        Err(e) => Err(e),
    }
}

pub fn recipe_hash(recipe: &crate::model::DerivationRecipeV1) -> (r: Result<[u8; 32], DeriveError>)
    ensures
        match (r, recipe_hash_result(*recipe)) {
            (Ok(h), Ok(s)) => h@ == s,
            (Err(DeriveError::Canonicalization(e)), Err(f)) => e == f,
            _ => false,
        },
{
    match canonical_recipe_v1(recipe) {
        Ok(canonical) => Ok(sha256(canonical.as_slice())),
        Err(e) => Err(DeriveError::Canonicalization(e)),
    }
}

/// The credential key: HKDF-SHA-256 of the root seed, salted with the recipe hash.
pub open spec fn credential_key_spec(seed: Seq<u8>, hash: Seq<u8>) -> Seq<u8> {
    hkdf_sha256_spec(hash, seed, encode_utf8(CREDENTIAL_KEY_INFO_V1@), 32)
}

/// The credential key of a recipe under a seed, or the canonicalization error.
pub open spec fn credential_key_result(seed: Seq<u8>, r: crate::model::DerivationRecipeV1) -> Result<
    Seq<u8>,
    CodecError,
> {
    match recipe_hash_result(r) {
        Ok(h) => Ok(credential_key_spec(seed, h)),
        Err(e) => Err(e),
    }
}

pub fn derive_credential_key(root_seed: &RootSeed, recipe: &crate::model::DerivationRecipeV1) -> (r:
    Result<[u8; 32], DeriveError>)
    ensures
        match (r, credential_key_result(root_seed@, *recipe)) {
            (Ok(k), Ok(s)) => k@ == s,
            (Err(DeriveError::Canonicalization(e)), Err(f)) => e == f,
            _ => false,
        },
{
    let hash = recipe_hash(recipe)?;
    let mut key = [0u8; 32];
    hkdf_sha256(hash.as_slice(), root_seed.as_bytes().as_slice(), CREDENTIAL_KEY_INFO_V1.as_bytes(), &mut key);
    Ok(key)
}

// ---------------------------------------------------------------------------
// Byte stream

/// `n` as `len` big-endian bytes (modulo 256^len).
pub open spec fn be_bytes(n: nat, len: nat) -> Seq<u8>
    decreases len,
{
    if len == 0 {
        seq![]
    } else {
        be_bytes(n / 256, (len - 1) as nat).push((n % 256) as u8)
    }
}

fn push_be_bytes(out: &mut Vec<u8>, n: u64, len: u8)
    ensures
        final(out)@ == old(out)@ + be_bytes(n as nat, len as nat),
    decreases len,
{
    if len > 0 {
        push_be_bytes(out, n / 256, len - 1);
        let ghost mid = out@;
        out.push((n % 256) as u8);
        assert(out@ =~= old(out)@ + be_bytes(n as nat, len as nat));
    }
}

/// The message of stream block `i`: the stream domain, then `i` as 8 big-endian bytes.
pub open spec fn stream_message(i: nat) -> Seq<u8> {
    encode_utf8(STREAM_DOMAIN_V1@) + be_bytes(i, 8)
}

/// Stream block `i`: HMAC-SHA-256 of its message under the credential key.
pub open spec fn stream_block(key: Seq<u8>, i: nat) -> Seq<u8> {
    hmac_sha256_spec(key, stream_message(i))
}

/// Byte `p` of the stream: blocks concatenated in increasing order.
pub open spec fn stream_byte(key: Seq<u8>, p: nat) -> u8 {
    stream_block(key, p / 32)[(p % 32) as int]
}

/// Where the stream ends: its last block index is `u64::MAX - 1`.
pub open spec fn stream_end() -> nat {
    32 * (u64::MAX as nat)
}

/// Rejection sampling: the first byte from position `p` on that is below the
/// largest multiple of `n` not above 256, reduced modulo `n`, and the position after
/// it; none when the stream ends first.
pub open spec fn draw(key: Seq<u8>, p: nat, n: nat) -> Option<(nat, nat)>
    decreases stream_end() - p,
{
    if n == 0 || p >= stream_end() {
        None
    } else {
        let b = stream_byte(key, p) as nat;
        if b < (256nat / n) * n {
            Some((b % n, p + 1))
        } else {
            draw(key, p + 1, n)
        }
    }
}

/// The keyed byte stream of a credential: the stream blocks one after another.
/// `block` holds the current block, of which the bytes from `offset` on are still
/// unread; the blocks after it are stream blocks `block_index`, `block_index + 1`, ...
pub struct ByteStream {
    pub key: [u8; 32],
    pub block_index: u64,
    pub block: [u8; 32],
    pub offset: usize,
}

proof fn lemma_pos_div_mod(b: nat, off: nat)
    requires
        off < 32,
    ensures
        (b * 32 + off) / 32 == b,
        (b * 32 + off) % 32 == off,
{
    assert((b * 32 + off) / 32 == b && (b * 32 + off) % 32 == off) by (nonlinear_arith)
        requires
            off < 32,
    ;
}

impl ByteStream {
    /// How many bytes of the current block are still unread.
    pub open spec fn left(&self) -> nat {
        if self.offset < 32 {
            (32 - self.offset) as nat
        } else {
            0
        }
    }

    /// How many bytes the stream can still yield: the rest of the current block,
    /// then the blocks up to the last index `u64::MAX - 1`.
    pub open spec fn available(&self) -> nat {
        self.left() + 32 * ((u64::MAX - self.block_index) as nat)
    }

    /// Byte `i` of what the stream yields from now on.
    pub open spec fn upcoming(&self, i: nat) -> u8 {
        if i < self.left() {
            self.block@[self.offset + i]
        } else {
            stream_byte(self.key@, (self.block_index * 32 + (i - self.left())) as nat)
        }
    }

    /// How many stream bytes have been read, for a stream started at block 0.
    pub open spec fn pos(&self) -> nat {
        ((self.block_index - 1) * 32 + self.offset) as nat
    }

    /// The stream was started at block 0 and has read `pos()` bytes of it.
    pub open spec fn wf(&self) -> bool {
        &&& self.block_index >= 1
        &&& self.offset <= 32
        &&& self.block@ == stream_block(self.key@, (self.block_index - 1) as nat)
    }

    proof fn lemma_wf_upcoming(&self)
        requires
            self.wf(),
        ensures
            self.available() == stream_end() - self.pos(),
            self.pos() <= stream_end(),
            forall|i: nat| #[trigger] self.upcoming(i) == stream_byte(self.key@, self.pos() + i),
    {
        assert forall|i: nat| #[trigger] self.upcoming(i) == stream_byte(self.key@, self.pos() + i) by {
            if i < self.left() {
                lemma_pos_div_mod((self.block_index - 1) as nat, (self.offset + i) as nat);
            }
        }
    }

    fn refill(&mut self)
        requires
            old(self).block_index < u64::MAX,
        ensures
            final(self).key == old(self).key,
            final(self).block_index == old(self).block_index + 1,
            final(self).offset == 0,
            final(self).block@ == stream_block(old(self).key@, old(self).block_index as nat),
    {
        let mut msg: Vec<u8> = Vec::new();
        let domain = STREAM_DOMAIN_V1.as_bytes();
        for i in 0..domain.len()
            invariant
                msg@ == domain@.take(i as int),
        {
            msg.push(domain[i]);
            assert(msg@ =~= domain@.take(i + 1));
        }
        assert(domain@.take(domain@.len() as int) =~= domain@);
        push_be_bytes(&mut msg, self.block_index, 8);
        self.block = hmac_sha256(self.key.as_slice(), msg.as_slice());
        self.offset = 0;
        self.block_index = self.block_index + 1;
    }

    fn new(key: &[u8; 32]) -> (s: Self)
        ensures
            s.wf(),
            s.key@ == key@,
            s.pos() == 0,
    {
        let mut stream = ByteStream { key: *key, block_index: 0, block: [0u8; 32], offset: 32 };
        stream.refill();
        stream
    }

    fn next_byte(&mut self) -> (r: Result<u8, DeriveError>)
        ensures
            final(self).key == old(self).key,
            old(self).wf() ==> final(self).wf(),
            match r {
                Ok(b) => {
                    &&& old(self).available() > 0
                    &&& b == old(self).upcoming(0)
                    &&& final(self).available() == old(self).available() - 1
                    &&& forall|j: nat| #[trigger] final(self).upcoming(j) == old(self).upcoming(j + 1)
                    &&& old(self).wf() ==> final(self).pos() == old(self).pos() + 1
                },
                Err(DeriveError::StreamExhausted) => old(self).available() == 0,
                _ => false,
            },
    {
        let ghost s0 = *self;
        if self.offset >= 32 {
            if self.block_index == u64::MAX {
                return Err(DeriveError::StreamExhausted);
            }
            self.refill();
            proof {
                lemma_pos_div_mod(s0.block_index as nat, 0);
                assert forall|j: nat| j < 31 implies stream_byte(s0.key@, (s0.block_index * 32 + (j + 1)) as nat)
                    == #[trigger] self.block@[j + 1 as int] by {
                    lemma_pos_div_mod(s0.block_index as nat, j + 1);
                }
            }
        }
        let ghost s1 = *self;
        let byte = self.block[self.offset];
        self.offset = self.offset + 1;
        proof {
            assert forall|j: nat| #[trigger] self.upcoming(j) == s0.upcoming(j + 1) by {
                if s0.offset >= 32 && j < 31 {
                    assert(self.upcoming(j) == s1.block@[j + 1 as int]);
                }
            }
            if s0.offset >= 32 {
                assert(s0.upcoming(0) == stream_byte(s0.key@, (s0.block_index * 32) as nat));
            }
        }
        Ok(byte)
    }

    /// A number below `n` by rejection sampling over stream bytes: bytes at or above
    /// the largest multiple of `n` not above 256 are skipped.
    pub fn draw_int(&mut self, n: usize) -> (r: Result<usize, DeriveError>)
        requires
            0 < n <= 256,
        ensures
            final(self).key == old(self).key,
            match (r, draw_upcoming(*old(self), 0, n as nat)) {
                (Ok(v), Some((w, c))) => {
                    &&& v == w
                    &&& final(self).available() == old(self).available() - c
                    &&& forall|j: nat| #[trigger] final(self).upcoming(j) == old(self).upcoming(c + j)
                },
                (Err(DeriveError::StreamExhausted), None) => true,
                _ => false,
            },
            old(self).wf() ==> final(self).wf(),
            old(self).wf() ==> match (r, draw(old(self).key@, old(self).pos(), n as nat)) {
                (Ok(v), Some((w, p))) => v == w && final(self).pos() == p,
                (Err(DeriveError::StreamExhausted), None) => true,
                _ => false,
            },
    {
        assert((256usize / n) * n <= 256) by (nonlinear_arith)
            requires
                0 < n <= 256,
        ;
        let limit = (256 / n) * n;
        let ghost s0 = *self;
        let ghost target = draw_upcoming(s0, 0, n as nat);
        let ghost mut k: nat = 0;
        proof {
            if s0.wf() {
                s0.lemma_wf_upcoming();
                lemma_draw_upcoming_keyed(s0, 0, n as nat);
            }
        }
        loop
            invariant
                self.key == s0.key,
                s0 == *old(self),
                0 < n <= 256,
                limit == (256usize / n) * n,
                target == draw_upcoming(s0, 0, n as nat),
                draw_upcoming(s0, k, n as nat) == target,
                k <= s0.available(),
                self.available() == s0.available() - k,
                forall|j: nat| #[trigger] self.upcoming(j) == s0.upcoming(k + j),
                s0.wf() ==> self.wf() && self.pos() == s0.pos() + k,
                s0.wf() ==> match (target, draw(s0.key@, s0.pos(), n as nat)) {
                    (Some((w, c)), Some((v, p))) => w == v && p == s0.pos() + c,
                    (None, None) => true,
                    _ => false,
                },
            decreases self.available(),
        {
            let ghost before = *self;
            let byte = match self.next_byte() {
                Ok(b) => b,
                Err(e) => {
                    assert(draw_upcoming(s0, k, n as nat) is None);
                    return Err(e);
                },
            };
            assert(byte == s0.upcoming(k)) by {
                assert(before.upcoming(0) == s0.upcoming(k + 0));
            }
            assert forall|j: nat| #[trigger] self.upcoming(j) == s0.upcoming((k + 1) + j) by {
                assert(self.upcoming(j) == before.upcoming(j + 1));
                assert(before.upcoming(j + 1) == s0.upcoming(k + (j + 1)));
            }
            proof {
                k = k + 1;
            }
            if (byte as usize) < limit {
                return Ok(byte as usize % n);
            }
        }
    }
}

/// Rejection sampling over what `s` yields from byte `i` on: the first byte below
/// the largest multiple of `n` not above 256, reduced modulo `n`, and how many bytes
/// were read up to and including it; none when the stream ends first.
pub open spec fn draw_upcoming(s: ByteStream, i: nat, n: nat) -> Option<(nat, nat)>
    decreases s.available() - i,
{
    if n == 0 || i >= s.available() {
        None
    } else {
        let b = s.upcoming(i) as nat;
        if b < (256nat / n) * n {
            Some((b % n, i + 1))
        } else {
            draw_upcoming(s, i + 1, n)
        }
    }
}

/// On a stream started at block 0, drawing from what it yields is drawing from
/// the keyed stream at its position.
proof fn lemma_draw_upcoming_keyed(s: ByteStream, i: nat, n: nat)
    requires
        s.wf(),
        s.available() == stream_end() - s.pos(),
        s.pos() <= stream_end(),
        forall|j: nat| #[trigger] s.upcoming(j) == stream_byte(s.key@, s.pos() + j),
    ensures
        match (draw_upcoming(s, i, n), draw(s.key@, s.pos() + i, n)) {
            (Some((w, c)), Some((v, p))) => w == v && p == s.pos() + c,
            (None, None) => true,
            _ => false,
        },
    decreases s.available() - i,
{
    if n != 0 && i < s.available() {
        assert(s.upcoming(i) == stream_byte(s.key@, s.pos() + i));
        lemma_draw_upcoming_keyed(s, i + 1, n);
    }
}


/// Rejection sampling keeps only unbiased bytes: the draw from byte `i` on takes the
/// first byte `b` with `b < floor(256 / n) * n` and gives `b % n`, having skipped
/// every byte before it, each at or above that limit (a byte equal to the limit
/// is skipped); when none is left, there is no draw.
pub proof fn law_draw_upcoming_rejects_biased_bytes(s: ByteStream, i: nat, n: nat)
    requires
        0 < n <= 256,
    ensures
        draw_upcoming(s, i, n) matches Some((v, c)) ==> {
            &&& i < c <= s.available()
            &&& (s.upcoming((c - 1) as nat) as nat) < (256nat / n) * n
            &&& v == (s.upcoming((c - 1) as nat) as nat) % n
            &&& v < n
            &&& forall|j: nat| i <= j < c - 1 ==> (#[trigger] s.upcoming(j) as nat) >= (256nat / n) * n
        },
        draw_upcoming(s, i, n) is None ==> forall|j: nat|
            i <= j < s.available() ==> (#[trigger] s.upcoming(j) as nat) >= (256nat / n) * n,
    decreases s.available() - i,
{
    if i < s.available() {
        let b = s.upcoming(i) as nat;
        if b >= (256nat / n) * n {
            law_draw_upcoming_rejects_biased_bytes(s, i + 1, n);
        }
    }
}

/// The keyed stream's draw at position `p` likewise takes the first stream byte
/// below `floor(256nat / n) * n`, reduced modulo `n`, and moves past it; every byte it
/// skips is at or above that limit.
pub proof fn law_draw_rejects_biased_bytes(key: Seq<u8>, p: nat, n: nat)
    requires
        0 < n <= 256,
    ensures
        draw(key, p, n) matches Some((v, q)) ==> {
            &&& p < q <= stream_end()
            &&& (stream_byte(key, (q - 1) as nat) as nat) < (256nat / n) * n
            &&& v == (stream_byte(key, (q - 1) as nat) as nat) % n
            &&& v < n
            &&& forall|t: nat| p <= t < q - 1 ==> (#[trigger] stream_byte(key, t) as nat) >= (256nat / n) * n
        },
        draw(key, p, n) is None ==> forall|t: nat|
            p <= t < stream_end() ==> (#[trigger] stream_byte(key, t) as nat) >= (256nat / n) * n,
    decreases stream_end() - p,
{
    if p < stream_end() {
        let b = stream_byte(key, p) as nat;
        if b >= (256nat / n) * n {
            law_draw_rejects_biased_bytes(key, p + 1, n);
        }
    }
}

// ---------------------------------------------------------------------------
// Password generation

/// `A`..`Z`.
pub open spec fn upper_class() -> Seq<char> {
    Seq::new(26, |i: int| (65 + i) as char)
}

/// `a`..`z`.
pub open spec fn lower_class() -> Seq<char> {
    Seq::new(26, |i: int| (97 + i) as char)
}

/// `0`..`9`.
pub open spec fn digit_class() -> Seq<char> {
    Seq::new(10, |i: int| (48 + i) as char)
}

/// The allowed union: lower case, upper case, digits, then the profile's symbols.
pub open spec fn union_class(symbols: Seq<char>) -> Seq<char> {
    lower_class() + upper_class() + digit_class() + symbols
}

/// `count` characters drawn from `class`, one `draw` each, from position `p`; and
/// the position after them. None when the stream ends first.
pub open spec fn draw_class(key: Seq<u8>, p: nat, class: Seq<char>, count: nat) -> Option<
    (Seq<char>, nat),
>
    decreases count,
{
    if count == 0 {
        Some((seq![], p))
    } else {
        match draw_class(key, p, class, (count - 1) as nat) {
            Some((cs, p1)) => match draw(key, p1, class.len()) {
                Some((v, p2)) => Some((cs.push(class[v as int]), p2)),
                None => None,
            },
            None => None,
        }
    }
}

/// `cs` with positions `i` and `j` exchanged.
pub open spec fn swap(cs: Seq<char>, i: int, j: int) -> Seq<char> {
    cs.update(i, cs[j]).update(j, cs[i])
}

/// Fisher-Yates from index `i` down to 1: each step draws `j` below `i + 1` and
/// exchanges positions `i` and `j`.
pub open spec fn shuffle_from(key: Seq<u8>, p: nat, cs: Seq<char>, i: nat) -> Option<(Seq<char>, nat)>
    decreases i,
{
    if i == 0 {
        Some((cs, p))
    } else {
        match draw(key, p, i + 1) {
            Some((j, p2)) => shuffle_from(key, p2, swap(cs, i as int, j as int), (i - 1) as nat),
            None => None,
        }
    }
}

/// The last index of a sequence of length `n` (0 when it is empty).
pub open spec fn last_index(n: nat) -> nat {
    if n == 0 {
        0
    } else {
        (n - 1) as nat
    }
}

/// The characters before the shuffle: required upper case, lower case, digits and
/// symbols, then the rest of the length from the union; with the stream position
/// after them.
pub open spec fn unshuffled(
    key: Seq<u8>,
    length: nat,
    mu: nat,
    ml: nat,
    md: nat,
    ms: nat,
    symbols: Seq<char>,
) -> Option<(Seq<char>, nat)> {
    match draw_class(key, 0, upper_class(), mu) {
        None => None,
        Some((a, p1)) => match draw_class(key, p1, lower_class(), ml) {
            None => None,
            Some((b, p2)) => match draw_class(key, p2, digit_class(), md) {
                None => None,
                Some((c, p3)) => match draw_class(key, p3, symbols, ms) {
                    None => None,
                    Some((d, p4)) => match draw_class(
                        key,
                        p4,
                        union_class(symbols),
                        (length - (mu + ml + md + ms)) as nat,
                    ) {
                        None => None,
                        Some((e, p5)) => Some((a + b + c + d + e, p5)),
                    },
                },
            },
        },
    }
}

/// The password that a credential key gives for a profile.
pub open spec fn password_from_key(
    key: Seq<u8>,
    length: nat,
    mu: nat,
    ml: nat,
    md: nat,
    ms: nat,
    symbols: Seq<char>,
) -> Option<Seq<char>> {
    match unshuffled(key, length, mu, ml, md, ms, symbols) {
        None => None,
        Some((all, p5)) => match shuffle_from(key, p5, all, last_index(all.len())) {
            Some((pw, _)) => Some(pw),
            None => None,
        },
    }
}

/// The password of a credential key under a profile snapshot.
pub open spec fn profile_password(key: Seq<u8>, profile: crate::model::ProfileSnapshot) -> Option<Seq<char>> {
    match profile {
        crate::model::ProfileSnapshot::Password {
            length,
            min_uppercase,
            min_lowercase,
            min_digits,
            min_symbols,
            symbols,
        } => password_from_key(
            key,
            length as nat,
            min_uppercase as nat,
            min_lowercase as nat,
            min_digits as nat,
            min_symbols as nat,
            symbols@,
        ),
    }
}

pub proof fn lemma_draw_bound(key: Seq<u8>, p: nat, n: nat)
    ensures
        draw(key, p, n) matches Some((v, p2)) ==> v < n && p2 > p,
    decreases stream_end() - p,
{
    if n > 0 && p < stream_end() {
        let b = stream_byte(key, p) as nat;
        if !(b < (256nat / n) * n) {
            lemma_draw_bound(key, p + 1, n);
        }
    }
}

proof fn lemma_draw_class_none(key: Seq<u8>, p: nat, class: Seq<char>, k: nat, m: nat)
    requires
        k <= m,
        draw_class(key, p, class, k) is None,
    ensures
        draw_class(key, p, class, m) is None,
    decreases m - k,
{
    if k < m {
        lemma_draw_class_none(key, p, class, k, (m - 1) as nat);
    }
}


proof fn lemma_draw_class_len(key: Seq<u8>, p: nat, class: Seq<char>, count: nat)
    ensures
        draw_class(key, p, class, count) matches Some((cs, _)) ==> cs.len() == count,
    decreases count,
{
    if count > 0 {
        lemma_draw_class_len(key, p, class, (count - 1) as nat);
    }
}

fn class_range(first: u8, n: u8) -> (r: Vec<char>)
    requires
        first as int + n as int <= 128,
    ensures
        r@ == Seq::new(n as nat, |i: int| (first + i) as char),
{
    let mut out: Vec<char> = Vec::new();
    for i in 0..n
        invariant
            first as int + n as int <= 128,
            out@ == Seq::new(i as nat, |k: int| (first + k) as char),
    {
        out.push(((first + i) as u8) as char);
        assert(out@ =~= Seq::new((i + 1) as nat, |k: int| (first + k) as char));
    }
    out
}

fn draw_char(stream: &mut ByteStream, class: &Vec<char>) -> (r: Result<char, DeriveError>)
    requires
        old(stream).wf(),
        0 < class.len() <= 256,
    ensures
        final(stream).wf(),
        final(stream).key == old(stream).key,
        match (r, draw(old(stream).key@, old(stream).pos(), class@.len())) {
            (Ok(c), Some((v, p))) => c == class@[v as int] && final(stream).pos() == p,
            (Err(DeriveError::StreamExhausted), None) => true,
            _ => false,
        },
{
    let index = match stream.draw_int(class.len()) {
        Ok(i) => i,
        Err(e) => {
            return Err(e);
        },
    };
    proof {
        lemma_draw_bound(old(stream).key@, old(stream).pos(), class@.len());
    }
    Ok(class[index])
}

fn draw_required(chars: &mut Vec<char>, stream: &mut ByteStream, class: &Vec<char>, count: u16) -> (r:
    Result<(), DeriveError>)
    requires
        old(stream).wf(),
        count > 0 ==> 0 < class.len() <= 256,
    ensures
        final(stream).wf(),
        final(stream).key == old(stream).key,
        match (r, draw_class(old(stream).key@, old(stream).pos(), class@, count as nat)) {
            (Ok(()), Some((cs, p))) => final(chars)@ == old(chars)@ + cs && final(stream).pos() == p,
            (Err(DeriveError::StreamExhausted), None) => true,
            _ => false,
        },
{
    let ghost key = stream.key@;
    let ghost p0 = stream.pos();
    let ghost base = chars@;
    for k in 0..count
        invariant
            stream.wf(),
            stream.key@ == key,
            stream.key == old(stream).key,
            key == old(stream).key@,
            p0 == old(stream).pos(),
            base == old(chars)@,
            count > 0 ==> 0 < class.len() <= 256,
            match draw_class(key, p0, class@, k as nat) {
                Some((cs, p)) => chars@ == base + cs && stream.pos() == p,
                None => false,
            },
    {
        let ghost before = chars@;
        match draw_char(stream, class) {
            Ok(c) => {
                chars.push(c);
                assert(chars@ =~= before.push(c));
                proof {
                    let (cs, p) = draw_class(key, p0, class@, k as nat)->0;
                    assert(chars@ =~= base + cs.push(c));
                }
            },
            Err(e) => {
                proof {
                    lemma_draw_class_none(key, p0, class@, (k + 1) as nat, count as nat);
                }
                return Err(e);
            },
        }
    }
    Ok(())
}

fn shuffle(chars: &mut Vec<char>, stream: &mut ByteStream) -> (r: Result<(), DeriveError>)
    requires
        old(stream).wf(),
        old(chars).len() <= 256,
    ensures
        final(stream).wf(),
        final(stream).key == old(stream).key,
        match (r, shuffle_from(old(stream).key@, old(stream).pos(), old(chars)@, last_index(old(chars)@.len()))) {
            (Ok(()), Some((cs, p))) => final(chars)@ == cs && final(stream).pos() == p,
            (Err(DeriveError::StreamExhausted), None) => true,
            _ => false,
        },
{
    let n = chars.len();
    let mut i: usize = if n == 0 {
        0
    } else {
        n - 1
    };
    let ghost target = shuffle_from(stream.key@, stream.pos(), chars@, i as nat);
    while i > 0
        invariant
            stream.wf(),
            stream.key == old(stream).key,
            chars.len() == n,
            n <= 256,
            i < n || i == 0,
            target == shuffle_from(old(stream).key@, old(stream).pos(), old(chars)@, last_index(old(chars)@.len())),
            shuffle_from(stream.key@, stream.pos(), chars@, i as nat) == target,
        decreases i,
    {
        let ghost p = stream.pos();
        let j = match stream.draw_int(i + 1) {
            Ok(j) => j,
            Err(e) => {
                return Err(e);
            },
        };
        proof {
            lemma_draw_bound(stream.key@, p, (i + 1) as nat);
        }
        let a = chars[i];
        let b = chars[j];
        let ghost before = chars@;
        chars.set(i, b);
        chars.set(j, a);
        assert(chars@ =~= swap(before, i as int, j as int));
        i = i - 1;
    }
    Ok(())
}


// ---------------------------------------------------------------------------
// Profile checks before derivation

/// Messages joined by `"; "`.
pub open spec fn join_messages(ds: Seq<DiagView>) -> Seq<char>
    decreases ds.len(),
{
    if ds.len() == 0 {
        seq![]
    } else if ds.len() == 1 {
        ds[0].1
    } else {
        join_messages(ds.drop_last()) + "; "@ + ds.last().1
    }
}

proof fn lemma_symbol_diags_hard(s: Seq<char>)
    ensures
        forall|i: int| 0 <= i < symbol_diags(s).len() ==> is_hard(#[trigger] symbol_diags(s)[i]),
    decreases s.len(),
{
    if s.len() > 0 {
        lemma_symbol_diags_hard(s.drop_last());
        let a = symbol_diags(s.drop_last());
        let b = symbol_diags_at(s.last(), s.drop_last());
        assert(symbol_diags(s) == a + b);
        assert forall|i: int| 0 <= i < (a + b).len() implies is_hard(#[trigger] (a + b)[i]) by {
            if i < a.len() {
                assert((a + b)[i] == a[i]);
            }
        }
    }
}

/// Every finding of a profile is a hard error.
proof fn lemma_profile_diags_hard(p: ProfileSnapshot)
    ensures
        forall|i: int| 0 <= i < p.profile_diags().len() ==> is_hard(#[trigger] p.profile_diags()[i]),
{
    match p {
        ProfileSnapshot::Password { length, min_uppercase, min_lowercase, min_digits, min_symbols, symbols } => {
            lemma_symbol_diags_hard(symbols@);
            let h = diag_if(!(8 <= length <= 256), hard(msg_bad_length(length))) + diag_if(
                min_uppercase + min_lowercase + min_digits + min_symbols > length,
                hard(msg_minimums_exceed()),
            ) + diag_if(min_symbols > 0 && symbols@.len() == 0, hard(msg_symbols_required()));
            let t = symbol_diags(symbols@);
            assert(p.profile_diags() == h + t);
            assert forall|i: int| 0 <= i < (h + t).len() implies is_hard(#[trigger] (h + t)[i]) by {
                if i >= h.len() {
                    assert((h + t)[i] == t[i - h.len()]);
                }
            }
        },
    }
}

proof fn lemma_filter_all_hard(s: Seq<DiagView>)
    requires
        forall|i: int| 0 <= i < s.len() ==> is_hard(#[trigger] s[i]),
    ensures
        s.filter(|d: DiagView| is_hard(d)) == s,
    decreases s.len(),
{
    let p = |d: DiagView| is_hard(d);
    if s.len() > 0 {
        lemma_filter_all_hard(s.drop_last());
        assert(s.drop_last().filter(p) == s.drop_last());
        assert(is_hard(s.last()));
        assert(s.drop_last().push(s.last()) =~= s);
        s.drop_last().lemma_filter_push(s.last(), p);
    }
}

/// The profile's findings are all hard errors, so its hard errors are its findings.
pub proof fn lemma_profile_hard_errors(p: ProfileSnapshot)
    ensures
        p.profile_diags().filter(|d: DiagView| is_hard(d)) == p.profile_diags(),
{
    lemma_profile_diags_hard(p);
    lemma_filter_all_hard(p.profile_diags());
}

fn reject_invalid_profile(profile: &ProfileSnapshot) -> (r: Result<(), DeriveError>)
    ensures
        match r {
            Ok(()) => profile.profile_diags().filter(|d: DiagView| is_hard(d)).len() == 0,
            Err(DeriveError::InvalidProfile(m)) => {
                let h = profile.profile_diags().filter(|d: DiagView| is_hard(d));
                h.len() > 0 && m@ == join_messages(h)
            },
            _ => false,
        },
{
    let hard_errors = hard_only(profile.validate_profile());
    let ghost h = diags_view(hard_errors@);
    if hard_errors.len() == 0 {
        return Ok(());
    }
    let mut m = String::new();
    for i in 0..hard_errors.len()
        invariant
            h == diags_view(hard_errors@),
            hard_errors.len() > 0,
            i == 0 ==> m@.len() == 0,
            i > 0 ==> m@ == join_messages(h.take(i as int)),
    {
        proof {
            let next = h.take(i + 1);
            assert(next.drop_last() =~= h.take(i as int));
        }
        if i > 0 {
            m.append("; ");
        }
        m.append(hard_errors[i].message.as_str());
        proof {
            if i == 0 {
                assert(m@ =~= join_messages(h.take(1)));
            }
        }
    }
    assert(h.take(h.len() as int) =~= h);
    Err(DeriveError::InvalidProfile(m))
}

// ---------------------------------------------------------------------------
// Valid profiles

proof fn lemma_symbol_diags_empty(s: Seq<char>)
    requires
        symbol_diags(s).len() == 0,
    ensures
        forall|i: int| 0 <= i < s.len() ==> is_ascii_graphic(#[trigger] s[i]) && !is_ascii_alphanumeric(s[i]),
        forall|i: int, j: int| 0 <= i < j < s.len() ==> s[i] != s[j],
    decreases s.len(),
{
    if s.len() > 0 {
        let a = symbol_diags(s.drop_last());
        let b = symbol_diags_at(s.last(), s.drop_last());
        assert(symbol_diags(s) == a + b);
        assert(a.len() == 0 && b.len() == 0);
        lemma_symbol_diags_empty(s.drop_last());
        assert forall|i: int| 0 <= i < s.len() implies is_ascii_graphic(#[trigger] s[i]) && !is_ascii_alphanumeric(s[i]) by {
            if i < s.len() - 1 {
                assert(s[i] == s.drop_last()[i]);
            }
        }
        assert forall|i: int, j: int| 0 <= i < j < s.len() implies s[i] != s[j] by {
            if j < s.len() - 1 {
                assert(s[i] == s.drop_last()[i]);
                assert(s[j] == s.drop_last()[j]);
            } else {
                assert(s[i] == s.drop_last()[i]);
                assert(!s.drop_last().contains(s.last()));
            }
        }
    }
}

proof fn lemma_distinct_graphic_len(s: Seq<char>)
    requires
        forall|i: int| 0 <= i < s.len() ==> is_ascii_graphic(#[trigger] s[i]),
        forall|i: int, j: int| 0 <= i < j < s.len() ==> s[i] != s[j],
    ensures
        s.len() <= 94,
{
    let m = s.map_values(|c: char| c as int);
    assert forall|i: int, j: int| 0 <= i < m.len() && 0 <= j < m.len() && i != j implies m[i] != m[j] by {
        if i < j {
            assert(s[i] != s[j]);
        } else {
            assert(s[j] != s[i]);
        }
    }
    assert(m.no_duplicates());
    m.unique_seq_to_set();
    vstd::set_lib::lemma_int_range(33, 127);
    assert(m.to_set().subset_of(vstd::set_lib::set_int_range(33, 127))) by {
        assert forall|x: int| m.to_set().contains(x) implies vstd::set_lib::set_int_range(33, 127).contains(x) by {
            let i = choose|i: int| 0 <= i < m.len() && m[i] == x;
            assert(is_ascii_graphic(s[i]));
        }
    }
    vstd::set_lib::lemma_len_subset(m.to_set(), vstd::set_lib::set_int_range(33, 127));
}

/// What a profile with no findings satisfies.
pub open spec fn valid_profile_facts(
    length: u16,
    mu: u16,
    ml: u16,
    md: u16,
    ms: u16,
    symbols: Seq<char>,
) -> bool {
    &&& 8 <= length <= 256
    &&& mu + ml + md + ms <= length
    &&& ms > 0 ==> symbols.len() > 0
    &&& symbols.len() <= 94
    &&& forall|i: int| 0 <= i < symbols.len() ==> is_ascii_graphic(#[trigger] symbols[i]) && !is_ascii_alphanumeric(symbols[i])
    &&& forall|i: int, j: int| 0 <= i < j < symbols.len() ==> symbols[i] != symbols[j]
}

pub proof fn lemma_valid_profile(length: u16, mu: u16, ml: u16, md: u16, ms: u16, symbols: Seq<char>)
    requires
        password_profile_diags(length, mu, ml, md, ms, symbols).len() == 0,
    ensures
        valid_profile_facts(length, mu, ml, md, ms, symbols),
{
    let d1 = diag_if(!(8 <= length <= 256), hard(msg_bad_length(length)));
    let d2 = diag_if(mu + ml + md + ms > length, hard(msg_minimums_exceed()));
    let d3 = diag_if(ms > 0 && symbols.len() == 0, hard(msg_symbols_required()));
    let d4 = symbol_diags(symbols);
    assert(password_profile_diags(length, mu, ml, md, ms, symbols) == d1 + d2 + d3 + d4);
    assert(d1.len() == 0 && d2.len() == 0 && d3.len() == 0 && d4.len() == 0);
    lemma_symbol_diags_empty(symbols);
    lemma_distinct_graphic_len(symbols);
}

// ---------------------------------------------------------------------------
// Passwords


fn draw_unshuffled(
    stream: &mut ByteStream,
    length: u16,
    min_uppercase: u16,
    min_lowercase: u16,
    min_digits: u16,
    min_symbols: u16,
    symbols: &Vec<char>,
) -> (r: Result<Vec<char>, DeriveError>)
    requires
        old(stream).wf(),
        old(stream).pos() == 0,
        valid_profile_facts(length, min_uppercase, min_lowercase, min_digits, min_symbols, symbols@),
    ensures
        final(stream).wf(),
        final(stream).key == old(stream).key,
        match (
            r,
            unshuffled(
                old(stream).key@,
                length as nat,
                min_uppercase as nat,
                min_lowercase as nat,
                min_digits as nat,
                min_symbols as nat,
                symbols@,
            ),
        ) {
            (Ok(cs), Some((all, p))) => cs@ == all && final(stream).pos() == p && cs@.len() <= 256,
            (Err(DeriveError::StreamExhausted), None) => true,
            _ => false,
        },
{
    let ghost key = stream.key@;
    let upper = class_range(65, 26);
    let lower = class_range(97, 26);
    let digits = class_range(48, 10);
    assert(upper@ =~= upper_class());
    assert(lower@ =~= lower_class());
    assert(digits@ =~= digit_class());
    let mut chars: Vec<char> = Vec::new();
    let ghost mu = min_uppercase as nat;
    let ghost ml = min_lowercase as nat;
    let ghost md = min_digits as nat;
    let ghost ms = min_symbols as nat;
    let ghost rest_n = (length - (mu + ml + md + ms)) as nat;
    let ghost u = unshuffled(key, length as nat, mu, ml, md, ms, symbols@);
    match draw_required(&mut chars, stream, &upper, min_uppercase) {
        Ok(()) => {},
        Err(e) => {
            return Err(e);
        },
    }
    let ghost (a, p1) = draw_class(key, 0, upper_class(), mu)->0;
    assert(chars@ =~= a);
    match draw_required(&mut chars, stream, &lower, min_lowercase) {
        Ok(()) => {},
        Err(e) => {
            return Err(e);
        },
    }
    let ghost (b, p2) = draw_class(key, p1, lower_class(), ml)->0;
    match draw_required(&mut chars, stream, &digits, min_digits) {
        Ok(()) => {},
        Err(e) => {
            return Err(e);
        },
    }
    let ghost (c, p3) = draw_class(key, p2, digit_class(), md)->0;
    match draw_required(&mut chars, stream, symbols, min_symbols) {
        Ok(()) => {},
        Err(e) => {
            return Err(e);
        },
    }
    let ghost (d, p4) = draw_class(key, p3, symbols@, ms)->0;
    let mut union: Vec<char> = Vec::new();
    let mut l2 = lower.clone();
    let mut u2 = upper.clone();
    let mut d2 = digits.clone();
    let mut s2 = symbols.clone();
    union.append(&mut l2);
    union.append(&mut u2);
    union.append(&mut d2);
    union.append(&mut s2);
    assert(union@ =~= union_class(symbols@));
    let required: u16 = min_uppercase + min_lowercase + min_digits + min_symbols;
    let rest: u16 = length - required;
    match draw_required(&mut chars, stream, &union, rest) {
        Ok(()) => {},
        Err(e) => {
            return Err(e);
        },
    }
    let ghost (e5, p5) = draw_class(key, p4, union_class(symbols@), rest_n)->0;
    proof {
        lemma_draw_class_len(key, 0, upper_class(), mu);
        lemma_draw_class_len(key, p1, lower_class(), ml);
        lemma_draw_class_len(key, p2, digit_class(), md);
        lemma_draw_class_len(key, p3, symbols@, ms);
        lemma_draw_class_len(key, p4, union_class(symbols@), rest_n);
        assert(chars@ =~= a + b + c + d + e5);
        assert(u == Some((a + b + c + d + e5, p5)));
    }
    Ok(chars)
}


fn password_for_key(
    credential_key: &[u8; 32],
    length: u16,
    min_uppercase: u16,
    min_lowercase: u16,
    min_digits: u16,
    min_symbols: u16,
    symbols: &String,
) -> (r: Result<Vec<char>, DeriveError>)
    requires
        valid_profile_facts(length, min_uppercase, min_lowercase, min_digits, min_symbols, symbols@),
    ensures
        match (
            r,
            password_from_key(
                credential_key@,
                length as nat,
                min_uppercase as nat,
                min_lowercase as nat,
                min_digits as nat,
                min_symbols as nat,
                symbols@,
            ),
        ) {
            (Ok(cs), Some(pw)) => cs@ == pw,
            (Err(DeriveError::StreamExhausted), None) => true,
            _ => false,
        },
{
    let mut stream = ByteStream::new(credential_key);
    let symbol_chars = crate::text::chars_of(symbols.as_str());
    let mut chars = match draw_unshuffled(
        &mut stream,
        length,
        min_uppercase,
        min_lowercase,
        min_digits,
        min_symbols,
        &symbol_chars,
    ) {
        Ok(c) => c,
        Err(e) => {
            return Err(e);
        },
    };
    match shuffle(&mut chars, &mut stream) {
        Ok(()) => {},
        Err(e) => {
            return Err(e);
        },
    }
    Ok(chars)
}

/// What deriving a password for a recipe under a seed gives: an invalid profile is
/// refused with all its findings, then canonicalization may fail, then the
/// password is drawn from the credential key's byte stream.
pub open spec fn derived(seed: Seq<u8>, recipe: DerivationRecipeV1, r: Result<String, DeriveError>) -> bool {
    match r {
        Err(DeriveError::InvalidProfile(m)) => {
            &&& recipe.profile_snapshot.profile_diags().len() > 0
            &&& m@ == join_messages(recipe.profile_snapshot.profile_diags())
        },
        Err(DeriveError::Canonicalization(e)) => {
            &&& recipe.profile_snapshot.profile_diags().len() == 0
            &&& canonical_recipe_result(recipe) == Err::<Seq<u8>, CodecError>(e)
        },
        Err(DeriveError::StreamExhausted) => {
            &&& recipe.profile_snapshot.profile_diags().len() == 0
            &&& credential_key_result(seed, recipe) matches Ok(k)
            &&& profile_password(k, recipe.profile_snapshot) is None
        },
        Ok(pw) => {
            &&& recipe.profile_snapshot.profile_diags().len() == 0
            &&& credential_key_result(seed, recipe) matches Ok(k)
            &&& profile_password(k, recipe.profile_snapshot) == Some(pw@)
        },
        _ => false,
    }
}

/// The password for a recipe under a root seed.
pub fn derive_password(root_seed: &RootSeed, recipe: &DerivationRecipeV1) -> (r: Result<String, DeriveError>)
    ensures
        derived(root_seed@, *recipe, r),
{
    proof {
        lemma_profile_hard_errors(recipe.profile_snapshot);
    }
    match reject_invalid_profile(&recipe.profile_snapshot) {
        Ok(()) => {},
        Err(e) => {
            return Err(e);
        },
    }
    let (length, min_uppercase, min_lowercase, min_digits, min_symbols, symbols) = match &recipe.profile_snapshot {
        ProfileSnapshot::Password { length, min_uppercase, min_lowercase, min_digits, min_symbols, symbols } => (
            *length,
            *min_uppercase,
            *min_lowercase,
            *min_digits,
            *min_symbols,
            symbols,
        ),
    };
    proof {
        lemma_valid_profile(length, min_uppercase, min_lowercase, min_digits, min_symbols, symbols@);
    }
    let credential_key = match derive_credential_key(root_seed, recipe) {
        Ok(k) => k,
        Err(e) => {
            return Err(e);
        },
    };
    let chars = match password_for_key(
        &credential_key,
        length,
        min_uppercase,
        min_lowercase,
        min_digits,
        min_symbols,
        symbols,
    ) {
        Ok(c) => c,
        Err(e) => {
            return Err(e);
        },
    };
    Ok(crate::text::string_from_chars(&chars))
}

} // verus!
