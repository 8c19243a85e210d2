//! Canonical and strict encoding: the canonical recipe bytes that derivation hashes,
//! and the duplicate-key preflight for Seedpass YAML files.
use vstd::prelude::*;
use vstd::utf8::encode_utf8;
use crate::model::{DerivationRecipeV1, ProfileSnapshot, Purpose};
use crate::text::{decimal, follows_key, push_char, push_decimal};

verus! {

/// Errors of canonical and strict encoding.
#[derive(Debug, PartialEq, Eq)]
pub enum CodecError {
    NonAscii { field: &'static str },
    UnsupportedPurpose,
    DuplicateYamlKey { key: String, line: usize },
    UnsupportedYamlSyntax { line: usize, reason: &'static str },
}

/// The text of a codec error.
pub open spec fn codec_message(e: CodecError) -> Seq<char> {
    match e {
        CodecError::NonAscii { field } => "derivation-critical string contains non-ASCII data: "@
            + field@,
        CodecError::UnsupportedPurpose => "unsupported derivation recipe purpose"@,
        CodecError::DuplicateYamlKey { key, line } => "duplicate YAML key `"@ + key@
            + "` at line "@ + decimal(line as nat),
        CodecError::UnsupportedYamlSyntax { line, reason } => "unsupported YAML syntax at line "@
            + decimal(line as nat) + ": "@ + reason@,
    }
}

impl CodecError {
    /// The error's text.
    pub fn message(&self) -> (r: String)
        ensures
            r@ == codec_message(*self),
    {
        let mut out = String::new();
        match self {
            CodecError::NonAscii { field } => {
                out.append("derivation-critical string contains non-ASCII data: ");
                out.append(field);
            },
            CodecError::UnsupportedPurpose => {
                out.append("unsupported derivation recipe purpose");
            },
            CodecError::DuplicateYamlKey { key, line } => {
                out.append("duplicate YAML key `");
                out.append(key.as_str());
                out.append("` at line ");
                push_decimal(&mut out, *line as u64);
            },
            CodecError::UnsupportedYamlSyntax { line, reason } => {
                out.append("unsupported YAML syntax at line ");
                push_decimal(&mut out, *line as u64);
                out.append(": ");
                out.append(reason);
            },
        }
        out
    }
}

impl Clone for CodecError {
    fn clone(&self) -> (r: Self)
        ensures
            r == *self,
    {
        match self {
            CodecError::NonAscii { field } => CodecError::NonAscii { field },
            CodecError::UnsupportedPurpose => CodecError::UnsupportedPurpose,
            CodecError::DuplicateYamlKey { key, line } => CodecError::DuplicateYamlKey {
                key: key.clone(),
                line: *line,
            },
            CodecError::UnsupportedYamlSyntax { line, reason } => CodecError::UnsupportedYamlSyntax {
                line: *line,
                reason,
            },
        }
    }
}

// ---------------------------------------------------------------------------
// JSON strings

/// Lower-case hexadecimal digit of `d < 16`.
pub open spec fn hex_digit(d: nat) -> char {
    if d < 10 {
        (48 + d) as char
    } else {
        (87 + d) as char
    }
}

/// The JSON escape of one character: quote, backslash and the named control
/// characters get their short escapes, other control characters `\u00XX`, the
/// rest stand as they are.
pub open spec fn json_escape_char(c: char) -> Seq<char> {
    if c == '"' {
        seq!['\\', '"']
    } else if c == '\\' {
        seq!['\\', '\\']
    } else if c == '\u{08}' {
        seq!['\\', 'b']
    } else if c == '\u{0C}' {
        seq!['\\', 'f']
    } else if c == '\n' {
        seq!['\\', 'n']
    } else if c == '\r' {
        seq!['\\', 'r']
    } else if c == '\t' {
        seq!['\\', 't']
    } else if (c as u32) < 32 {
        seq!['\\', 'u', '0', '0', hex_digit((c as nat) / 16), hex_digit((c as nat) % 16)]
    } else {
        seq![c]
    }
}

/// The JSON escape of a text, character by character.
pub open spec fn json_escape(s: Seq<char>) -> Seq<char>
    decreases s.len(),
{
    if s.len() == 0 {
        seq![]
    } else {
        json_escape(s.drop_last()) + json_escape_char(s.last())
    }
}

/// A JSON string literal holding `s`.
pub open spec fn json_string(s: Seq<char>) -> Seq<char> {
    seq!['"'] + json_escape(s) + seq!['"']
}

pub(crate) fn push_hex_digit(out: &mut String, d: u32)
    requires
        d < 16,
    ensures
        final(out)@ == old(out)@.push(hex_digit(d as nat)),
{
    let c: char = if d < 10 {
        ((48 + d) as u8) as char
    } else {
        ((87 + d) as u8) as char
    };
    push_char(out, c);
}

fn push_escaped_char(out: &mut String, ch: char)
    ensures
        final(out)@ == old(out)@ + json_escape_char(ch),
{
    let ghost start = out@;
    if ch == '"' {
        push_char(out, '\\');
        push_char(out, '"');
    } else if ch == '\\' {
        push_char(out, '\\');
        push_char(out, '\\');
    } else if ch == '\u{08}' {
        push_char(out, '\\');
        push_char(out, 'b');
    } else if ch == '\u{0C}' {
        push_char(out, '\\');
        push_char(out, 'f');
    } else if ch == '\n' {
        push_char(out, '\\');
        push_char(out, 'n');
    } else if ch == '\r' {
        push_char(out, '\\');
        push_char(out, 'r');
    } else if ch == '\t' {
        push_char(out, '\\');
        push_char(out, 't');
    } else if (ch as u32) < 32 {
        let code = ch as u32;
        push_char(out, '\\');
        push_char(out, 'u');
        push_char(out, '0');
        push_char(out, '0');
        push_hex_digit(out, code / 16);
        push_hex_digit(out, code % 16);
    } else {
        push_char(out, ch);
    }
    assert(out@ =~= start + json_escape_char(ch));
}

/// Appends `value` as a JSON string literal, escaping only what JSON requires.
pub fn push_json_string(out: &mut String, value: &str)
    ensures
        final(out)@ == old(out)@ + json_string(value@),
{
    let ghost start = out@;
    push_char(out, '"');
    let chars = crate::text::chars_of(value);
    for i in 0..chars.len()
        invariant
            chars@ == value@,
            out@ == start.push('"') + json_escape(value@.take(i as int)),
    {
        let ghost before = out@;
        push_escaped_char(out, chars[i]);
        proof {
            let next = value@.take(i + 1);
            assert(next.drop_last() =~= value@.take(i as int));
            assert(next.last() == chars@[i as int]);
            assert(out@ =~= start.push('"') + json_escape(next));
        }
    }
    assert(value@.take(chars.len() as int) =~= value@);
    push_char(out, '"');
    assert(out@ =~= start + json_string(value@));
}

/// `"key":"value"`.
pub open spec fn string_field(key: Seq<char>, value: Seq<char>) -> Seq<char> {
    json_string(key) + seq![':'] + json_string(value)
}

/// `"key":value` for a decimal integer.
pub open spec fn int_field(key: Seq<char>, value: nat) -> Seq<char> {
    json_string(key) + seq![':'] + decimal(value)
}

fn push_string_field(out: &mut String, key: &str, value: &str)
    ensures
        final(out)@ == old(out)@ + string_field(key@, value@),
{
    let ghost start = out@;
    push_json_string(out, key);
    push_char(out, ':');
    push_json_string(out, value);
    assert(out@ =~= start + string_field(key@, value@));
}

fn push_u16_field(out: &mut String, key: &str, value: u16)
    ensures
        final(out)@ == old(out)@ + int_field(key@, value as nat),
{
    let ghost start = out@;
    push_json_string(out, key);
    push_char(out, ':');
    push_decimal(out, value as u64);
    assert(out@ =~= start + int_field(key@, value as nat));
}

fn push_next_int_field(out: &mut String, key: &str, value: u16)
    ensures
        final(out)@ == old(out)@ + next_int_field(key@, value as nat),
{
    let ghost start = out@;
    push_char(out, ',');
    push_u16_field(out, key, value);
    assert(out@ =~= start + next_int_field(key@, value as nat));
}

fn push_u32_field(out: &mut String, key: &str, value: u32)
    ensures
        final(out)@ == old(out)@ + int_field(key@, value as nat),
{
    let ghost start = out@;
    push_json_string(out, key);
    push_char(out, ':');
    push_decimal(out, value as u64);
    assert(out@ =~= start + int_field(key@, value as nat));
}

// ---------------------------------------------------------------------------
// Canonical recipe

/// Every character is ASCII.
pub open spec fn ascii_text(s: Seq<char>) -> bool {
    vstd::utf8::is_ascii_chars(s)
}

/// `,"key":value` for a decimal integer.
pub open spec fn next_int_field(key: Seq<char>, value: nat) -> Seq<char> {
    seq![','] + int_field(key, value)
}

/// The canonical JSON of a password profile snapshot: keys in lexicographic order.
pub open spec fn canonical_profile_text(p: ProfileSnapshot) -> Seq<char> {
    match p {
        ProfileSnapshot::Password {
            length,
            min_uppercase,
            min_lowercase,
            min_digits,
            min_symbols,
            symbols,
        } => seq!['{'] + string_field("kind"@, "password"@) + next_int_field(
            "length"@,
            length as nat,
        ) + next_int_field("min_digits"@, min_digits as nat) + next_int_field(
            "min_lowercase"@,
            min_lowercase as nat,
        ) + next_int_field("min_symbols"@, min_symbols as nat) + next_int_field(
            "min_uppercase"@,
            min_uppercase as nat,
        ) + seq![','] + string_field("symbols"@, symbols@) + seq!['}'],
    }
}

/// The text of a purpose.
pub open spec fn purpose_text(p: Purpose) -> Seq<char> {
    match p {
        Purpose::WebPassword => "web-password"@,
    }
}

/// The canonical JSON text of a recipe: the closed set of derivation fields with
/// keys in lexicographic order and no whitespace.
pub open spec fn canonical_recipe_text(r: DerivationRecipeV1) -> Seq<char> {
    seq!['{'] + string_field("credential_uid"@, r.credential_uid@) + seq![','] + string_field(
        "format"@,
        r.format@,
    ) + seq![','] + json_string("profile_snapshot"@) + seq![':'] + canonical_profile_text(
        r.profile_snapshot,
    ) + seq![','] + string_field("public_salt"@, r.public_salt@) + seq![','] + string_field(
        "purpose"@,
        purpose_text(r.purpose),
    ) + seq![','] + string_field("scheme"@, r.scheme@) + seq![','] + int_field(
        "version"@,
        r.version as nat,
    ) + seq!['}']
}

/// The symbols of a profile snapshot.
pub open spec fn profile_symbols(p: ProfileSnapshot) -> Seq<char> {
    match p {
        ProfileSnapshot::Password { symbols, .. } => symbols@,
    }
}

/// What canonicalization gives for a recipe: the first derivation-critical string
/// that is not ASCII (format, scheme, credential UID, public salt, then the
/// profile's symbols) is named in the error; otherwise the UTF-8 bytes of the
/// canonical text.
pub open spec fn canonical_recipe_result(r: DerivationRecipeV1) -> Result<Seq<u8>, CodecError> {
    if !ascii_text(r.format@) {
        Err(CodecError::NonAscii { field: "format" })
    } else if !ascii_text(r.scheme@) {
        Err(CodecError::NonAscii { field: "scheme" })
    } else if !ascii_text(r.credential_uid@) {
        Err(CodecError::NonAscii { field: "credential_uid" })
    } else if !ascii_text(r.public_salt@) {
        Err(CodecError::NonAscii { field: "public_salt" })
    } else if !ascii_text(profile_symbols(r.profile_snapshot)) {
        Err(CodecError::NonAscii { field: "profile_snapshot.symbols" })
    } else {
        Ok(encode_utf8(canonical_recipe_text(r)))
    }
}

fn validate_ascii(field: &'static str, value: &str) -> (r: Result<(), CodecError>)
    ensures
        r is Ok <==> ascii_text(value@),
        r matches Err(e) ==> e == (CodecError::NonAscii { field }),
{
    if value.is_ascii() {
        Ok(())
    } else {
        Err(CodecError::NonAscii { field })
    }
}

fn purpose_str(purpose: &Purpose) -> (r: &'static str)
    ensures
        r@ == purpose_text(*purpose),
{
    match purpose {
        Purpose::WebPassword => "web-password",
    }
}

fn push_profile_snapshot(out: &mut String, profile: &ProfileSnapshot) -> (r: Result<(), CodecError>)
    ensures
        r is Ok <==> ascii_text(profile_symbols(*profile)),
        r matches Err(e) ==> e == (CodecError::NonAscii { field: "profile_snapshot.symbols" }),
        r is Ok ==> final(out)@ == old(out)@ + canonical_profile_text(*profile),
{
    match profile {
        ProfileSnapshot::Password {
            length,
            min_uppercase,
            min_lowercase,
            min_digits,
            min_symbols,
            symbols,
        } => {
            validate_ascii("profile_snapshot.symbols", symbols.as_str())?;
            let ghost start = out@;
            push_char(out, '{');
            push_string_field(out, "kind", "password");
            let ghost s1 = out@;
            push_next_int_field(out, "length", *length);
            push_next_int_field(out, "min_digits", *min_digits);
            push_next_int_field(out, "min_lowercase", *min_lowercase);
            push_next_int_field(out, "min_symbols", *min_symbols);
            push_next_int_field(out, "min_uppercase", *min_uppercase);
            let ghost s2 = out@;
            push_char(out, ',');
            push_string_field(out, "symbols", symbols.as_str());
            push_char(out, '}');
            assert(out@ =~= start + canonical_profile_text(*profile));
            Ok(())
        },
    }
}

/// Canonical JSON bytes for a `seedpass-v1` derivation recipe.
///
/// This is written by hand over the closed derivation struct; it does not
/// canonicalize arbitrary values.
pub fn canonical_recipe_v1(recipe: &DerivationRecipeV1) -> (r: Result<Vec<u8>, CodecError>)
    ensures
        match (r, canonical_recipe_result(*recipe)) {
            (Ok(b), Ok(s)) => b@ == s,
            (Err(e), Err(f)) => e == f,
            _ => false,
        },
{
    validate_ascii("format", recipe.format.as_str())?;
    validate_ascii("scheme", recipe.scheme.as_str())?;
    validate_ascii("credential_uid", recipe.credential_uid.as_str())?;
    validate_ascii("public_salt", recipe.public_salt.as_str())?;
    let mut out = String::new();
    push_char(&mut out, '{');
    push_string_field(&mut out, "credential_uid", recipe.credential_uid.as_str());
    push_char(&mut out, ',');
    push_string_field(&mut out, "format", recipe.format.as_str());
    push_char(&mut out, ',');
    push_json_string(&mut out, "profile_snapshot");
    push_char(&mut out, ':');
    let ghost mid = out@;
    push_profile_snapshot(&mut out, &recipe.profile_snapshot)?;
    push_char(&mut out, ',');
    push_string_field(&mut out, "public_salt", recipe.public_salt.as_str());
    push_char(&mut out, ',');
    push_string_field(&mut out, "purpose", purpose_str(&recipe.purpose));
    push_char(&mut out, ',');
    push_string_field(&mut out, "scheme", recipe.scheme.as_str());
    push_char(&mut out, ',');
    push_u32_field(&mut out, "version", recipe.version);
    push_char(&mut out, '}');
    assert(out@ =~= canonical_recipe_text(*recipe));
    let bytes = out.as_str().as_bytes_vec();
    Ok(bytes)
}


// ---------------------------------------------------------------------------
// Reading the canonical text back

/// A decimal digit.
pub open spec fn is_digit(c: char) -> bool {
    '0' <= c && c <= '9'
}

proof fn lemma_decimal_digits(n: nat)
    ensures
        decimal(n).len() >= 1,
        n >= 10 ==> decimal(n).len() >= 2,
        forall|i: int| 0 <= i < decimal(n).len() ==> is_digit(#[trigger] decimal(n)[i]),
    decreases n,
{
    if n >= 10 {
        lemma_decimal_digits(n / 10);
        let d = decimal(n / 10);
        assert(decimal(n) == d.push(crate::text::digit_char(n % 10)));
        assert forall|i: int| 0 <= i < decimal(n).len() implies is_digit(#[trigger] decimal(n)[i]) by {
            if i < d.len() {
                assert(decimal(n)[i] == d[i]);
            }
        }
    }
}

proof fn lemma_decimal_injective(n: nat, m: nat)
    requires
        decimal(n) == decimal(m),
    ensures
        n == m,
    decreases n,
{
    lemma_decimal_digits(n);
    lemma_decimal_digits(m);
    if n >= 10 && m >= 10 {
        assert(decimal(n).drop_last() =~= decimal(n / 10));
        assert(decimal(m).drop_last() =~= decimal(m / 10));
        lemma_decimal_injective(n / 10, m / 10);
        assert(decimal(n) == decimal(n / 10).push(crate::text::digit_char(n % 10)));
        assert(decimal(m) == decimal(m / 10).push(crate::text::digit_char(m % 10)));
        let dn = crate::text::digit_char(n % 10);
        let dm = crate::text::digit_char(m % 10);
        assert(decimal(n / 10).push(dn)[decimal(n / 10).len() as int] == dn);
        assert(decimal(m / 10).push(dm)[decimal(m / 10).len() as int] == dm);
        assert(decimal(n / 10).len() == decimal(m / 10).len());
        assert(dn == dm);
        assert(n % 10 == m % 10);
    } else if n < 10 && m < 10 {
        assert(decimal(n) == seq![crate::text::digit_char(n)]);
        assert(decimal(m) == seq![crate::text::digit_char(m)]);
        let dn = crate::text::digit_char(n);
        let dm = crate::text::digit_char(m);
        assert(seq![dn][0] == dn);
        assert(seq![dm][0] == dm);
        assert(dn == dm);
    } else {
        assert(decimal(n).len() == decimal(m).len());
    }
}

/// A decimal followed by a non-digit is read back exactly.
pub proof fn lemma_decimal_parse(n: nat, m: nat, x: Seq<char>, y: Seq<char>)
    requires
        decimal(n) + x == decimal(m) + y,
        x.len() > 0 && !is_digit(x[0]),
        y.len() > 0 && !is_digit(y[0]),
    ensures
        n == m,
        x == y,
{
    lemma_decimal_digits(n);
    lemma_decimal_digits(m);
    let a = decimal(n);
    let b = decimal(m);
    if a.len() < b.len() {
        assert((a + x)[a.len() as int] == (b + y)[a.len() as int]);
    } else if b.len() < a.len() {
        assert((a + x)[b.len() as int] == (b + y)[b.len() as int]);
    } else {
        assert((a + x).take(a.len() as int) =~= a);
        assert((b + y).take(b.len() as int) =~= b);
        lemma_decimal_injective(n, m);
        assert((a + x).skip(a.len() as int) =~= x);
        assert((b + y).skip(b.len() as int) =~= y);
    }
}

proof fn lemma_json_escape_front(s: Seq<char>)
    requires
        s.len() > 0,
    ensures
        json_escape(s) == json_escape_char(s[0]) + json_escape(s.drop_first()),
    decreases s.len(),
{
    if s.len() > 1 {
        lemma_json_escape_front(s.drop_last());
        assert(s.drop_last().drop_first() =~= s.drop_first().drop_last());
        assert(s.drop_first().last() == s.last());
        assert(json_escape(s) =~= json_escape_char(s[0]) + json_escape(s.drop_first()));
    } else {
        assert(s.drop_first() =~= Seq::<char>::empty());
        assert(s.drop_last() =~= Seq::<char>::empty());
        assert(json_escape(s) =~= json_escape_char(s[0]) + json_escape(s.drop_first()));
    }
}

proof fn lemma_hex_digit(d: nat, e: nat)
    requires
        d < 16,
        e < 16,
        hex_digit(d) == hex_digit(e),
    ensures
        d == e,
{
}

/// One escaped character followed by anything is read back exactly.
proof fn lemma_escape_char_parse(a: char, b: char, x: Seq<char>, y: Seq<char>)
    requires
        json_escape_char(a) + x == json_escape_char(b) + y,
    ensures
        a == b,
        x == y,
{
    let ea = json_escape_char(a);
    let eb = json_escape_char(b);
    assert((ea + x)[0] == (eb + y)[0]);
    if ea.len() >= 2 && eb.len() >= 2 {
        assert((ea + x)[1] == (eb + y)[1]);
        if ea.len() == 6 && eb.len() == 6 {
            assert((ea + x)[4] == (eb + y)[4]);
            assert((ea + x)[5] == (eb + y)[5]);
            lemma_hex_digit((a as nat) / 16, (b as nat) / 16);
            lemma_hex_digit((a as nat) % 16, (b as nat) % 16);
            assert(a as nat == b as nat);
        }
    }
    assert(ea == eb);
    assert((ea + x).skip(ea.len() as int) =~= x);
    assert((eb + y).skip(eb.len() as int) =~= y);
}

/// An escaped text followed by a quote is read back exactly: the escape never
/// writes a bare quote.
pub proof fn lemma_json_escape_parse(s: Seq<char>, t: Seq<char>, x: Seq<char>, y: Seq<char>)
    requires
        json_escape(s) + x == json_escape(t) + y,
        x.len() > 0 && x[0] == '"',
        y.len() > 0 && y[0] == '"',
    ensures
        s == t,
        x == y,
    decreases s.len(),
{
    if s.len() == 0 {
        assert(json_escape(s) =~= Seq::<char>::empty());
        if t.len() > 0 {
            lemma_json_escape_front(t);
            assert((json_escape(t) + y)[0] == json_escape_char(t[0])[0]);
            assert(x[0] == (json_escape(s) + x)[0]);
        } else {
            assert(json_escape(t) =~= Seq::<char>::empty());
            assert(json_escape(s) + x =~= x);
            assert(json_escape(t) + y =~= y);
            assert(s =~= t);
        }
    } else if t.len() == 0 {
        lemma_json_escape_front(s);
        assert(json_escape(t) =~= Seq::<char>::empty());
        assert((json_escape(s) + x)[0] == json_escape_char(s[0])[0]);
        assert(y[0] == (json_escape(t) + y)[0]);
    } else {
        lemma_json_escape_front(s);
        lemma_json_escape_front(t);
        let es = json_escape(s.drop_first());
        let et = json_escape(t.drop_first());
        assert(json_escape(s) + x =~= json_escape_char(s[0]) + (es + x));
        assert(json_escape(t) + y =~= json_escape_char(t[0]) + (et + y));
        lemma_escape_char_parse(s[0], t[0], es + x, et + y);
        lemma_json_escape_parse(s.drop_first(), t.drop_first(), x, y);
        assert(s =~= seq![s[0]] + s.drop_first());
        assert(t =~= seq![t[0]] + t.drop_first());
    }
}

/// Escaping keeps ASCII text ASCII.
pub proof fn lemma_json_escape_ascii(s: Seq<char>)
    requires
        ascii_text(s),
    ensures
        ascii_text(json_escape(s)),
    decreases s.len(),
{
    if s.len() > 0 {
        assert(ascii_text(s.drop_last()));
        lemma_json_escape_ascii(s.drop_last());
        let c = s.last();
        assert(ascii_text(json_escape_char(c)));
        let a = json_escape(s.drop_last());
        assert forall|i: int| 0 <= i < json_escape(s).len() implies '\0' <= #[trigger] json_escape(s)[i] <= '\u{7f}' by {
            if i < a.len() {
                assert(json_escape(s)[i] == a[i]);
            } else {
                assert(json_escape(s)[i] == json_escape_char(c)[i - a.len()]);
            }
        }
    }
}


/// Two ASCII texts joined are ASCII.
pub broadcast proof fn lemma_ascii_concat(a: Seq<char>, b: Seq<char>)
    requires
        ascii_text(a),
        ascii_text(b),
    ensures
        #[trigger] ascii_text(a + b),
{
    assert forall|i: int| 0 <= i < (a + b).len() implies '\0' <= #[trigger] (a + b)[i] <= '\u{7f}' by {
        if i < a.len() {
            assert((a + b)[i] == a[i]);
        } else {
            assert((a + b)[i] == b[i - a.len()]);
        }
    }
}

proof fn lemma_json_string_ascii(s: Seq<char>)
    requires
        ascii_text(s),
    ensures
        ascii_text(json_string(s)),
{
    broadcast use lemma_ascii_concat;
    lemma_json_escape_ascii(s);
    assert(ascii_text(seq!['"']));
}

proof fn lemma_decimal_ascii(n: nat)
    ensures
        ascii_text(decimal(n)),
{
    lemma_decimal_digits(n);
    assert forall|i: int| 0 <= i < decimal(n).len() implies '\0' <= #[trigger] decimal(n)[i] <= '\u{7f}' by {
        assert(is_digit(decimal(n)[i]));
    }
}

/// The canonical text of a recipe whose derivation-critical strings are ASCII is
/// ASCII.
#[verifier::rlimit(100)]
pub proof fn lemma_canonical_text_ascii(r: DerivationRecipeV1)
    requires
        ascii_text(r.format@),
        ascii_text(r.scheme@),
        ascii_text(r.credential_uid@),
        ascii_text(r.public_salt@),
        ascii_text(profile_symbols(r.profile_snapshot)),
    ensures
        ascii_text(canonical_recipe_text(r)),
{
    broadcast use lemma_ascii_concat;
    reveal_strlit("credential_uid");
    reveal_strlit("format");
    reveal_strlit("profile_snapshot");
    reveal_strlit("kind");
    reveal_strlit("password");
    reveal_strlit("length");
    reveal_strlit("min_digits");
    reveal_strlit("min_lowercase");
    reveal_strlit("min_symbols");
    reveal_strlit("min_uppercase");
    reveal_strlit("symbols");
    reveal_strlit("public_salt");
    reveal_strlit("purpose");
    reveal_strlit("web-password");
    reveal_strlit("scheme");
    reveal_strlit("version");
    let ProfileSnapshot::Password { length, min_uppercase, min_lowercase, min_digits, min_symbols, symbols } =
        r.profile_snapshot;
    lemma_json_string_ascii("credential_uid"@);
    lemma_json_string_ascii("format"@);
    lemma_json_string_ascii("profile_snapshot"@);
    lemma_json_string_ascii("kind"@);
    lemma_json_string_ascii("password"@);
    lemma_json_string_ascii("length"@);
    lemma_json_string_ascii("min_digits"@);
    lemma_json_string_ascii("min_lowercase"@);
    lemma_json_string_ascii("min_symbols"@);
    lemma_json_string_ascii("min_uppercase"@);
    lemma_json_string_ascii("symbols"@);
    lemma_json_string_ascii("public_salt"@);
    lemma_json_string_ascii("purpose"@);
    lemma_json_string_ascii("web-password"@);
    lemma_json_string_ascii("scheme"@);
    lemma_json_string_ascii("version"@);
    lemma_json_string_ascii(r.credential_uid@);
    lemma_json_string_ascii(r.format@);
    lemma_json_string_ascii(r.public_salt@);
    lemma_json_string_ascii(r.scheme@);
    lemma_json_string_ascii(symbols@);
    lemma_decimal_ascii(length as nat);
    lemma_decimal_ascii(min_digits as nat);
    lemma_decimal_ascii(min_lowercase as nat);
    lemma_decimal_ascii(min_symbols as nat);
    lemma_decimal_ascii(min_uppercase as nat);
    lemma_decimal_ascii(r.version as nat);
    assert(ascii_text(seq!['{']) && ascii_text(seq!['}']) && ascii_text(seq![':']) && ascii_text(seq![',']));
    assert(ascii_text(canonical_profile_text(r.profile_snapshot)));
}


/// `"key":"value"` followed by `rest`, grouped from the right.
pub open spec fn sfc(key: Seq<char>, value: Seq<char>, rest: Seq<char>) -> Seq<char> {
    json_string(key) + (seq![':'] + (seq!['"'] + (json_escape(value) + (seq!['"'] + rest))))
}

/// `"key":n` followed by `rest`, grouped from the right.
pub open spec fn ifc(key: Seq<char>, n: nat, rest: Seq<char>) -> Seq<char> {
    json_string(key) + (seq![':'] + (decimal(n) + rest))
}

/// `,"key":n` followed by `rest`, grouped from the right.
pub open spec fn nifc(key: Seq<char>, n: nat, rest: Seq<char>) -> Seq<char> {
    seq![','] + ifc(key, n, rest)
}

/// The integer fields and symbols of a profile: length, then the minimums of
/// digits, lower-case letters, symbols and upper-case letters, then the symbols.
pub open spec fn profile_fields(p: ProfileSnapshot) -> (u16, u16, u16, u16, u16, Seq<char>) {
    match p {
        ProfileSnapshot::Password { length, min_uppercase, min_lowercase, min_digits, min_symbols, symbols } => (
            length,
            min_digits,
            min_lowercase,
            min_symbols,
            min_uppercase,
            symbols@,
        ),
    }
}

/// The canonical text of a profile followed by `k`, grouped from the right.
pub open spec fn profile_chain(p: ProfileSnapshot, k: Seq<char>) -> Seq<char> {
    let f = profile_fields(p);
    let tail = seq![','] + sfc("symbols"@, f.5, seq!['}'] + k);
    seq!['{'] + sfc(
        "kind"@,
        "password"@,
        nifc(
            "length"@,
            f.0 as nat,
            nifc("min_digits"@, f.1 as nat, nifc("min_lowercase"@, f.2 as nat, nifc("min_symbols"@, f.3 as nat, nifc("min_uppercase"@, f.4 as nat, tail)))),
        ),
    )
}

/// The canonical text after the profile, grouped from the right.
pub open spec fn after_profile_chain(r: DerivationRecipeV1) -> Seq<char> {
    seq![','] + sfc(
        "public_salt"@,
        r.public_salt@,
        seq![','] + sfc(
            "purpose"@,
            purpose_text(r.purpose),
            seq![','] + sfc("scheme"@, r.scheme@, seq![','] + ifc("version"@, r.version as nat, seq!['}'])),
        ),
    )
}

/// The canonical text of a recipe, grouped from the right.
pub open spec fn recipe_chain(r: DerivationRecipeV1) -> Seq<char> {
    seq!['{'] + sfc(
        "credential_uid"@,
        r.credential_uid@,
        seq![','] + sfc(
            "format"@,
            r.format@,
            seq![','] + (json_string("profile_snapshot"@) + (seq![':'] + profile_chain(r.profile_snapshot, after_profile_chain(r)))),
        ),
    )
}

proof fn lemma_sfc(key: Seq<char>, value: Seq<char>, rest: Seq<char>)
    ensures
        string_field(key, value) + rest == sfc(key, value, rest),
{
    assert(string_field(key, value) + rest =~= sfc(key, value, rest));
}

proof fn lemma_ifc(key: Seq<char>, n: nat, rest: Seq<char>)
    ensures
        int_field(key, n) + rest == ifc(key, n, rest),
        next_int_field(key, n) + rest == nifc(key, n, rest),
{
    assert(int_field(key, n) + rest =~= ifc(key, n, rest));
    assert(next_int_field(key, n) + rest =~= nifc(key, n, rest));
}

/// Joining texts is associative (stated for one grouping).
pub proof fn lemma_assoc(a: Seq<char>, b: Seq<char>, c: Seq<char>)
    ensures
        (a + b) + c == a + (b + c),
{
    assert((a + b) + c =~= a + (b + c));
}

proof fn lemma_profile_chain(p: ProfileSnapshot, k: Seq<char>)
    ensures
        canonical_profile_text(p) + k == profile_chain(p, k),
{
    let f = profile_fields(p);
    let ProfileSnapshot::Password { length, min_uppercase, min_lowercase, min_digits, min_symbols, symbols } = p;
    let c0 = seq!['{'] + string_field("kind"@, "password"@);
    let c1 = c0 + next_int_field("length"@, length as nat);
    let c2 = c1 + next_int_field("min_digits"@, min_digits as nat);
    let c3 = c2 + next_int_field("min_lowercase"@, min_lowercase as nat);
    let c4 = c3 + next_int_field("min_symbols"@, min_symbols as nat);
    let c5 = c4 + next_int_field("min_uppercase"@, min_uppercase as nat);
    let c6 = c5 + seq![','];
    let c7 = c6 + string_field("symbols"@, symbols@);
    assert(canonical_profile_text(p) == c7 + seq!['}']);
    let k7 = seq!['}'] + k;
    lemma_assoc(c7, seq!['}'], k);
    lemma_assoc(c6, string_field("symbols"@, symbols@), k7);
    lemma_sfc("symbols"@, symbols@, k7);
    let k6 = seq![','] + sfc("symbols"@, f.5, k7);
    lemma_assoc(c5, seq![','], sfc("symbols"@, f.5, k7));
    lemma_assoc(c4, next_int_field("min_uppercase"@, min_uppercase as nat), k6);
    lemma_ifc("min_uppercase"@, min_uppercase as nat, k6);
    let k5 = nifc("min_uppercase"@, f.4 as nat, k6);
    lemma_assoc(c3, next_int_field("min_symbols"@, min_symbols as nat), k5);
    lemma_ifc("min_symbols"@, min_symbols as nat, k5);
    let k4 = nifc("min_symbols"@, f.3 as nat, k5);
    lemma_assoc(c2, next_int_field("min_lowercase"@, min_lowercase as nat), k4);
    lemma_ifc("min_lowercase"@, min_lowercase as nat, k4);
    let k3 = nifc("min_lowercase"@, f.2 as nat, k4);
    lemma_assoc(c1, next_int_field("min_digits"@, min_digits as nat), k3);
    lemma_ifc("min_digits"@, min_digits as nat, k3);
    let k2 = nifc("min_digits"@, f.1 as nat, k3);
    lemma_assoc(c0, next_int_field("length"@, length as nat), k2);
    lemma_ifc("length"@, length as nat, k2);
    let k1 = nifc("length"@, f.0 as nat, k2);
    lemma_assoc(seq!['{'], string_field("kind"@, "password"@), k1);
    lemma_sfc("kind"@, "password"@, k1);
}

proof fn lemma_recipe_chain(r: DerivationRecipeV1)
    ensures
        canonical_recipe_text(r) == recipe_chain(r),
{
    let c0 = seq!['{'] + string_field("credential_uid"@, r.credential_uid@);
    let c1 = c0 + seq![','];
    let c2 = c1 + string_field("format"@, r.format@);
    let c3 = c2 + seq![','];
    let c4 = c3 + json_string("profile_snapshot"@);
    let c5 = c4 + seq![':'];
    let c6 = c5 + canonical_profile_text(r.profile_snapshot);
    let c7 = c6 + seq![','];
    let c8 = c7 + string_field("public_salt"@, r.public_salt@);
    let c9 = c8 + seq![','];
    let c10 = c9 + string_field("purpose"@, purpose_text(r.purpose));
    let c11 = c10 + seq![','];
    let c12 = c11 + string_field("scheme"@, r.scheme@);
    let c13 = c12 + seq![','];
    let c14 = c13 + int_field("version"@, r.version as nat);
    assert(canonical_recipe_text(r) == c14 + seq!['}']);
    let k14 = seq!['}'];
    lemma_assoc(c13, int_field("version"@, r.version as nat), k14);
    lemma_ifc("version"@, r.version as nat, k14);
    let k13 = ifc("version"@, r.version as nat, k14);
    lemma_assoc(c12, seq![','], k13);
    let k12 = seq![','] + k13;
    lemma_assoc(c11, string_field("scheme"@, r.scheme@), k12);
    lemma_sfc("scheme"@, r.scheme@, k12);
    let k11 = sfc("scheme"@, r.scheme@, k12);
    lemma_assoc(c10, seq![','], k11);
    let k10 = seq![','] + k11;
    lemma_assoc(c9, string_field("purpose"@, purpose_text(r.purpose)), k10);
    lemma_sfc("purpose"@, purpose_text(r.purpose), k10);
    let k9 = sfc("purpose"@, purpose_text(r.purpose), k10);
    lemma_assoc(c8, seq![','], k9);
    let k8 = seq![','] + k9;
    lemma_assoc(c7, string_field("public_salt"@, r.public_salt@), k8);
    lemma_sfc("public_salt"@, r.public_salt@, k8);
    let k7 = sfc("public_salt"@, r.public_salt@, k8);
    lemma_assoc(c6, seq![','], k7);
    let k6 = seq![','] + k7;
    assert(k6 == after_profile_chain(r));
    lemma_assoc(c5, canonical_profile_text(r.profile_snapshot), k6);
    lemma_profile_chain(r.profile_snapshot, k6);
    let k5 = profile_chain(r.profile_snapshot, k6);
    lemma_assoc(c4, seq![':'], k5);
    let k4 = seq![':'] + k5;
    lemma_assoc(c3, json_string("profile_snapshot"@), k4);
    let k3 = json_string("profile_snapshot"@) + k4;
    lemma_assoc(c2, seq![','], k3);
    let k2 = seq![','] + k3;
    lemma_assoc(c1, string_field("format"@, r.format@), k2);
    lemma_sfc("format"@, r.format@, k2);
    let k1 = sfc("format"@, r.format@, k2);
    lemma_assoc(c0, seq![','], k1);
    let k0 = seq![','] + k1;
    lemma_assoc(seq!['{'], string_field("credential_uid"@, r.credential_uid@), k0);
    lemma_sfc("credential_uid"@, r.credential_uid@, k0);
}

proof fn peel_prefix(l: Seq<char>, x: Seq<char>, y: Seq<char>)
    requires
        l + x == l + y,
    ensures
        x == y,
{
    assert((l + x).skip(l.len() as int) =~= x);
    assert((l + y).skip(l.len() as int) =~= y);
}

proof fn peel_sfc(key: Seq<char>, s: Seq<char>, t: Seq<char>, x: Seq<char>, y: Seq<char>)
    requires
        sfc(key, s, x) == sfc(key, t, y),
    ensures
        s == t,
        x == y,
{
    let l = json_string(key);
    peel_prefix(l, seq![':'] + (seq!['"'] + (json_escape(s) + (seq!['"'] + x))), seq![':'] + (seq!['"'] + (json_escape(t) + (seq!['"'] + y))));
    peel_prefix(seq![':'], seq!['"'] + (json_escape(s) + (seq!['"'] + x)), seq!['"'] + (json_escape(t) + (seq!['"'] + y)));
    peel_prefix(seq!['"'], json_escape(s) + (seq!['"'] + x), json_escape(t) + (seq!['"'] + y));
    lemma_json_escape_parse(s, t, seq!['"'] + x, seq!['"'] + y);
    peel_prefix(seq!['"'], x, y);
}

proof fn peel_ifc(key: Seq<char>, n: nat, m: nat, x: Seq<char>, y: Seq<char>)
    requires
        ifc(key, n, x) == ifc(key, m, y),
        x.len() > 0 && !is_digit(x[0]),
        y.len() > 0 && !is_digit(y[0]),
    ensures
        n == m,
        x == y,
{
    peel_prefix(json_string(key), seq![':'] + (decimal(n) + x), seq![':'] + (decimal(m) + y));
    peel_prefix(seq![':'], decimal(n) + x, decimal(m) + y);
    lemma_decimal_parse(n, m, x, y);
}

proof fn peel_nifc(key: Seq<char>, n: nat, m: nat, x: Seq<char>, y: Seq<char>)
    requires
        nifc(key, n, x) == nifc(key, m, y),
        x.len() > 0 && !is_digit(x[0]),
        y.len() > 0 && !is_digit(y[0]),
    ensures
        n == m,
        x == y,
{
    peel_prefix(seq![','], ifc(key, n, x), ifc(key, m, y));
    peel_ifc(key, n, m, x, y);
}

/// Equal canonical texts come only from recipes that agree on every derivation
/// field.
#[verifier::rlimit(100)]
pub proof fn lemma_canonical_text_injective(a: DerivationRecipeV1, b: DerivationRecipeV1)
    requires
        canonical_recipe_text(a) == canonical_recipe_text(b),
    ensures
        a.credential_uid@ == b.credential_uid@,
        a.format@ == b.format@,
        profile_fields(a.profile_snapshot) == profile_fields(b.profile_snapshot),
        a.public_salt@ == b.public_salt@,
        a.purpose == b.purpose,
        a.scheme@ == b.scheme@,
        a.version == b.version,
{
    lemma_recipe_chain(a);
    lemma_recipe_chain(b);
    let pa = profile_fields(a.profile_snapshot);
    let pb = profile_fields(b.profile_snapshot);
    let ka = after_profile_chain(a);
    let kb = after_profile_chain(b);
    let ra = seq![','] + (json_string("profile_snapshot"@) + (seq![':'] + profile_chain(a.profile_snapshot, ka)));
    let rb = seq![','] + (json_string("profile_snapshot"@) + (seq![':'] + profile_chain(b.profile_snapshot, kb)));
    let fa = seq![','] + sfc("format"@, a.format@, ra);
    let fb = seq![','] + sfc("format"@, b.format@, rb);
    peel_prefix(seq!['{'], sfc("credential_uid"@, a.credential_uid@, fa), sfc("credential_uid"@, b.credential_uid@, fb));
    peel_sfc("credential_uid"@, a.credential_uid@, b.credential_uid@, fa, fb);
    peel_prefix(seq![','], sfc("format"@, a.format@, ra), sfc("format"@, b.format@, rb));
    peel_sfc("format"@, a.format@, b.format@, ra, rb);
    peel_prefix(seq![','], json_string("profile_snapshot"@) + (seq![':'] + profile_chain(a.profile_snapshot, ka)), json_string("profile_snapshot"@) + (seq![':'] + profile_chain(b.profile_snapshot, kb)));
    peel_prefix(json_string("profile_snapshot"@), seq![':'] + profile_chain(a.profile_snapshot, ka), seq![':'] + profile_chain(b.profile_snapshot, kb));
    peel_prefix(seq![':'], profile_chain(a.profile_snapshot, ka), profile_chain(b.profile_snapshot, kb));
    // Inside the profile.
    let ta = seq![','] + sfc("symbols"@, pa.5, seq!['}'] + ka);
    let tb = seq![','] + sfc("symbols"@, pb.5, seq!['}'] + kb);
    let ua = nifc("min_uppercase"@, pa.4 as nat, ta);
    let ub = nifc("min_uppercase"@, pb.4 as nat, tb);
    let sa = nifc("min_symbols"@, pa.3 as nat, ua);
    let sb = nifc("min_symbols"@, pb.3 as nat, ub);
    let wa = nifc("min_lowercase"@, pa.2 as nat, sa);
    let wb = nifc("min_lowercase"@, pb.2 as nat, sb);
    let da = nifc("min_digits"@, pa.1 as nat, wa);
    let db = nifc("min_digits"@, pb.1 as nat, wb);
    let la = nifc("length"@, pa.0 as nat, da);
    let lb = nifc("length"@, pb.0 as nat, db);
    peel_prefix(seq!['{'], sfc("kind"@, "password"@, la), sfc("kind"@, "password"@, lb));
    peel_sfc("kind"@, "password"@, "password"@, la, lb);
    peel_nifc("length"@, pa.0 as nat, pb.0 as nat, da, db);
    peel_nifc("min_digits"@, pa.1 as nat, pb.1 as nat, wa, wb);
    peel_nifc("min_lowercase"@, pa.2 as nat, pb.2 as nat, sa, sb);
    peel_nifc("min_symbols"@, pa.3 as nat, pb.3 as nat, ua, ub);
    peel_nifc("min_uppercase"@, pa.4 as nat, pb.4 as nat, ta, tb);
    peel_prefix(seq![','], sfc("symbols"@, pa.5, seq!['}'] + ka), sfc("symbols"@, pb.5, seq!['}'] + kb));
    peel_sfc("symbols"@, pa.5, pb.5, seq!['}'] + ka, seq!['}'] + kb);
    peel_prefix(seq!['}'], ka, kb);
    // After the profile.
    let va = seq![','] + ifc("version"@, a.version as nat, seq!['}']);
    let vb = seq![','] + ifc("version"@, b.version as nat, seq!['}']);
    let ca = seq![','] + sfc("scheme"@, a.scheme@, va);
    let cb = seq![','] + sfc("scheme"@, b.scheme@, vb);
    let qa = seq![','] + sfc("purpose"@, purpose_text(a.purpose), ca);
    let qb = seq![','] + sfc("purpose"@, purpose_text(b.purpose), cb);
    peel_prefix(seq![','], sfc("public_salt"@, a.public_salt@, qa), sfc("public_salt"@, b.public_salt@, qb));
    peel_sfc("public_salt"@, a.public_salt@, b.public_salt@, qa, qb);
    peel_prefix(seq![','], sfc("purpose"@, purpose_text(a.purpose), ca), sfc("purpose"@, purpose_text(b.purpose), cb));
    peel_sfc("purpose"@, purpose_text(a.purpose), purpose_text(b.purpose), ca, cb);
    peel_prefix(seq![','], sfc("scheme"@, a.scheme@, va), sfc("scheme"@, b.scheme@, vb));
    peel_sfc("scheme"@, a.scheme@, b.scheme@, va, vb);
    peel_prefix(seq![','], ifc("version"@, a.version as nat, seq!['}']), ifc("version"@, b.version as nat, seq!['}']));
    peel_ifc("version"@, a.version as nat, b.version as nat, seq!['}'], seq!['}']);
    assert(a.purpose == b.purpose);
}


proof fn step_lit(t: Seq<char>, a: Seq<char>, x: Seq<char>, rest: Seq<char>)
    requires
        t == a + (x + rest),
    ensures
        t == (a + x) + rest,
{
    lemma_assoc(a, x, rest);
}

proof fn step_sfc(t: Seq<char>, a: Seq<char>, key: Seq<char>, v: Seq<char>, rest: Seq<char>) -> (a2: Seq<char>)
    requires
        t == a + sfc(key, v, rest),
    ensures
        follows_key(t, json_string(key) + seq![':', '"'], json_escape(v), '"'),
        t == a2 + rest,
{
    let k = json_string(key) + seq![':', '"'];
    let b = seq!['"'] + rest;
    assert(t =~= a + (k + (json_escape(v) + b)));
    assert(b[0] == '"');
    let a2 = a + (k + (json_escape(v) + seq!['"']));
    assert(t =~= a2 + rest);
    a2
}

proof fn step_ifc(t: Seq<char>, a: Seq<char>, key: Seq<char>, n: nat, rest: Seq<char>) -> (a2: Seq<char>)
    requires
        t == a + ifc(key, n, rest),
        rest.len() > 0,
    ensures
        follows_key(t, json_string(key) + seq![':'], decimal(n), rest[0]),
        t == a2 + rest,
{
    let k = json_string(key) + seq![':'];
    assert(t =~= a + (k + (decimal(n) + rest)));
    let a2 = a + (k + decimal(n));
    assert(t =~= a2 + rest);
    a2
}

/// Every key of the canonical recipe JSON carries the recipe's field of that name:
/// after `"credential_uid":"`, `"format":"`, `"symbols":"`, `"public_salt":"` and
/// `"scheme":"` stand the escaped UID, format, profile symbols, public salt and
/// scheme, each closed by a quote; after `"length":`, `"min_digits":`,
/// `"min_lowercase":`, `"min_symbols":`, `"min_uppercase":` and `"version":` stand
/// the decimals of the profile's length and minimums and of the version, each
/// ended by `,` or `}`.
pub proof fn law_canonical_fields_follow_their_keys(r: DerivationRecipeV1)
    ensures
        ({
            let t = canonical_recipe_text(r);
            &&& follows_key(t, json_string("credential_uid"@) + seq![':', '"'], json_escape(r.credential_uid@), '"')
            &&& follows_key(t, json_string("format"@) + seq![':', '"'], json_escape(r.format@), '"')
            &&& follows_key(t, json_string("public_salt"@) + seq![':', '"'], json_escape(r.public_salt@), '"')
            &&& follows_key(t, json_string("scheme"@) + seq![':', '"'], json_escape(r.scheme@), '"')
            &&& follows_key(t, json_string("version"@) + seq![':'], decimal(r.version as nat), '}')
            &&& match r.profile_snapshot {
                ProfileSnapshot::Password { length, min_uppercase, min_lowercase, min_digits, min_symbols, symbols } => {
                    &&& follows_key(t, json_string("length"@) + seq![':'], decimal(length as nat), ',')
                    &&& follows_key(t, json_string("min_digits"@) + seq![':'], decimal(min_digits as nat), ',')
                    &&& follows_key(t, json_string("min_lowercase"@) + seq![':'], decimal(min_lowercase as nat), ',')
                    &&& follows_key(t, json_string("min_symbols"@) + seq![':'], decimal(min_symbols as nat), ',')
                    &&& follows_key(t, json_string("min_uppercase"@) + seq![':'], decimal(min_uppercase as nat), ',')
                    &&& follows_key(t, json_string("symbols"@) + seq![':', '"'], json_escape(symbols@), '"')
                },
            }
        }),
{
    lemma_recipe_chain(r);
    let t = canonical_recipe_text(r);
    let p = r.profile_snapshot;
    let f = profile_fields(p);
    let k = after_profile_chain(r);
    let ProfileSnapshot::Password { length, min_uppercase, min_lowercase, min_digits, min_symbols, symbols } = p;
    assert(f == (length, min_digits, min_lowercase, min_symbols, min_uppercase, symbols@));
    let pc = profile_chain(p, k);
    let f2 = seq![','] + (json_string("profile_snapshot"@) + (seq![':'] + pc));
    let f1 = seq![','] + sfc("format"@, r.format@, f2);
    let a = step_sfc(t, seq!['{'], "credential_uid"@, r.credential_uid@, f1);
    step_lit(t, a, seq![','], sfc("format"@, r.format@, f2));
    let a = step_sfc(t, a + seq![','], "format"@, r.format@, f2);
    step_lit(t, a, seq![','], json_string("profile_snapshot"@) + (seq![':'] + pc));
    let a = a + seq![','];
    step_lit(t, a, json_string("profile_snapshot"@), seq![':'] + pc);
    let a = a + json_string("profile_snapshot"@);
    step_lit(t, a, seq![':'], pc);
    let a = a + seq![':'];
    // Inside the profile.
    let tail = seq![','] + sfc("symbols"@, f.5, seq!['}'] + k);
    let u = nifc("min_uppercase"@, f.4 as nat, tail);
    let sy = nifc("min_symbols"@, f.3 as nat, u);
    let w = nifc("min_lowercase"@, f.2 as nat, sy);
    let d = nifc("min_digits"@, f.1 as nat, w);
    let l = nifc("length"@, f.0 as nat, d);
    step_lit(t, a, seq!['{'], sfc("kind"@, "password"@, l));
    let a = step_sfc(t, a + seq!['{'], "kind"@, "password"@, l);
    step_lit(t, a, seq![','], ifc("length"@, f.0 as nat, d));
    let a = step_ifc(t, a + seq![','], "length"@, f.0 as nat, d);
    step_lit(t, a, seq![','], ifc("min_digits"@, f.1 as nat, w));
    let a = step_ifc(t, a + seq![','], "min_digits"@, f.1 as nat, w);
    step_lit(t, a, seq![','], ifc("min_lowercase"@, f.2 as nat, sy));
    let a = step_ifc(t, a + seq![','], "min_lowercase"@, f.2 as nat, sy);
    step_lit(t, a, seq![','], ifc("min_symbols"@, f.3 as nat, u));
    let a = step_ifc(t, a + seq![','], "min_symbols"@, f.3 as nat, u);
    step_lit(t, a, seq![','], ifc("min_uppercase"@, f.4 as nat, tail));
    let a = step_ifc(t, a + seq![','], "min_uppercase"@, f.4 as nat, tail);
    step_lit(t, a, seq![','], sfc("symbols"@, f.5, seq!['}'] + k));
    let a = step_sfc(t, a + seq![','], "symbols"@, f.5, seq!['}'] + k);
    step_lit(t, a, seq!['}'], k);
    let a = a + seq!['}'];
    // After the profile.
    let v = seq![','] + ifc("version"@, r.version as nat, seq!['}']);
    let c = seq![','] + sfc("scheme"@, r.scheme@, v);
    let q = seq![','] + sfc("purpose"@, purpose_text(r.purpose), c);
    step_lit(t, a, seq![','], sfc("public_salt"@, r.public_salt@, q));
    let a = step_sfc(t, a + seq![','], "public_salt"@, r.public_salt@, q);
    step_lit(t, a, seq![','], sfc("purpose"@, purpose_text(r.purpose), c));
    let a = step_sfc(t, a + seq![','], "purpose"@, purpose_text(r.purpose), c);
    step_lit(t, a, seq![','], sfc("scheme"@, r.scheme@, v));
    let a = step_sfc(t, a + seq![','], "scheme"@, r.scheme@, v);
    step_lit(t, a, seq![','], ifc("version"@, r.version as nat, seq!['}']));
    let a = step_ifc(t, a + seq![','], "version"@, r.version as nat, seq!['}']);
}

} // verus!
