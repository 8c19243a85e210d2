//! Password profile rules.
use vstd::prelude::*;
use crate::model::{diags_view, hard, DiagView, Diagnostic, ProfileSnapshot};
use crate::text::{char_debug, char_debug_text, contains_char, decimal, is_ascii_alphanumeric, is_ascii_graphic, is_ascii_whitespace, push_decimal};

verus! {

/// Messages of profile diagnostics.
pub open spec fn msg_bad_length(length: u16) -> Seq<char> {
    "password length must be between 8 and 256, got "@ + decimal(length as nat)
}

pub open spec fn msg_minimums_exceed() -> Seq<char> {
    "password profile minimum counts exceed length"@
}

pub open spec fn msg_symbols_required() -> Seq<char> {
    "password profile requires symbols but symbol set is empty"@
}

pub open spec fn msg_symbol_nonprintable(c: char) -> Seq<char> {
    "symbol set contains non-printable or whitespace character: "@ + char_debug_text(c)
}

pub open spec fn msg_symbol_alphanumeric(c: char) -> Seq<char> {
    "symbol set overlaps fixed alphanumeric classes: "@ + char_debug_text(c)
}

pub open spec fn msg_symbol_duplicate(c: char) -> Seq<char> {
    "symbol set contains duplicate character: "@ + char_debug_text(c)
}

/// `d` when `cond` holds, nothing otherwise.
pub open spec fn diag_if(cond: bool, d: DiagView) -> Seq<DiagView> {
    if cond {
        seq![d]
    } else {
        seq![]
    }
}

/// Findings for one symbol `c`, given the symbols `seen` before it.
pub open spec fn symbol_diags_at(c: char, seen: Seq<char>) -> Seq<DiagView> {
    diag_if(!is_ascii_graphic(c) || is_ascii_whitespace(c), hard(msg_symbol_nonprintable(c)))
        + diag_if(is_ascii_alphanumeric(c), hard(msg_symbol_alphanumeric(c)))
        + diag_if(seen.contains(c), hard(msg_symbol_duplicate(c)))
}

/// Findings for a symbol set, symbol by symbol in order.
pub open spec fn symbol_diags(symbols: Seq<char>) -> Seq<DiagView>
    decreases symbols.len(),
{
    if symbols.len() == 0 {
        seq![]
    } else {
        symbol_diags(symbols.drop_last()) + symbol_diags_at(symbols.last(), symbols.drop_last())
    }
}

/// All findings for a password profile: length bounds, minimum counts against
/// length, symbols required but missing, then each symbol.
pub open spec fn password_profile_diags(
    length: u16,
    min_uppercase: u16,
    min_lowercase: u16,
    min_digits: u16,
    min_symbols: u16,
    symbols: Seq<char>,
) -> Seq<DiagView> {
    diag_if(!(8 <= length <= 256), hard(msg_bad_length(length)))
        + diag_if(
        min_uppercase + min_lowercase + min_digits + min_symbols > length,
        hard(msg_minimums_exceed()),
    ) + diag_if(min_symbols > 0 && symbols.len() == 0, hard(msg_symbols_required()))
        + symbol_diags(symbols)
}

impl ProfileSnapshot {
    /// The findings of `validate_profile`.
    pub open spec fn profile_diags(&self) -> Seq<DiagView> {
        match self {
            ProfileSnapshot::Password {
                length,
                min_uppercase,
                min_lowercase,
                min_digits,
                min_symbols,
                symbols,
            } => password_profile_diags(
                *length,
                *min_uppercase,
                *min_lowercase,
                *min_digits,
                *min_symbols,
                symbols@,
            ),
        }
    }

    pub fn validate_profile(&self) -> (r: Vec<Diagnostic>)
        ensures
            diags_view(r@) == self.profile_diags(),
    {
        match self {
            ProfileSnapshot::Password {
                length,
                min_uppercase,
                min_lowercase,
                min_digits,
                min_symbols,
                symbols,
            } => validate_password_profile(
                *length,
                *min_uppercase,
                *min_lowercase,
                *min_digits,
                *min_symbols,
                symbols.as_str(),
            ),
        }
    }
}

fn ascii_graphic(c: char) -> (r: bool)
    ensures
        r == is_ascii_graphic(c),
{
    '!' <= c && c <= '~'
}

fn ascii_whitespace(c: char) -> (r: bool)
    ensures
        r == is_ascii_whitespace(c),
{
    c == ' ' || c == '\t' || c == '\n' || c == '\x0C' || c == '\r'
}

fn ascii_alphanumeric(c: char) -> (r: bool)
    ensures
        r == is_ascii_alphanumeric(c),
{
    ('0' <= c && c <= '9') || ('A' <= c && c <= 'Z') || ('a' <= c && c <= 'z')
}

fn push_hard(out: &mut Vec<Diagnostic>, message: String)
    ensures
        diags_view(final(out)@) == diags_view(old(out)@).push(hard(message@)),
{
    let ghost before = diags_view(out@);
    out.push(Diagnostic::hard(message));
    assert(diags_view(out@) =~= before.push(hard(message@)));
}

/// Findings for a password profile, in order.
pub fn validate_password_profile(
    length: u16,
    min_uppercase: u16,
    min_lowercase: u16,
    min_digits: u16,
    min_symbols: u16,
    symbols: &str,
) -> (r: Vec<Diagnostic>)
    ensures
        diags_view(r@) == password_profile_diags(
            length,
            min_uppercase,
            min_lowercase,
            min_digits,
            min_symbols,
            symbols@,
        ),
{
    let mut diagnostics: Vec<Diagnostic> = Vec::new();
    if !(8 <= length && length <= 256) {
        let mut m = String::new();
        m.append("password length must be between 8 and 256, got ");
        push_decimal(&mut m, length as u64);
        push_hard(&mut diagnostics, m);
    }
    let minimum_sum: u32 = min_uppercase as u32 + min_lowercase as u32 + min_digits as u32
        + min_symbols as u32;
    if minimum_sum > length as u32 {
        let mut m = String::new();
        m.append("password profile minimum counts exceed length");
        push_hard(&mut diagnostics, m);
    }
    if min_symbols > 0 && symbols.is_empty() {
        let mut m = String::new();
        m.append("password profile requires symbols but symbol set is empty");
        push_hard(&mut diagnostics, m);
    }
    let ghost head = diags_view(diagnostics@);
    assert(head == diag_if(!(8 <= length <= 256), hard(msg_bad_length(length))) + diag_if(
        min_uppercase + min_lowercase + min_digits + min_symbols > length,
        hard(msg_minimums_exceed()),
    ) + diag_if(min_symbols > 0 && symbols@.len() == 0, hard(msg_symbols_required())));
    let mut seen: Vec<char> = Vec::new();
    for ch in it: symbols.chars()
        invariant
            seen@ == it.seq().take(it.index() as int),
            diags_view(diagnostics@) == head + symbol_diags(seen@),
    {
        let ghost prefix = seen@;
        let ghost before = diags_view(diagnostics@);
        if !ascii_graphic(ch) || ascii_whitespace(ch) {
            let mut m = String::new();
            m.append("symbol set contains non-printable or whitespace character: ");
            let d = char_debug(ch);
            m.append(d.as_str());
            push_hard(&mut diagnostics, m);
        }
        if ascii_alphanumeric(ch) {
            let mut m = String::new();
            m.append("symbol set overlaps fixed alphanumeric classes: ");
            let d = char_debug(ch);
            m.append(d.as_str());
            push_hard(&mut diagnostics, m);
        }
        if contains_char(&seen, ch) {
            let mut m = String::new();
            m.append("symbol set contains duplicate character: ");
            let d = char_debug(ch);
            m.append(d.as_str());
            push_hard(&mut diagnostics, m);
        }
        seen.push(ch);
        proof {
            assert(seen@.drop_last() =~= prefix);
            assert(diags_view(diagnostics@) =~= before + symbol_diags_at(ch, prefix));
            assert(symbol_diags(seen@) == symbol_diags(prefix) + symbol_diags_at(ch, prefix));
        }
    }
    assert(seen@ == symbols@);
    diagnostics
}

} // verus!
