//! Duplicate-key preflight for the YAML subset that Seedpass files use.
//!
//! This is not a YAML parser: it reads the simple mapping/list style of
//! derivation-critical files line by line, rejects syntax outside that style, and
//! finds keys that repeat within one mapping.
use vstd::prelude::*;
use crate::codec::CodecError;

verus! {

// ---------------------------------------------------------------------------
// Character classes and runs

/// `char::is_whitespace`: the Unicode `White_Space` property.
pub open spec fn is_whitespace(c: char) -> bool {
    ('\t' <= c && c <= '\r') || c == ' ' || c == '\u{85}' || c == '\u{A0}' || c == '\u{1680}'
        || ('\u{2000}' <= c && c <= '\u{200A}') || c == '\u{2028}' || c == '\u{2029}'
        || c == '\u{202F}' || c == '\u{205F}' || c == '\u{3000}'
}

/// Character classes that the preflight trims or counts.
pub enum CharClass {
    Space,
    Whitespace,
    Is(char),
    IsNot(char),
}

/// Membership in a character class.
pub open spec fn in_class(cls: CharClass, c: char) -> bool {
    match cls {
        CharClass::Space => c == ' ',
        CharClass::Whitespace => is_whitespace(c),
        CharClass::Is(x) => c == x,
        CharClass::IsNot(x) => c != x,
    }
}

fn in_class_exec(cls: &CharClass, c: char) -> (r: bool)
    ensures
        r == in_class(*cls, c),
{
    match cls {
        CharClass::Space => c == ' ',
        CharClass::Whitespace => ('\t' <= c && c <= '\r') || c == ' ' || c == '\u{85}' || c
            == '\u{A0}' || c == '\u{1680}' || ('\u{2000}' <= c && c <= '\u{200A}') || c
            == '\u{2028}' || c == '\u{2029}' || c == '\u{202F}' || c == '\u{205F}' || c
            == '\u{3000}',
        CharClass::Is(x) => c == *x,
        CharClass::IsNot(x) => c != *x,
    }
}

/// `k` is the length of the longest prefix of `s` in the class.
pub open spec fn is_lead(s: Seq<char>, cls: CharClass, k: int) -> bool {
    &&& 0 <= k <= s.len()
    &&& forall|j: int| 0 <= j < k ==> in_class(cls, #[trigger] s[j])
    &&& (k == s.len() || !in_class(cls, s[k]))
}

/// `k` is the length of the longest suffix of `s` in the class.
pub open spec fn is_trail(s: Seq<char>, cls: CharClass, k: int) -> bool {
    &&& 0 <= k <= s.len()
    &&& forall|j: int| s.len() - k <= j < s.len() ==> in_class(cls, #[trigger] s[j])
    &&& (k == s.len() || !in_class(cls, s[s.len() - 1 - k]))
}

/// Length of the longest prefix of `s` in the class.
pub open spec fn lead(s: Seq<char>, cls: CharClass) -> int {
    choose|k: int| is_lead(s, cls, k)
}

/// Length of the longest suffix of `s` in the class.
pub open spec fn trail(s: Seq<char>, cls: CharClass) -> int {
    choose|k: int| is_trail(s, cls, k)
}

proof fn lemma_lead(s: Seq<char>, cls: CharClass, k: int)
    requires
        is_lead(s, cls, k),
    ensures
        lead(s, cls) == k,
{
    let m = lead(s, cls);
    assert(is_lead(s, cls, m));
    if m < k {
        assert(in_class(cls, s[m]));
    } else if k < m {
        assert(in_class(cls, s[k]));
    }
}

proof fn lemma_trail(s: Seq<char>, cls: CharClass, k: int)
    requires
        is_trail(s, cls, k),
    ensures
        trail(s, cls) == k,
{
    let m = trail(s, cls);
    assert(is_trail(s, cls, m));
    if m < k {
        assert(in_class(cls, s[s.len() - 1 - m]));
    } else if k < m {
        assert(in_class(cls, s[s.len() - 1 - k]));
    }
}

fn lead_exec(s: &Vec<char>, cls: &CharClass) -> (r: usize)
    ensures
        r == lead(s@, *cls),
        is_lead(s@, *cls, r as int),
{
    let mut k: usize = 0;
    while k < s.len() && in_class_exec(cls, s[k])
        invariant
            k <= s.len(),
            forall|j: int| 0 <= j < k ==> in_class(*cls, #[trigger] s@[j]),
        decreases s.len() - k,
    {
        k += 1;
    }
    proof {
        lemma_lead(s@, *cls, k as int);
    }
    k
}

fn trail_exec(s: &Vec<char>, cls: &CharClass) -> (r: usize)
    ensures
        r == trail(s@, *cls),
        is_trail(s@, *cls, r as int),
{
    let n = s.len();
    let mut k: usize = 0;
    while k < n && in_class_exec(cls, s[n - 1 - k])
        invariant
            n == s.len(),
            k <= n,
            forall|j: int| n - k <= j < n ==> in_class(*cls, #[trigger] s@[j]),
        decreases n - k,
    {
        k += 1;
    }
    proof {
        lemma_trail(s@, *cls, k as int);
    }
    k
}

fn slice_chars(s: &Vec<char>, from: usize, to: usize) -> (r: Vec<char>)
    requires
        from <= to <= s.len(),
    ensures
        r@ == s@.subrange(from as int, to as int),
{
    let mut out: Vec<char> = Vec::new();
    let mut i = from;
    while i < to
        invariant
            from <= i <= to <= s.len(),
            out@ == s@.subrange(from as int, i as int),
        decreases to - i,
    {
        out.push(s[i]);
        i += 1;
        assert(out@ =~= s@.subrange(from as int, i as int));
    }
    out
}

/// `str::trim_start`.
pub open spec fn trim_start(s: Seq<char>) -> Seq<char> {
    s.skip(lead(s, CharClass::Whitespace))
}

/// `str::trim_end`.
pub open spec fn trim_end(s: Seq<char>) -> Seq<char> {
    s.take(s.len() - trail(s, CharClass::Whitespace))
}

/// `str::trim`.
pub open spec fn trim(s: Seq<char>) -> Seq<char> {
    trim_end(trim_start(s))
}

/// `str::trim_matches(c)`: every leading and trailing `c` removed.
pub open spec fn trim_matches(s: Seq<char>, c: char) -> Seq<char> {
    let a = lead(s, CharClass::Is(c));
    if a == s.len() {
        Seq::empty()
    } else {
        s.subrange(a, s.len() - trail(s, CharClass::Is(c)))
    }
}

/// The part of `s` before the first `c` (all of `s` when it holds no `c`).
pub open spec fn before_char(s: Seq<char>, c: char) -> Seq<char> {
    s.take(lead(s, CharClass::IsNot(c)))
}

fn trim_start_exec(s: &Vec<char>) -> (r: Vec<char>)
    ensures
        r@ == trim_start(s@),
{
    let a = lead_exec(s, &CharClass::Whitespace);
    slice_chars(s, a, s.len())
}

fn trim_end_exec(s: &Vec<char>) -> (r: Vec<char>)
    ensures
        r@ == trim_end(s@),
{
    let b = trail_exec(s, &CharClass::Whitespace);
    slice_chars(s, 0, s.len() - b)
}

fn trim_exec(s: &Vec<char>) -> (r: Vec<char>)
    ensures
        r@ == trim(s@),
{
    let t = trim_start_exec(s);
    trim_end_exec(&t)
}

fn trim_matches_exec(s: &Vec<char>, c: char) -> (r: Vec<char>)
    ensures
        r@ == trim_matches(s@, c),
{
    let a = lead_exec(s, &CharClass::Is(c));
    if a == s.len() {
        return Vec::new();
    }
    let b = trail_exec(s, &CharClass::Is(c));
    proof {
        assert(!in_class(CharClass::Is(c), s@[a as int]));
        if b > s.len() - a {
            assert(in_class(CharClass::Is(c), s@[a as int]));
        }
    }
    slice_chars(s, a, s.len() - b)
}

fn before_char_exec(s: &Vec<char>, c: char) -> (r: Vec<char>)
    ensures
        r@ == before_char(s@, c),
        r@.len() <= s@.len(),
{
    let k = lead_exec(s, &CharClass::IsNot(c));
    slice_chars(s, 0, k)
}

// ---------------------------------------------------------------------------
// Lines

/// A text split at every `sep`.
pub open spec fn split_at_char(p: Seq<char>, sep: char) -> Seq<Seq<char>>
    decreases p.len(),
{
    if p.len() == 0 {
        seq![Seq::<char>::empty()]
    } else if p.last() == sep {
        split_at_char(p.drop_last(), sep).push(Seq::<char>::empty())
    } else {
        let s = split_at_char(p.drop_last(), sep);
        s.update(s.len() - 1, s.last().push(p.last()))
    }
}

proof fn lemma_split_nonempty(p: Seq<char>, sep: char)
    ensures
        split_at_char(p, sep).len() >= 1,
    decreases p.len(),
{
    if p.len() > 0 {
        lemma_split_nonempty(p.drop_last(), sep);
    }
}

/// A line that ended with `\n` loses one `\r` before it.
pub open spec fn strip_cr(line: Seq<char>) -> Seq<char> {
    if line.len() > 0 && line.last() == '\r' {
        line.drop_last()
    } else {
        line
    }
}

/// `str::lines`: lines end at `\n` (dropping a `\r` just before it); a final line
/// ending is optional and makes no empty last line.
pub open spec fn text_lines(s: Seq<char>) -> Seq<Seq<char>> {
    let segs = split_at_char(s, '\n');
    let ended = segs.drop_last().map_values(|l: Seq<char>| strip_cr(l));
    if segs.last().len() == 0 {
        ended
    } else {
        ended.push(segs.last())
    }
}

fn strip_cr_exec(v: Vec<char>) -> (r: Vec<char>)
    ensures
        r@ == strip_cr(v@),
{
    let mut v = v;
    let n = v.len();
    if n > 0 && v[n - 1] == '\r' {
        v.pop();
    }
    v
}

fn lines_exec(chars: &Vec<char>) -> (r: Vec<Vec<char>>)
    ensures
        r@.map_values(|v: Vec<char>| v@) == text_lines(chars@),
        forall|i: int| 0 <= i < r@.len() ==> (#[trigger] r@[i])@.len() <= chars@.len(),
{
    let mut segs: Vec<Vec<char>> = Vec::new();
    let mut cur: Vec<char> = Vec::new();
    for k in 0..chars.len()
        invariant
            split_at_char(chars@.take(k as int), '\n') == segs@.map_values(|v: Vec<char>| v@).push(
                cur@,
            ),
            cur@.len() <= k,
            forall|i: int| 0 <= i < segs@.len() ==> (#[trigger] segs@[i])@.len() <= k,
    {
        let ch = chars[k];
        let ghost prev = chars@.take(k as int);
        let ghost prev_segs = segs@.map_values(|v: Vec<char>| v@);
        let ghost prev_cur = cur@;
        if ch == '\n' {
            let done = cur;
            segs.push(done);
            cur = Vec::new();
            proof {
                assert(segs@.map_values(|v: Vec<char>| v@) =~= prev_segs.push(prev_cur));
            }
        } else {
            cur.push(ch);
        }
        proof {
            let next = chars@.take(k + 1);
            assert(next.drop_last() =~= prev);
            assert(next.last() == ch);
            lemma_split_nonempty(prev, '\n');
            let s = split_at_char(prev, '\n');
            assert(s == prev_segs.push(prev_cur));
            assert(s.last() == prev_cur);
            assert(split_at_char(next, '\n') =~= segs@.map_values(|v: Vec<char>| v@).push(cur@));
        }
    }
    assert(chars@.take(chars.len() as int) =~= chars@);
    let ghost all = split_at_char(chars@, '\n');
    assert(all.drop_last() =~= segs@.map_values(|v: Vec<char>| v@));
    let mut out: Vec<Vec<char>> = Vec::new();
    let mut segs = segs;
    let n = segs.len();
    let mut i: usize = 0;
    while i < n
        invariant
            n == segs.len(),
            i <= n,
            all.drop_last() == segs@.map_values(|v: Vec<char>| v@),
            out@.map_values(|v: Vec<char>| v@) == all.drop_last().take(i as int).map_values(
                |l: Seq<char>| strip_cr(l),
            ),
            forall|j: int| 0 <= j < segs@.len() ==> (#[trigger] segs@[j])@.len() <= chars@.len(),
            forall|j: int| 0 <= j < out@.len() ==> (#[trigger] out@[j])@.len() <= chars@.len(),
        decreases n - i,
    {
        let ghost before = out@.map_values(|v: Vec<char>| v@);
        let line = strip_cr_exec(segs[i].clone());
        assert(segs@[i as int]@ == all.drop_last()[i as int]);
        out.push(line);
        proof {
            let dl = all.drop_last();
            assert(out@.map_values(|v: Vec<char>| v@) =~= before.push(strip_cr(dl[i as int])));
            assert(dl.take(i + 1).map_values(|l: Seq<char>| strip_cr(l)) =~= dl.take(
                i as int,
            ).map_values(|l: Seq<char>| strip_cr(l)).push(strip_cr(dl[i as int])));
        }
        i += 1;
    }
    assert(all.drop_last().take(n as int) =~= all.drop_last());
    if cur.len() > 0 {
        let ghost before = out@.map_values(|v: Vec<char>| v@);
        out.push(cur);
        assert(out@.map_values(|v: Vec<char>| v@) =~= before.push(all.last()));
    }
    out
}


// ---------------------------------------------------------------------------
// One line

/// Open mappings, innermost last: each has its indentation and the keys seen in it.
pub type KeyStack = Seq<(int, Seq<Seq<char>>)>;

/// Pops mappings indented deeper than `indent`, keeping the root.
pub open spec fn pop_deeper(stack: KeyStack, indent: int) -> KeyStack
    decreases stack.len(),
{
    if stack.len() > 1 && indent < stack.last().0 {
        pop_deeper(stack.drop_last(), indent)
    } else {
        stack
    }
}

/// Pops mappings indented at least as deep as `indent`, keeping the root.
pub open spec fn pop_not_shallower(stack: KeyStack, indent: int) -> KeyStack
    decreases stack.len(),
{
    if stack.len() > 1 && indent <= stack.last().0 {
        pop_not_shallower(stack.drop_last(), indent)
    } else {
        stack
    }
}

/// Whether a text holds any of the characters `{`, `}`, `[`, `]`.
pub open spec fn has_bracket(s: Seq<char>) -> bool {
    s.contains('{') || s.contains('}') || s.contains('[') || s.contains(']')
}

/// The mapping key of a line's text: what stands before the first `:`, trimmed and
/// stripped of surrounding double and then single quotes; none when there is no
/// `:` or the key is empty or holds brackets.
pub open spec fn mapping_key(text: Seq<char>) -> Option<Seq<char>> {
    if !text.contains(':') {
        None
    } else {
        let key = trim(before_char(text, ':'));
        if key.len() == 0 || has_bracket(key) {
            None
        } else {
            Some(trim_matches(trim_matches(key, '"'), '\''))
        }
    }
}

/// Reason codes: 0 a repeated key, 1 a tab, 2 a flow mapping, 3 an anchor, alias or
/// merge key.
pub open spec fn reason_text(code: nat) -> Seq<char> {
    if code == 1 {
        "tabs are not allowed in Seedpass YAML"@
    } else if code == 2 {
        "flow mappings are not allowed in Seedpass YAML"@
    } else {
        "anchors, aliases, and merge keys are not allowed in Seedpass YAML"@
    }
}

/// A line starts an anchor, alias or merge key.
pub open spec fn starts_special(t: Seq<char>) -> bool {
    (t.len() >= 1 && (t[0] == '&' || t[0] == '*')) || (t.len() >= 3 && t[0] == '<' && t[1] == '<'
        && t[2] == ':')
}

/// A line is a list item `- ...`.
pub open spec fn starts_item(t: Seq<char>) -> bool {
    t.len() >= 2 && t[0] == '-' && t[1] == ' '
}

/// What one raw line does to the stack of open mappings, or the reason code and
/// key of the error it raises. Text after the first `#` is a comment; blank lines
/// and lines without a mapping key change nothing.
pub open spec fn line_step(stack: KeyStack, raw: Seq<char>) -> Result<KeyStack, (nat, Seq<char>)> {
    let w = before_char(raw, '#');
    if trim(w).len() == 0 {
        Ok(stack)
    } else if raw.contains('\t') {
        Err((1, Seq::empty()))
    } else if w.contains('{') || w.contains('}') {
        Err((2, Seq::empty()))
    } else {
        let indent = lead(w, CharClass::Space);
        let t = trim_start(w);
        if starts_special(t) {
            Err((3, Seq::empty()))
        } else {
            let item = starts_item(t);
            let text = trim_start(
                if item {
                    t.skip(2)
                } else {
                    t
                },
            );
            match mapping_key(text) {
                None => Ok(stack),
                Some(key) => {
                    let s1 = pop_deeper(stack, indent);
                    let s2 = if item {
                        pop_not_shallower(s1, indent).push((indent + 2, Seq::empty()))
                    } else if indent > s1.last().0 {
                        s1.push((indent, Seq::empty()))
                    } else {
                        s1
                    };
                    if s2.last().1.contains(key) {
                        Err((0, key))
                    } else {
                        Ok(s2.update(s2.len() - 1, (s2.last().0, s2.last().1.push(key))))
                    }
                },
            }
        }
    }
}

/// The first error among lines, numbered from `number`: its line number, reason
/// code and key; none when every line passes.
pub open spec fn lines_issue(stack: KeyStack, lines: Seq<Seq<char>>, number: nat) -> Option<
    (nat, nat, Seq<char>),
>
    decreases lines.len(),
{
    if lines.len() == 0 {
        None
    } else {
        match line_step(stack, lines[0]) {
            Err((code, key)) => Some((number, code, key)),
            Ok(next) => lines_issue(next, lines.drop_first(), number + 1),
        }
    }
}

/// The first problem of a Seedpass YAML text, lines numbered from 1.
pub open spec fn yaml_issue(input: Seq<char>) -> Option<(nat, nat, Seq<char>)> {
    lines_issue(seq![(0int, Seq::<Seq<char>>::empty())], text_lines(input), 1)
}

/// The mathematical value of the stack.
pub open spec fn stack_view(v: Seq<(usize, Vec<Vec<char>>)>) -> KeyStack {
    v.map_values(|e: (usize, Vec<Vec<char>>)| (e.0 as int, e.1@.map_values(|k: Vec<char>| k@)))
}

fn chars_eq(a: &Vec<char>, b: &Vec<char>) -> (r: bool)
    ensures
        r == (a@ == b@),
{
    if a.len() != b.len() {
        return false;
    }
    for i in 0..a.len()
        invariant
            a@.len() == b@.len(),
            forall|j: int| 0 <= j < i ==> a@[j] == b@[j],
    {
        if a[i] != b[i] {
            return false;
        }
    }
    assert(a@ =~= b@);
    true
}

fn contains_key(keys: &Vec<Vec<char>>, key: &Vec<char>) -> (r: bool)
    ensures
        r == keys@.map_values(|k: Vec<char>| k@).contains(key@),
{
    for i in 0..keys.len()
        invariant
            forall|j: int| 0 <= j < i ==> (#[trigger] keys@[j])@ != key@,
    {
        if chars_eq(&keys[i], key) {
            assert(keys@.map_values(|k: Vec<char>| k@)[i as int] == key@);
            return true;
        }
    }
    false
}

fn has_char(s: &Vec<char>, c: char) -> (r: bool)
    ensures
        r == s@.contains(c),
{
    crate::text::contains_char(s, c)
}

fn yaml_mapping_key(text: &Vec<char>) -> (r: Option<Vec<char>>)
    ensures
        match (r, mapping_key(text@)) {
            (Some(k), Some(s)) => k@ == s,
            (None, None) => true,
            _ => false,
        },
{
    if !has_char(text, ':') {
        return None;
    }
    let before = before_char_exec(text, ':');
    let key = trim_exec(&before);
    if key.len() == 0 || has_char(&key, '{') || has_char(&key, '}') || has_char(&key, '[')
        || has_char(&key, ']') {
        return None;
    }
    let k1 = trim_matches_exec(&key, '"');
    let k2 = trim_matches_exec(&k1, '\'');
    Some(k2)
}

fn pop_deeper_exec(stack: &mut Vec<(usize, Vec<Vec<char>>)>, indent: usize)
    requires
        old(stack).len() >= 1,
    ensures
        stack_view(final(stack)@) == pop_deeper(stack_view(old(stack)@), indent as int),
        final(stack).len() >= 1,
{
    let ghost target = pop_deeper(stack_view(stack@), indent as int);
    while stack.len() > 1 && indent < stack[stack.len() - 1].0
        invariant
            stack.len() >= 1,
            pop_deeper(stack_view(stack@), indent as int) == target,
        decreases stack.len(),
    {
        let ghost before = stack_view(stack@);
        stack.pop();
        assert(stack_view(stack@) =~= before.drop_last());
    }
}

fn pop_not_shallower_exec(stack: &mut Vec<(usize, Vec<Vec<char>>)>, indent: usize)
    requires
        old(stack).len() >= 1,
    ensures
        stack_view(final(stack)@) == pop_not_shallower(stack_view(old(stack)@), indent as int),
        final(stack).len() >= 1,
{
    let ghost target = pop_not_shallower(stack_view(stack@), indent as int);
    while stack.len() > 1 && indent <= stack[stack.len() - 1].0
        invariant
            stack.len() >= 1,
            pop_not_shallower(stack_view(stack@), indent as int) == target,
        decreases stack.len(),
    {
        let ghost before = stack_view(stack@);
        stack.pop();
        assert(stack_view(stack@) =~= before.drop_last());
    }
}


/// One line of the preflight: updates the stack or returns the reason code and key.
fn process_line(stack: &mut Vec<(usize, Vec<Vec<char>>)>, raw: &Vec<char>) -> (r: Option<(u8, Vec<char>)>)
    requires
        old(stack).len() >= 1,
        raw@.len() + 2 <= usize::MAX,
    ensures
        final(stack).len() >= 1,
        match line_step(stack_view(old(stack)@), raw@) {
            Ok(next) => r is None && stack_view(final(stack)@) == next,
            Err((code, key)) => r matches Some((c, k)) && c as nat == code && k@ == key,
        },
{
    let w = before_char_exec(raw, '#');
    let tw = trim_exec(&w);
    if tw.len() == 0 {
        return None;
    }
    if has_char(raw, '\t') {
        return Some((1, Vec::new()));
    }
    if has_char(&w, '{') || has_char(&w, '}') {
        return Some((2, Vec::new()));
    }
    let indent = lead_exec(&w, &CharClass::Space);
    let t = trim_start_exec(&w);
    let tl = t.len();
    if (tl >= 1 && (t[0] == '&' || t[0] == '*')) || (tl >= 3 && t[0] == '<' && t[1] == '<' && t[2]
        == ':') {
        return Some((3, Vec::new()));
    }
    let item = tl >= 2 && t[0] == '-' && t[1] == ' ';
    let rest = if item {
        slice_chars(&t, 2, tl)
    } else {
        t
    };
    let text = trim_start_exec(&rest);
    let key = match yaml_mapping_key(&text) {
        None => {
            return None;
        },
        Some(k) => k,
    };
    pop_deeper_exec(stack, indent);
    let ghost s1 = stack_view(stack@);
    if item {
        pop_not_shallower_exec(stack, indent);
        let ghost before = stack_view(stack@);
        let empty: Vec<Vec<char>> = Vec::new();
        assert(empty@.map_values(|k: Vec<char>| k@) =~= Seq::<Seq<char>>::empty());
        stack.push((indent + 2, empty));
        assert(stack_view(stack@) =~= before.push((indent + 2, Seq::empty())));
    } else if indent > stack[stack.len() - 1].0 {
        let ghost before = stack_view(stack@);
        let empty: Vec<Vec<char>> = Vec::new();
        assert(empty@.map_values(|k: Vec<char>| k@) =~= Seq::<Seq<char>>::empty());
        stack.push((indent, empty));
        assert(stack_view(stack@) =~= before.push((indent as int, Seq::empty())));
    }
    let last = stack.len() - 1;
    assert(stack_view(stack@)[last as int] == (stack@[last as int].0 as int, stack@[last as int].1@.map_values(|k: Vec<char>| k@)));
    if contains_key(&stack[last].1, &key) {
        return Some((0, key));
    }
    let ghost s2 = stack_view(stack@);
    let (ind, mut keys) = stack.pop().unwrap();
    let ghost kb = keys@.map_values(|k: Vec<char>| k@);
    let kc = key.clone();
    keys.push(kc);
    assert(keys@.map_values(|k: Vec<char>| k@) =~= kb.push(key@));
    stack.push((ind, keys));
    assert(stack_view(stack@) =~= s2.update(s2.len() - 1, (s2.last().0, s2.last().1.push(key@))));
    None
}

fn reason_str(code: u8) -> (r: &'static str)
    requires
        1 <= code <= 3,
    ensures
        r@ == reason_text(code as nat),
{
    if code == 1 {
        "tabs are not allowed in Seedpass YAML"
    } else if code == 2 {
        "flow mappings are not allowed in Seedpass YAML"
    } else {
        "anchors, aliases, and merge keys are not allowed in Seedpass YAML"
    }
}

proof fn lemma_line_step_code(stack: KeyStack, raw: Seq<char>)
    ensures
        line_step(stack, raw) matches Err((code, key)) ==> code <= 3 && (code != 0 ==> key.len()
            == 0),
{
}

/// Conservative duplicate-key preflight for Seedpass' YAML subset. Lines are
/// numbered from 1; the first problem stops the scan.
pub fn reject_duplicate_yaml_keys(input: &str) -> (r: Result<(), CodecError>)
    requires
        input@.len() + 2 <= usize::MAX,
    ensures
        match (r, yaml_issue(input@)) {
            (Ok(()), None) => true,
            (Err(CodecError::DuplicateYamlKey { key, line }), Some((n, code, k))) => (code == 0
                && key@ == k && line as nat == n),
            (Err(CodecError::UnsupportedYamlSyntax { line, reason }), Some((n, code, _))) => (
            code != 0 && reason@ == reason_text(code) && line as nat == n),
            _ => false,
        },
{
    let chars = crate::text::chars_of(input);
    let lines = lines_exec(&chars);
    let ghost all = lines@.map_values(|v: Vec<char>| v@);
    let mut stack: Vec<(usize, Vec<Vec<char>>)> = Vec::new();
    let empty: Vec<Vec<char>> = Vec::new();
    assert(empty@.map_values(|k: Vec<char>| k@) =~= Seq::<Seq<char>>::empty());
    stack.push((0, empty));
    assert(stack_view(stack@) =~= seq![(0int, Seq::<Seq<char>>::empty())]);
    let n = lines.len();
    let mut i: usize = 0;
    assert(all.skip(0) =~= all);
    while i < n
        invariant
            n == lines.len(),
            i <= n,
            all == lines@.map_values(|v: Vec<char>| v@),
            all == text_lines(input@),
            chars@ == input@,
            input@.len() + 2 <= usize::MAX,
            stack.len() >= 1,
            forall|j: int| 0 <= j < lines@.len() ==> (#[trigger] lines@[j])@.len() <= chars@.len(),
            lines_issue(stack_view(stack@), all.skip(i as int), (i + 1) as nat) == yaml_issue(input@),
        decreases n - i,
    {
        let ghost before = stack_view(stack@);
        assert(all.skip(i as int)[0] == lines@[i as int]@);
        proof {
            lemma_line_step_code(before, lines@[i as int]@);
        }
        let res = process_line(&mut stack, &lines[i]);
        match res {
            Some((code, key)) => {
                if code == 0 {
                    return Err(
                        CodecError::DuplicateYamlKey {
                            key: crate::text::string_from_chars(&key),
                            line: i + 1,
                        },
                    );
                } else {
                    return Err(
                        CodecError::UnsupportedYamlSyntax { line: i + 1, reason: reason_str(code) },
                    );
                }
            },
            None => {},
        }
        assert(all.skip(i as int).drop_first() =~= all.skip(i + 1));
        i += 1;
    }
    Ok(())
}

} // verus!
