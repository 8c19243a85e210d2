//! Small text-building helpers with exact contracts.
use vstd::prelude::*;

verus! {

/// Appends one character to a `String` (`String::push`).
#[verifier::external_body]
pub(crate) fn push_char(s: &mut String, c: char)
    ensures
        final(s)@ == old(s)@.push(c),
{
    s.push(c);
}

/// ASCII decimal digit for `d < 10`.
pub open spec fn digit_char(d: nat) -> char {
    (48 + d) as char
}

/// Decimal representation of a natural number, without leading zeroes.
pub open spec fn decimal(n: nat) -> Seq<char>
    decreases n,
{
    if n < 10 {
        seq![digit_char(n)]
    } else {
        decimal(n / 10).push(digit_char(n % 10))
    }
}

/// The decimal text of `n` has at most `n + 1` digits.
pub proof fn lemma_decimal_len(n: nat)
    ensures
        1 <= decimal(n).len() <= n + 1,
    decreases n,
{
    if n >= 10 {
        lemma_decimal_len(n / 10);
    }
}

/// UTF-8 takes at most four bytes per character.
pub proof fn lemma_encode_utf8_len(s: Seq<char>)
    ensures
        vstd::utf8::encode_utf8(s).len() <= 4 * s.len(),
    decreases s.len(),
{
    if s.len() > 0 {
        lemma_encode_utf8_len(s.drop_first());
    }
}

/// Appends the decimal text of `n` to `out`.
pub fn push_decimal(out: &mut String, n: u64)
    ensures
        final(out)@ == old(out)@ + decimal(n as nat),
    decreases n,
{
    if n >= 10 {
        push_decimal(out, n / 10);
    }
    let d: u8 = (n % 10) as u8;
    let c: char = (48u8 + d) as char;
    push_char(out, c);
}

/// Octal representation of a natural number, without leading zeroes.
pub open spec fn octal(n: nat) -> Seq<char>
    decreases n,
{
    if n < 8 {
        seq![digit_char(n)]
    } else {
        octal(n / 8).push(digit_char(n % 8))
    }
}

/// Appends the octal text of `n` to `out`.
pub fn push_octal(out: &mut String, n: u32)
    ensures
        final(out)@ == old(out)@ + octal(n as nat),
    decreases n,
{
    if n >= 8 {
        push_octal(out, n / 8);
    }
    let d: u8 = (n % 8) as u8;
    let c: char = (48u8 + d) as char;
    push_char(out, c);
}

/// The characters of a string, in order.
pub fn chars_of(s: &str) -> (r: Vec<char>)
    ensures
        r@ == s@,
{
    let mut v: Vec<char> = Vec::new();
    for c in it: s.chars()
        invariant
            v@ == it.seq().take(it.index() as int),
    {
        v.push(c);
    }
    v
}

/// Whether `c` occurs in `v`.
pub fn contains_char(v: &Vec<char>, c: char) -> (r: bool)
    ensures
        r == v@.contains(c),
{
    for i in 0..v.len()
        invariant
            forall|j: int| 0 <= j < i ==> v@[j] != c,
    {
        if v[i] == c {
            return true;
        }
    }
    false
}

/// A string holding the characters `s`.
pub fn string_from_chars(s: &Vec<char>) -> (r: String)
    ensures
        r@ == s@,
{
    let mut out = String::new();
    for i in 0..s.len()
        invariant
            out@ == s@.take(i as int),
    {
        push_char(&mut out, s[i]);
        assert(out@ =~= s@.take(i + 1));
    }
    assert(s@.take(s.len() as int) =~= s@);
    out
}

/// Whether two texts are equal.
pub fn same_text(a: &str, b: &str) -> (r: bool)
    ensures
        r == (a@ == b@),
{
    a.to_owned() == b.to_owned()
}

/// A string holding `a` followed by `b`.
pub fn concat2(a: &str, b: &str) -> (r: String)
    ensures
        r@ == a@ + b@,
{
    let mut out = String::new();
    out.append(a);
    out.append(b);
    out
}

/// A string holding `a`, `b` and `c` in order.
pub fn concat3(a: &str, b: &str, c: &str) -> (r: String)
    ensures
        r@ == a@ + b@ + c@,
{
    let mut out = String::new();
    out.append(a);
    out.append(b);
    out.append(c);
    out
}

/// The text that `{:?}` gives for a character: the character between single quotes,
/// escaped where it is not printable.
pub uninterp spec fn char_debug_text(c: char) -> Seq<char>;

/// ASCII characters from `!` to `~`.
pub open spec fn is_ascii_graphic(c: char) -> bool {
    '!' <= c <= '~'
}

/// ASCII letters and digits.
pub open spec fn is_ascii_alphanumeric(c: char) -> bool {
    ('0' <= c <= '9') || ('A' <= c <= 'Z') || ('a' <= c <= 'z')
}

/// Somewhere in `t`, `key` is followed by `value` and then by the character `next`.
pub open spec fn follows_key(t: Seq<char>, key: Seq<char>, value: Seq<char>, next: char) -> bool {
    exists|a: Seq<char>, b: Seq<char>|
        #![trigger a + (key + (value + b))]
        t == a + (key + (value + b)) && b.len() > 0 && b[0] == next
}

/// The ASCII whitespace set of `char::is_ascii_whitespace`.
pub open spec fn is_ascii_whitespace(c: char) -> bool {
    c == ' ' || c == '\t' || c == '\n' || c == '\x0C' || c == '\r'
}

/// `format!("{c:?}")`, the `Debug` text of a character: a printable ASCII character
/// other than a quote or backslash stands between single quotes.
#[verifier::external_body]
pub(crate) fn char_debug(c: char) -> (r: String)
    ensures
        r@ == char_debug_text(c),
        is_ascii_graphic(c) && c != '\'' && c != '\\' ==> r@ == seq!['\'', c, '\''],
{
    format!("{c:?}")
}

// ---------------------------------------------------------------------------
// Text order

/// Lexicographic order of texts by character, as `Ord` orders `String`s.
pub open spec fn text_lt(a: Seq<char>, b: Seq<char>) -> bool
    decreases a.len(),
{
    if a.len() == 0 {
        b.len() > 0
    } else if b.len() == 0 {
        false
    } else if a[0] != b[0] {
        a[0] < b[0]
    } else {
        text_lt(a.drop_first(), b.drop_first())
    }
}

/// The text order is transitive.
pub proof fn lemma_text_lt_transitive(a: Seq<char>, b: Seq<char>, c: Seq<char>)
    requires
        text_lt(a, b),
        text_lt(b, c),
    ensures
        text_lt(a, c),
    decreases a.len(),
{
    if a.len() > 0 && b.len() > 0 && c.len() > 0 && a[0] == b[0] && b[0] == c[0] {
        lemma_text_lt_transitive(a.drop_first(), b.drop_first(), c.drop_first());
    }
}

/// Of two different texts, one is less than the other; no text is less than one
/// that is less than it.
pub proof fn lemma_text_lt_total(a: Seq<char>, b: Seq<char>)
    ensures
        a == b || text_lt(a, b) || text_lt(b, a),
        !(text_lt(a, b) && text_lt(b, a)),
    decreases a.len(),
{
    if a.len() > 0 && b.len() > 0 && a[0] == b[0] {
        lemma_text_lt_total(a.drop_first(), b.drop_first());
        if a.drop_first() == b.drop_first() {
            assert(a =~= seq![a[0]] + a.drop_first());
            assert(b =~= seq![b[0]] + b.drop_first());
        }
    } else if a.len() == 0 && b.len() == 0 {
        assert(a =~= b);
    }
}

/// Whether `a` comes before `b` in the text order.
pub fn text_less(a: &str, b: &str) -> (r: bool)
    ensures
        r == text_lt(a@, b@),
{
    let ac = chars_of(a);
    let bc = chars_of(b);
    let mut i: usize = 0;
    assert(a@.skip(0) =~= a@);
    assert(b@.skip(0) =~= b@);
    while i < ac.len() && i < bc.len() && ac[i] == bc[i]
        invariant
            ac@ == a@,
            bc@ == b@,
            i <= ac.len(),
            i <= bc.len(),
            text_lt(a@, b@) == text_lt(a@.skip(i as int), b@.skip(i as int)),
        decreases ac.len() - i,
    {
        assert(a@.skip(i as int).drop_first() =~= a@.skip(i + 1));
        assert(b@.skip(i as int).drop_first() =~= b@.skip(i + 1));
        i += 1;
    }
    if i == ac.len() {
        i < bc.len()
    } else if i == bc.len() {
        false
    } else {
        ac[i] < bc[i]
    }
}


// ---------------------------------------------------------------------------
// Key order

/// Where key `k` goes into `ord` (indices into `keys`), searching from `t`: before
/// the first key greater than `k`, so after every equal key.
pub open spec fn insert_pos(keys: Seq<Seq<char>>, ord: Seq<int>, k: Seq<char>, t: int) -> int
    decreases ord.len() - t,
{
    if t >= ord.len() {
        ord.len() as int
    } else if text_lt(k, keys[ord[t]]) {
        t
    } else {
        insert_pos(keys, ord, k, t + 1)
    }
}

/// The indices `0..n` of `keys` in key order, equal keys in their list order: each
/// index in turn is inserted after every key not greater than its own.
pub open spec fn key_order_upto(keys: Seq<Seq<char>>, n: nat) -> Seq<int>
    decreases n,
{
    if n == 0 {
        seq![]
    } else {
        let ord = key_order_upto(keys, (n - 1) as nat);
        ord.insert(insert_pos(keys, ord, keys[n - 1], 0), n - 1)
    }
}

/// The indices of `keys` in key order: the order in which a map keyed by them
/// holds its entries.
pub open spec fn key_order(keys: Seq<Seq<char>>) -> Seq<int> {
    key_order_upto(keys, keys.len())
}

/// The entries of an association list in the order of their keys.
pub open spec fn by_key<K: View<V = Seq<char>>, V>(entries: Seq<(K, V)>) -> Seq<(K, V)> {
    key_order(entries.map_values(|e: (K, V)| e.0@)).map_values(|i: int| entries[i])
}

proof fn lemma_insert_pos(keys: Seq<Seq<char>>, ord: Seq<int>, k: Seq<char>, t: int)
    requires
        0 <= t <= ord.len(),
    ensures
        t <= insert_pos(keys, ord, k, t) <= ord.len(),
        forall|u: int| t <= u < insert_pos(keys, ord, k, t) ==> !text_lt(k, #[trigger] keys[ord[u]]),
        insert_pos(keys, ord, k, t) < ord.len() ==> text_lt(k, keys[ord[insert_pos(keys, ord, k, t)]]),
    decreases ord.len() - t,
{
    if t < ord.len() && !text_lt(k, keys[ord[t]]) {
        lemma_insert_pos(keys, ord, k, t + 1);
    }
}

/// The key order holds every index below `n` once, and its keys never decrease.
pub proof fn lemma_key_order_upto(keys: Seq<Seq<char>>, n: nat)
    requires
        n <= keys.len(),
    ensures
        key_order_upto(keys, n).len() == n,
        forall|t: int| 0 <= t < n ==> 0 <= #[trigger] key_order_upto(keys, n)[t] < n,
        forall|t: int, u: int|
            0 <= t < u < n ==> key_order_upto(keys, n)[t] != key_order_upto(keys, n)[u],
        forall|i: int| 0 <= i < n ==> key_order_upto(keys, n).contains(i),
        forall|t: int, u: int|
            0 <= t < u < n ==> !text_lt(
                keys[#[trigger] key_order_upto(keys, n)[u]],
                keys[#[trigger] key_order_upto(keys, n)[t]],
            ),
    decreases n,
{
    if n > 0 {
        let m = (n - 1) as nat;
        lemma_key_order_upto(keys, m);
        let ord = key_order_upto(keys, m);
        let k = keys[m as int];
        lemma_insert_pos(keys, ord, k, 0);
        let p = insert_pos(keys, ord, k, 0);
        let r = ord.insert(p, m as int);
        assert(r == key_order_upto(keys, n));
        assert forall|t: int| 0 <= t < n implies #[trigger] r[t] == if t < p {
            ord[t]
        } else if t == p {
            m as int
        } else {
            ord[t - 1]
        } by {}
        assert forall|i: int| 0 <= i < n implies r.contains(i) by {
            if i == m {
                assert(r[p] == m);
            } else {
                assert(ord.contains(i));
                let t = choose|t: int| 0 <= t < ord.len() && ord[t] == i;
                assert(0 <= t < ord.len() && ord[t] == i);
                if t < p {
                    assert(r[t] == i);
                } else {
                    assert(r[t + 1] == i);
                }
            }
        }
        assert forall|t: int, u: int| 0 <= t < u < n implies !text_lt(
            keys[#[trigger] r[u]],
            keys[#[trigger] r[t]],
        ) by {
            if t == p && u > p {
                let b = keys[ord[u - 1]];
                let a = keys[ord[p]];
                assert(r[t] == m && r[u] == ord[u - 1]);
                if text_lt(b, k) {
                    if u - 1 > p {
                        assert(!text_lt(b, a));
                    }
                    lemma_text_lt_transitive(b, k, a);
                    lemma_text_lt_total(b, k);
                }
            } else if t < p && u > p {
                assert(r[t] == ord[t] && r[u] == ord[u - 1]);
                assert(!text_lt(keys[ord[u - 1]], keys[ord[t]]));
            } else if t < p && u == p {
                assert(r[t] == ord[t] && r[u] == m);
                assert(!text_lt(k, keys[ord[t]]));
            } else if u < p {
                assert(r[t] == ord[t] && r[u] == ord[u]);
                assert(!text_lt(keys[ord[u]], keys[ord[t]]));
            } else {
                assert(r[t] == ord[t - 1] && r[u] == ord[u - 1]);
                assert(!text_lt(keys[ord[u - 1]], keys[ord[t - 1]]));
            }
        }
    }
}

/// The indices of `keys` in key order, equal keys in their list order.
pub fn key_order_exec(keys: &Vec<&str>) -> (r: Vec<usize>)
    ensures
        r@.len() == keys@.len(),
        forall|t: int| 0 <= t < r@.len() ==> #[trigger] r@[t] as int == key_order(
            keys@.map_values(|k: &str| k@),
        )[t],
        forall|t: int| 0 <= t < r@.len() ==> #[trigger] r@[t] < keys@.len(),
{
    let ghost ks = keys@.map_values(|k: &str| k@);
    let mut ord: Vec<usize> = Vec::new();
    for j in 0..keys.len()
        invariant
            ks == keys@.map_values(|k: &str| k@),
            ord@.len() == j,
            forall|t: int| 0 <= t < j ==> #[trigger] ord@[t] as int == key_order_upto(ks, j as nat)[t],
            forall|t: int| 0 <= t < j ==> #[trigger] ord@[t] < j,
    {
        proof {
            lemma_key_order_upto(ks, j as nat);
        }
        let ghost prev = key_order_upto(ks, j as nat);
        assert(prev =~= ord@.map_values(|i: usize| i as int));
        let mut t: usize = 0;
        while t < ord.len() && !text_less(keys[j], keys[ord[t]])
            invariant
                ks == keys@.map_values(|k: &str| k@),
                ord@.len() == j,
                prev == ord@.map_values(|i: usize| i as int),
                forall|u: int| 0 <= u < j ==> #[trigger] ord@[u] < j,
                j < keys@.len(),
                t <= ord.len(),
                insert_pos(ks, prev, ks[j as int], t as int) == insert_pos(ks, prev, ks[j as int], 0),
            decreases ord.len() - t,
        {
            assert(ks[ord@[t as int] as int] == keys@[ord@[t as int] as int]@);
            t += 1;
        }
        proof {
            if t < ord.len() {
                assert(ks[ord@[t as int] as int] == keys@[ord@[t as int] as int]@);
            }
            assert(insert_pos(ks, prev, ks[j as int], t as int) == t);
        }
        ord.insert(t, j);
        proof {
            assert(key_order_upto(ks, (j + 1) as nat) == prev.insert(t as int, j as int));
        }
    }
    ord
}

} // verus!
