//! Character-level string helpers shared by the URL builders, the
//! narrative lines and the bracket logic: decimal rendering of integers,
//! lexicographic order, ASCII case folding and whitespace tokenisation.
use vstd::prelude::*;

verus! {

// ---------------------------------------------------------------------------
// String and character primitives
// ---------------------------------------------------------------------------

/// `String::push`: appends one character at the end of the string, as
/// std documents it.
#[verifier::external_body]
pub(crate) fn push_char(s: &mut String, c: char)
    ensures
        final(s)@ == old(s)@.push(c),
{
    s.push(c);
}

/// Whether a character has the Unicode `White_Space` property, which is
/// what `char::is_whitespace` answers: the ASCII controls tab through
/// carriage return, space, next line, no-break space, ogham space mark,
/// the spaces from en quad through hair space, the line and paragraph
/// separators, narrow no-break space, medium mathematical space and the
/// ideographic space.
pub open spec fn is_white(c: char) -> bool {
    let u = c as u32;
    ||| 0x09 <= u <= 0x0d
    ||| u == 0x20
    ||| u == 0x85
    ||| u == 0xa0
    ||| u == 0x1680
    ||| 0x2000 <= u <= 0x200a
    ||| u == 0x2028
    ||| u == 0x2029
    ||| u == 0x202f
    ||| u == 0x205f
    ||| u == 0x3000
}

/// Whether `c` is whitespace (see [`is_white`]).
pub fn char_is_whitespace(c: char) -> (r: bool)
    ensures
        r == is_white(c),
{
    let u = c as u32;
    (0x09 <= u && u <= 0x0d) || u == 0x20 || u == 0x85 || u == 0xa0 || u == 0x1680 || (0x2000
        <= u && u <= 0x200a) || u == 0x2028 || u == 0x2029 || u == 0x202f || u == 0x205f || u
        == 0x3000
}

/// What `str::to_lowercase` returns for a character sequence.
pub uninterp spec fn lowercase_of(s: Seq<char>) -> Seq<char>;

/// `str::to_lowercase`. Unicode case mapping is not written out here; the
/// result is named and depends on the input alone.
#[verifier::external_body]
pub(crate) fn to_lowercase(s: &str) -> (r: String)
    ensures
        r@ == lowercase_of(s@),
{
    s.to_lowercase()
}

/// What `str::to_uppercase` returns for a character sequence.
pub uninterp spec fn uppercase_of(s: Seq<char>) -> Seq<char>;

/// `str::to_uppercase`. Unicode case mapping is not written out here; the
/// result is named and depends on the input alone.
#[verifier::external_body]
pub(crate) fn to_uppercase(s: &str) -> (r: String)
    ensures
        r@ == uppercase_of(s@),
{
    s.to_uppercase()
}

// ---------------------------------------------------------------------------
// Decimal rendering
// ---------------------------------------------------------------------------

/// The ASCII digit for `d` (0..=9).
pub open spec fn digit_char(d: nat) -> char {
    if d == 0 {
        '0'
    } else if d == 1 {
        '1'
    } else if d == 2 {
        '2'
    } else if d == 3 {
        '3'
    } else if d == 4 {
        '4'
    } else if d == 5 {
        '5'
    } else if d == 6 {
        '6'
    } else if d == 7 {
        '7'
    } else if d == 8 {
        '8'
    } else {
        '9'
    }
}

/// Base-10 rendering of a natural number, most significant digit first,
/// no leading zeros (as `Display` prints it).
pub open spec fn dec_nat(n: nat) -> Seq<char>
    decreases n,
{
    if n < 10 {
        seq![digit_char(n)]
    } else {
        dec_nat(n / 10).push(digit_char(n % 10))
    }
}

/// Base-10 rendering of an integer with a leading `-` when negative.
pub open spec fn dec_int(n: int) -> Seq<char> {
    if n < 0 {
        seq!['-'] + dec_nat((-n) as nat)
    } else {
        dec_nat(n as nat)
    }
}

/// Base-10 rendering of an integer, zero-padded on the left to at least
/// two characters (the `{:02}` format of a non-negative number).
pub open spec fn dec_pad2(n: nat) -> Seq<char> {
    if n < 10 {
        seq!['0', digit_char(n)]
    } else {
        dec_nat(n)
    }
}

fn digit(d: u64) -> (c: char)
    requires
        d < 10,
    ensures
        c == digit_char(d as nat),
{
    if d == 0 {
        '0'
    } else if d == 1 {
        '1'
    } else if d == 2 {
        '2'
    } else if d == 3 {
        '3'
    } else if d == 4 {
        '4'
    } else if d == 5 {
        '5'
    } else if d == 6 {
        '6'
    } else if d == 7 {
        '7'
    } else if d == 8 {
        '8'
    } else {
        '9'
    }
}

/// Appends the decimal rendering of `n`.
pub fn push_u64(s: &mut String, n: u64)
    ensures
        final(s)@ == old(s)@ + dec_nat(n as nat),
    decreases n,
{
    if n >= 10 {
        push_u64(s, n / 10);
    }
    push_char(s, digit(n % 10));
    proof {
        assert(dec_nat(n as nat) == if n < 10 {
            seq![digit_char(n as nat)]
        } else {
            dec_nat((n / 10) as nat).push(digit_char((n % 10) as nat))
        });
    }
}

/// Appends the decimal rendering of `n`, with a leading `-` when negative.
pub fn push_i64(s: &mut String, n: i64)
    ensures
        final(s)@ == old(s)@ + dec_int(n as int),
{
    if n < 0 {
        push_char(s, '-');
        let m: u64 = (0i128 - (n as i128)) as u64;
        push_u64(s, m);
    } else {
        push_u64(s, n as u64);
    }
}

/// Appends `n` zero-padded to two digits.
pub fn push_pad2(s: &mut String, n: u64)
    ensures
        final(s)@ == old(s)@ + dec_pad2(n as nat),
{
    if n < 10 {
        push_char(s, '0');
    }
    push_u64(s, n);
}

/// Decimal rendering of an unsigned number.
pub fn fmt_u64(n: u64) -> (r: String)
    ensures
        r@ == dec_nat(n as nat),
{
    let mut s = String::new();
    push_u64(&mut s, n);
    s
}

/// Decimal rendering of a signed number.
pub fn fmt_i64(n: i64) -> (r: String)
    ensures
        r@ == dec_int(n as int),
{
    let mut s = String::new();
    push_i64(&mut s, n);
    s
}

/// Appends a string slice.
pub fn push_str(s: &mut String, t: &str)
    ensures
        final(s)@ == old(s)@ + t@,
{
    s.append(t);
}

// ---------------------------------------------------------------------------
// Comparison
// ---------------------------------------------------------------------------

/// Lexicographic "strictly before" over code points. This is the order of
/// `String`/`str` comparison: UTF-8 preserves code-point order, so
/// byte-wise and code-point-wise comparison agree.
pub open spec fn seq_lt(a: Seq<char>, b: Seq<char>) -> bool
    decreases a.len(),
{
    if b.len() == 0 {
        false
    } else if a.len() == 0 {
        true
    } else if a[0] != b[0] {
        (a[0] as u32) < (b[0] as u32)
    } else {
        seq_lt(a.drop_first(), b.drop_first())
    }
}

/// Lexicographic "before or equal".
pub open spec fn seq_le(a: Seq<char>, b: Seq<char>) -> bool {
    a == b || seq_lt(a, b)
}

proof fn lemma_seq_lt_step(a: Seq<char>, b: Seq<char>, i: int)
    requires
        0 <= i < a.len(),
        i < b.len(),
        a[i] == b[i],
    ensures
        seq_lt(a.skip(i), b.skip(i)) == seq_lt(a.skip(i + 1), b.skip(i + 1)),
{
    assert(a.skip(i).drop_first() =~= a.skip(i + 1));
    assert(b.skip(i).drop_first() =~= b.skip(i + 1));
}

/// Whether `a` sorts strictly before `b`.
pub fn str_lt(a: &str, b: &str) -> (r: bool)
    ensures
        r == seq_lt(a@, b@),
{
    let la = a.unicode_len();
    let lb = b.unicode_len();
    let mut i: usize = 0;
    assert(a@.skip(0) =~= a@);
    assert(b@.skip(0) =~= b@);
    while i < la && i < lb
        invariant
            la == a@.len(),
            lb == b@.len(),
            i <= la,
            i <= lb,
            seq_lt(a@, b@) == seq_lt(a@.skip(i as int), b@.skip(i as int)),
        decreases la - i,
    {
        let ca = a.get_char(i);
        let cb = b.get_char(i);
        if ca != cb {
            assert(a@.skip(i as int)[0] == ca);
            assert(b@.skip(i as int)[0] == cb);
            return (ca as u32) < (cb as u32);
        }
        proof {
            lemma_seq_lt_step(a@, b@, i as int);
        }
        i = i + 1;
    }
    if i < lb {
        assert(a@.skip(i as int).len() == 0);
        true
    } else {
        assert(b@.skip(i as int).len() == 0);
        false
    }
}

/// Whether `a` sorts before `b` or equals it.
pub fn str_le(a: &str, b: &str) -> (r: bool)
    ensures
        r == seq_le(a@, b@),
{
    if str_eq(a, b) {
        true
    } else {
        str_lt(a, b)
    }
}

/// Character-wise equality of two string slices.
pub fn str_eq(a: &str, b: &str) -> (r: bool)
    ensures
        r == (a@ == b@),
{
    let la = a.unicode_len();
    let lb = b.unicode_len();
    if la != lb {
        return false;
    }
    let mut i: usize = 0;
    while i < la
        invariant
            la == a@.len(),
            lb == b@.len(),
            la == lb,
            i <= la,
            a@.take(i as int) =~= b@.take(i as int),
        decreases la - i,
    {
        if a.get_char(i) != b.get_char(i) {
            return false;
        }
        assert(a@.take(i + 1) =~= a@.take(i as int).push(a@[i as int]));
        assert(b@.take(i + 1) =~= b@.take(i as int).push(b@[i as int]));
        i = i + 1;
    }
    assert(a@.take(la as int) =~= a@);
    assert(b@.take(lb as int) =~= b@);
    true
}

/// An owned copy of a string slice.
pub fn to_owned_string(s: &str) -> (r: String)
    ensures
        r@ == s@,
{
    String::from_str(s)
}

/// Concatenation of two slices into a fresh string.
pub fn concat2(a: &str, b: &str) -> (r: String)
    ensures
        r@ == a@ + b@,
{
    let mut s = String::from_str(a);
    s.append(b);
    s
}

/// Concatenation of three slices into a fresh string.
pub fn concat3(a: &str, b: &str, c: &str) -> (r: String)
    ensures
        r@ == a@ + b@ + c@,
{
    let mut s = String::from_str(a);
    s.append(b);
    s.append(c);
    s
}

// ---------------------------------------------------------------------------
// ASCII case folding
// ---------------------------------------------------------------------------

/// `char::to_ascii_lowercase`: maps `A..=Z` to `a..=z`, leaves every other
/// character alone.
pub open spec fn ascii_lower(c: char) -> char {
    if 'A' <= c && c <= 'Z' {
        ((c as u32) + 32) as char
    } else {
        c
    }
}

/// `str::eq_ignore_ascii_case`: equal lengths and equal after ASCII
/// lowercasing each character.
pub open spec fn eq_ignore_ascii_case(a: Seq<char>, b: Seq<char>) -> bool {
    a.len() == b.len() && forall|i: int|
        0 <= i < a.len() ==> #[trigger] ascii_lower(a[i]) == ascii_lower(b[i])
}

fn lower_ascii_char(c: char) -> (r: char)
    ensures
        r == ascii_lower(c),
{
    if 'A' <= c && c <= 'Z' {
        let u: u32 = (c as u32) + 32;
        let b: u8 = u as u8;
        assert(b as u32 == u);
        let r = b as char;
        assert(r == ((c as u32) + 32) as char);
        r
    } else {
        c
    }
}

/// Case-insensitive (ASCII only) equality.
pub fn str_eq_ignore_ascii_case(a: &str, b: &str) -> (r: bool)
    ensures
        r == eq_ignore_ascii_case(a@, b@),
{
    let la = a.unicode_len();
    let lb = b.unicode_len();
    if la != lb {
        return false;
    }
    let mut i: usize = 0;
    while i < la
        invariant
            la == a@.len(),
            lb == b@.len(),
            la == lb,
            i <= la,
            forall|j: int| 0 <= j < i ==> #[trigger] ascii_lower(a@[j]) == ascii_lower(b@[j]),
        decreases la - i,
    {
        if lower_ascii_char(a.get_char(i)) != lower_ascii_char(b.get_char(i)) {
            return false;
        }
        i = i + 1;
    }
    true
}

// ---------------------------------------------------------------------------
// Whitespace
// ---------------------------------------------------------------------------

/// Every character is whitespace, i.e. `s.trim()` is empty.
pub open spec fn all_white(s: Seq<char>) -> bool {
    forall|i: int| 0 <= i < s.len() ==> #[trigger] is_white(s[i])
}

/// Whether `s.trim().is_empty()`.
pub fn trim_is_empty(s: &str) -> (r: bool)
    ensures
        r == all_white(s@),
{
    let n = s.unicode_len();
    let mut i: usize = 0;
    while i < n
        invariant
            n == s@.len(),
            i <= n,
            forall|j: int| 0 <= j < i ==> #[trigger] is_white(s@[j]),
        decreases n - i,
    {
        if !char_is_whitespace(s.get_char(i)) {
            return false;
        }
        i = i + 1;
    }
    true
}

/// `s` without its trailing whitespace.
pub open spec fn strip_end_white(s: Seq<char>) -> Seq<char>
    decreases s.len(),
{
    if s.len() > 0 && is_white(s.last()) {
        strip_end_white(s.drop_last())
    } else {
        s
    }
}

/// The maximal run of non-whitespace characters at the end of `s`.
pub open spec fn trailing_token(s: Seq<char>) -> Seq<char>
    decreases s.len(),
{
    if s.len() > 0 && !is_white(s.last()) {
        trailing_token(s.drop_last()).push(s.last())
    } else {
        Seq::empty()
    }
}

/// `s.split_whitespace().last()`: the last whitespace-separated word, if any.
pub open spec fn last_word(s: Seq<char>) -> Option<Seq<char>> {
    let t = trailing_token(strip_end_white(s));
    if t.len() == 0 {
        None
    } else {
        Some(t)
    }
}

proof fn lemma_strip_end_white_prefix(s: Seq<char>, k: int)
    requires
        0 <= k <= s.len(),
        forall|j: int| k <= j < s.len() ==> #[trigger] is_white(s[j]),
    ensures
        strip_end_white(s) == strip_end_white(s.take(k)),
    decreases s.len() - k,
{
    if k < s.len() {
        assert(s.drop_last() =~= s.take(s.len() - 1));
        assert(is_white(s.last()));
        assert(s.take(s.len() - 1).take(k) =~= s.take(k));
        lemma_strip_end_white_prefix(s.take(s.len() - 1), k);
    } else {
        assert(s.take(k) =~= s);
    }
}

proof fn lemma_trailing_token_suffix(s: Seq<char>, k: int)
    requires
        0 <= k <= s.len(),
        forall|j: int| k <= j < s.len() ==> !#[trigger] is_white(s[j]),
        k == 0 || is_white(s[k - 1]),
    ensures
        trailing_token(s) == s.subrange(k, s.len() as int),
    decreases s.len() - k,
{
    if k < s.len() {
        let p = s.drop_last();
        assert(!is_white(s.last()));
        assert(forall|j: int| k <= j < p.len() ==> p[j] == s[j]);
        lemma_trailing_token_suffix(p, k);
        assert(s.subrange(k, s.len() as int) =~= p.subrange(k, p.len() as int).push(s.last()));
    } else {
        if k > 0 {
            assert(is_white(s.last()));
        }
        assert(s.subrange(k, s.len() as int) =~= Seq::<char>::empty());
    }
}

/// The last whitespace-separated word of `s`, if `s` has one.
pub fn last_word_of(s: &str) -> (r: Option<String>)
    ensures
        match r {
            Some(w) => last_word(s@) == Some(w@),
            None => last_word(s@) is None,
        },
{
    let n = s.unicode_len();
    let mut end: usize = n;
    while end > 0 && char_is_whitespace(s.get_char(end - 1))
        invariant
            n == s@.len(),
            end <= n,
            forall|j: int| end <= j < n ==> #[trigger] is_white(s@[j]),
        decreases end,
    {
        end = end - 1;
    }
    proof {
        lemma_strip_end_white_prefix(s@, end as int);
        let t = s@.take(end as int);
        if end > 0 {
            assert(!is_white(t.last()));
        }
        assert(strip_end_white(t) == t) by {
            if t.len() > 0 {
                assert(!is_white(t.last()));
            }
        }
    }
    let mut start: usize = end;
    while start > 0 && !char_is_whitespace(s.get_char(start - 1))
        invariant
            n == s@.len(),
            start <= end <= n,
            forall|j: int| start <= j < end ==> !#[trigger] is_white(s@[j]),
        decreases start,
    {
        start = start - 1;
    }
    proof {
        let t = s@.take(end as int);
        assert forall|j: int| start <= j < t.len() implies !#[trigger] is_white(t[j]) by {
            assert(t[j] == s@[j]);
        }
        if start > 0 {
            assert(t[start - 1] == s@[start - 1]);
        }
        lemma_trailing_token_suffix(t, start as int);
    }
    if start == end {
        None
    } else {
        let w = s.substring_char(start, end);
        proof {
            assert(w@ =~= s@.take(end as int).subrange(start as int, end as int));
        }
        Some(String::from_str(w))
    }
}

/// `s` without its leading whitespace.
pub open spec fn strip_start_white(s: Seq<char>) -> Seq<char>
    decreases s.len(),
{
    if s.len() > 0 && is_white(s[0]) {
        strip_start_white(s.drop_first())
    } else {
        s
    }
}

/// `s.trim()`: `s` without its leading and trailing whitespace.
pub open spec fn trim_white(s: Seq<char>) -> Seq<char> {
    strip_end_white(strip_start_white(s))
}

proof fn lemma_strip_start_white_suffix(s: Seq<char>, k: int)
    requires
        0 <= k <= s.len(),
        forall|j: int| 0 <= j < k ==> #[trigger] is_white(s[j]),
        k == s.len() || !is_white(s[k]),
    ensures
        strip_start_white(s) == s.subrange(k, s.len() as int),
    decreases k,
{
    if k > 0 {
        let t = s.drop_first();
        assert(is_white(s[0]));
        assert forall|j: int| 0 <= j < k - 1 implies #[trigger] is_white(t[j]) by {
            assert(t[j] == s[j + 1]);
        }
        if k < s.len() {
            assert(t[k - 1] == s[k]);
        }
        lemma_strip_start_white_suffix(t, k - 1);
        assert(t.subrange(k - 1, t.len() as int) =~= s.subrange(k, s.len() as int));
    } else {
        assert(s.subrange(0, s.len() as int) =~= s);
    }
}

/// `s.trim()`, as a new string.
pub fn trim_owned(s: &str) -> (r: String)
    ensures
        r@ == trim_white(s@),
{
    let n = s.unicode_len();
    let mut start: usize = 0;
    while start < n && char_is_whitespace(s.get_char(start))
        invariant
            n == s@.len(),
            start <= n,
            forall|j: int| 0 <= j < start ==> #[trigger] is_white(s@[j]),
        decreases n - start,
    {
        start = start + 1;
    }
    let mut end: usize = n;
    while end > start && char_is_whitespace(s.get_char(end - 1))
        invariant
            n == s@.len(),
            start <= end <= n,
            forall|j: int| end <= j < n ==> #[trigger] is_white(s@[j]),
        decreases end,
    {
        end = end - 1;
    }
    let w = s.substring_char(start, end);
    proof {
        lemma_strip_start_white_suffix(s@, start as int);
        let u = s@.subrange(start as int, n as int);
        assert forall|j: int| end - start <= j < u.len() implies #[trigger] is_white(u[j]) by {
            assert(u[j] == s@[start + j]);
        }
        lemma_strip_end_white_prefix(u, end - start);
        let t = u.take(end - start);
        assert(t =~= s@.subrange(start as int, end as int));
        if t.len() > 0 {
            assert(t.last() == s@[end - 1]);
            assert(!is_white(t.last()));
        }
        assert(strip_end_white(t) == t);
        assert(w@ =~= t);
    }
    String::from_str(w)
}

// ---------------------------------------------------------------------------
// Character replacement
// ---------------------------------------------------------------------------

/// `s.replace(from, to)` for a single character replaced by a single
/// character.
pub open spec fn replace_char(s: Seq<char>, from: char, to: char) -> Seq<char> {
    s.map_values(|c: char| if c == from { to } else { c })
}

/// Replaces every occurrence of `from` by `to`.
pub fn replace_char_exec(s: &str, from: char, to: char) -> (r: String)
    ensures
        r@ == replace_char(s@, from, to),
{
    let n = s.unicode_len();
    let mut out = String::new();
    let mut i: usize = 0;
    while i < n
        invariant
            n == s@.len(),
            i <= n,
            out@ =~= replace_char(s@.take(i as int), from, to),
        decreases n - i,
    {
        let c = s.get_char(i);
        if c == from {
            push_char(&mut out, to);
        } else {
            push_char(&mut out, c);
        }
        assert(s@.take(i + 1) =~= s@.take(i as int).push(c));
        i = i + 1;
    }
    assert(s@.take(n as int) =~= s@);
    out
}

/// The characters `0..=9` and `-`.
pub open spec fn is_date_char(c: char) -> bool {
    c == '-' || ('0' <= c && c <= '9')
}

} // verus!
