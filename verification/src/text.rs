//! Character-level helpers shared by the whole library: ASCII lowercasing,
//! trimming, lexicographic comparison of strings, and decimal rendering and
//! parsing of unsigned and signed integers.

use vstd::prelude::*;

verus! {

/// Relies on `String::push`: appends exactly the given character.
#[verifier::external_body]
pub(crate) fn push_char(s: &mut String, c: char)
    ensures
        final(s)@ == old(s)@.push(c),
{
    s.push(c)
}

/// The six ASCII whitespace characters recognized by trimming.
pub open spec fn is_space_char(c: char) -> bool {
    c == ' ' || c == '\t' || c == '\n' || c == '\r' || c == '\u{b}' || c == '\u{c}'
}

pub fn is_space(c: char) -> (r: bool)
    ensures
        r == is_space_char(c),
{
    c == ' ' || c == '\t' || c == '\n' || c == '\r' || c == '\u{b}' || c == '\u{c}'
}

/// ASCII lowercasing of one character; everything outside `A`..`Z` is kept.
pub open spec fn lower_char(c: char) -> char {
    if c == 'A' {
        'a'
    } else if c == 'B' {
        'b'
    } else if c == 'C' {
        'c'
    } else if c == 'D' {
        'd'
    } else if c == 'E' {
        'e'
    } else if c == 'F' {
        'f'
    } else if c == 'G' {
        'g'
    } else if c == 'H' {
        'h'
    } else if c == 'I' {
        'i'
    } else if c == 'J' {
        'j'
    } else if c == 'K' {
        'k'
    } else if c == 'L' {
        'l'
    } else if c == 'M' {
        'm'
    } else if c == 'N' {
        'n'
    } else if c == 'O' {
        'o'
    } else if c == 'P' {
        'p'
    } else if c == 'Q' {
        'q'
    } else if c == 'R' {
        'r'
    } else if c == 'S' {
        's'
    } else if c == 'T' {
        't'
    } else if c == 'U' {
        'u'
    } else if c == 'V' {
        'v'
    } else if c == 'W' {
        'w'
    } else if c == 'X' {
        'x'
    } else if c == 'Y' {
        'y'
    } else if c == 'Z' {
        'z'
    } else {
        c
    }
}

fn lower_char_exec(c: char) -> (r: char)
    ensures
        r == lower_char(c),
{
    match c {
        'A' => 'a',
        'B' => 'b',
        'C' => 'c',
        'D' => 'd',
        'E' => 'e',
        'F' => 'f',
        'G' => 'g',
        'H' => 'h',
        'I' => 'i',
        'J' => 'j',
        'K' => 'k',
        'L' => 'l',
        'M' => 'm',
        'N' => 'n',
        'O' => 'o',
        'P' => 'p',
        'Q' => 'q',
        'R' => 'r',
        'S' => 's',
        'T' => 't',
        'U' => 'u',
        'V' => 'v',
        'W' => 'w',
        'X' => 'x',
        'Y' => 'y',
        'Z' => 'z',
        _ => c,
    }
}

/// ASCII lowercasing of a whole string.
pub open spec fn lower_seq(s: Seq<char>) -> Seq<char> {
    s.map_values(|c: char| lower_char(c))
}

/// Returns the ASCII-lowercased copy of `s`.
pub fn lowercase(s: &str) -> (r: String)
    ensures
        r@ == lower_seq(s@),
{
    let len: usize = s.unicode_len();
    let mut out = String::new();
    let mut i: usize = 0;
    while i < len
        invariant
            i <= len,
            len == s@.len(),
            out@ == lower_seq(s@.subrange(0, i as int)),
        decreases len - i,
    {
        let c = s.get_char(i);
        push_char(&mut out, lower_char_exec(c));
        proof {
            assert(s@.subrange(0, i + 1).drop_last() =~= s@.subrange(0, i as int));
            assert(lower_seq(s@.subrange(0, i + 1)) =~= lower_seq(s@.subrange(0, i as int)).push(
                lower_char(s@[i as int]),
            ));
        }
        i = i + 1;
    }
    proof {
        assert(s@.subrange(0, len as int) =~= s@);
    }
    out
}

/// The string without its leading whitespace.
pub open spec fn trim_front(s: Seq<char>) -> Seq<char>
    decreases s.len(),
{
    if s.len() > 0 && is_space_char(s[0]) {
        trim_front(s.drop_first())
    } else {
        s
    }
}

/// The string without its trailing whitespace.
pub open spec fn trim_back(s: Seq<char>) -> Seq<char>
    decreases s.len(),
{
    if s.len() > 0 && is_space_char(s[s.len() - 1]) {
        trim_back(s.drop_last())
    } else {
        s
    }
}

/// The string without leading and trailing whitespace.
pub open spec fn trim_seq(s: Seq<char>) -> Seq<char> {
    trim_back(trim_front(s))
}

proof fn lemma_trim_front_range(s: Seq<char>, i: int)
    requires
        0 <= i <= s.len(),
        forall|j: int| 0 <= j < i ==> is_space_char(s[j]),
        i == s.len() || !is_space_char(s[i]),
    ensures
        trim_front(s) =~= s.subrange(i, s.len() as int),
    decreases i,
{
    if i == 0 {
        if s.len() == 0 || !is_space_char(s[0]) {
            assert(trim_front(s) == s);
            assert(s.subrange(0, s.len() as int) =~= s);
        }
    } else {
        assert(is_space_char(s[0]));
        let t = s.drop_first();
        assert(forall|j: int| 0 <= j < i - 1 ==> is_space_char(#[trigger] t[j]));
        lemma_trim_front_range(t, i - 1);
        assert(t.subrange(i - 1, t.len() as int) =~= s.subrange(i, s.len() as int));
    }
}

proof fn lemma_trim_back_range(s: Seq<char>, e: int)
    requires
        0 <= e <= s.len(),
        forall|j: int| e <= j < s.len() ==> is_space_char(s[j]),
        e == 0 || !is_space_char(s[e - 1]),
    ensures
        trim_back(s) =~= s.subrange(0, e),
    decreases s.len() - e,
{
    if e == s.len() {
        if s.len() == 0 || !is_space_char(s[s.len() - 1]) {
            assert(trim_back(s) == s);
            assert(s.subrange(0, s.len() as int) =~= s);
        }
    } else {
        assert(is_space_char(s[s.len() - 1]));
        let t = s.drop_last();
        lemma_trim_back_range(t, e);
        assert(t.subrange(0, e) =~= s.subrange(0, e));
    }
}

/// Returns `s` without leading and trailing ASCII whitespace.
pub fn trim(s: &str) -> (r: &str)
    ensures
        r@ == trim_seq(s@),
{
    let len: usize = s.unicode_len();
    let mut start: usize = 0;
    while start < len && is_space(s.get_char(start))
        invariant
            start <= len,
            len == s@.len(),
            forall|j: int| 0 <= j < start ==> is_space_char(s@[j]),
        decreases len - start,
    {
        start = start + 1;
    }
    let mut end: usize = len;
    while end > start && is_space(s.get_char(end - 1))
        invariant
            start <= end <= len,
            len == s@.len(),
            forall|j: int| 0 <= j < start ==> is_space_char(s@[j]),
            forall|j: int| end <= j < len ==> is_space_char(s@[j]),
        decreases end,
    {
        end = end - 1;
    }
    proof {
        lemma_trim_front_range(s@, start as int);
        let t = s@.subrange(start as int, len as int);
        if end == start {
            lemma_trim_back_range(t, 0);
        } else {
            lemma_trim_back_range(t, end - start);
        }
        assert(t.subrange(0, end - start) =~= s@.subrange(start as int, end as int));
    }
    s.substring_char(start, end)
}

/// Trimmed and ASCII-lowercased token, the normal form used for bundle
/// identifiers and shortcut list entries.
pub open spec fn norm_token(s: Seq<char>) -> Seq<char> {
    lower_seq(trim_seq(s))
}

pub fn normalize_token(s: &str) -> (r: String)
    ensures
        r@ == norm_token(s@),
{
    lowercase(trim(s))
}

/// Equality of two string slices by contents.
pub fn str_eq(a: &str, b: &str) -> (r: bool)
    ensures
        r == (a@ == b@),
{
    let alen: usize = a.unicode_len();
    let blen: usize = b.unicode_len();
    if alen != blen {
        proof {
            assert(a@.len() != b@.len());
        }
        return false;
    }
    let mut i: usize = 0;
    while i < alen
        invariant
            i <= alen,
            alen == a@.len(),
            alen == b@.len(),
            forall|j: int| 0 <= j < i ==> a@[j] == b@[j],
        decreases alen - i,
    {
        if a.get_char(i) != b.get_char(i) {
            proof {
                assert(a@[i as int] != b@[i as int]);
            }
            return false;
        }
        i = i + 1;
    }
    proof {
        assert(a@ =~= b@);
    }
    true
}

/// Whether `c` occurs in `s`.
pub fn contains_char(s: &str, c: char) -> (r: bool)
    ensures
        r == s@.contains(c),
{
    let len: usize = s.unicode_len();
    let mut i: usize = 0;
    while i < len
        invariant
            i <= len,
            len == s@.len(),
            forall|j: int| 0 <= j < i ==> s@[j] != c,
        decreases len - i,
    {
        if s.get_char(i) == c {
            return true;
        }
        i = i + 1;
    }
    false
}

/// Whether `s` ends with the suffix `p`.
pub open spec fn has_suffix(s: Seq<char>, p: Seq<char>) -> bool {
    s.len() >= p.len() && s.subrange(s.len() - p.len(), s.len() as int) == p
}

pub fn ends_with(s: &str, p: &str) -> (r: bool)
    ensures
        r == has_suffix(s@, p@),
{
    let slen: usize = s.unicode_len();
    let plen: usize = p.unicode_len();
    if slen < plen {
        return false;
    }
    let mut i: usize = 0;
    while i < plen
        invariant
            i <= plen <= slen,
            slen == s@.len(),
            plen == p@.len(),
            forall|j: int| 0 <= j < i ==> s@[s@.len() - p@.len() + j] == p@[j],
        decreases plen - i,
    {
        if s.get_char(slen - plen + i) != p.get_char(i) {
            proof {
                assert(s@.subrange(s@.len() - p@.len(), s@.len() as int)[i as int] != p@[i as int]);
            }
            return false;
        }
        i = i + 1;
    }
    proof {
        assert(s@.subrange(s@.len() - p@.len(), s@.len() as int) =~= p@);
    }
    true
}

/// Lexicographic order on strings by code point, the order `str` comparison
/// uses in Rust.
pub open spec fn lex_le(a: Seq<char>, b: Seq<char>) -> bool
    decreases a.len(),
{
    if a.len() == 0 {
        true
    } else if b.len() == 0 {
        false
    } else if a[0] != b[0] {
        (a[0] as u32) < (b[0] as u32)
    } else {
        lex_le(a.drop_first(), b.drop_first())
    }
}

proof fn lemma_lex_le_prefix(a: Seq<char>, b: Seq<char>, i: int)
    requires
        0 <= i <= a.len(),
        i <= b.len(),
        forall|j: int| 0 <= j < i ==> a[j] == b[j],
        i == a.len() || i == b.len() || a[i] != b[i],
    ensures
        lex_le(a, b) == if i == a.len() {
            true
        } else if i == b.len() {
            false
        } else {
            (a[i] as u32) < (b[i] as u32)
        },
    decreases i,
{
    if i > 0 {
        assert(a.len() > 0 && b.len() > 0 && a[0] == b[0]);
        let a1 = a.drop_first();
        let b1 = b.drop_first();
        assert(forall|j: int| 0 <= j < i - 1 ==> #[trigger] a1[j] == b1[j]);
        lemma_lex_le_prefix(a1, b1, i - 1);
    }
}

/// The lexicographic order is total.
pub proof fn lemma_lex_le_total(a: Seq<char>, b: Seq<char>)
    ensures
        lex_le(a, b) || lex_le(b, a),
    decreases a.len(),
{
    if a.len() == 0 || b.len() == 0 {
    } else if a[0] == b[0] {
        lemma_lex_le_total(a.drop_first(), b.drop_first());
    } else {
        assert((a[0] as u32) != (b[0] as u32)) by {
            vstd::utf8::char_u32_cast(a[0], a[0] as u32);
            vstd::utf8::char_u32_cast(b[0], b[0] as u32);
        }
    }
}

/// The lexicographic order is transitive.
pub proof fn lemma_lex_le_trans(a: Seq<char>, b: Seq<char>, c: Seq<char>)
    requires
        lex_le(a, b),
        lex_le(b, c),
    ensures
        lex_le(a, c),
    decreases a.len(),
{
    if a.len() > 0 && b.len() > 0 && c.len() > 0 {
        if a[0] == b[0] && b[0] == c[0] {
            lemma_lex_le_trans(a.drop_first(), b.drop_first(), c.drop_first());
        }
    }
}

/// Compares two strings in lexicographic code-point order.
pub fn str_le(a: &str, b: &str) -> (r: bool)
    ensures
        r == lex_le(a@, b@),
{
    let alen: usize = a.unicode_len();
    let blen: usize = b.unicode_len();
    let mut i: usize = 0;
    loop
        invariant
            i <= alen,
            i <= blen,
            alen == a@.len(),
            blen == b@.len(),
            forall|j: int| 0 <= j < i ==> a@[j] == b@[j],
        decreases alen - i,
    {
        if i == alen {
            proof {
                lemma_lex_le_prefix(a@, b@, i as int);
            }
            return true;
        }
        if i == blen {
            proof {
                lemma_lex_le_prefix(a@, b@, i as int);
            }
            return false;
        }
        let ca = a.get_char(i);
        let cb = b.get_char(i);
        if ca != cb {
            proof {
                lemma_lex_le_prefix(a@, b@, i as int);
            }
            return (ca as u32) < (cb as u32);
        }
        i = i + 1;
    }
}

/// The character for one decimal digit.
pub open spec fn digit_char(d: int) -> char {
    if d == 0 {
        '0'
    } else if d == 1 {
        '1'
    } else if d == 2 {
        '2'
    } else if d == 3 {
        '3'
    } else if d == 4 {
        '4'
    } else if d == 5 {
        '5'
    } else if d == 6 {
        '6'
    } else if d == 7 {
        '7'
    } else if d == 8 {
        '8'
    } else {
        '9'
    }
}

fn digit_char_exec(d: u64) -> (r: char)
    requires
        d < 10,
    ensures
        r == digit_char(d as int),
{
    match d {
        0 => '0',
        1 => '1',
        2 => '2',
        3 => '3',
        4 => '4',
        5 => '5',
        6 => '6',
        7 => '7',
        8 => '8',
        _ => '9',
    }
}

pub open spec fn is_digit_char(c: char) -> bool {
    48 <= (c as u32) <= 57
}

/// The numeric value of a decimal digit character.
pub open spec fn digit_val(c: char) -> int {
    (c as u32) - 48
}

pub open spec fn all_digits(s: Seq<char>) -> bool {
    forall|i: int| 0 <= i < s.len() ==> is_digit_char(#[trigger] s[i])
}

/// The decimal rendering of a natural number, most significant digit first.
pub open spec fn dec_of(n: nat) -> Seq<char>
    decreases n,
{
    if n < 10 {
        seq![digit_char(n as int)]
    } else {
        dec_of(n / 10).push(digit_char((n % 10) as int))
    }
}

/// The value of a non-empty digit string.
pub open spec fn dec_val(s: Seq<char>) -> int
    decreases s.len(),
{
    if s.len() == 0 {
        0
    } else {
        dec_val(s.drop_last()) * 10 + digit_val(s.last())
    }
}

proof fn lemma_digit_char_val(d: int)
    requires
        0 <= d < 10,
    ensures
        is_digit_char(digit_char(d)),
        digit_val(digit_char(d)) == d,
{
}

/// Rendering a number and reading the digits back yields the number.
pub proof fn lemma_dec_of_val(n: nat)
    ensures
        dec_of(n).len() >= 1,
        all_digits(dec_of(n)),
        dec_val(dec_of(n)) == n,
    decreases n,
{
    if n < 10 {
        lemma_digit_char_val(n as int);
        assert(dec_of(n).drop_last() == Seq::<char>::empty()) by {
            assert(dec_of(n).drop_last() =~= Seq::<char>::empty());
        }
        assert(dec_of(n).last() == digit_char(n as int));
        assert(dec_val(Seq::<char>::empty()) == 0);
        assert(dec_val(dec_of(n)) == 0 * 10 + digit_val(digit_char(n as int)));
    } else {
        lemma_dec_of_val(n / 10);
        lemma_digit_char_val((n % 10) as int);
        assert(dec_of(n).drop_last() == dec_of(n / 10)) by {
            assert(dec_of(n).drop_last() =~= dec_of(n / 10));
        }
        assert(dec_of(n).last() == digit_char((n % 10) as int));
        assert(dec_val(dec_of(n)) == dec_val(dec_of(n / 10)) * 10 + digit_val(
            digit_char((n % 10) as int),
        ));
        assert(dec_val(dec_of(n)) == (n / 10) * 10 + (n % 10));
        assert(n == (n / 10) * 10 + n % 10) by (nonlinear_arith);
    }
}

/// Renders `n` in decimal.
pub fn u64_to_string(n: u64) -> (r: String)
    ensures
        r@ == dec_of(n as nat),
    decreases n,
{
    if n < 10 {
        let mut s = String::new();
        push_char(&mut s, digit_char_exec(n));
        proof {
            assert(s@ =~= dec_of(n as nat));
        }
        s
    } else {
        let mut s = u64_to_string(n / 10);
        push_char(&mut s, digit_char_exec(n % 10));
        s
    }
}

proof fn lemma_dec_val_extend(s: Seq<char>, i: int)
    requires
        0 <= i < s.len(),
    ensures
        dec_val(s.subrange(0, i + 1)) == dec_val(s.subrange(0, i)) * 10 + digit_val(s[i]),
{
    assert(s.subrange(0, i + 1).drop_last() =~= s.subrange(0, i));
    assert(s.subrange(0, i + 1).last() == s[i]);
}

proof fn lemma_dec_val_monotone(s: Seq<char>, i: int)
    requires
        0 <= i <= s.len(),
        all_digits(s),
    ensures
        dec_val(s.subrange(0, i)) <= dec_val(s),
        dec_val(s) >= 0,
    decreases s.len() - i,
{
    if i == s.len() {
        assert(s.subrange(0, i) =~= s);
        lemma_dec_val_nonneg(s);
    } else {
        lemma_dec_val_extend(s, i);
        lemma_dec_val_nonneg(s.subrange(0, i));
        lemma_dec_val_monotone(s, i + 1);
    }
}

proof fn lemma_dec_val_nonneg(s: Seq<char>)
    requires
        all_digits(s),
    ensures
        dec_val(s) >= 0,
    decreases s.len(),
{
    if s.len() > 0 {
        assert(all_digits(s.drop_last())) by {
            assert(forall|i: int|
                0 <= i < s.len() - 1 ==> is_digit_char(#[trigger] s.drop_last()[i]));
        }
        lemma_dec_val_nonneg(s.drop_last());
    }
}

/// Parses a non-empty all-digit string as a `u64`. Returns `None` on an
/// empty string, a non-digit character, or a value above `u64::MAX`.
pub fn parse_u64(s: &str) -> (r: Option<u64>)
    ensures
        r is Some <==> s@.len() > 0 && all_digits(s@) && dec_val(s@) <= u64::MAX,
        r is Some ==> r.unwrap() == dec_val(s@),
{
    let len: usize = s.unicode_len();
    if len == 0 {
        return None;
    }
    let mut acc: u64 = 0;
    let mut i: usize = 0;
    while i < len
        invariant
            i <= len,
            len == s@.len(),
            all_digits(s@.subrange(0, i as int)),
            acc == dec_val(s@.subrange(0, i as int)),
        decreases len - i,
    {
        let c = s.get_char(i);
        let cv: u32 = c as u32;
        if cv < 48 || cv > 57 {
            proof {
                assert(!is_digit_char(s@[i as int]));
            }
            return None;
        }
        let d: u64 = (cv - 48) as u64;
        if acc > (u64::MAX - d) / 10 {
            proof {
                lemma_dec_val_extend(s@, i as int);
                assert(dec_val(s@.subrange(0, i + 1)) > u64::MAX) by (nonlinear_arith)
                    requires
                        dec_val(s@.subrange(0, i + 1)) == acc * 10 + d,
                        acc > (u64::MAX - d) / 10,
                        d <= 9,
                {}
                if all_digits(s@) {
                    lemma_dec_val_monotone(s@, i + 1);
                }
            }
            return None;
        }
        proof {
            lemma_dec_val_extend(s@, i as int);
            assert(acc * 10 + d <= u64::MAX) by (nonlinear_arith)
                requires
                    acc <= (u64::MAX - d) / 10,
                    0 <= acc,
                    d <= 9,
            {}
            assert(all_digits(s@.subrange(0, i + 1)));
        }
        acc = acc * 10 + d;
        i = i + 1;
    }
    proof {
        assert(s@.subrange(0, len as int) =~= s@);
    }
    Some(acc)
}

/// The value of a decimal string with an optional sign, as `str::parse`
/// for integers reads it: an optional `+` or `-`, then at least one digit.
pub open spec fn signed_body(s: Seq<char>) -> Seq<char> {
    if s.len() > 0 && (s[0] == '-' || s[0] == '+') {
        s.drop_first()
    } else {
        s
    }
}

pub open spec fn is_negative_literal(s: Seq<char>) -> bool {
    s.len() > 0 && s[0] == '-'
}

pub open spec fn signed_val(s: Seq<char>) -> int {
    if is_negative_literal(s) {
        -dec_val(signed_body(s))
    } else {
        dec_val(signed_body(s))
    }
}

pub open spec fn valid_i64_literal(s: Seq<char>) -> bool {
    &&& signed_body(s).len() > 0
    &&& all_digits(signed_body(s))
    &&& i64::MIN <= signed_val(s) <= i64::MAX
}

/// Parses a decimal `i64` with an optional leading sign.
pub fn parse_i64(s: &str) -> (r: Option<i64>)
    ensures
        r is Some <==> valid_i64_literal(s@),
        r is Some ==> r.unwrap() == signed_val(s@),
{
    let len: usize = s.unicode_len();
    if len == 0 {
        return None;
    }
    let c0 = s.get_char(0);
    let negative: bool = c0 == '-';
    let body: &str = if c0 == '-' || c0 == '+' {
        let b = s.substring_char(1, len);
        proof {
            assert(b@ =~= signed_body(s@));
        }
        b
    } else {
        proof {
            assert(s@ =~= signed_body(s@));
        }
        s
    };
    match parse_u64(body) {
        None => {
            proof {
                if signed_body(s@).len() > 0 && all_digits(signed_body(s@)) {
                    lemma_dec_val_nonneg(signed_body(s@));
                }
            }
            None
        },
        Some(mag) => {
            if negative {
                if mag > 9223372036854775808u64 {
                    None
                } else if mag == 9223372036854775808u64 {
                    Some(i64::MIN)
                } else {
                    Some(-(mag as i64))
                }
            } else {
                if mag > i64::MAX as u64 {
                    None
                } else {
                    Some(mag as i64)
                }
            }
        },
    }
}

/// Parses a decimal `u8` without a sign.
pub fn parse_u8(s: &str) -> (r: Option<u8>)
    ensures
        r is Some <==> s@.len() > 0 && all_digits(s@) && dec_val(s@) <= u8::MAX,
        r is Some ==> r.unwrap() == dec_val(s@),
{
    match parse_u64(s) {
        None => {
            proof {
                if s@.len() > 0 && all_digits(s@) {
                    lemma_dec_val_nonneg(s@);
                }
            }
            None
        },
        Some(v) => {
            if v > 255 {
                None
            } else {
                Some(v as u8)
            }
        },
    }
}

} // verus!

verus! {

impl crate::sort::SortOrder for String {
    open spec fn leq(a: Seq<char>, b: Seq<char>) -> bool {
        lex_le(a, b)
    }

    fn leq_exec(&self, other: &Self) -> (r: bool) {
        str_le(self.as_str(), other.as_str())
    }

    proof fn lemma_leq_total(a: Seq<char>, b: Seq<char>) {
        lemma_lex_le_total(a, b);
    }

    proof fn lemma_leq_trans(a: Seq<char>, b: Seq<char>, c: Seq<char>) {
        lemma_lex_le_trans(a, b, c);
    }
}

/// A sequence with runs of adjacent equal strings collapsed to one element.
pub open spec fn dedup_adj(s: Seq<Seq<char>>) -> Seq<Seq<char>>
    decreases s.len(),
{
    if s.len() == 0 {
        Seq::empty()
    } else if s.len() >= 2 && s.last() == s[s.len() - 2] {
        dedup_adj(s.drop_last())
    } else {
        dedup_adj(s.drop_last()).push(s.last())
    }
}

proof fn lemma_dedup_adj_last(s: Seq<Seq<char>>)
    requires
        s.len() > 0,
    ensures
        dedup_adj(s).len() > 0,
        dedup_adj(s).last() == s.last(),
    decreases s.len(),
{
    if s.len() >= 2 && s.last() == s[s.len() - 2] {
        lemma_dedup_adj_last(s.drop_last());
    }
}

/// Removes adjacent duplicate strings, keeping the first of each run.
pub fn dedup_adjacent(v: Vec<String>) -> (r: Vec<String>)
    ensures
        crate::sort::views_of(r@) == dedup_adj(crate::sort::views_of(v@)),
{
    let mut out: Vec<String> = Vec::new();
    let mut i: usize = 0;
    proof {
        assert(crate::sort::views_of(v@.subrange(0, 0)) =~= Seq::<Seq<char>>::empty());
        assert(crate::sort::views_of(out@) =~= Seq::<Seq<char>>::empty());
    }
    while i < v.len()
        invariant
            i <= v@.len(),
            crate::sort::views_of(out@) == dedup_adj(crate::sort::views_of(v@.subrange(0, i as int))),
        decreases v@.len() - i,
    {
        let ghost prefix = crate::sort::views_of(v@.subrange(0, i as int));
        let ghost extended = crate::sort::views_of(v@.subrange(0, i + 1));
        proof {
            assert(extended.drop_last() =~= prefix);
            assert(extended.last() == v@[i as int]@);
        }
        if out.len() == 0 {
            proof {
                if prefix.len() > 0 {
                    lemma_dedup_adj_last(prefix);
                }
                assert(prefix.len() == 0);
            }
            out.push(v[i].clone());
            proof {
                assert(crate::sort::views_of(out@) =~= dedup_adj(extended));
            }
        } else {
            proof {
                assert(prefix.len() > 0) by {
                    if prefix.len() == 0 {
                        assert(dedup_adj(prefix).len() == 0);
                    }
                }
                lemma_dedup_adj_last(prefix);
                assert(crate::sort::views_of(out@).last() == out@[out@.len() - 1]@);
            }
            if str_eq(out[out.len() - 1].as_str(), v[i].as_str()) {
                proof {
                    assert(extended.len() >= 2);
                    assert(extended[extended.len() - 2] == prefix.last());
                    assert(dedup_adj(extended) == dedup_adj(prefix));
                }
            } else {
                out.push(v[i].clone());
                proof {
                    assert(extended.len() >= 2);
                    assert(extended[extended.len() - 2] == prefix.last());
                    assert(crate::sort::views_of(out@) =~= dedup_adj(prefix).push(extended.last()));
                }
            }
        }
        i = i + 1;
    }
    proof {
        assert(v@.subrange(0, v@.len() as int) =~= v@);
    }
    out
}

} // verus!

verus! {

/// The lexicographic order is antisymmetric: mutual order means equality.
pub proof fn lemma_lex_le_antisym(a: Seq<char>, b: Seq<char>)
    requires
        lex_le(a, b),
        lex_le(b, a),
    ensures
        a == b,
    decreases a.len(),
{
    if a.len() == 0 {
        assert(b.len() == 0);
        assert(a =~= b);
    } else if b.len() == 0 {
    } else if a[0] == b[0] {
        let adf = a.drop_first();
        let bdf = b.drop_first();
        assert(lex_le(adf, bdf));
        assert(lex_le(bdf, adf));
        lemma_lex_le_antisym(adf, bdf);
        assert(adf == bdf);
        assert(a.len() == adf.len() + 1);
        assert(b.len() == bdf.len() + 1);
        assert(a.len() == b.len());
        assert forall|i: int| 0 <= i < a.len() implies a[i] == b[i] by {
            if i > 0 {
                assert(a.drop_first()[i - 1] == b.drop_first()[i - 1]);
            }
        }
        assert(a =~= b);
    } else {
        assert((a[0] as u32) < (b[0] as u32));
        assert((b[0] as u32) < (a[0] as u32));
    }
}

} // verus!
