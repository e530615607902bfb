//! Character-level scanning primitives shared by the query grammar, the type
//! resolver and the storage engine: character classes, case-insensitive
//! keyword matching, token scanning, trimming, lexicographic string order and
//! decimal rendering.
use vstd::prelude::*;
use vstd::string::*;

verus! {

/// Whether `c` is one of the ASCII whitespace characters the grammar skips.
pub open spec fn is_ws_char(c: char) -> bool {
    c == ' ' || c == '\t' || c == '\n' || c == '\r'
}

/// Whether `c` is an ASCII decimal digit.
pub open spec fn is_digit_char(c: char) -> bool {
    48 <= c as u32 && c as u32 <= 57
}

/// Whether `c` is an ASCII upper-case letter.
pub open spec fn is_upper_char(c: char) -> bool {
    65 <= c as u32 && c as u32 <= 90
}

/// The token classes of the grammar: each names the set of characters a
/// particular token may consist of.
#[derive(Clone, Copy, PartialEq, Eq, Structural)]
pub enum CharClass {
    /// Whitespace.
    Ws,
    /// ASCII decimal digits.
    Digit,
    /// Anything but a line feed or a semicolon.
    NotLineEnd,
    /// Anything but a semicolon.
    NotSemi,
    /// Anything but whitespace.
    NotWs,
    /// Anything but whitespace or a semicolon.
    Token,
    /// Anything but whitespace or an opening parenthesis.
    NameNoParen,
    /// Anything but whitespace, a comma or an opening parenthesis.
    EntryName,
    /// Anything but a comma, a line feed, a semicolon or a closing parenthesis.
    EntryType,
    /// Anything but whitespace, a comma or a parenthesis.
    CsvValue,
    /// Anything but a closing parenthesis or a semicolon.
    RowBody,
    /// Anything but whitespace or an operator character.
    CondKey,
    /// Anything but whitespace, a semicolon, a quote or a digit.
    CondOp,
    /// Anything but whitespace, an equals sign, a quote or a semicolon.
    CondValue,
    /// Anything but a comma.
    NotComma,
}

/// Whether `c` belongs to the token class `cls`.
pub open spec fn in_class(cls: CharClass, c: char) -> bool {
    match cls {
        CharClass::Ws => is_ws_char(c),
        CharClass::Digit => is_digit_char(c),
        CharClass::NotLineEnd => c != '\n' && c != ';',
        CharClass::NotSemi => c != ';',
        CharClass::NotWs => !is_ws_char(c),
        CharClass::Token => !is_ws_char(c) && c != ';',
        CharClass::NameNoParen => !is_ws_char(c) && c != '(',
        CharClass::EntryName => !is_ws_char(c) && c != ',' && c != '(',
        CharClass::EntryType => c != ',' && c != '\n' && c != ';' && c != ')',
        CharClass::CsvValue => !is_ws_char(c) && c != ',' && c != '(' && c != ')',
        CharClass::RowBody => c != ')' && c != ';',
        CharClass::CondKey => !is_ws_char(c) && c != '=' && c != '!' && c != '<' && c != '>',
        CharClass::CondOp => !is_ws_char(c) && c != ';' && c != '\'' && c != '"' && !is_digit_char(
            c,
        ),
        CharClass::CondValue => !is_ws_char(c) && c != '=' && c != '"' && c != ';' && c != '\'',
        CharClass::NotComma => c != ',',
    }
}

/// Executable membership test for a token class.
pub fn char_in_class(cls: CharClass, c: char) -> (b: bool)
    ensures
        b == in_class(cls, c),
{
    let ws: bool = c == ' ' || c == '\t' || c == '\n' || c == '\r';
    let digit: bool = 48 <= c as u32 && c as u32 <= 57;
    match cls {
        CharClass::Ws => ws,
        CharClass::Digit => digit,
        CharClass::NotLineEnd => c != '\n' && c != ';',
        CharClass::NotSemi => c != ';',
        CharClass::NotWs => !ws,
        CharClass::Token => !ws && c != ';',
        CharClass::NameNoParen => !ws && c != '(',
        CharClass::EntryName => !ws && c != ',' && c != '(',
        CharClass::EntryType => c != ',' && c != '\n' && c != ';' && c != ')',
        CharClass::CsvValue => !ws && c != ',' && c != '(' && c != ')',
        CharClass::RowBody => c != ')' && c != ';',
        CharClass::CondKey => !ws && c != '=' && c != '!' && c != '<' && c != '>',
        CharClass::CondOp => !ws && c != ';' && c != '\'' && c != '"' && !digit,
        CharClass::CondValue => !ws && c != '=' && c != '"' && c != ';' && c != '\'',
        CharClass::NotComma => c != ',',
    }
}

/// The end of the run of `cls` characters that starts at `i` in `q`.
pub open spec fn spec_scan(q: Seq<char>, i: int, cls: CharClass) -> int
    decreases q.len() - i,
{
    if i < 0 || i >= q.len() {
        i
    } else if in_class(cls, q[i]) {
        spec_scan(q, i + 1, cls)
    } else {
        i
    }
}

/// A scan never moves backwards, stays within the string, covers only class
/// characters and stops at the first character outside the class.
pub proof fn lemma_scan_bounds(q: Seq<char>, i: int, cls: CharClass)
    requires
        0 <= i <= q.len(),
    ensures
        i <= spec_scan(q, i, cls) <= q.len(),
        forall|j: int| i <= j < spec_scan(q, i, cls) ==> in_class(cls, q[j]),
        spec_scan(q, i, cls) < q.len() ==> !in_class(cls, q[spec_scan(q, i, cls)]),
    decreases q.len() - i,
{
    if i < q.len() && in_class(cls, q[i]) {
        lemma_scan_bounds(q, i + 1, cls);
    }
}

/// The scan end, clamped into `[i, q.len()]` so that grammar functions can
/// use it without first establishing the scan's bounds; it coincides with
/// the scan whenever `0 <= i <= q.len()`.
pub open spec fn scan_clamped(q: Seq<char>, i: int, cls: CharClass) -> int {
    let e = spec_scan(q, i, cls);
    if e < i {
        i
    } else if e > q.len() {
        q.len() as int
    } else {
        e
    }
}

/// Executable scan: returns the end of the run of `cls` characters at `i`.
pub fn scan(s: &str, i: usize, cls: CharClass) -> (r: usize)
    requires
        i <= s@.len(),
    ensures
        r == spec_scan(s@, i as int, cls),
        r == scan_clamped(s@, i as int, cls),
        i <= r <= s@.len(),
{
    let n = s.unicode_len();
    let mut j: usize = i;
    while j < n && char_in_class(cls, s.get_char(j))
        invariant
            i <= j <= n,
            n == s@.len(),
            spec_scan(s@, i as int, cls) == spec_scan(s@, j as int, cls),
        decreases n - j,
    {
        j = j + 1;
    }
    proof {
        lemma_scan_bounds(s@, i as int, cls);
    }
    j
}

/// Case-insensitive equality of two characters, folding only ASCII letters.
pub open spec fn ci_eq(a: char, b: char) -> bool {
    a == b || (is_upper_char(a) && a as u32 + 32 == b as u32) || (is_upper_char(b) && b as u32 + 32
        == a as u32)
}

/// Executable case-insensitive character comparison.
pub fn chars_ci_eq(a: char, b: char) -> (r: bool)
    ensures
        r == ci_eq(a, b),
{
    a == b || (65 <= a as u32 && a as u32 <= 90 && a as u32 + 32 == b as u32) || (65 <= b as u32
        && b as u32 <= 90 && b as u32 + 32 == a as u32)
}

/// Whether `kw` occurs at position `i` of `q`, compared case-insensitively.
pub open spec fn ci_match(q: Seq<char>, i: int, kw: Seq<char>) -> bool {
    &&& 0 <= i
    &&& i + kw.len() <= q.len()
    &&& forall|j: int| 0 <= j < kw.len() ==> ci_eq(q[i + j], kw[j])
}

/// Whether `a` and `kw` are equal up to ASCII case.
pub open spec fn ci_seq_eq(a: Seq<char>, kw: Seq<char>) -> bool {
    a.len() == kw.len() && ci_match(a, 0, kw)
}

/// Executable test that `kw` occurs at position `i` of `s`, case-insensitively.
pub fn match_ci_at(s: &str, i: usize, kw: &str) -> (r: bool)
    requires
        i <= s@.len(),
    ensures
        r == ci_match(s@, i as int, kw@),
{
    let n = s.unicode_len();
    let m = kw.unicode_len();
    if m > n - i {
        return false;
    }
    let mut j: usize = 0;
    while j < m
        invariant
            0 <= j <= m,
            m == kw@.len(),
            n == s@.len(),
            i + m <= n,
            forall|k: int| 0 <= k < j ==> ci_eq(s@[i + k], kw@[k]),
        decreases m - j,
    {
        if !chars_ci_eq(s.get_char(i + j), kw.get_char(j)) {
            return false;
        }
        j = j + 1;
    }
    true
}

/// Executable test that the slice `[lo, hi)` of `s` equals `kw` up to case.
pub fn range_ci_eq(s: &str, lo: usize, hi: usize, kw: &str) -> (r: bool)
    requires
        lo <= hi <= s@.len(),
    ensures
        r == ci_seq_eq(s@.subrange(lo as int, hi as int), kw@),
{
    let m = kw.unicode_len();
    if hi - lo != m {
        return false;
    }
    let r = match_ci_at(s, lo, kw);
    proof {
        let sub = s@.subrange(lo as int, hi as int);
        assert forall|j: int| 0 <= j < kw@.len() implies ci_eq(sub[0 + j], kw@[j]) == ci_eq(
            s@[lo + j],
            kw@[j],
        ) by {
            assert(sub[j] == s@[lo + j]);
        }
    }
    r
}

/// Whether `kw` occurs at position `i` of `q`, compared exactly.
pub open spec fn exact_match(q: Seq<char>, i: int, kw: Seq<char>) -> bool {
    &&& 0 <= i
    &&& i + kw.len() <= q.len()
    &&& forall|j: int| 0 <= j < kw.len() ==> q[i + j] == kw[j]
}

/// Executable test that `kw` occurs at position `i` of `s`, compared exactly.
pub fn match_exact_at(s: &str, i: usize, kw: &str) -> (r: bool)
    requires
        i <= s@.len(),
    ensures
        r == exact_match(s@, i as int, kw@),
{
    let n = s.unicode_len();
    let m = kw.unicode_len();
    if m > n - i {
        return false;
    }
    let mut j: usize = 0;
    while j < m
        invariant
            0 <= j <= m,
            m == kw@.len(),
            n == s@.len(),
            i + m <= n,
            forall|k: int| 0 <= k < j ==> s@[i + k] == kw@[k],
        decreases m - j,
    {
        if s.get_char(i + j) != kw.get_char(j) {
            return false;
        }
        j = j + 1;
    }
    true
}

/// Exact string equality, stated over the views.
pub fn str_eq(a: &str, b: &str) -> (r: bool)
    ensures
        r == (a@ == b@),
{
    let n = a.unicode_len();
    if n != b.unicode_len() {
        return false;
    }
    let r = match_exact_at(a, 0, b);
    proof {
        if r {
            assert(a@ =~= b@);
        }
    }
    r
}

/// The position where the trailing whitespace of `q.subrange(0, j)` starts.
pub open spec fn spec_trim_end(q: Seq<char>, j: int) -> int
    decreases j,
{
    if j <= 0 {
        0
    } else if is_ws_char(q[j - 1]) {
        spec_trim_end(q, j - 1)
    } else {
        j
    }
}

pub proof fn lemma_trim_end_bounds(q: Seq<char>, j: int)
    requires
        0 <= j <= q.len(),
    ensures
        0 <= spec_trim_end(q, j) <= j,
        forall|k: int| spec_trim_end(q, j) <= k < j ==> is_ws_char(q[k]),
        spec_trim_end(q, j) > 0 ==> !is_ws_char(q[spec_trim_end(q, j) - 1]),
    decreases j,
{
    if j > 0 && is_ws_char(q[j - 1]) {
        lemma_trim_end_bounds(q, j - 1);
    }
}

/// `q` with leading and trailing whitespace removed.
pub open spec fn spec_trim(q: Seq<char>) -> Seq<char> {
    let a = spec_scan(q, 0, CharClass::Ws);
    let b = spec_trim_end(q, q.len() as int);
    if b <= a {
        Seq::empty()
    } else {
        q.subrange(a, b)
    }
}

/// Trim leading and trailing whitespace from a string slice.
pub fn trim_str<'a>(s: &'a str) -> (r: &'a str)
    ensures
        r@ == spec_trim(s@),
        r@.len() <= s@.len(),
{
    let n = s.unicode_len();
    let a = scan(s, 0, CharClass::Ws);
    let mut b: usize = n;
    while b > a && char_in_class(CharClass::Ws, s.get_char(b - 1))
        invariant
            a <= b <= n,
            n == s@.len(),
            a == spec_scan(s@, 0, CharClass::Ws),
            spec_trim_end(s@, n as int) == spec_trim_end(s@, b as int),
        decreases b,
    {
        b = b - 1;
    }
    proof {
        lemma_scan_bounds(s@, 0, CharClass::Ws);
        lemma_trim_end_bounds(s@, b as int);
        if b <= a {
            // only possible when the whole string is whitespace
            assert(spec_trim_end(s@, b as int) <= b);
            assert(spec_trim(s@) =~= s@.subrange(a as int, a as int)) by {
                if spec_trim_end(s@, s@.len() as int) > a as int {
                    assert(!is_ws_char(s@[spec_trim_end(s@, s@.len() as int) - 1]));
                }
            }
        }
    }
    if b <= a {
        s.substring_char(a, a)
    } else {
        s.substring_char(a, b)
    }
}

/// Copy the slice `[lo, hi)` of `s` into an owned string.
pub fn extract(s: &str, lo: usize, hi: usize) -> (r: String)
    requires
        lo <= hi <= s@.len(),
    ensures
        r@ == s@.subrange(lo as int, hi as int),
{
    String::from_str(s.substring_char(lo, hi))
}

/// Lexicographic order on character sequences by Unicode scalar value; this
/// is the order Rust's own string comparison uses.
pub open spec fn lex_lt(a: Seq<char>, b: Seq<char>) -> bool
    decreases a.len(),
{
    if b.len() == 0 {
        false
    } else if a.len() == 0 {
        true
    } else if (a[0] as u32) < (b[0] as u32) {
        true
    } else if (a[0] as u32) > (b[0] as u32) {
        false
    } else {
        lex_lt(a.skip(1), b.skip(1))
    }
}

proof fn lemma_lex_lt_step(a: Seq<char>, b: Seq<char>, i: int)
    requires
        0 <= i,
        i < a.len(),
        i < b.len(),
        a[i] == b[i],
    ensures
        lex_lt(a.skip(i), b.skip(i)) == lex_lt(a.skip(i + 1), b.skip(i + 1)),
{
    assert(a.skip(i).len() > 0);
    assert(b.skip(i).len() > 0);
    assert(a.skip(i)[0] == a[i]);
    assert(b.skip(i)[0] == b[i]);
    assert(a.skip(i).skip(1) =~= a.skip(i + 1));
    assert(b.skip(i).skip(1) =~= b.skip(i + 1));
}

/// Executable lexicographic comparison of two strings.
pub fn str_lex_lt(a: &str, b: &str) -> (r: bool)
    ensures
        r == lex_lt(a@, b@),
{
    let na = a.unicode_len();
    let nb = b.unicode_len();
    proof {
        assert(a@.skip(0) =~= a@);
        assert(b@.skip(0) =~= b@);
    }
    let mut i: usize = 0;
    while i < na && i < nb
        invariant
            0 <= i <= na,
            i <= nb,
            na == a@.len(),
            nb == b@.len(),
            lex_lt(a@, b@) == lex_lt(a@.skip(i as int), b@.skip(i as int)),
            forall|k: int| 0 <= k < i ==> a@[k] == b@[k],
        decreases na - i,
    {
        let ca = a.get_char(i);
        let cb = b.get_char(i);
        if (ca as u32) < (cb as u32) {
            proof {
                assert(a@.skip(i as int)[0] == a@[i as int]);
                assert(b@.skip(i as int)[0] == b@[i as int]);
            }
            return true;
        }
        if (ca as u32) > (cb as u32) {
            proof {
                assert(a@.skip(i as int)[0] == a@[i as int]);
                assert(b@.skip(i as int)[0] == b@[i as int]);
            }
            return false;
        }
        proof {
            assert((ca as u32) == (cb as u32));
            assert(ca == cb) by {
                assert(ca as u32 == cb as u32);
            }
            lemma_lex_lt_step(a@, b@, i as int);
        }
        i = i + 1;
    }
    proof {
        assert(a@.skip(i as int).len() == na - i);
        assert(b@.skip(i as int).len() == nb - i);
    }
    i == na && i < nb
}

/// The largest position at most `hi` where `kw` occurs in `q`
/// case-insensitively, or -1 when there is none.
pub open spec fn spec_find_last_ci(q: Seq<char>, hi: int, kw: Seq<char>) -> int
    decreases hi + 1,
{
    if hi < 0 {
        -1
    } else if ci_match(q, hi, kw) {
        hi
    } else {
        spec_find_last_ci(q, hi - 1, kw)
    }
}

pub proof fn lemma_find_last_ci_bounds(q: Seq<char>, hi: int, kw: Seq<char>)
    requires
        -1 <= hi,
    ensures
        -1 <= spec_find_last_ci(q, hi, kw) <= hi,
        spec_find_last_ci(q, hi, kw) >= 0 ==> ci_match(q, spec_find_last_ci(q, hi, kw), kw),
    decreases hi + 1,
{
    if hi >= 0 && !ci_match(q, hi, kw) {
        lemma_find_last_ci_bounds(q, hi - 1, kw);
    }
}

/// Executable search for the last case-insensitive occurrence of `kw` at or
/// below position `hi`.
pub fn find_last_ci(s: &str, hi: usize, kw: &str) -> (r: Option<usize>)
    requires
        hi <= s@.len(),
    ensures
        match r {
            Some(i) => i == spec_find_last_ci(s@, hi as int, kw@),
            None => spec_find_last_ci(s@, hi as int, kw@) == -1,
        },
{
    let mut i: usize = hi;
    loop
        invariant
            0 <= i <= hi <= s@.len(),
            spec_find_last_ci(s@, hi as int, kw@) == spec_find_last_ci(s@, i as int, kw@),
        decreases i,
    {
        if match_ci_at(s, i, kw) {
            return Some(i);
        }
        if i == 0 {
            proof {
                assert(spec_find_last_ci(s@, -1, kw@) == -1);
            }
            return None;
        }
        i = i - 1;
    }
}

/// The smallest position at least `i` where `kw` occurs in `q`
/// case-insensitively, or -1 when there is none.
pub open spec fn spec_find_first_ci(q: Seq<char>, i: int, kw: Seq<char>) -> int
    decreases q.len() - i + 1,
{
    if i < 0 || i > q.len() {
        -1
    } else if ci_match(q, i, kw) {
        i
    } else if i == q.len() {
        -1
    } else {
        spec_find_first_ci(q, i + 1, kw)
    }
}

pub proof fn lemma_find_first_ci_bounds(q: Seq<char>, i: int, kw: Seq<char>)
    requires
        0 <= i <= q.len(),
    ensures
        spec_find_first_ci(q, i, kw) == -1 || spec_find_first_ci(q, i, kw) >= i,
        spec_find_first_ci(q, i, kw) >= 0 ==> ci_match(q, spec_find_first_ci(q, i, kw), kw),
    decreases q.len() - i,
{
    if !ci_match(q, i, kw) && i < q.len() {
        lemma_find_first_ci_bounds(q, i + 1, kw);
    }
}

/// Executable search for the first case-insensitive occurrence of `kw` at or
/// after position `i`.
pub fn find_first_ci(s: &str, i: usize, kw: &str) -> (r: Option<usize>)
    requires
        i <= s@.len(),
    ensures
        match r {
            Some(j) => j == spec_find_first_ci(s@, i as int, kw@),
            None => spec_find_first_ci(s@, i as int, kw@) == -1,
        },
{
    let n = s.unicode_len();
    let mut j: usize = i;
    loop
        invariant
            i <= j <= n,
            n == s@.len(),
            spec_find_first_ci(s@, i as int, kw@) == spec_find_first_ci(s@, j as int, kw@),
        decreases n - j,
    {
        if match_ci_at(s, j, kw) {
            return Some(j);
        }
        if j == n {
            return None;
        }
        j = j + 1;
    }
}

/// The decimal digit character for `d`, which must be below ten.
pub open spec fn digit_str(d: nat) -> Seq<char> {
    if d == 0 {
        "0"@
    } else if d == 1 {
        "1"@
    } else if d == 2 {
        "2"@
    } else if d == 3 {
        "3"@
    } else if d == 4 {
        "4"@
    } else if d == 5 {
        "5"@
    } else if d == 6 {
        "6"@
    } else if d == 7 {
        "7"@
    } else if d == 8 {
        "8"@
    } else {
        "9"@
    }
}

/// The decimal rendering of `n`, most significant digit first.
pub open spec fn dec_str(n: nat) -> Seq<char>
    decreases n,
{
    if n < 10 {
        digit_str(n)
    } else {
        dec_str(n / 10) + digit_str(n % 10)
    }
}

fn digit_slice(d: usize) -> (r: &'static str)
    requires
        d < 10,
    ensures
        r@ == digit_str(d as nat),
{
    if d == 0 {
        "0"
    } else if d == 1 {
        "1"
    } else if d == 2 {
        "2"
    } else if d == 3 {
        "3"
    } else if d == 4 {
        "4"
    } else if d == 5 {
        "5"
    } else if d == 6 {
        "6"
    } else if d == 7 {
        "7"
    } else if d == 8 {
        "8"
    } else {
        "9"
    }
}

/// Render `n` in decimal.
pub fn usize_to_string(n: usize) -> (r: String)
    ensures
        r@ == dec_str(n as nat),
    decreases n,
{
    if n < 10 {
        String::from_str(digit_slice(n))
    } else {
        let mut s = usize_to_string(n / 10);
        s.append(digit_slice(n % 10));
        s
    }
}

} // verus!
