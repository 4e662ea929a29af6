//! Character classes and small text helpers shared by the interpreter.

use vstd::prelude::*;
use vstd::string::StringExecFns;

verus! {

/// Unicode `White_Space`, the class `char::is_whitespace` tests.
pub open spec fn is_ws(c: char) -> bool {
    let u = c as u32;
    ||| 0x09 <= u <= 0x0d
    ||| u == 0x20
    ||| u == 0x85
    ||| u == 0xa0
    ||| u == 0x1680
    ||| 0x2000 <= u <= 0x200a
    ||| u == 0x2028
    ||| u == 0x2029
    ||| u == 0x202f
    ||| u == 0x205f
    ||| u == 0x3000
}

pub open spec fn is_digit(c: char) -> bool {
    '0' <= c <= '9'
}

pub open spec fn is_upper(c: char) -> bool {
    'A' <= c <= 'Z'
}

pub open spec fn is_lower(c: char) -> bool {
    'a' <= c <= 'z'
}

pub open spec fn is_alpha(c: char) -> bool {
    is_upper(c) || is_lower(c)
}

pub open spec fn is_alnum(c: char) -> bool {
    is_alpha(c) || is_digit(c)
}

pub open spec fn lower(c: char) -> char {
    if is_upper(c) { ((c as u32) + 32) as char } else { c }
}

pub fn is_whitespace(c: char) -> (b: bool)
    ensures b == is_ws(c),
{
    let u = c as u32;
    (0x09 <= u && u <= 0x0d) || u == 0x20 || u == 0x85 || u == 0xa0 || u == 0x1680
        || (0x2000 <= u && u <= 0x200a) || u == 0x2028 || u == 0x2029 || u == 0x202f
        || u == 0x205f || u == 0x3000
}

pub fn is_ascii_digit(c: char) -> (b: bool)
    ensures b == is_digit(c),
{
    '0' <= c && c <= '9'
}

pub fn is_ascii_alphabetic(c: char) -> (b: bool)
    ensures b == is_alpha(c),
{
    ('A' <= c && c <= 'Z') || ('a' <= c && c <= 'z')
}

pub fn to_ascii_lowercase(c: char) -> (r: char)
    ensures r == lower(c),
{
    if 'A' <= c && c <= 'Z' {
        ((c as u8) + 32) as char
    } else {
        c
    }
}

/// The characters of `s`, in order.
pub fn chars_of(s: &str) -> (v: Vec<char>)
    ensures v@ == s@,
{
    let mut v: Vec<char> = Vec::new();
    for c in it: s.chars()
        invariant
            v@ == it.seq().take(it.index() as int),
    {
        v.push(c);
    }
    v
}

} // verus!

verus! {

/// First position at or after `i` that does not hold whitespace.
pub open spec fn skip_ws_from(s: Seq<char>, i: nat) -> nat
    decreases s.len() - i,
{
    if i < s.len() && is_ws(s[i as int]) {
        skip_ws_from(s, i + 1)
    } else {
        i
    }
}

/// One past the last non-whitespace character of `s.take(j)`.
pub open spec fn trim_end_from(s: Seq<char>, j: nat) -> nat
    decreases j,
{
    if j > 0 && j <= s.len() && is_ws(s[j - 1]) {
        trim_end_from(s, (j - 1) as nat)
    } else {
        j
    }
}

/// `s` without leading and trailing whitespace (what `str::trim` gives).
pub open spec fn trim(s: Seq<char>) -> Seq<char> {
    let a = skip_ws_from(s, 0);
    if a >= s.len() {
        Seq::empty()
    } else {
        s.subrange(a as int, trim_end_from(s, s.len()) as int)
    }
}

/// End of the run of characters satisfying `p` that starts at `i`.
pub open spec fn run_end(s: Seq<char>, i: nat, p: spec_fn(char) -> bool) -> nat
    decreases s.len() - i,
{
    if i < s.len() && p(s[i as int]) {
        run_end(s, i + 1, p)
    } else {
        i
    }
}

pub open spec fn lower_all(s: Seq<char>) -> Seq<char> {
    s.map_values(|c: char| lower(c))
}

pub proof fn lemma_skip_ws_bounds(s: Seq<char>, i: nat)
    requires
        i <= s.len(),
    ensures
        i <= skip_ws_from(s, i) <= s.len(),
        forall|k: int| i <= k < skip_ws_from(s, i) ==> is_ws(#[trigger] s[k]),
        skip_ws_from(s, i) < s.len() ==> !is_ws(s[skip_ws_from(s, i) as int]),
    decreases s.len() - i,
{
    if i < s.len() && is_ws(s[i as int]) {
        lemma_skip_ws_bounds(s, i + 1);
    }
}

pub proof fn lemma_run_end_bounds(s: Seq<char>, i: nat, p: spec_fn(char) -> bool)
    requires
        i <= s.len(),
    ensures
        i <= run_end(s, i, p) <= s.len(),
        forall|k: int| i <= k < run_end(s, i, p) ==> p(#[trigger] s[k]),
        run_end(s, i, p) < s.len() ==> !p(s[run_end(s, i, p) as int]),
    decreases s.len() - i,
{
    if i < s.len() && p(s[i as int]) {
        lemma_run_end_bounds(s, i + 1, p);
    }
}

pub proof fn lemma_trim_end_bounds(s: Seq<char>, j: nat)
    requires
        j <= s.len(),
    ensures
        trim_end_from(s, j) <= j,
        forall|k: int| trim_end_from(s, j) <= k < j ==> is_ws(#[trigger] s[k]),
        trim_end_from(s, j) > 0 ==> !is_ws(s[trim_end_from(s, j) - 1]),
    decreases j,
{
    if j > 0 && is_ws(s[j - 1]) {
        lemma_trim_end_bounds(s, (j - 1) as nat);
    }
}

/// Position of the first non-whitespace character at or after `i`.
pub fn skip_ws(s: &Vec<char>, i: usize) -> (r: usize)
    requires
        i <= s.len(),
    ensures
        r == skip_ws_from(s@, i as nat),
        i <= r <= s.len(),
{
    proof {
        lemma_skip_ws_bounds(s@, i as nat);
    }
    let mut k = i;
    while k < s.len() && is_whitespace(s[k])
        invariant
            i <= k <= s.len(),
            skip_ws_from(s@, k as nat) == skip_ws_from(s@, i as nat),
        decreases s.len() - k,
    {
        k = k + 1;
    }
    k
}

/// The characters `s[a..b]`.
pub fn slice_of(s: &Vec<char>, a: usize, b: usize) -> (v: Vec<char>)
    requires
        a <= b <= s.len(),
    ensures
        v@ == s@.subrange(a as int, b as int),
{
    let mut v: Vec<char> = Vec::new();
    let mut k = a;
    while k < b
        invariant
            a <= k <= b <= s.len(),
            v@ == s@.subrange(a as int, k as int),
        decreases b - k,
    {
        v.push(s[k]);
        k = k + 1;
    }
    v
}

/// `s` with leading and trailing whitespace removed.
pub fn trim_chars(s: &Vec<char>) -> (v: Vec<char>)
    ensures
        v@ == trim(s@),
{
    let a = skip_ws(s, 0);
    if a >= s.len() {
        return Vec::new();
    }
    proof {
        lemma_skip_ws_bounds(s@, 0);
        lemma_trim_end_bounds(s@, s@.len());
    }
    let mut b = s.len();
    while b > 0 && is_whitespace(s[b - 1])
        invariant
            b <= s.len(),
            trim_end_from(s@, b as nat) == trim_end_from(s@, s@.len()),
        decreases b,
    {
        b = b - 1;
    }
    assert(b > a) by {
        // s[a] is not whitespace, so the trailing scan stops after it
        if b <= a {
            assert(!is_ws(s@[a as int]));
        }
    }
    slice_of(s, a, b)
}

/// Whether `v` holds exactly the characters of `w`.
pub fn chars_eq(v: &Vec<char>, w: &[char]) -> (b: bool)
    ensures
        b == (v@ == w@),
{
    if v.len() != w.len() {
        return false;
    }
    let mut k: usize = 0;
    while k < v.len()
        invariant
            v.len() == w.len(),
            k <= v.len(),
            forall|j: int| 0 <= j < k ==> v@[j] == w@[j],
        decreases v.len() - k,
    {
        if v[k] != w[k] {
            return false;
        }
        k = k + 1;
    }
    assert(v@ =~= w@);
    true
}

} // verus!

verus! {

/// std's `String::push`. Claimed: afterwards the string holds what it held
/// before, then `c`.
#[verifier::external_body]
fn push_char(s: &mut String, c: char)
    ensures
        final(s)@ == old(s)@.push(c),
{
    s.push(c);
}

/// A `String` holding the characters of `v`.
pub(crate) fn string_of(v: &Vec<char>) -> (s: String)
    ensures
        s@ == v@,
{
    let mut s = String::new();
    let mut k: usize = 0;
    while k < v.len()
        invariant
            k <= v.len(),
            s@ == v@.take(k as int),
        decreases v.len() - k,
    {
        push_char(&mut s, v[k]);
        proof {
            assert(v@.take(k as int + 1) =~= v@.take(k as int).push(v@[k as int]));
        }
        k = k + 1;
    }
    assert(v@.take(k as int) =~= v@);
    s
}

/// `a`, then the characters of `b`.
pub fn join2(a: &str, b: &Vec<char>) -> (s: String)
    ensures
        s@ == a@ + b@,
{
    let mut s = String::from_str(a);
    let m = string_of(b);
    s.append(m.as_str());
    s
}

/// `a`, then the characters of `b`, then `c`.
pub fn join3(a: &str, b: &Vec<char>, c: &str) -> (s: String)
    ensures
        s@ == a@ + b@ + c@,
{
    let mut s = String::from_str(a);
    let m = string_of(b);
    s.append(m.as_str());
    s.append(c);
    s
}

} // verus!

verus! {

/// How std's `Debug` writes a string (quoted and escaped).
pub uninterp spec fn str_debug(s: Seq<char>) -> Seq<char>;

/// std's `Debug` formatting of a `str` (`format!("{s:?}")`). Claimed: the
/// result depends on `s` alone and is named `str_debug`; the quoting and
/// escaping rules are not spelled out.
#[verifier::external_body]
pub(crate) fn debug_str(s: &str) -> (r: String)
    ensures
        r@ == str_debug(s@),
{
    format!("{s:?}")
}

} // verus!

verus! {

// ── decimal numbers ───────────────────────────────────────────────────────

/// The digit character of `d` (below ten).
pub open spec fn digit_char(d: nat) -> char {
    ((d + 48) as u8) as char
}

/// Decimal digits of `n`, most significant first, without leading zeros.
pub open spec fn decimal(n: nat) -> Seq<char>
    decreases n,
{
    if n < 10 {
        seq![digit_char(n)]
    } else {
        decimal(n / 10).push(digit_char(n % 10))
    }
}

/// Decimal text of a signed integer, as `Display` writes it.
pub open spec fn signed_decimal(v: int) -> Seq<char> {
    if v < 0 {
        seq!['-'] + decimal((-v) as nat)
    } else {
        decimal(v as nat)
    }
}

pub fn decimal_chars(n: u64) -> (s: Vec<char>)
    ensures
        s@ == decimal(n as nat),
    decreases n,
{
    let d = ((n % 10) as u8 + 48u8) as char;
    if n < 10 {
        let mut s: Vec<char> = Vec::new();
        s.push(d);
        s
    } else {
        let mut s = decimal_chars(n / 10);
        s.push(d);
        s
    }
}

pub fn signed_decimal_chars(v: i64) -> (s: Vec<char>)
    ensures
        s@ == signed_decimal(v as int),
{
    if v < 0 {
        let m: u64 = ((-(v + 1)) as u64) + 1;
        let digits = decimal_chars(m);
        let mut s: Vec<char> = Vec::new();
        s.push('-');
        let mut k: usize = 0;
        while k < digits.len()
            invariant
                k <= digits.len(),
                s@ == seq!['-'] + digits@.take(k as int),
            decreases digits.len() - k,
        {
            s.push(digits[k]);
            proof {
                assert(digits@.take(k as int + 1) =~= digits@.take(k as int).push(digits@[k as int]));
            }
            k = k + 1;
        }
        proof {
            assert(digits@.take(k as int) =~= digits@);
        }
        s
    } else {
        decimal_chars(v as u64)
    }
}

} // verus!

verus! {

// ── lines ─────────────────────────────────────────────────────────────────

/// A line without the `\r` of a `\r\n` ending.
pub open spec fn strip_cr(p: Seq<char>) -> Seq<char> {
    if p.len() > 0 && p.last() == '\r' {
        p.drop_last()
    } else {
        p
    }
}

/// The lines of `s` from position `i` on: split at `\n` (a `\r` before it
/// belongs to the ending); a final line ending is optional.
pub open spec fn lines_from(s: Seq<char>, i: nat) -> Seq<Seq<char>>
    decreases s.len() - i,
{
    if i >= s.len() {
        Seq::empty()
    } else {
        let e = run_end(s, i, |c: char| c != '\n');
        if e < s.len() && e >= i {
            seq![strip_cr(s.subrange(i as int, e as int))] + lines_from(s, e + 1)
        } else {
            seq![s.subrange(i as int, s.len() as int)]
        }
    }
}

pub open spec fn lines_spec(s: Seq<char>) -> Seq<Seq<char>> {
    lines_from(s, 0)
}

/// The lines of a program text, each as its characters.
pub fn split_lines(text: &str) -> (r: Vec<Vec<char>>)
    ensures
        r@.map_values(|l: Vec<char>| l@) == lines_spec(text@),
{
    let s = chars_of(text);
    let mut out: Vec<Vec<char>> = Vec::new();
    let mut i: usize = 0;
    while i < s.len()
        invariant
            i <= s.len(),
            s@ == text@,
            out@.map_values(|l: Vec<char>| l@) + lines_from(s@, i as nat) == lines_from(s@, 0),
        decreases s.len() - i,
    {
        proof {
            lemma_run_end_bounds(s@, i as nat, |c: char| c != '\n');
        }
        let mut e = i;
        while e < s.len() && s[e] != '\n'
            invariant
                i <= e <= s.len(),
                run_end(s@, e as nat, |c: char| c != '\n') == run_end(s@, i as nat, |c: char| c != '\n'),
            decreases s.len() - e,
        {
            e = e + 1;
        }
        let ghost before = out@;
        if e < s.len() {
            let mut piece = slice_of(&s, i, e);
            if piece.len() > 0 && piece[piece.len() - 1] == '\r' {
                piece.pop();
            }
            proof {
                assert(piece@ == strip_cr(s@.subrange(i as int, e as int)));
            }
            out.push(piece);
            proof {
                assert(out@.map_values(|l: Vec<char>| l@) =~= before.map_values(|l: Vec<char>| l@).push(piece@));
                assert(lines_from(s@, i as nat) == seq![piece@] + lines_from(s@, (e + 1) as nat));
                assert(before.map_values(|l: Vec<char>| l@).push(piece@) + lines_from(s@, (e + 1) as nat)
                    =~= before.map_values(|l: Vec<char>| l@) + (seq![piece@] + lines_from(s@, (e + 1) as nat)));
            }
            i = e + 1;
        } else {
            let piece = slice_of(&s, i, s.len());
            out.push(piece);
            proof {
                assert(out@.map_values(|l: Vec<char>| l@) =~= before.map_values(|l: Vec<char>| l@).push(piece@));
                assert(lines_from(s@, i as nat) == seq![piece@]);
                assert(lines_from(s@, s.len() as nat) =~= Seq::<Seq<char>>::empty());
                assert(before.map_values(|l: Vec<char>| l@).push(piece@) + Seq::<Seq<char>>::empty()
                    =~= before.map_values(|l: Vec<char>| l@) + seq![piece@]);
            }
            i = s.len();
        }
    }
    proof {
        assert(lines_from(s@, i as nat) =~= Seq::<Seq<char>>::empty());
        assert(out@.map_values(|l: Vec<char>| l@) + Seq::<Seq<char>>::empty() =~= out@.map_values(|l: Vec<char>| l@));
    }
    out
}

} // verus!
