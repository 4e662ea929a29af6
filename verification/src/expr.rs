//! The character cursor that RS274NGC expressions and words are read with,
//! and the scoping rule of `#` parameters.

use vstd::prelude::*;
use crate::text::{
    chars_of, is_alnum, is_alpha, is_digit, is_ws, is_whitespace, is_ascii_digit, lemma_skip_ws_bounds,
    lower, run_end, skip_ws_from, slice_of, string_of, to_ascii_lowercase,
};

verus! {

/// A position in a line of text.
pub struct Cursor {
    chars: Vec<char>,
    pub pos: usize,
}

/// The characters of `kw` match `s` ignoring ASCII case.
pub open spec fn matches_ignoring_case(s: Seq<char>, kw: Seq<char>) -> bool {
    &&& s.len() == kw.len()
    &&& forall|i: int| 0 <= i < s.len() ==> lower(#[trigger] s[i]) == lower(kw[i])
}

pub open spec fn is_ascii_char(c: char) -> bool {
    (c as u32) < 128
}

impl Cursor {
    pub closed spec fn text(&self) -> Seq<char> {
        self.chars@
    }

    pub closed spec fn position(&self) -> nat {
        self.pos as nat
    }

    /// The character at the cursor, if any is left.
    pub open spec fn peek_spec(&self) -> Option<char> {
        if self.position() < self.text().len() {
            Some(self.text()[self.position() as int])
        } else {
            None
        }
    }

    pub fn new(text: &str) -> (c: Self)
        ensures
            c.text() == text@,
            c.position() == 0,
    {
        Self { chars: chars_of(text), pos: 0 }
    }

    /// Number of characters in the text.
    pub fn len(&self) -> (r: usize)
        ensures
            r == self.text().len(),
    {
        self.chars.len()
    }

    pub fn peek(&self) -> (r: Option<char>)
        ensures
            r == self.peek_spec(),
    {
        if self.pos < self.chars.len() {
            Some(self.chars[self.pos])
        } else {
            None
        }
    }

    /// The character after the current one.
    pub fn peek_after(&self) -> (r: Option<char>)
        ensures
            r == (if self.position() + 1 < self.text().len() { Some(self.text()[(self.position() + 1) as int]) } else { None::<char> }),
    {
        if self.pos < self.chars.len() && self.pos + 1 < self.chars.len() {
            Some(self.chars[self.pos + 1])
        } else {
            None
        }
    }

    pub fn next(&mut self) -> (r: Option<char>)
        ensures
            r == old(self).peek_spec(),
            final(self).text() == old(self).text(),
            final(self).position() == (if old(self).position() < old(self).text().len() { old(self).position() + 1 } else { old(self).position() }),
    {
        if self.pos < self.chars.len() {
            let c = self.chars[self.pos];
            self.pos = self.pos + 1;
            Some(c)
        } else {
            None
        }
    }

    pub fn skip_ws(&mut self)
        ensures
            final(self).text() == old(self).text(),
            final(self).position() == skip_ws_from(old(self).text(), old(self).position() as nat),
    {
        let ghost start = self.pos as nat;
        while self.pos < self.chars.len() && is_whitespace(self.chars[self.pos])
            invariant
                self.chars@ == old(self).chars@,
                skip_ws_from(self.chars@, self.pos as nat) == skip_ws_from(self.chars@, start),
            decreases self.chars.len() - self.pos,
        {
            self.pos = self.pos + 1;
        }
    }

    /// Skips whitespace; true when nothing else is left.
    pub fn at_end(&mut self) -> (r: bool)
        ensures
            final(self).text() == old(self).text(),
            final(self).position() == skip_ws_from(old(self).text(), old(self).position() as nat),
            r == (skip_ws_from(old(self).text(), old(self).position() as nat) >= old(self).text().len()),
    {
        self.skip_ws();
        self.pos >= self.chars.len()
    }

    /// Skips whitespace, then consumes the keyword `kw` (ASCII, any case)
    /// if it comes next; a keyword ending in a letter must not run into a
    /// letter or digit.
    pub fn starts_with_kw(&mut self, kw: &str) -> (r: bool)
        requires
            old(self).position() <= old(self).text().len(),
            kw@.len() > 0,
            forall|i: int| 0 <= i < kw@.len() ==> is_ascii_char(#[trigger] kw@[i]),
        ensures
            final(self).text() == old(self).text(),
            ({
                let s = old(self).text();
                let p = skip_ws_from(s, old(self).position() as nat);
                let n = kw@.len();
                let e = p + n;
                let matched = e <= s.len() && matches_ignoring_case(s.subrange(p as int, e as int), kw@);
                let runs_on = is_alpha(kw@.last()) && e < s.len() && is_alnum(s[e as int]);
                &&& r == (matched && !runs_on)
                &&& final(self).position() == (if r { e } else { p })
            }),
    {
        self.skip_ws();
        let k = chars_of(kw);
        let p = self.pos;
        proof {
            lemma_skip_ws_bounds(self.chars@, old(self).position() as nat);
        }
        if self.chars.len() - p < k.len() {
            return false;
        }
        let mut i: usize = 0;
        while i < k.len()
            invariant
                p + k.len() <= self.chars.len(),
                self.chars@ == old(self).chars@,
                p as nat == skip_ws_from(old(self).chars@, old(self).pos as nat),
                self.pos == p,
                k@ == kw@,
                i <= k.len(),
                forall|j: int| 0 <= j < i ==> lower(self.chars@[p + j]) == lower(k@[j]),
            decreases k.len() - i,
        {
            if to_ascii_lowercase(self.chars[p + i]) != to_ascii_lowercase(k[i]) {
                proof {
                    let sub = self.chars@.subrange(p as int, (p + k.len()) as int);
                    assert(sub[i as int] == self.chars@[p + i]);
                    assert(lower(sub[i as int]) != lower(kw@[i as int]));
                }
                return false;
            }
            i = i + 1;
        }
        proof {
            let sub = self.chars@.subrange(p as int, (p + k.len()) as int);
            assert forall|j: int| 0 <= j < sub.len() implies lower(#[trigger] sub[j]) == lower(kw@[j]) by {
                assert(sub[j] == self.chars@[p + j]);
            }
        }
        let e = p + k.len();
        let last = k[k.len() - 1];
        if ('A' <= last && last <= 'Z' || 'a' <= last && last <= 'z') && e < self.chars.len() {
            let a = self.chars[e];
            if ('A' <= a && a <= 'Z') || ('a' <= a && a <= 'z') || ('0' <= a && a <= '9') {
                return false;
            }
        }
        self.pos = e;
        true
    }

    /// Skips whitespace and consumes a run of digits and dots, returning it
    /// (the text of a number, parsed by the caller).
    pub fn number_text(&mut self) -> (r: String)
        ensures
            final(self).text() == old(self).text(),
            ({
                let s = old(self).text();
                let p = skip_ws_from(s, old(self).position() as nat);
                let e = run_end(s, p, |c: char| is_digit(c) || c == '.');
                &&& final(self).position() == e
                &&& r@ == (if p <= s.len() { s.subrange(p as int, e as int) } else { Seq::<char>::empty() })
            }),
    {
        self.skip_ws();
        let start = self.pos;
        let ghost s = self.chars@;
        proof {
            if start <= s.len() {
                crate::text::lemma_run_end_bounds(s, start as nat, |c: char| is_digit(c) || c == '.');
            }
        }
        while self.pos < self.chars.len() && (is_ascii_digit(self.chars[self.pos]) || self.chars[self.pos] == '.')
            invariant
                self.chars@ == s,
                start <= self.pos,
                run_end(s, self.pos as nat, |c: char| is_digit(c) || c == '.') == run_end(s, start as nat, |c: char| is_digit(c) || c == '.'),
            decreases self.chars.len() - self.pos,
        {
            self.pos = self.pos + 1;
        }
        if start <= self.chars.len() {
            let v = slice_of(&self.chars, start, self.pos);
            string_of(&v)
        } else {
            proof {
                assert(self.pos == start);
            }
            let v: Vec<char> = Vec::new();
            string_of(&v)
        }
    }
}

// ── named parameters ──────────────────────────────────────────────────────

/// Unicode lower case of a string, as `str::to_lowercase` computes it.
pub uninterp spec fn lowercase_spec(s: Seq<char>) -> Seq<char>;

/// std's `str::to_lowercase`. Claimed: the result depends on the input
/// alone and is named `lowercase_spec`; Unicode's case mapping itself is
/// not spelled out.
#[verifier::external_body]
fn to_lowercase(s: &String) -> (r: String)
    ensures
        r@ == lowercase_spec(s@),
{
    s.to_lowercase()
}

/// `s` without its whitespace characters.
pub open spec fn drop_ws(s: Seq<char>) -> Seq<char>
    decreases s.len(),
{
    if s.len() == 0 {
        s
    } else if is_ws(s.last()) {
        drop_ws(s.drop_last())
    } else {
        drop_ws(s.drop_last()).push(s.last())
    }
}

/// Reads `<name>` (the cursor on `<`) as in `#<name>`: the name without
/// whitespace, in lower case; an error when the `>` is missing.
pub fn param_name(cur: &mut Cursor) -> (r: Result<String, String>)
    requires
        old(cur).peek_spec() == Some('<'),
    ensures
        final(cur).text() == old(cur).text(),
        ({
            let s = old(cur).text();
            let e = run_end(s, (old(cur).position() + 1) as nat, |c: char| c != '>');
            if e < s.len() {
                &&& r == Ok::<String, String>(r->Ok_0)
                &&& r->Ok_0@ == lowercase_spec(drop_ws(s.subrange((old(cur).position() + 1) as int, e as int)))
                &&& final(cur).position() == e + 1
            } else {
                &&& r == Err::<String, String>(r->Err_0)
                &&& r->Err_0@ == "unterminated #<name>"@
                &&& final(cur).position() == s.len()
            }
        }),
{
    cur.next();
    let ghost s = cur.chars@;
    let ghost start = cur.pos as nat;
    let mut name: Vec<char> = Vec::new();
    proof {
        crate::text::lemma_run_end_bounds(s, start, |c: char| c != '>');
    }
    loop
        invariant
            cur.chars@ == s,
            s == old(cur).chars@,
            start == old(cur).pos + 1,
            start <= cur.pos <= s.len(),
            forall|j: int| start <= j < cur.pos ==> s[j] != '>',
            run_end(s, cur.pos as nat, |c: char| c != '>') == run_end(s, start, |c: char| c != '>'),
            name@ == drop_ws(s.subrange(start as int, cur.pos as int)),
        decreases s.len() - cur.pos,
    {
        let ghost before = cur.pos;
        match cur.next() {
            None => {
                return Err(String::from_str("unterminated #<name>"));
            },
            Some(c) => {
                if c == '>' {
                    let n = string_of(&name);
                    return Ok(to_lowercase(&n));
                }
                proof {
                    assert(s.subrange(start as int, cur.pos as int).drop_last() =~= s.subrange(start as int, before as int));
                }
                if !is_whitespace(c) {
                    name.push(c);
                }
            },
        }
    }
}

// ── parameter scope ───────────────────────────────────────────────────────

pub open spec fn digits_value(d: Seq<char>) -> nat
    decreases d.len(),
{
    if d.len() == 0 {
        0
    } else {
        digits_value(d.drop_last()) * 10 + ((d.last() as u32) - ('0' as u32)) as nat
    }
}

pub open spec fn all_digits(d: Seq<char>) -> bool {
    forall|i: int| 0 <= i < d.len() ==> is_digit(#[trigger] d[i])
}

/// The digits of an unsigned number: without one leading `+`.
pub open spec fn unsigned_digits(s: Seq<char>) -> Seq<char> {
    if s.len() > 0 && s[0] == '+' { s.drop_first() } else { s }
}

/// What `str::parse::<u32>` accepts: an optional `+`, then one or more
/// ASCII digits whose value fits in 32 bits.
pub open spec fn parse_u32_spec(s: Seq<char>) -> Option<nat> {
    let d = unsigned_digits(s);
    if d.len() > 0 && all_digits(d) && digits_value(d) <= u32::MAX {
        Some(digits_value(d))
    } else {
        None
    }
}

proof fn lemma_digits_grow(d: Seq<char>, i: int)
    requires
        0 <= i <= d.len(),
        forall|k: int| 0 <= k < d.len() ==> is_digit(#[trigger] d[k]),
    ensures
        digits_value(d.take(i)) <= digits_value(d),
    decreases d.len() - i,
{
    if i < d.len() {
        lemma_digits_grow(d, i + 1);
        assert(d.take(i + 1).drop_last() =~= d.take(i));
    } else {
        assert(d.take(i) =~= d);
    }
}

/// `key` read as `str::parse::<u32>` would.
pub fn parse_u32(key: &Vec<char>) -> (r: Option<u32>)
    ensures
        match (r, parse_u32_spec(key@)) {
            (Some(x), Some(y)) => x == y,
            (None, None) => true,
            _ => false,
        },
{
    let start: usize = if key.len() > 0 && key[0] == '+' { 1 } else { 0 };
    let ghost d = unsigned_digits(key@);
    assert(d =~= key@.subrange(start as int, key@.len() as int));
    if start >= key.len() {
        return None;
    }
    let mut acc: u64 = 0;
    let mut i = start;
    while i < key.len()
        invariant
            start <= i <= key.len(),
            d == unsigned_digits(key@),
            d.len() > 0,
            d =~= key@.subrange(start as int, key@.len() as int),
            acc == digits_value(d.take(i - start)),
            acc <= u32::MAX,
            forall|k: int| 0 <= k < i - start ==> is_digit(#[trigger] d[k]),
        decreases key.len() - i,
    {
        let c = key[i];
        if !is_ascii_digit(c) {
            assert(d[i - start] == c);
            assert(!all_digits(d));
            assert(parse_u32_spec(key@) is None);
            return None;
        }
        let digit = ((c as u32) - ('0' as u32)) as u64;
        assert(d.take(i + 1 - start).drop_last() =~= d.take(i - start));
        acc = acc * 10 + digit;
        i = i + 1;
        if acc > 0xffff_ffff {
            proof {
                if all_digits(d) {
                    lemma_digits_grow(d, i - start);
                }
                assert(parse_u32_spec(key@) is None);
            }
            return None;
        }
    }
    assert(d.take(i - start) =~= d);
    Some(acc as u32)
}

/// Whether parameter `key` is subroutine-local: numbered parameters 1–30
/// and plain named parameters are local while a call frame exists;
/// `_`-prefixed names are always global.
pub open spec fn is_local_spec(in_subroutine: bool, key: Seq<char>) -> bool {
    if !in_subroutine || (key.len() > 0 && key[0] == '_') {
        false
    } else {
        match parse_u32_spec(key) {
            Some(n) => 1 <= n <= 30,
            None => true,
        }
    }
}

pub fn param_is_local(in_subroutine: bool, key: &str) -> (r: bool)
    ensures
        r == is_local_spec(in_subroutine, key@),
{
    let k = chars_of(key);
    if !in_subroutine || (k.len() > 0 && k[0] == '_') {
        return false;
    }
    match parse_u32(&k) {
        Some(n) => 1 <= n && n <= 30,
        None => true,
    }
}

} // verus!

