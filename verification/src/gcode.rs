//! RS274NGC program text: comments, block delete, O-word lines and the
//! search for the O-word that closes a block. Geometry and parameter
//! arithmetic are done by the interpreter around this module.

use vstd::prelude::*;
use crate::text::{
    chars_eq, is_alpha, is_upper, is_ascii_alphabetic, is_ascii_digit, is_digit, lemma_run_end_bounds, lower,
    lower_all, run_end, skip_ws, skip_ws_from, slice_of, to_ascii_lowercase, trim, trim_chars,
};

verus! {

/// An interpreter error, tied to its 1-based source line.
#[derive(Debug)]
pub struct GCodeError {
    pub line: usize,
    pub message: String,
}

pub fn err(line: usize, message: String) -> (e: GCodeError)
    ensures
        e.line == line,
        e.message@ == message@,
{
    GCodeError { line, message }
}

#[derive(Debug, Clone, Copy, PartialEq, Eq, Structural)]
pub enum SegmentKind {
    Rapid,
    Feed,
    Arc,
}

#[derive(Debug, Clone, Copy, PartialEq, Eq, Structural)]
pub enum PauseKind {
    /// M0 — unconditional program stop.
    Mandatory,
    /// M1 — stops only when the operator armed optional stop.
    Optional,
}

/// (u, v, w) axis indices for G17/G18/G19; anything else is XY.
pub fn plane_axes(plane: u8) -> (r: (usize, usize, usize))
    ensures
        r == (if plane == 18 { (2usize, 0usize, 1usize) } else if plane == 19 { (1usize, 2usize, 0usize) } else { (0usize, 1usize, 2usize) }),
{
    match plane {
        18 => (2, 0, 1),
        19 => (1, 2, 0),
        _ => (0, 1, 2),
    }
}

// ── comments ────────────────────────────────────────────────────────────

/// What survives of `s[i..]` when `depth` parentheses are open: text
/// outside `( … )` comments, up to a `;` at depth 0.
pub open spec fn strip_from(s: Seq<char>, i: nat, depth: nat) -> Seq<char>
    decreases s.len() - i,
{
    if i >= s.len() {
        Seq::empty()
    } else {
        let c = s[i as int];
        if c == '(' {
            strip_from(s, i + 1, depth + 1)
        } else if c == ')' && depth > 0 {
            strip_from(s, i + 1, (depth - 1) as nat)
        } else if c == ';' && depth == 0 {
            Seq::empty()
        } else if depth == 0 {
            seq![c] + strip_from(s, i + 1, 0)
        } else {
            strip_from(s, i + 1, depth)
        }
    }
}

pub open spec fn strip_comments_spec(s: Seq<char>) -> Seq<char> {
    strip_from(s, 0, 0)
}

pub fn strip_comments(line: &Vec<char>) -> (out: Vec<char>)
    ensures
        out@ == strip_comments_spec(line@),
{
    let mut out: Vec<char> = Vec::new();
    let mut depth: usize = 0;
    let mut k: usize = 0;
    while k < line.len()
        invariant
            k <= line.len(),
            depth <= k,
            strip_comments_spec(line@) == out@ + strip_from(line@, k as nat, depth as nat),
        decreases line.len() - k,
    {
        let c = line[k];
        if c == '(' {
            depth = depth + 1;
        } else if c == ')' && depth > 0 {
            depth = depth - 1;
        } else if c == ';' && depth == 0 {
            assert(out@ + Seq::<char>::empty() =~= out@);
            return out;
        } else if depth == 0 {
            assert(out@ + (seq![c] + strip_from(line@, (k + 1) as nat, 0)) =~= out@.push(c) + strip_from(line@, (k + 1) as nat, 0));
            out.push(c);
        }
        k = k + 1;
    }
    assert(out@ + Seq::<char>::empty() =~= out@);
    out
}

/// Text of a line after comments and block delete, or None when the line
/// is skipped entirely.
pub open spec fn effective_spec(raw: Seq<char>, block_delete: bool) -> Option<Seq<char>> {
    let t = trim(strip_comments_spec(raw));
    let slash = t.len() > 0 && t[0] == '/';
    if slash && block_delete {
        None
    } else {
        let u = if slash { trim(t.drop_first()) } else { t };
        if u.len() == 0 || u[0] == '%' {
            None
        } else {
            Some(u)
        }
    }
}

pub fn effective(raw: &Vec<char>, block_delete: bool) -> (r: Option<Vec<char>>)
    ensures
        r matches Some(v) ==> effective_spec(raw@, block_delete) == Some(v@),
        r is None ==> effective_spec(raw@, block_delete) is None,
{
    let stripped = strip_comments(raw);
    let t = trim_chars(&stripped);
    let slash = t.len() > 0 && t[0] == '/';
    if slash && block_delete {
        return None;
    }
    let u = if slash {
        let rest = slice_of(&t, 1, t.len());
        assert(rest@ =~= t@.drop_first());
        trim_chars(&rest)
    } else {
        t
    };
    if u.len() == 0 || u[0] == '%' {
        None
    } else {
        Some(u)
    }
}

} // verus!

verus! {

// ── O-word lines ────────────────────────────────────────────────────────

/// O-word control keywords.
#[derive(Debug, Clone, Copy, PartialEq, Eq, Structural)]
pub enum Keyword {
    Sub,
    EndSub,
    Return,
    Call,
    If,
    ElseIf,
    Else,
    EndIf,
    While,
    EndWhile,
    Repeat,
    EndRepeat,
    Other,
}

pub open spec fn keyword_spec(w: Seq<char>) -> Keyword {
    if w == seq!['s', 'u', 'b'] {
        Keyword::Sub
    } else if w == seq!['e', 'n', 'd', 's', 'u', 'b'] {
        Keyword::EndSub
    } else if w == seq!['r', 'e', 't', 'u', 'r', 'n'] {
        Keyword::Return
    } else if w == seq!['c', 'a', 'l', 'l'] {
        Keyword::Call
    } else if w == seq!['i', 'f'] {
        Keyword::If
    } else if w == seq!['e', 'l', 's', 'e', 'i', 'f'] {
        Keyword::ElseIf
    } else if w == seq!['e', 'l', 's', 'e'] {
        Keyword::Else
    } else if w == seq!['e', 'n', 'd', 'i', 'f'] {
        Keyword::EndIf
    } else if w == seq!['w', 'h', 'i', 'l', 'e'] {
        Keyword::While
    } else if w == seq!['e', 'n', 'd', 'w', 'h', 'i', 'l', 'e'] {
        Keyword::EndWhile
    } else if w == seq!['r', 'e', 'p', 'e', 'a', 't'] {
        Keyword::Repeat
    } else if w == seq!['e', 'n', 'd', 'r', 'e', 'p', 'e', 'a', 't'] {
        Keyword::EndRepeat
    } else {
        Keyword::Other
    }
}

pub fn keyword_of(w: &Vec<char>) -> (k: Keyword)
    ensures
        k == keyword_spec(w@),
{
    if chars_eq(w, &['s', 'u', 'b']) {
        Keyword::Sub
    } else if chars_eq(w, &['e', 'n', 'd', 's', 'u', 'b']) {
        Keyword::EndSub
    } else if chars_eq(w, &['r', 'e', 't', 'u', 'r', 'n']) {
        Keyword::Return
    } else if chars_eq(w, &['c', 'a', 'l', 'l']) {
        Keyword::Call
    } else if chars_eq(w, &['i', 'f']) {
        Keyword::If
    } else if chars_eq(w, &['e', 'l', 's', 'e', 'i', 'f']) {
        Keyword::ElseIf
    } else if chars_eq(w, &['e', 'l', 's', 'e']) {
        Keyword::Else
    } else if chars_eq(w, &['e', 'n', 'd', 'i', 'f']) {
        Keyword::EndIf
    } else if chars_eq(w, &['w', 'h', 'i', 'l', 'e']) {
        Keyword::While
    } else if chars_eq(w, &['e', 'n', 'd', 'w', 'h', 'i', 'l', 'e']) {
        Keyword::EndWhile
    } else if chars_eq(w, &['r', 'e', 'p', 'e', 'a', 't']) {
        Keyword::Repeat
    } else if chars_eq(w, &['e', 'n', 'd', 'r', 'e', 'p', 'e', 'a', 't']) {
        Keyword::EndRepeat
    } else {
        Keyword::Other
    }
}

} // verus!

verus! {

/// Numeric O-word ids lose their leading zeros, so `o010` and `o10` match.
pub open spec fn strip_zeros(d: Seq<char>) -> Seq<char> {
    let k = run_end(d, 0, |c: char| c == '0');
    if k >= d.len() {
        seq!['0']
    } else {
        d.subrange(k as int, d.len() as int)
    }
}

/// The id of an O-word that starts at `i` (just after the `o` and any
/// whitespace), with the position after it.
pub open spec fn o_id_spec(t: Seq<char>, i: nat) -> Option<(Seq<char>, nat)> {
    if i < t.len() && t[i as int] == '<' {
        let e = run_end(t, i + 1, |c: char| c != '>');
        Some((lower_all(t.subrange((i + 1) as int, e as int)), if e < t.len() { e + 1 } else { e }))
    } else if i < t.len() && is_digit(t[i as int]) {
        let e = run_end(t, i, |c: char| is_digit(c));
        Some((strip_zeros(t.subrange(i as int, e as int)), e))
    } else {
        None
    }
}

/// O-word control line: (id, keyword as written, rest of the line).
/// Ids in `<…>` and keywords are compared in lower case.
pub open spec fn o_parts_spec(t: Seq<char>) -> Option<(Seq<char>, Seq<char>, Seq<char>)> {
    let i0 = skip_ws_from(t, 0);
    if i0 >= t.len() || !(t[i0 as int] == 'o' || t[i0 as int] == 'O') {
        None
    } else {
        match o_id_spec(t, skip_ws_from(t, i0 + 1)) {
            None => None,
            Some(idp) => {
                let i2 = skip_ws_from(t, idp.1);
                let e2 = run_end(t, i2, |c: char| is_alpha(c));
                if e2 == i2 {
                    None
                } else {
                    Some((idp.0, lower_all(t.subrange(i2 as int, e2 as int)), t.subrange(e2 as int, t.len() as int)))
                }
            },
        }
    }
}

/// A parsed O-word control line.
pub struct OWord {
    pub id: Vec<char>,
    pub word: Vec<char>,
    pub keyword: Keyword,
    pub rest: Vec<char>,
}

impl OWord {
    pub open spec fn is(&self, p: (Seq<char>, Seq<char>, Seq<char>)) -> bool {
        &&& self.id@ == p.0
        &&& self.word@ == p.1
        &&& self.rest@ == p.2
        &&& self.keyword == keyword_spec(p.1)
    }
}

/// `s[a..b]` in ASCII lower case.
fn lowered(s: &Vec<char>, a: usize, b: usize) -> (v: Vec<char>)
    requires
        a <= b <= s.len(),
    ensures
        v@ == lower_all(s@.subrange(a as int, b as int)),
{
    let mut v: Vec<char> = Vec::new();
    let mut k = a;
    while k < b
        invariant
            a <= k <= b <= s.len(),
            v@ == lower_all(s@.subrange(a as int, k as int)),
        decreases b - k,
    {
        v.push(to_ascii_lowercase(s[k]));
        k = k + 1;
        assert(lower_all(s@.subrange(a as int, k as int)) =~= lower_all(s@.subrange(a as int, (k - 1) as int)).push(lower(s@[k - 1])));
    }
    v
}

/// End of the run of characters other than `stop` starting at `i`.
fn run_until(s: &Vec<char>, i: usize, stop: char) -> (e: usize)
    requires
        i <= s.len(),
    ensures
        e == run_end(s@, i as nat, |c: char| c != stop),
        i <= e <= s.len(),
{
    proof {
        lemma_run_end_bounds(s@, i as nat, |c: char| c != stop);
    }
    let mut k = i;
    while k < s.len() && s[k] != stop
        invariant
            i <= k <= s.len(),
            run_end(s@, k as nat, |c: char| c != stop) == run_end(s@, i as nat, |c: char| c != stop),
        decreases s.len() - k,
    {
        k = k + 1;
    }
    k
}

fn run_digits(s: &Vec<char>, i: usize) -> (e: usize)
    requires
        i <= s.len(),
    ensures
        e == run_end(s@, i as nat, |c: char| is_digit(c)),
        i <= e <= s.len(),
{
    proof {
        lemma_run_end_bounds(s@, i as nat, |c: char| is_digit(c));
    }
    let mut k = i;
    while k < s.len() && is_ascii_digit(s[k])
        invariant
            i <= k <= s.len(),
            run_end(s@, k as nat, |c: char| is_digit(c)) == run_end(s@, i as nat, |c: char| is_digit(c)),
        decreases s.len() - k,
    {
        k = k + 1;
    }
    k
}

fn run_alpha(s: &Vec<char>, i: usize) -> (e: usize)
    requires
        i <= s.len(),
    ensures
        e == run_end(s@, i as nat, |c: char| is_alpha(c)),
        i <= e <= s.len(),
{
    proof {
        lemma_run_end_bounds(s@, i as nat, |c: char| is_alpha(c));
    }
    let mut k = i;
    while k < s.len() && is_ascii_alphabetic(s[k])
        invariant
            i <= k <= s.len(),
            run_end(s@, k as nat, |c: char| is_alpha(c)) == run_end(s@, i as nat, |c: char| is_alpha(c)),
        decreases s.len() - k,
    {
        k = k + 1;
    }
    k
}

fn strip_leading_zeros(d: Vec<char>) -> (v: Vec<char>)
    ensures
        v@ == strip_zeros(d@),
{
    proof {
        lemma_run_end_bounds(d@, 0, |c: char| c == '0');
    }
    let mut k: usize = 0;
    while k < d.len() && d[k] == '0'
        invariant
            k <= d.len(),
            run_end(d@, k as nat, |c: char| c == '0') == run_end(d@, 0, |c: char| c == '0'),
        decreases d.len() - k,
    {
        k = k + 1;
    }
    if k >= d.len() {
        let mut z: Vec<char> = Vec::new();
        z.push('0');
        assert(z@ =~= seq!['0']);
        z
    } else {
        slice_of(&d, k, d.len())
    }
}

fn o_id(t: &Vec<char>, i: usize) -> (r: Option<(Vec<char>, usize)>)
    requires
        i <= t.len(),
    ensures
        match (r, o_id_spec(t@, i as nat)) {
            (Some(x), Some(y)) => x.0@ == y.0 && x.1 == y.1 && x.1 <= t.len(),
            (None, None) => true,
            _ => false,
        },
{
    if i < t.len() && t[i] == '<' {
        let e = run_until(t, i + 1, '>');
        let name = lowered(t, i + 1, e);
        let after = if e < t.len() { e + 1 } else { e };
        Some((name, after))
    } else if i < t.len() && is_ascii_digit(t[i]) {
        let e = run_digits(t, i);
        let digits = slice_of(t, i, e);
        Some((strip_leading_zeros(digits), e))
    } else {
        None
    }
}

/// Split an O-word control line into id, keyword and the rest of the line.
pub fn o_parts(text: &Vec<char>) -> (r: Option<OWord>)
    ensures
        match (r, o_parts_spec(text@)) {
            (Some(w), Some(p)) => w.is(p),
            (None, None) => true,
            _ => false,
        },
{
    let i0 = skip_ws(text, 0);
    if i0 >= text.len() || !(text[i0] == 'o' || text[i0] == 'O') {
        return None;
    }
    let i1 = skip_ws(text, i0 + 1);
    match o_id(text, i1) {
        None => None,
        Some((id, after)) => {
            let i2 = skip_ws(text, after);
            let e2 = run_alpha(text, i2);
            if e2 == i2 {
                None
            } else {
                let word = lowered(text, i2, e2);
                let rest = slice_of(text, e2, text.len());
                let keyword = keyword_of(&word);
                Some(OWord { id, word, keyword, rest })
            }
        },
    }
}

} // verus!

verus! {

// ── finding the line that closes a block ────────────────────────────────

/// The keywords a block search stops at.
#[derive(Debug, Clone, Copy, PartialEq, Eq, Structural)]
pub enum Target {
    /// `endsub`
    EndSub,
    /// `elseif`, `else` or `endif`
    Branch,
    /// `endif`
    EndIf,
    /// `endwhile`
    EndWhile,
    /// `endrepeat`
    EndRepeat,
}

pub open spec fn target_has(t: Target, k: Keyword) -> bool {
    match t {
        Target::EndSub => k == Keyword::EndSub,
        Target::Branch => k == Keyword::ElseIf || k == Keyword::Else || k == Keyword::EndIf,
        Target::EndIf => k == Keyword::EndIf,
        Target::EndWhile => k == Keyword::EndWhile,
        Target::EndRepeat => k == Keyword::EndRepeat,
    }
}

fn target_contains(t: Target, k: Keyword) -> (b: bool)
    ensures
        b == target_has(t, k),
{
    match t {
        Target::EndSub => k == Keyword::EndSub,
        Target::Branch => k == Keyword::ElseIf || k == Keyword::Else || k == Keyword::EndIf,
        Target::EndIf => k == Keyword::EndIf,
        Target::EndWhile => k == Keyword::EndWhile,
        Target::EndRepeat => k == Keyword::EndRepeat,
    }
}

/// The O-word parts of line `i`, if it is an effective O-word line.
pub open spec fn o_line(lines: Seq<Vec<char>>, bd: bool, i: int) -> Option<(Seq<char>, Seq<char>, Seq<char>)> {
    match effective_spec(lines[i]@, bd) {
        Some(t) => o_parts_spec(t),
        None => None,
    }
}

/// First line at or after `from` that is O-word `id` with a keyword of `t`.
pub open spec fn find_plain(lines: Seq<Vec<char>>, bd: bool, from: nat, id: Seq<char>, t: Target) -> Option<nat>
    decreases lines.len() - from,
{
    if from >= lines.len() {
        None
    } else {
        match o_line(lines, bd, from as int) {
            Some(p) => if p.0 == id && target_has(t, keyword_spec(p.1)) {
                Some(from)
            } else {
                find_plain(lines, bd, from + 1, id, t)
            },
            None => find_plain(lines, bd, from + 1, id, t),
        }
    }
}

/// As `find_plain`, but jumping over nested `sub … endsub` definitions of
/// other ids.
pub open spec fn find_skipping(lines: Seq<Vec<char>>, bd: bool, from: nat, id: Seq<char>, t: Target) -> Option<nat>
    decreases lines.len() - from,
{
    if from >= lines.len() {
        None
    } else {
        match o_line(lines, bd, from as int) {
            Some(p) => if p.0 == id && target_has(t, keyword_spec(p.1)) {
                Some(from)
            } else if keyword_spec(p.1) == Keyword::Sub {
                match find_plain(lines, bd, from + 1, p.0, Target::EndSub) {
                    Some(end) => if from < end < lines.len() {
                        find_skipping(lines, bd, end + 1, id, t)
                    } else {
                        None
                    },
                    None => find_skipping(lines, bd, from + 1, id, t),
                }
            } else {
                find_skipping(lines, bd, from + 1, id, t)
            },
            None => find_skipping(lines, bd, from + 1, id, t),
        }
    }
}

pub open spec fn find_spec(lines: Seq<Vec<char>>, bd: bool, from: nat, id: Seq<char>, t: Target, skip_nested: bool) -> Option<nat> {
    if skip_nested {
        find_skipping(lines, bd, from, id, t)
    } else {
        find_plain(lines, bd, from, id, t)
    }
}

pub proof fn lemma_find_plain_range(lines: Seq<Vec<char>>, bd: bool, from: nat, id: Seq<char>, t: Target)
    ensures
        find_plain(lines, bd, from, id, t) matches Some(r) ==> (from <= r < lines.len()
            && (o_line(lines, bd, r as int) matches Some(p) && p.0 == id && target_has(t, keyword_spec(p.1)))),
    decreases lines.len() - from,
{
    if from < lines.len() {
        lemma_find_plain_range(lines, bd, from + 1, id, t);
    }
}

pub proof fn lemma_find_skipping_range(lines: Seq<Vec<char>>, bd: bool, from: nat, id: Seq<char>, t: Target)
    ensures
        find_skipping(lines, bd, from, id, t) matches Some(r) ==> (from <= r < lines.len()
            && (o_line(lines, bd, r as int) matches Some(p) && p.0 == id && target_has(t, keyword_spec(p.1)))),
    decreases lines.len() - from,
{
    if from < lines.len() {
        lemma_find_skipping_range(lines, bd, from + 1, id, t);
        match o_line(lines, bd, from as int) {
            Some(p) => {
                match find_plain(lines, bd, from + 1, p.0, Target::EndSub) {
                    Some(end) => {
                        if from < end < lines.len() {
                            lemma_find_skipping_range(lines, bd, end + 1, id, t);
                        }
                    },
                    None => {},
                }
            },
            None => {},
        }
    }
}

/// The O-word of line `i`, when that line is an effective O-word line.
pub fn o_word_at(lines: &Vec<Vec<char>>, bd: bool, i: usize) -> (r: Option<OWord>)
    requires
        i < lines.len(),
    ensures
        match (r, o_line(lines@, bd, i as int)) {
            (Some(w), Some(p)) => w.is(p),
            (None, None) => true,
            _ => false,
        },
{
    match effective(&lines[i], bd) {
        Some(text) => o_parts(&text),
        None => None,
    }
}

/// Whether two character strings are equal.
pub fn same_chars(a: &Vec<char>, b: &Vec<char>) -> (r: bool)
    ensures
        r == (a@ == b@),
{
    chars_eq(a, b.as_slice())
}

/// The line closing a block: the first line from `from` on that is O-word
/// `id` with a keyword of `t` (jumping over nested subroutine definitions
/// when `skip_nested`).
pub fn find_o(lines: &Vec<Vec<char>>, bd: bool, from: usize, id: &Vec<char>, t: Target, skip_nested: bool) -> (r: Option<usize>)
    ensures
        match (r, find_spec(lines@, bd, from as nat, id@, t, skip_nested)) {
            (Some(x), Some(y)) => x == y,
            (None, None) => true,
            _ => false,
        },
        r matches Some(x) ==> from <= x < lines.len(),
    decreases (if skip_nested { 1int } else { 0int }),
{
    proof {
        lemma_find_plain_range(lines@, bd, from as nat, id@, t);
        lemma_find_skipping_range(lines@, bd, from as nat, id@, t);
    }
    let mut i = from;
    while i < lines.len()
        invariant
            from <= i,
            find_spec(lines@, bd, i as nat, id@, t, skip_nested) == find_spec(lines@, bd, from as nat, id@, t, skip_nested),
        decreases lines.len() - i,
    {
        match o_word_at(lines, bd, i) {
            Some(w) => {
                if same_chars(&w.id, id) && target_contains(t, w.keyword) {
                    return Some(i);
                }
                if skip_nested && w.keyword == Keyword::Sub {
                    match find_o(lines, bd, i + 1, &w.id, Target::EndSub, false) {
                        Some(end) => {
                            i = end;
                        },
                        None => {},
                    }
                }
            },
            None => {},
        }
        i = i + 1;
    }
    None
}

/// The last line before `before` that is O-word `id` with keyword `k`.
pub open spec fn rfind_spec(lines: Seq<Vec<char>>, bd: bool, before: nat, id: Seq<char>, k: Keyword) -> Option<nat>
    decreases before,
{
    if before == 0 {
        None
    } else {
        let i = (before - 1) as nat;
        match o_line(lines, bd, i as int) {
            Some(p) => if p.0 == id && keyword_spec(p.1) == k {
                Some(i)
            } else {
                rfind_spec(lines, bd, i, id, k)
            },
            None => rfind_spec(lines, bd, i, id, k),
        }
    }
}

pub fn rfind_o(lines: &Vec<Vec<char>>, bd: bool, before: usize, id: &Vec<char>, k: Keyword) -> (r: Option<usize>)
    requires
        before <= lines.len(),
    ensures
        match (r, rfind_spec(lines@, bd, before as nat, id@, k)) {
            (Some(x), Some(y)) => x == y,
            (None, None) => true,
            _ => false,
        },
{
    let mut i = before;
    while i > 0
        invariant
            i <= before <= lines.len(),
            rfind_spec(lines@, bd, i as nat, id@, k) == rfind_spec(lines@, bd, before as nat, id@, k),
        decreases i,
    {
        let j = i - 1;
        match o_word_at(lines, bd, j) {
            Some(w) => {
                if same_chars(&w.id, id) && w.keyword == k {
                    return Some(j);
                }
            },
            None => {},
        }
        i = j;
    }
    None
}

} // verus!

verus! {

// ── laws of the line text ─────────────────────────────────────────────────

/// Block delete only skips lines: a line that survives it reads the same
/// with the switch on or off.
pub proof fn law_block_delete_only_skips(raw: Seq<char>)
    ensures
        effective_spec(raw, true) is Some ==> effective_spec(raw, false) == effective_spec(raw, true),
{
}

proof fn lemma_strip_clean(s: Seq<char>, i: nat, depth: nat)
    ensures
        forall|k: int| 0 <= k < strip_from(s, i, depth).len() ==> #[trigger] strip_from(s, i, depth)[k] != '(' && strip_from(s, i, depth)[k] != ';',
    decreases s.len() - i,
{
    if i < s.len() {
        let c = s[i as int];
        let here = strip_from(s, i, depth);
        if c == '(' {
            lemma_strip_clean(s, i + 1, depth + 1);
            assert(here == strip_from(s, i + 1, depth + 1));
        } else if c == ')' && depth > 0 {
            lemma_strip_clean(s, i + 1, (depth - 1) as nat);
            assert(here == strip_from(s, i + 1, (depth - 1) as nat));
        } else if c == ';' && depth == 0 {
            assert(here.len() == 0);
        } else if depth == 0 {
            lemma_strip_clean(s, i + 1, 0);
            let r = strip_from(s, i + 1, 0);
            assert(here == seq![c] + r);
            assert forall|k: int| 0 <= k < here.len() implies #[trigger] here[k] != '(' && here[k] != ';' by {
                if k > 0 {
                    assert(here[k] == r[k - 1]);
                } else {
                    assert(here[k] == c);
                }
            }
        } else {
            lemma_strip_clean(s, i + 1, depth);
            assert(here == strip_from(s, i + 1, depth));
        }
    }
}

proof fn lemma_strip_identity(t: Seq<char>, i: nat)
    requires
        i <= t.len(),
        forall|k: int| 0 <= k < t.len() ==> #[trigger] t[k] != '(' && t[k] != ';',
    ensures
        strip_from(t, i, 0) == t.subrange(i as int, t.len() as int),
    decreases t.len() - i,
{
    if i < t.len() {
        lemma_strip_identity(t, i + 1);
        assert(seq![t[i as int]] + t.subrange((i + 1) as int, t.len() as int) =~= t.subrange(i as int, t.len() as int));
    } else {
        assert(t.subrange(i as int, t.len() as int) =~= Seq::<char>::empty());
    }
}

/// Stripping comments twice strips nothing more.
pub proof fn law_strip_comments_idempotent(s: Seq<char>)
    ensures
        strip_comments_spec(strip_comments_spec(s)) == strip_comments_spec(s),
{
    let t = strip_comments_spec(s);
    lemma_strip_clean(s, 0, 0);
    lemma_strip_identity(t, 0);
    assert(t.subrange(0, t.len() as int) =~= t);
}

} // verus!

verus! {

proof fn lemma_run_end_shift(c: char, t: Seq<char>, i: nat, p: spec_fn(char) -> bool)
    requires
        i <= t.len(),
    ensures
        run_end(seq![c] + t, i + 1, p) == run_end(t, i, p) + 1,
    decreases t.len() - i,
{
    let s = seq![c] + t;
    if i < t.len() {
        assert(s[i as int + 1] == t[i as int]);
        if p(t[i as int]) {
            lemma_run_end_shift(c, t, i + 1, p);
        }
    }
}

proof fn lemma_strip_zeros_prefix(d: Seq<char>)
    ensures
        strip_zeros(seq!['0'] + d) == strip_zeros(d),
{
    let s = seq!['0'] + d;
    lemma_run_end_shift('0', d, 0, |c: char| c == '0');
    let k = run_end(d, 0, |c: char| c == '0');
    assert(run_end(s, 0, |c: char| c == '0') == k + 1);
    if k < d.len() {
        assert(s.subrange(k as int + 1, s.len() as int) =~= d.subrange(k as int, d.len() as int));
    }
}

/// Numeric O-word ids ignore leading zeros: `o010` and `o10` name the same
/// block.
pub proof fn law_leading_zeros_name_the_same_id(t: Seq<char>)
    requires
        t.len() > 0,
        is_digit(t[0]),
    ensures
        o_id_spec(seq!['0'] + t, 0) is Some,
        o_id_spec(t, 0) is Some,
        o_id_spec(seq!['0'] + t, 0).unwrap().0 == o_id_spec(t, 0).unwrap().0,
{
    let s = seq!['0'] + t;
    lemma_run_end_shift('0', t, 0, |c: char| is_digit(c));
    let e = run_end(t, 0, |c: char| is_digit(c));
    lemma_run_end_bounds(t, 0, |c: char| is_digit(c));
    assert(run_end(s, 0, |c: char| is_digit(c)) == run_end(s, 1, |c: char| is_digit(c)));
    assert(s.subrange(0, e as int + 1) =~= seq!['0'] + t.subrange(0, e as int));
    lemma_strip_zeros_prefix(t.subrange(0, e as int));
}

} // verus!

verus! {

/// The O-word keywords, each named by exactly one (lower-case) word; any
/// other word is unsupported.
pub proof fn law_keyword_names(w: Seq<char>)
    ensures
        keyword_spec("sub"@) == Keyword::Sub,
        keyword_spec("endsub"@) == Keyword::EndSub,
        keyword_spec("return"@) == Keyword::Return,
        keyword_spec("call"@) == Keyword::Call,
        keyword_spec("if"@) == Keyword::If,
        keyword_spec("elseif"@) == Keyword::ElseIf,
        keyword_spec("else"@) == Keyword::Else,
        keyword_spec("endif"@) == Keyword::EndIf,
        keyword_spec("while"@) == Keyword::While,
        keyword_spec("endwhile"@) == Keyword::EndWhile,
        keyword_spec("repeat"@) == Keyword::Repeat,
        keyword_spec("endrepeat"@) == Keyword::EndRepeat,
        keyword_spec(w) == Keyword::Sub ==> w == "sub"@,
        keyword_spec(w) == Keyword::EndSub ==> w == "endsub"@,
        keyword_spec(w) == Keyword::Return ==> w == "return"@,
        keyword_spec(w) == Keyword::Call ==> w == "call"@,
        keyword_spec(w) == Keyword::If ==> w == "if"@,
        keyword_spec(w) == Keyword::ElseIf ==> w == "elseif"@,
        keyword_spec(w) == Keyword::Else ==> w == "else"@,
        keyword_spec(w) == Keyword::EndIf ==> w == "endif"@,
        keyword_spec(w) == Keyword::While ==> w == "while"@,
        keyword_spec(w) == Keyword::EndWhile ==> w == "endwhile"@,
        keyword_spec(w) == Keyword::Repeat ==> w == "repeat"@,
        keyword_spec(w) == Keyword::EndRepeat ==> w == "endrepeat"@,
{
    reveal_strlit("sub");
    assert("sub"@ =~= seq!['s', 'u', 'b']);
    reveal_strlit("endsub");
    assert("endsub"@ =~= seq!['e', 'n', 'd', 's', 'u', 'b']);
    reveal_strlit("return");
    assert("return"@ =~= seq!['r', 'e', 't', 'u', 'r', 'n']);
    reveal_strlit("call");
    assert("call"@ =~= seq!['c', 'a', 'l', 'l']);
    reveal_strlit("if");
    assert("if"@ =~= seq!['i', 'f']);
    reveal_strlit("elseif");
    assert("elseif"@ =~= seq!['e', 'l', 's', 'e', 'i', 'f']);
    reveal_strlit("else");
    assert("else"@ =~= seq!['e', 'l', 's', 'e']);
    reveal_strlit("endif");
    assert("endif"@ =~= seq!['e', 'n', 'd', 'i', 'f']);
    reveal_strlit("while");
    assert("while"@ =~= seq!['w', 'h', 'i', 'l', 'e']);
    reveal_strlit("endwhile");
    assert("endwhile"@ =~= seq!['e', 'n', 'd', 'w', 'h', 'i', 'l', 'e']);
    reveal_strlit("repeat");
    assert("repeat"@ =~= seq!['r', 'e', 'p', 'e', 'a', 't']);
    reveal_strlit("endrepeat");
    assert("endrepeat"@ =~= seq!['e', 'n', 'd', 'r', 'e', 'p', 'e', 'a', 't']);
}

/// What stripping comments leaves holds no comment opener and no `;`, and
/// a line without either is left as it is.
pub proof fn law_stripped_text(s: Seq<char>)
    ensures
        forall|k: int| 0 <= k < strip_comments_spec(s).len() ==> #[trigger] strip_comments_spec(s)[k] != '(' && strip_comments_spec(s)[k] != ';',
        (forall|k: int| 0 <= k < s.len() ==> #[trigger] s[k] != '(' && s[k] != ';') ==> strip_comments_spec(s) == s,
{
    lemma_strip_clean(s, 0, 0);
    if forall|k: int| 0 <= k < s.len() ==> #[trigger] s[k] != '(' && s[k] != ';' {
        lemma_strip_identity(s, 0);
        assert(s.subrange(0, s.len() as int) =~= s);
    }
}

/// The effective text of a line is never empty, never starts with `%`, and
/// with block delete on never starts with `/`.
pub proof fn law_effective_text(raw: Seq<char>, bd: bool)
    ensures
        effective_spec(raw, bd) matches Some(t) ==> t.len() > 0 && t[0] != '%',
        bd ==> (effective_spec(raw, bd) matches Some(t) ==> trim(strip_comments_spec(raw))[0] != '/'),
{
}

} // verus!

verus! {

proof fn lemma_lower_all_no_upper(s: Seq<char>)
    ensures
        forall|k: int| 0 <= k < lower_all(s).len() ==> !is_upper(#[trigger] lower_all(s)[k]),
{
    assert forall|k: int| 0 <= k < lower_all(s).len() implies !is_upper(#[trigger] lower_all(s)[k]) by {
        let c = s[k];
        if is_upper(c) {
            assert(((c as u32) + 32) as char as u32 == (c as u32) + 32);
        }
    }
}

/// O-words are read without regard to case: the keyword of an O-word line
/// is a non-empty run of letters with no capital among them, and its id
/// holds no capital either, so `O<Cut> CALL` and `o<cut> call` are the same
/// line.
pub proof fn law_o_words_ignore_case(t: Seq<char>)
    ensures
        o_parts_spec(t) matches Some(p) ==> p.1.len() > 0
            && (forall|k: int| 0 <= k < p.1.len() ==> is_alpha(#[trigger] p.1[k]) && !is_upper(p.1[k]))
            && (forall|k: int| 0 <= k < p.0.len() ==> !is_upper(#[trigger] p.0[k])),
{
    if let Some(p) = o_parts_spec(t) {
        let i0 = skip_ws_from(t, 0);
        crate::text::lemma_skip_ws_bounds(t, 0);
        crate::text::lemma_skip_ws_bounds(t, i0 + 1);
        let i1 = skip_ws_from(t, i0 + 1);
        let idp = o_id_spec(t, i1)->Some_0;
        if i1 < t.len() && t[i1 as int] == '<' {
            lemma_lower_all_no_upper(t.subrange((i1 + 1) as int, run_end(t, i1 + 1, |c: char| c != '>') as int));
        } else {
            let e = run_end(t, i1, |c: char| is_digit(c));
            lemma_run_end_bounds(t, i1, |c: char| is_digit(c));
            let d = t.subrange(i1 as int, e as int);
            let k0 = run_end(d, 0, |c: char| c == '0');
            lemma_run_end_bounds(d, 0, |c: char| c == '0');
            assert forall|k: int| 0 <= k < idp.0.len() implies !is_upper(#[trigger] idp.0[k]) by {
                if k0 < d.len() {
                    assert(idp.0[k] == d[k0 + k]);
                    assert(is_digit(t[i1 + k0 + k]));
                }
            }
        }
        crate::text::lemma_skip_ws_bounds(t, idp.1);
        let i2 = skip_ws_from(t, idp.1);
        let e2 = run_end(t, i2, |c: char| is_alpha(c));
        lemma_run_end_bounds(t, i2, |c: char| is_alpha(c));
        let w = t.subrange(i2 as int, e2 as int);
        lemma_lower_all_no_upper(w);
        assert forall|k: int| 0 <= k < p.1.len() implies is_alpha(#[trigger] p.1[k]) && !is_upper(p.1[k]) by {
            assert(is_alpha(w[k]));
            assert(w[k] == t[i2 + k]);
            if is_upper(w[k]) {
                assert(((w[k] as u32) + 32) as char as u32 == (w[k] as u32) + 32);
            }
        }
    }
}

} // verus!

verus! {

/// Whether line `j` is O-word `id` with a keyword of `t`.
pub open spec fn closes(lines: Seq<Vec<char>>, bd: bool, j: int, id: Seq<char>, t: Target) -> bool {
    o_line(lines, bd, j) matches Some(p) && p.0 == id && target_has(t, keyword_spec(p.1))
}

/// A block search finds the first closing line at or after `from`, and
/// finds none exactly when there is none.
pub proof fn law_search_finds_the_first(lines: Seq<Vec<char>>, bd: bool, from: nat, id: Seq<char>, t: Target)
    ensures
        find_plain(lines, bd, from, id, t) matches Some(x) ==> from <= x < lines.len() && closes(lines, bd, x as int, id, t)
            && forall|j: int| from <= j < x ==> !#[trigger] closes(lines, bd, j, id, t),
        find_plain(lines, bd, from, id, t) is None ==> forall|j: int| from <= j < lines.len() ==> !#[trigger] closes(lines, bd, j, id, t),
    decreases lines.len() - from,
{
    if from < lines.len() {
        law_search_finds_the_first(lines, bd, from + 1, id, t);
    }
}

/// The backward search finds the last line before `before` that is O-word
/// `id` with keyword `k`, and none exactly when there is none.
pub proof fn law_backward_search_finds_the_last(lines: Seq<Vec<char>>, bd: bool, before: nat, id: Seq<char>, k: Keyword)
    ensures
        rfind_spec(lines, bd, before, id, k) matches Some(x) ==> x < before
            && (o_line(lines, bd, x as int) matches Some(p) && p.0 == id && keyword_spec(p.1) == k)
            && forall|j: int| x < j < before ==> !(#[trigger] o_line(lines, bd, j) matches Some(p) && p.0 == id && keyword_spec(p.1) == k),
        rfind_spec(lines, bd, before, id, k) is None ==> forall|j: int| 0 <= j < before ==> !(#[trigger] o_line(lines, bd, j) matches Some(p) && p.0 == id && keyword_spec(p.1) == k),
    decreases before,
{
    if before > 0 {
        law_backward_search_finds_the_last(lines, bd, (before - 1) as nat, id, k);
    }
}

} // verus!
