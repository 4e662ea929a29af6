//! `#` parameter storage: one global table and a stack of subroutine
//! frames. Which table a key lives in is `is_local_spec`: numbered
//! parameters 1–30 and plain names go to the innermost frame while one is
//! open, `_` names and everything else to the globals. A call opens a frame
//! holding its arguments as `#1`, `#2`, …; a return drops it.

use vstd::prelude::*;
use crate::expr::{all_digits, digits_value, is_local_spec, param_is_local, unsigned_digits};
use crate::text::{is_alpha, is_digit};
use crate::text::{chars_of, decimal, decimal_chars, digit_char};
use crate::gcode::same_chars;

verus! {

/// A table of (key, value) entries.
pub type Table<V> = Vec<(Vec<char>, V)>;

pub open spec fn keys_distinct<V>(s: Seq<(Vec<char>, V)>) -> bool {
    forall|i: int, j: int| 0 <= i < j < s.len() ==> s[i].0@ != s[j].0@
}

/// The map a table stands for.
pub open spec fn table_map<V>(s: Seq<(Vec<char>, V)>) -> Map<Seq<char>, V>
    decreases s.len(),
{
    if s.len() == 0 {
        Map::empty()
    } else {
        table_map(s.drop_last()).insert(s.last().0@, s.last().1)
    }
}

proof fn lemma_table_lookup<V>(s: Seq<(Vec<char>, V)>, k: Seq<char>)
    requires
        keys_distinct(s),
    ensures
        table_map(s).contains_key(k) <==> exists|i: int| 0 <= i < s.len() && s[i].0@ == k,
        forall|i: int| 0 <= i < s.len() && #[trigger] s[i].0@ == k ==> table_map(s)[k] == s[i].1,
    decreases s.len(),
{
    if s.len() > 0 {
        let d = s.drop_last();
        lemma_table_lookup(d, k);
        if table_map(d).contains_key(k) {
            let i = choose|i: int| 0 <= i < d.len() && d[i].0@ == k;
            assert(s[i].0@ == k);
        }
        if exists|i: int| 0 <= i < s.len() && s[i].0@ == k {
            let i = choose|i: int| 0 <= i < s.len() && s[i].0@ == k;
            if i < s.len() - 1 {
                assert(d[i].0@ == k);
            }
        }
        assert forall|i: int| 0 <= i < s.len() && #[trigger] s[i].0@ == k implies table_map(s)[k] == s[i].1 by {
            if i < s.len() - 1 {
                assert(d[i].0@ == k);
                assert(s[i].0@ != s[s.len() - 1].0@);
            }
        }
    }
}

proof fn lemma_table_update<V>(s: Seq<(Vec<char>, V)>, i: int, e: (Vec<char>, V))
    requires
        keys_distinct(s),
        0 <= i < s.len(),
        s[i].0@ == e.0@,
    ensures
        table_map(s.update(i, e)) == table_map(s).insert(e.0@, e.1),
        keys_distinct(s.update(i, e)),
    decreases s.len(),
{
    let u = s.update(i, e);
    let d = s.drop_last();
    assert(keys_distinct(u)) by {
        assert forall|a: int, b: int| 0 <= a < b < u.len() implies u[a].0@ != u[b].0@ by {
            assert(s[a].0@ != s[b].0@);
        }
    }
    if i == s.len() - 1 {
        assert(u.drop_last() =~= d);
        assert(table_map(u) =~= table_map(s).insert(e.0@, e.1));
    } else {
        assert(u.drop_last() =~= d.update(i, e));
        lemma_table_update(d, i, e);
        assert(s.last().0@ != e.0@) by {
            assert(s[i].0@ != s[s.len() - 1].0@);
        }
        assert(table_map(u) =~= table_map(s).insert(e.0@, e.1));
    }
}

/// Position of `key` in `t`.
fn find<V>(t: &Table<V>, key: &Vec<char>) -> (r: Option<usize>)
    ensures
        match r {
            Some(i) => i < t.len() && t@[i as int].0@ == key@,
            None => forall|i: int| 0 <= i < t.len() ==> t@[i].0@ != key@,
        },
{
    let mut i: usize = 0;
    while i < t.len()
        invariant
            i <= t.len(),
            forall|j: int| 0 <= j < i ==> t@[j].0@ != key@,
        decreases t.len() - i,
    {
        if same_chars(&t[i].0, key) {
            return Some(i);
        }
        i = i + 1;
    }
    None
}

fn table_get<V: Copy>(t: &Table<V>, key: &Vec<char>) -> (r: Option<V>)
    requires
        keys_distinct(t@),
    ensures
        r == (if table_map(t@).contains_key(key@) { Some(table_map(t@)[key@]) } else { None::<V> }),
{
    proof {
        lemma_table_lookup(t@, key@);
    }
    match find(t, key) {
        Some(i) => {
            assert(t@[i as int].0@ == key@);
            Some(t[i].1)
        },
        None => None,
    }
}

fn table_insert<V>(t: &mut Table<V>, key: Vec<char>, v: V)
    requires
        keys_distinct(old(t)@),
    ensures
        keys_distinct(final(t)@),
        table_map(final(t)@) == table_map(old(t)@).insert(key@, v),
{
    let ghost k = key@;
    match find(t, &key) {
        Some(i) => {
            proof {
                lemma_table_update(t@, i as int, (key, v));
            }
            t.set(i, (key, v));
        },
        None => {
            let ghost before = t@;
            t.push((key, v));
            proof {
                assert(t@.drop_last() =~= before);
                assert forall|a: int, b: int| 0 <= a < b < t@.len() implies t@[a].0@ != t@[b].0@ by {
                    if b == t@.len() - 1 {
                        assert(before[a].0@ != k);
                    } else {
                        assert(before[a].0@ != before[b].0@);
                    }
                }
            }
        },
    }
}

/// The frame a call opens: argument `i` (0-based) as key `i + 1`.
pub open spec fn frame_spec<V>(args: Seq<V>) -> Map<Seq<char>, V>
    decreases args.len(),
{
    if args.len() == 0 {
        Map::empty()
    } else {
        frame_spec(args.drop_last()).insert(decimal(args.len()), args.last())
    }
}

/// The parameters as (globals, frames from outermost to innermost).
pub struct ParamsView<V> {
    pub globals: Map<Seq<char>, V>,
    pub frames: Seq<Map<Seq<char>, V>>,
}

/// Whether `key` names a parameter of the innermost frame.
pub open spec fn local_in<V>(p: ParamsView<V>, key: Seq<char>) -> bool {
    is_local_spec(p.frames.len() > 0, key)
}

/// The value of `key`, if it has one.
pub open spec fn get_spec<V>(p: ParamsView<V>, key: Seq<char>) -> Option<V> {
    let m = if local_in(p, key) { p.frames.last() } else { p.globals };
    if m.contains_key(key) {
        Some(m[key])
    } else {
        None
    }
}

pub open spec fn set_spec<V>(p: ParamsView<V>, key: Seq<char>, v: V) -> ParamsView<V> {
    if local_in(p, key) {
        ParamsView { frames: p.frames.update(p.frames.len() - 1, p.frames.last().insert(key, v)), ..p }
    } else {
        ParamsView { globals: p.globals.insert(key, v), ..p }
    }
}

pub open spec fn push_spec<V>(p: ParamsView<V>, args: Seq<V>) -> ParamsView<V> {
    ParamsView { frames: p.frames.push(frame_spec(args)), ..p }
}

pub open spec fn pop_spec<V>(p: ParamsView<V>) -> ParamsView<V> {
    if p.frames.len() > 0 {
        ParamsView { frames: p.frames.drop_last(), ..p }
    } else {
        p
    }
}

/// Parameter values of type `V` by key.
pub struct Params<V> {
    globals: Table<V>,
    frames: Vec<Table<V>>,
}

impl<V: Copy> Params<V> {
    pub closed spec fn wf(&self) -> bool {
        &&& keys_distinct(self.globals@)
        &&& forall|i: int| 0 <= i < self.frames.len() ==> keys_distinct(#[trigger] self.frames@[i]@)
    }

    pub closed spec fn view(&self) -> ParamsView<V> {
        ParamsView {
            globals: table_map(self.globals@),
            frames: self.frames@.map_values(|f: Table<V>| table_map(f@)),
        }
    }

    /// No parameters and no open frame.
    pub fn new() -> (p: Self)
        ensures
            p.wf(),
            p@.globals == Map::<Seq<char>, V>::empty(),
            p@.frames.len() == 0,
    {
        let p = Params { globals: Vec::new(), frames: Vec::new() };
        assert(p@.frames =~= Seq::<Map<Seq<char>, V>>::empty());
        p
    }

    /// Whether a subroutine frame is open.
    pub fn in_subroutine(&self) -> (r: bool)
        ensures
            r == (self@.frames.len() > 0),
    {
        self.frames.len() > 0
    }

    /// The value of `key`; `None` when it was never set in its scope.
    pub fn get(&self, key: &str) -> (r: Option<V>)
        requires
            self.wf(),
        ensures
            r == get_spec(self@, key@),
    {
        let k = chars_of(key);
        let local = param_is_local(self.frames.len() > 0, key);
        if local {
            let last = self.frames.len() - 1;
            assert(keys_distinct(self.frames@[last as int]@));
            assert(self@.frames.last() == table_map(self.frames@[last as int]@));
            table_get(&self.frames[last], &k)
        } else {
            table_get(&self.globals, &k)
        }
    }

    /// Whether `key` has a value in its scope.
    pub fn is_set(&self, key: &str) -> (r: bool)
        requires
            self.wf(),
        ensures
            r == get_spec(self@, key@) is Some,
    {
        self.get(key).is_some()
    }

    pub fn set(&mut self, key: &str, value: V)
        requires
            old(self).wf(),
        ensures
            final(self).wf(),
            final(self)@ == set_spec(old(self)@, key@, value),
    {
        let k = chars_of(key);
        let local = param_is_local(self.frames.len() > 0, key);
        if local {
            let ghost before = self.frames@;
            let mut f = self.frames.pop().unwrap();
            assert(keys_distinct(f@)) by {
                assert(f == before[before.len() - 1]);
            }
            table_insert(&mut f, k, value);
            self.frames.push(f);
            proof {
                assert(self.frames@ == before.update(before.len() - 1, f));
                assert forall|i: int| 0 <= i < self.frames.len() implies keys_distinct(#[trigger] self.frames@[i]@) by {
                    if i < before.len() - 1 {
                        assert(self.frames@[i] == before[i]);
                    }
                }
                assert(self@.frames =~= old(self)@.frames.update(old(self)@.frames.len() - 1, old(self)@.frames.last().insert(key@, value)));
            }
        } else {
            table_insert(&mut self.globals, k, value);
        }
    }

    /// Open a subroutine frame holding `args` as `#1`, `#2`, ….
    pub fn push_frame(&mut self, args: Vec<V>)
        requires
            old(self).wf(),
        ensures
            final(self).wf(),
            final(self)@ == push_spec(old(self)@, args@),
    {
        let mut frame: Table<V> = Vec::new();
        let mut i: usize = 0;
        proof {
            assert(args@.take(0) =~= Seq::<V>::empty());
        }
        while i < args.len()
            invariant
                i <= args.len(),
                keys_distinct(frame@),
                table_map(frame@) == frame_spec(args@.take(i as int)),
            decreases args.len() - i,
        {
            let key = decimal_chars((i + 1) as u64);
            table_insert(&mut frame, key, args[i]);
            proof {
                assert(args@.take(i as int + 1).drop_last() =~= args@.take(i as int));
            }
            i = i + 1;
        }
        proof {
            assert(args@.take(i as int) =~= args@);
        }
        let ghost before = self.frames@;
        self.frames.push(frame);
        proof {
            assert forall|j: int| 0 <= j < self.frames.len() implies keys_distinct(#[trigger] self.frames@[j]@) by {
                if j < before.len() {
                    assert(self.frames@[j] == before[j]);
                }
            }
            assert(self@.frames =~= old(self)@.frames.push(frame_spec(args@)));
        }
    }

    /// Close the innermost frame, if one is open.
    pub fn pop_frame(&mut self)
        requires
            old(self).wf(),
        ensures
            final(self).wf(),
            final(self)@ == pop_spec(old(self)@),
    {
        let ghost before = self.frames@;
        if self.frames.len() > 0 {
            self.frames.pop();
            proof {
                assert forall|j: int| 0 <= j < self.frames.len() implies keys_distinct(#[trigger] self.frames@[j]@) by {
                    assert(self.frames@[j] == before[j]);
                }
                assert(self@.frames =~= old(self)@.frames.drop_last());
            }
        }
    }
}

// ── laws of parameter scope ───────────────────────────────────────────────

/// A read gives back what the last write to the same key wrote.
pub proof fn law_get_after_set<V>(p: ParamsView<V>, key: Seq<char>, v: V)
    ensures
        get_spec(set_spec(p, key, v), key) == Some(v),
{
    let q = set_spec(p, key, v);
    assert(q.frames.len() == p.frames.len());
}

/// Writing one key leaves every other key as it was.
pub proof fn law_set_leaves_other_keys<V>(p: ParamsView<V>, key: Seq<char>, v: V, other: Seq<char>)
    requires
        other != key,
    ensures
        get_spec(set_spec(p, key, v), other) == get_spec(p, other),
{
}

/// Locals vanish with their frame: whatever a subroutine writes to its own
/// parameters, after the return every parameter reads as before the call.
pub proof fn law_frame_locals_vanish<V>(p: ParamsView<V>, args: Seq<V>, key: Seq<char>, v: V)
    requires
        is_local_spec(true, key),
    ensures
        pop_spec(set_spec(push_spec(p, args), key, v)) == p,
{
    let q = push_spec(p, args);
    let r = set_spec(q, key, v);
    assert(r.frames.drop_last() =~= p.frames);
}

/// Globals are shared across calls: a write to a global inside a
/// subroutine is still there after the return.
pub proof fn law_globals_outlive_frames<V>(p: ParamsView<V>, args: Seq<V>, key: Seq<char>, v: V)
    requires
        !is_local_spec(true, key),
    ensures
        get_spec(pop_spec(set_spec(push_spec(p, args), key, v)), key) == Some(v),
{
    assert(!is_local_spec(false, key));
}

proof fn lemma_decimal_digits(n: nat)
    ensures
        decimal(n).len() > 0,
        all_digits(decimal(n)),
        digits_value(decimal(n)) == n,
    decreases n,
{
    let d = decimal(n);
    let m = n % 10;
    assert(digit_char(m) as u32 == m + 48);
    if n >= 10 {
        lemma_decimal_digits(n / 10);
        assert(d.drop_last() == decimal(n / 10));
        assert(d.last() == digit_char(m));
        assert(digits_value(d) == digits_value(decimal(n / 10)) * 10 + m);
        assert(n == (n / 10) * 10 + m);
    } else {
        assert(d.drop_last() =~= Seq::<char>::empty());
        assert(d.last() == digit_char(n));
        assert(digits_value(d) == digits_value(d.drop_last()) * 10 + m);
        assert forall|k: int| 0 <= k < d.len() implies is_digit(#[trigger] d[k]) by {
            if k < d.len() - 1 {
                assert(d[k] == decimal(n / 10)[k]);
            }
        }
    }
}

/// Inside a call, `#1` … `#30` read the call's arguments (1-based).
pub proof fn law_arguments_are_numbered<V>(p: ParamsView<V>, args: Seq<V>, i: nat)
    requires
        1 <= i <= args.len(),
        i <= 30,
    ensures
        get_spec(push_spec(p, args), decimal(i)) == Some(args[i - 1]),
{
    lemma_decimal_digits(i);
    assert(unsigned_digits(decimal(i)) == decimal(i)) by {
        assert(is_digit(decimal(i)[0]));
    }
    assert(is_local_spec(true, decimal(i))) by {
        assert(is_digit(decimal(i)[0]));
    }
    lemma_frame_has(args, i);
}

proof fn lemma_decimal_positive_differs(a: nat, b: nat)
    requires
        a != b,
    ensures
        decimal(a) != decimal(b),
    decreases a + b,
{
    if a < 10 && b < 10 {
        assert(decimal(a)[0] != decimal(b)[0]);
    } else if a < 10 {
        lemma_decimal_len(b / 10);
        assert(decimal(b).len() > 1);
    } else if b < 10 {
        lemma_decimal_len(a / 10);
        assert(decimal(a).len() > 1);
    } else if a % 10 != b % 10 {
        assert(decimal(a).last() != decimal(b).last());
    } else {
        lemma_decimal_positive_differs(a / 10, b / 10);
        assert(decimal(a).drop_last() == decimal(a / 10));
        assert(decimal(b).drop_last() == decimal(b / 10));
    }
}

proof fn lemma_decimal_len(n: nat)
    ensures
        decimal(n).len() >= 1,
    decreases n,
{
    if n >= 10 {
        lemma_decimal_len(n / 10);
    }
}

proof fn lemma_frame_has<V>(args: Seq<V>, i: nat)
    requires
        1 <= i <= args.len(),
    ensures
        frame_spec(args).contains_key(decimal(i)),
        frame_spec(args)[decimal(i)] == args[i - 1],
    decreases args.len(),
{
    let d = args.drop_last();
    if i < args.len() {
        lemma_frame_has(d, i);
        lemma_decimal_positive_differs(args.len(), i);
    }
}

} // verus!

verus! {

/// Inside a frame a local key reads the innermost frame and nothing else:
/// when that frame has no value for it, it has none, whatever the globals
/// or outer frames hold. Outside frames every key reads the globals.
pub proof fn law_locals_read_only_their_frame<V>(p: ParamsView<V>, key: Seq<char>)
    ensures
        is_local_spec(p.frames.len() > 0, key) && !p.frames.last().contains_key(key) ==> get_spec(p, key) is None,
        is_local_spec(p.frames.len() > 0, key) && p.frames.last().contains_key(key) ==> get_spec(p, key) == Some(p.frames.last()[key]),
        !is_local_spec(p.frames.len() > 0, key) ==> get_spec(p, key) == (if p.globals.contains_key(key) { Some(p.globals[key]) } else { None::<V> }),
        p.frames.len() == 0 ==> !is_local_spec(p.frames.len() > 0, key),
{
}

/// A freshly entered subroutine sees only its arguments among its locals:
/// a local key that is not an argument number has no value there.
pub proof fn law_new_frame_holds_only_arguments<V>(p: ParamsView<V>, args: Seq<V>, key: Seq<char>)
    requires
        is_local_spec(true, key),
        !frame_spec(args).contains_key(key),
    ensures
        get_spec(push_spec(p, args), key) is None,
{
}

} // verus!

verus! {

/// A call's frame holds the keys `1` … `n` of its `n` arguments and no
/// others.
pub proof fn law_frame_keys_are_argument_numbers<V>(args: Seq<V>, key: Seq<char>)
    ensures
        frame_spec(args).contains_key(key) ==> exists|i: nat| 1 <= i <= args.len() && key == #[trigger] decimal(i),
    decreases args.len(),
{
    if args.len() > 0 {
        law_frame_keys_are_argument_numbers(args.drop_last(), key);
        if frame_spec(args).contains_key(key) && key != decimal(args.len()) {
            let i = choose|i: nat| 1 <= i <= args.drop_last().len() && key == #[trigger] decimal(i);
            assert(1 <= i <= args.len());
        }
    }
}

} // verus!

verus! {

/// The scope rule: outside a subroutine nothing is local; inside one,
/// `#1` … `#30` are local, higher numbers are global, names starting with
/// `_` are global, and other names (any key holding a letter) are local.
pub proof fn law_scope_rule(key: Seq<char>, i: nat)
    ensures
        !is_local_spec(false, key),
        key.len() > 0 && key[0] == '_' ==> !is_local_spec(true, key),
        1 <= i <= 30 ==> is_local_spec(true, decimal(i)),
        30 < i <= u32::MAX ==> !is_local_spec(true, decimal(i)),
        i == 0 ==> !is_local_spec(true, decimal(i)),
        (key.len() > 0 && key[0] != '_' && exists|j: int| 0 <= j < key.len() && is_alpha(#[trigger] key[j])) ==> is_local_spec(true, key),
{
    lemma_decimal_digits(i);
    assert(is_digit(decimal(i)[0]));
    assert(unsigned_digits(decimal(i)) == decimal(i));
    if key.len() > 0 && key[0] != '_' && exists|j: int| 0 <= j < key.len() && is_alpha(#[trigger] key[j]) {
        let j = choose|j: int| 0 <= j < key.len() && is_alpha(#[trigger] key[j]);
        let d = unsigned_digits(key);
        if key[0] == '+' {
            if j == 0 {
            } else {
                assert(d[j - 1] == key[j]);
            }
        } else {
            assert(d[j] == key[j]);
        }
    }
}

} // verus!
