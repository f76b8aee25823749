//! Environment variables: a map from name to value, kept in name order.

use vstd::prelude::*;
use crate::text::{chars_of, copy_text, same_text};

verus! {

/// A variable: its name and its value.
pub type Var = (Seq<char>, Seq<char>);

/// Lexicographic order of texts, by code point.
pub open spec fn text_less(a: Seq<char>, b: Seq<char>) -> bool
    decreases a.len(),
{
    if b.len() == 0 {
        false
    } else if a.len() == 0 {
        true
    } else if a[0] != b[0] {
        a[0] < b[0]
    } else {
        text_less(a.skip(1), b.skip(1))
    }
}

pub proof fn lemma_text_less_irreflexive(a: Seq<char>)
    ensures
        !text_less(a, a),
    decreases a.len(),
{
    if a.len() > 0 {
        lemma_text_less_irreflexive(a.skip(1));
    }
}

pub proof fn lemma_text_less_transitive(a: Seq<char>, b: Seq<char>, c: Seq<char>)
    requires
        text_less(a, b),
        text_less(b, c),
    ensures
        text_less(a, c),
    decreases a.len(),
{
    if a.len() > 0 && a[0] == b[0] && b[0] == c[0] {
        lemma_text_less_transitive(a.skip(1), b.skip(1), c.skip(1));
    }
}

pub proof fn lemma_text_less_total(a: Seq<char>, b: Seq<char>)
    ensures
        text_less(a, b) || a == b || text_less(b, a),
    decreases a.len(),
{
    if a.len() == 0 {
        if b.len() == 0 {
            assert(a =~= b);
        }
    } else if b.len() > 0 && a[0] == b[0] {
        lemma_text_less_total(a.skip(1), b.skip(1));
        if a.skip(1) == b.skip(1) {
            assert(a =~= seq![a[0]] + a.skip(1));
            assert(b =~= seq![b[0]] + b.skip(1));
        }
    }
}

/// Whether the names stand in strictly ascending order.
pub open spec fn ascending(s: Seq<Var>) -> bool {
    forall|i: int, j: int|
        0 <= i < j < s.len() ==> text_less((#[trigger] s[i]).0, (#[trigger] s[j]).0)
}

/// `s` with `k` set to `v`, in its place.
pub open spec fn with_var(s: Seq<Var>, k: Seq<char>, v: Seq<char>) -> Seq<Var>
    decreases s.len(),
{
    if s.len() == 0 {
        seq![(k, v)]
    } else if s[0].0 == k {
        seq![(k, v)] + s.skip(1)
    } else if text_less(k, s[0].0) {
        seq![(k, v)] + s
    } else {
        seq![s[0]] + with_var(s.skip(1), k, v)
    }
}

/// `s` without `k`.
pub open spec fn without_var(s: Seq<Var>, k: Seq<char>) -> Seq<Var>
    decreases s.len(),
{
    if s.len() == 0 {
        s
    } else if s[0].0 == k {
        s.skip(1)
    } else {
        seq![s[0]] + without_var(s.skip(1), k)
    }
}

/// The value of `k` in `s`.
pub open spec fn var_in(s: Seq<Var>, k: Seq<char>) -> Option<Seq<char>>
    decreases s.len(),
{
    if s.len() == 0 {
        None
    } else if s[0].0 == k {
        Some(s[0].1)
    } else {
        var_in(s.skip(1), k)
    }
}

proof fn lemma_tail_ascending(s: Seq<Var>)
    requires
        ascending(s),
        s.len() > 0,
    ensures
        ascending(s.skip(1)),
        forall|i: int| 0 <= i < s.skip(1).len() ==> text_less(s[0].0, (#[trigger] s.skip(1)[i]).0),
{
    let t = s.skip(1);
    assert forall|i: int, j: int| 0 <= i < j < t.len() implies text_less(
        (#[trigger] t[i]).0,
        (#[trigger] t[j]).0,
    ) by {
        assert(t[i] == s[i + 1] && t[j] == s[j + 1]);
    }
    assert forall|i: int| 0 <= i < t.len() implies text_less(s[0].0, (#[trigger] t[i]).0) by {
        assert(t[i] == s[i + 1]);
    }
}

proof fn lemma_cons_ascending(x: Var, t: Seq<Var>)
    requires
        ascending(t),
        t.len() > 0 ==> text_less(x.0, t[0].0),
    ensures
        ascending(seq![x] + t),
{
    let s = seq![x] + t;
    assert forall|i: int, j: int| 0 <= i < j < s.len() implies text_less(
        (#[trigger] s[i]).0,
        (#[trigger] s[j]).0,
    ) by {
        if i > 0 {
            assert(s[i] == t[i - 1] && s[j] == t[j - 1]);
        } else {
            assert(s[j] == t[j - 1]);
            if j > 1 {
                lemma_text_less_transitive(x.0, t[0].0, t[j - 1].0);
            }
        }
    }
}

/// Setting a variable keeps the order, and changes no other variable.
pub proof fn lemma_with_var(s: Seq<Var>, k: Seq<char>, v: Seq<char>)
    requires
        ascending(s),
    ensures
        ascending(with_var(s, k, v)),
        with_var(s, k, v).len() > 0,
        with_var(s, k, v)[0].0 == k || (s.len() > 0 && with_var(s, k, v)[0] == s[0]),
        var_in(with_var(s, k, v), k) == Some(v),
        forall|o: Seq<char>| o != k ==> #[trigger] var_in(with_var(s, k, v), o) == var_in(s, o),
    decreases s.len(),
{
    let r = with_var(s, k, v);
    if s.len() == 0 {
        assert(r.skip(1) =~= s);
    } else {
        lemma_tail_ascending(s);
        if s[0].0 == k {
            lemma_cons_ascending((k, v), s.skip(1));
            assert(r.skip(1) =~= s.skip(1));
        } else if text_less(k, s[0].0) {
            lemma_cons_ascending((k, v), s);
            assert(r.skip(1) =~= s);
        } else {
            lemma_with_var(s.skip(1), k, v);
            lemma_text_less_total(k, s[0].0);
            lemma_cons_ascending(s[0], with_var(s.skip(1), k, v));
            assert(r.skip(1) =~= with_var(s.skip(1), k, v));
        }
    }
    assert forall|o: Seq<char>| o != k implies #[trigger] var_in(r, o) == var_in(s, o) by {
        if s.len() > 0 && s[0].0 != k && !text_less(k, s[0].0) {
            assert(var_in(r.skip(1), o) == var_in(s.skip(1), o));
        }
    }
}

/// Removing a variable keeps the order, and changes no other variable.
pub proof fn lemma_without_var(s: Seq<Var>, k: Seq<char>)
    requires
        ascending(s),
    ensures
        ascending(without_var(s, k)),
        without_var(s, k).len() > 0 && s.len() > 0 ==> without_var(s, k)[0] == s[0] || text_less(
            s[0].0,
            without_var(s, k)[0].0,
        ),
        var_in(without_var(s, k), k) is None,
        forall|o: Seq<char>| o != k ==> #[trigger] var_in(without_var(s, k), o) == var_in(s, o),
    decreases s.len(),
{
    if s.len() > 0 {
        lemma_tail_ascending(s);
        let t = s.skip(1);
        if s[0].0 == k {
            lemma_absent(t, k);
        } else {
            lemma_without_var(t, k);
            let w = without_var(t, k);
            if w.len() > 0 && t.len() > 0 && w[0] != t[0] {
                lemma_text_less_transitive(s[0].0, t[0].0, w[0].0);
            }
            if t.len() == 0 {
                assert(w.len() == 0);
            }
            lemma_cons_ascending(s[0], w);
            assert((seq![s[0]] + w).skip(1) =~= w);
            assert forall|o: Seq<char>| o != k implies #[trigger] var_in(
                without_var(s, k),
                o,
            ) == var_in(s, o) by {
                assert(var_in(w, o) == var_in(t, o));
            }
        }
    }
}

/// A name below every name of `s` is not in `s`.
proof fn lemma_absent(s: Seq<Var>, k: Seq<char>)
    requires
        forall|i: int| 0 <= i < s.len() ==> text_less(k, (#[trigger] s[i]).0),
    ensures
        var_in(s, k) is None,
    decreases s.len(),
{
    if s.len() > 0 {
        assert(text_less(k, s[0].0));
        lemma_text_less_irreflexive(k);
        let t = s.skip(1);
        assert forall|i: int| 0 <= i < t.len() implies text_less(k, (#[trigger] t[i]).0) by {
            assert(t[i] == s[i + 1]);
        }
        lemma_absent(t, k);
    }
}

/// Two ordered lists that give every name the same value are the same list.
pub proof fn lemma_same_vars(a: Seq<Var>, b: Seq<Var>)
    requires
        ascending(a),
        ascending(b),
        forall|k: Seq<char>| #[trigger] var_in(a, k) == var_in(b, k),
    ensures
        a == b,
    decreases a.len(),
{
    if a.len() == 0 {
        if b.len() > 0 {
            assert(var_in(a, b[0].0) == var_in(b, b[0].0));
        }
        assert(a =~= b);
    } else {
        assert(var_in(a, a[0].0) == var_in(b, a[0].0));
        assert(b.len() > 0);
        assert(var_in(a, b[0].0) == var_in(b, b[0].0));
        lemma_tail_ascending(a);
        lemma_tail_ascending(b);
        lemma_text_less_total(a[0].0, b[0].0);
        let ta = a.skip(1);
        let tb = b.skip(1);
        if text_less(a[0].0, b[0].0) {
            assert forall|i: int| 0 <= i < b.len() implies text_less(
                a[0].0,
                (#[trigger] b[i]).0,
            ) by {
                if i > 0 {
                    lemma_text_less_transitive(a[0].0, b[0].0, b[i].0);
                }
            }
            lemma_absent(b, a[0].0);
        } else if text_less(b[0].0, a[0].0) {
            assert forall|i: int| 0 <= i < a.len() implies text_less(
                b[0].0,
                (#[trigger] a[i]).0,
            ) by {
                if i > 0 {
                    lemma_text_less_transitive(b[0].0, a[0].0, a[i].0);
                }
            }
            lemma_absent(a, b[0].0);
        }
        assert(a[0] == b[0]);
        assert forall|k: Seq<char>| #[trigger] var_in(ta, k) == var_in(tb, k) by {
            assert(var_in(a, k) == var_in(b, k));
            if k == a[0].0 {
                lemma_absent(ta, k);
                lemma_absent(tb, k);
            }
        }
        lemma_same_vars(ta, tb);
        assert(a =~= seq![a[0]] + ta);
        assert(b =~= seq![b[0]] + tb);
    }
}

/// The order in which two variables are set does not matter.
pub proof fn law_env_order_irrelevant(
    s: Seq<Var>,
    k1: Seq<char>,
    v1: Seq<char>,
    k2: Seq<char>,
    v2: Seq<char>,
)
    requires
        ascending(s),
        k1 != k2,
    ensures
        with_var(with_var(s, k1, v1), k2, v2) == with_var(with_var(s, k2, v2), k1, v1),
{
    lemma_with_var(s, k1, v1);
    lemma_with_var(s, k2, v2);
    let a = with_var(with_var(s, k1, v1), k2, v2);
    let b = with_var(with_var(s, k2, v2), k1, v1);
    lemma_with_var(with_var(s, k1, v1), k2, v2);
    lemma_with_var(with_var(s, k2, v2), k1, v1);
    assert forall|k: Seq<char>| #[trigger] var_in(a, k) == var_in(b, k) by {
        if k != k1 && k != k2 {
            assert(var_in(a, k) == var_in(with_var(s, k1, v1), k));
            assert(var_in(with_var(s, k1, v1), k) == var_in(s, k));
            assert(var_in(b, k) == var_in(with_var(s, k2, v2), k));
            assert(var_in(with_var(s, k2, v2), k) == var_in(s, k));
        } else if k == k1 {
            assert(var_in(a, k) == var_in(with_var(s, k1, v1), k));
        } else {
            assert(var_in(b, k) == var_in(with_var(s, k2, v2), k));
        }
    }
    lemma_same_vars(a, b);
}

/// The variables held by a sequence of string pairs.
pub open spec fn vars(v: Seq<(String, String)>) -> Seq<Var> {
    v.map_values(|p: (String, String)| (p.0@, p.1@))
}

/// A map from variable names to values.
#[derive(Debug, PartialEq, Eq)]
pub struct EnvMap {
    entries: Vec<(String, String)>,
}

impl View for EnvMap {
    type V = Seq<Var>;

    closed spec fn view(&self) -> Seq<Var> {
        vars(self.entries@)
    }
}

/// Whether `a` comes before `b`.
fn comes_before(a: &str, b: &str) -> (res: bool)
    ensures
        res == text_less(a@, b@),
{
    let x = chars_of(a);
    let y = chars_of(b);
    let mut i: usize = 0;
    assert(x@.skip(0) =~= x@);
    assert(y@.skip(0) =~= y@);
    while i < x.len() && i < y.len() && x[i] == y[i]
        invariant
            i <= x.len(),
            i <= y.len(),
            x@ == a@,
            y@ == b@,
            text_less(x@.skip(i as int), y@.skip(i as int)) == text_less(a@, b@),
        decreases x.len() - i,
    {
        assert(x@.skip(i as int).skip(1) =~= x@.skip(i + 1));
        assert(y@.skip(i as int).skip(1) =~= y@.skip(i + 1));
        i += 1;
    }
    if i >= y.len() {
        false
    } else if i >= x.len() {
        true
    } else {
        x[i] < y[i]
    }
}

impl EnvMap {
    #[verifier::type_invariant]
    spec fn in_order(&self) -> bool {
        ascending(vars(self.entries@))
    }

    /// The empty map.
    pub fn new() -> (res: EnvMap)
        ensures
            res@ == Seq::<Var>::empty(),
    {
        let entries: Vec<(String, String)> = Vec::new();
        assert(vars(entries@) =~= Seq::<Var>::empty());
        EnvMap { entries }
    }

    /// The number of variables, which stand in name order.
    pub fn len(&self) -> (res: usize)
        ensures
            res == self@.len(),
            ascending(self@),
    {
        proof {
            use_type_invariant(self);
        }
        self.entries.len()
    }

    /// Whether there is no variable.
    pub fn is_empty(&self) -> (res: bool)
        ensures
            res == (self@.len() == 0),
    {
        self.entries.len() == 0
    }

    /// The name of variable number `i`, in name order.
    pub fn name(&self, i: usize) -> (res: &str)
        requires
            i < self@.len(),
        ensures
            res@ == self@[i as int].0,
    {
        self.entries[i].0.as_str()
    }

    /// The value of variable number `i`, in name order.
    pub fn value(&self, i: usize) -> (res: &str)
        requires
            i < self@.len(),
        ensures
            res@ == self@[i as int].1,
    {
        self.entries[i].1.as_str()
    }

    /// The value of `key`.
    pub fn get(&self, key: &str) -> (res: Option<&str>)
        ensures
            match res {
                Some(v) => var_in(self@, key@) == Some(v@),
                None => var_in(self@, key@) is None,
            },
    {
        let mut i: usize = 0;
        assert(self@.skip(0) =~= self@);
        while i < self.entries.len()
            invariant
                i <= self@.len(),
                self@.len() == self.entries@.len(),
                var_in(self@, key@) == var_in(self@.skip(i as int), key@),
            decreases self.entries.len() - i,
        {
            assert(self@.skip(i as int)[0] == self@[i as int]);
            if same_text(self.entries[i].0.as_str(), key) {
                return Some(self.entries[i].1.as_str());
            }
            assert(self@.skip(i as int).skip(1) =~= self@.skip(i + 1));
            i += 1;
        }
        None
    }

    /// Sets `key` to `value`, replacing what it was.
    pub fn insert(&mut self, key: String, value: String)
        ensures
            final(self)@ == with_var(old(self)@, key@, value@),
    {
        proof {
            use_type_invariant(&*self);
            lemma_with_var(self@, key@, value@);
        }
        let mut out: Vec<(String, String)> = Vec::new();
        let ghost all = self@;
        let ghost want = with_var(all, key@, value@);
        let mut i: usize = 0;
        assert(all.skip(0) =~= all);
        assert(vars(out@) + with_var(all, key@, value@) =~= want);
        while i < self.entries.len() && comes_before(self.entries[i].0.as_str(), key.as_str())
            invariant
                i <= all.len(),
                all == self@,
                ascending(all),
                all.len() == self.entries@.len(),
                vars(out@) + with_var(all.skip(i as int), key@, value@) == want,
            decreases self.entries.len() - i,
        {
            let ghost rest = all.skip(i as int);
            let ghost before = vars(out@);
            proof {
                assert(rest[0] == all[i as int]);
                lemma_text_less_irreflexive(key@);
                if text_less(key@, rest[0].0) {
                    lemma_text_less_transitive(key@, rest[0].0, key@);
                }
            }
            out.push((copy_text(self.entries[i].0.as_str()), copy_text(self.entries[i].1.as_str())));
            assert(vars(out@) =~= before.push(rest[0]));
            assert(rest.skip(1) =~= all.skip(i + 1));
            assert(vars(out@) + with_var(all.skip(i + 1), key@, value@) =~= before + with_var(
                rest,
                key@,
                value@,
            ));
            i += 1;
        }
        let ghost before = vars(out@);
        let ghost rest = all.skip(i as int);
        let mut j: usize = i;
        if i < self.entries.len() && same_text(self.entries[i].0.as_str(), key.as_str()) {
            j = i + 1;
        }
        proof {
            if i < all.len() {
                assert(rest[0] == all[i as int]);
                lemma_text_less_total(key@, rest[0].0);
            }
            assert(with_var(rest, key@, value@) =~= seq![(key@, value@)] + all.skip(j as int));
        }
        out.push((key, value));
        assert(vars(out@) =~= before.push((key@, value@)));
        assert(vars(out@) + all.skip(j as int) =~= want);
        while j < self.entries.len()
            invariant
                j <= all.len(),
                all == self@,
                all.len() == self.entries@.len(),
                vars(out@) + all.skip(j as int) == want,
            decreases self.entries.len() - j,
        {
            let ghost before = vars(out@);
            out.push((copy_text(self.entries[j].0.as_str()), copy_text(self.entries[j].1.as_str())));
            assert(vars(out@) =~= before.push(all[j as int]));
            assert(vars(out@) + all.skip(j + 1) =~= before + all.skip(j as int));
            j += 1;
        }
        assert(vars(out@) =~= want);
        self.entries = out;
    }

    /// Removes `key`.
    pub fn remove(&mut self, key: &str)
        ensures
            final(self)@ == without_var(old(self)@, key@),
    {
        proof {
            use_type_invariant(&*self);
            lemma_without_var(self@, key@);
        }
        let ghost all = self@;
        let ghost want = without_var(all, key@);
        let mut out: Vec<(String, String)> = Vec::new();
        let mut i: usize = 0;
        let mut found = false;
        assert(all.skip(0) =~= all);
        assert(vars(out@) + without_var(all, key@) =~= want);
        while i < self.entries.len()
            invariant
                i <= all.len(),
                all == self@,
                all.len() == self.entries@.len(),
                !found ==> vars(out@) + without_var(all.skip(i as int), key@) == want,
                found ==> vars(out@) + all.skip(i as int) == want,
            decreases self.entries.len() - i,
        {
            let ghost rest = all.skip(i as int);
            let ghost before = vars(out@);
            assert(rest[0] == all[i as int]);
            assert(rest.skip(1) =~= all.skip(i + 1));
            if !found && same_text(self.entries[i].0.as_str(), key) {
                found = true;
            } else {
                out.push(
                    (copy_text(self.entries[i].0.as_str()), copy_text(self.entries[i].1.as_str())),
                );
                assert(vars(out@) =~= before.push(rest[0]));
                if found {
                    assert(vars(out@) + all.skip(i + 1) =~= before + rest);
                } else {
                    assert(vars(out@) + without_var(all.skip(i + 1), key@) =~= before
                        + without_var(rest, key@));
                }
            }
            i += 1;
        }
        assert(vars(out@) =~= want);
        self.entries = out;
    }
}

impl Clone for EnvMap {
    fn clone(&self) -> (res: EnvMap)
        ensures
            res@ == self@,
    {
        proof {
            use_type_invariant(self);
        }
        let mut out: Vec<(String, String)> = Vec::new();
        let mut i: usize = 0;
        assert(vars(out@) =~= self@.take(0));
        while i < self.entries.len()
            invariant
                i <= self@.len(),
                self@.len() == self.entries@.len(),
                vars(out@) == self@.take(i as int),
            decreases self.entries.len() - i,
        {
            let ghost before = vars(out@);
            out.push((copy_text(self.entries[i].0.as_str()), copy_text(self.entries[i].1.as_str())));
            assert(vars(out@) =~= before.push(self@[i as int]));
            assert(vars(out@) =~= self@.take(i + 1));
            i += 1;
        }
        assert(vars(out@) =~= self@);
        EnvMap { entries: out }
    }
}

impl Default for EnvMap {
    fn default() -> (res: EnvMap)
        ensures
            res@ == Seq::<Var>::empty(),
    {
        EnvMap::new()
    }
}

/// Names are ordered by their first difference, and a name comes before every
/// longer one that starts with it.
pub proof fn law_order_of_names(p: Seq<char>, c: char, d: char, x: Seq<char>, y: Seq<char>)
    requires
        (c as u32) < (d as u32),
    ensures
        text_less(p + seq![c] + x, p + seq![d] + y),
        !text_less(p + seq![d] + y, p + seq![c] + x),
        text_less(p, p + seq![c] + x),
        !text_less(p + seq![c] + x, p),
        !text_less(p, p),
    decreases p.len(),
{
    let a = p + seq![c] + x;
    let b = p + seq![d] + y;
    if p.len() == 0 {
        assert(a[0] == c && b[0] == d);
    } else {
        let t = p.skip(1);
        law_order_of_names(t, c, d, x, y);
        assert(a.skip(1) =~= t + seq![c] + x);
        assert(b.skip(1) =~= t + seq![d] + y);
        assert(a[0] == p[0] && b[0] == p[0]);
    }
}

/// What is set is found, until it is removed; nothing else is touched by either.
pub proof fn law_variables(
    s: Seq<Var>,
    k: Seq<char>,
    v: Seq<char>,
    w: Seq<char>,
    other: Seq<char>,
)
    requires
        ascending(s),
        other != k,
    ensures
        var_in(with_var(s, k, v), k) == Some(v),
        var_in(with_var(with_var(s, k, v), k, w), k) == Some(w),
        var_in(without_var(with_var(s, k, v), k), k) is None,
        var_in(with_var(s, k, v), other) == var_in(s, other),
        var_in(without_var(s, k), other) == var_in(s, other),
        with_var(with_var(s, k, v), k, w) == with_var(s, k, w),
{
    let one = with_var(s, k, v);
    let two = with_var(one, k, w);
    lemma_with_var(s, k, v);
    lemma_with_var(s, k, w);
    lemma_with_var(one, k, w);
    lemma_without_var(one, k);
    lemma_without_var(s, k);
    let direct = with_var(s, k, w);
    assert forall|o: Seq<char>| #[trigger] var_in(two, o) == var_in(direct, o) by {
        if o != k {
            assert(var_in(one, o) == var_in(s, o));
        }
    }
    lemma_same_vars(two, direct);
}

} // verus!
