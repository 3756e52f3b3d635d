//! An explicit, ordered model of the environment block handed to the target
//! process: key/value pairs with unique keys, built incrementally and
//! materialized once at exec time.  Prepending to a list-valued variable
//! follows the launcher's convention: an unset or empty variable is set, a
//! value already contained (as a substring) leaves the variable unchanged,
//! and a new value goes first, separated by `:`.

use vstd::prelude::*;
use vstd::string::*;
use crate::strutil::has_sub;
use crate::strutil::str_eq;
use crate::strutil::contains_str;
use crate::strutil::concat_str;

verus! {

/// The first value bound to `k`, scanning left to right.
pub open spec fn lookup(s: Seq<(Seq<char>, Seq<char>)>, k: Seq<char>) -> Option<Seq<char>>
    decreases s.len(),
{
    if s.len() == 0 {
        None
    } else if s[0].0 == k {
        Some(s[0].1)
    } else {
        lookup(s.drop_first(), k)
    }
}

/// Position of `k` among the keys, or -1 when absent.
pub open spec fn key_index(s: Seq<(Seq<char>, Seq<char>)>, k: Seq<char>) -> int
    decreases s.len(),
{
    if s.len() == 0 {
        -1
    } else if s[0].0 == k {
        0
    } else if key_index(s.drop_first(), k) == -1 {
        -1
    } else {
        key_index(s.drop_first(), k) + 1
    }
}

/// The block after binding `k` to `v`: an existing binding is overwritten in
/// place, a new one goes to the end.
pub open spec fn set_spec(
    s: Seq<(Seq<char>, Seq<char>)>,
    k: Seq<char>,
    v: Seq<char>,
) -> Seq<(Seq<char>, Seq<char>)> {
    if key_index(s, k) >= 0 {
        s.update(key_index(s, k), (k, v))
    } else {
        s.push((k, v))
    }
}

/// The block after prepending `v` to the list-valued variable `k`.
pub open spec fn prepend_spec(
    s: Seq<(Seq<char>, Seq<char>)>,
    k: Seq<char>,
    v: Seq<char>,
) -> Seq<(Seq<char>, Seq<char>)> {
    match lookup(s, k) {
        None => set_spec(s, k, v),
        Some(cur) => if cur.len() == 0 {
            set_spec(s, k, v)
        } else if has_sub(cur, v) {
            s
        } else {
            set_spec(s, k, v + seq![':'] + cur)
        },
    }
}

/// The block after merging pairs in order, keeping any key that is already
/// bound (in the block as grown so far) and setting the rest.
pub open spec fn merge_missing_spec(
    s: Seq<(Seq<char>, Seq<char>)>,
    pairs: Seq<(Seq<char>, Seq<char>)>,
) -> Seq<(Seq<char>, Seq<char>)>
    decreases pairs.len(),
{
    if pairs.len() == 0 {
        s
    } else {
        let prev = merge_missing_spec(s, pairs.drop_last());
        if lookup(prev, pairs.last().0) is None {
            set_spec(prev, pairs.last().0, pairs.last().1)
        } else {
            prev
        }
    }
}

/// Well-formed environment: no key occurs twice.
pub open spec fn env_wf(s: Seq<(Seq<char>, Seq<char>)>) -> bool {
    forall|i: int, j: int| 0 <= i < j < s.len() ==> (#[trigger] s[i]).0 != (#[trigger] s[j]).0
}

pub open spec fn pairs_view(s: Seq<(String, String)>) -> Seq<(Seq<char>, Seq<char>)> {
    s.map_values(|p: (String, String)| (p.0@, p.1@))
}

pub proof fn lemma_lookup_key_index(s: Seq<(Seq<char>, Seq<char>)>, k: Seq<char>)
    ensures
        -1 <= key_index(s, k) < s.len(),
        key_index(s, k) == -1 ==> lookup(s, k) is None && (forall|j: int| 0 <= j < s.len()
            ==> (#[trigger] s[j]).0 != k),
        key_index(s, k) >= 0 ==> 0 <= key_index(s, k) < s.len() && s[key_index(s, k)].0 == k
            && lookup(s, k) == Some(s[key_index(s, k)].1) && (forall|j: int|
            0 <= j < key_index(s, k) ==> (#[trigger] s[j]).0 != k),
    decreases s.len(),
{
    if s.len() == 0 {
    } else if s[0].0 == k {
    } else {
        lemma_lookup_key_index(s.drop_first(), k);
        let d = s.drop_first();
        if key_index(d, k) == -1 {
            assert(key_index(s, k) == -1);
            assert forall|j: int| 0 <= j < s.len() implies (#[trigger] s[j]).0 != k by {
                if j > 0 {
                    assert(d[j - 1] == s[j]);
                }
            }
        } else {
            assert(key_index(s, k) == key_index(d, k) + 1);
            assert(d[key_index(d, k)] == s[key_index(s, k)]);
            assert forall|j: int| 0 <= j < key_index(s, k) implies (#[trigger] s[j]).0 != k by {
                if j > 0 {
                    assert(d[j - 1] == s[j]);
                }
            }
        }
    }
}

pub proof fn lemma_lookup_update(s: Seq<(Seq<char>, Seq<char>)>, i: int, v: Seq<char>, k: Seq<char>)
    requires
        env_wf(s),
        0 <= i < s.len(),
    ensures
        lookup(s.update(i, (s[i].0, v)), k) == if s[i].0 == k {
            Some(v)
        } else {
            lookup(s, k)
        },
    decreases s.len(),
{
    let t = s.update(i, (s[i].0, v));
    if i == 0 {
        if s[0].0 != k {
            assert(t.drop_first() =~= s.drop_first());
        }
    } else {
        if s[0].0 == k {
        } else {
            assert(t[0] == s[0]);
            assert(t.drop_first() =~= s.drop_first().update(i - 1, (s.drop_first()[i - 1].0, v)));
            assert(env_wf(s.drop_first())) by {
                assert(forall|a: int, b: int| 0 <= a < b < s.drop_first().len()
                    ==> (#[trigger] s.drop_first()[a]).0 != (#[trigger] s.drop_first()[b]).0);
            }
            lemma_lookup_update(s.drop_first(), i - 1, v, k);
        }
    }
}

pub proof fn lemma_lookup_push(s: Seq<(Seq<char>, Seq<char>)>, kv: (Seq<char>, Seq<char>), k: Seq<char>)
    ensures
        lookup(s.push(kv), k) == if lookup(s, k) is Some {
            lookup(s, k)
        } else if kv.0 == k {
            Some(kv.1)
        } else {
            None
        },
    decreases s.len(),
{
    if s.len() == 0 {
        assert(s.push(kv)[0] == kv);
        assert(s.push(kv).drop_first() =~= Seq::<(Seq<char>, Seq<char>)>::empty());
    } else {
        assert(s.push(kv)[0] == s[0]);
        assert(s.push(kv).drop_first() =~= s.drop_first().push(kv));
        lemma_lookup_push(s.drop_first(), kv, k);
    }
}

pub proof fn lemma_lookup_remove(s: Seq<(Seq<char>, Seq<char>)>, i: int, k: Seq<char>)
    requires
        env_wf(s),
        0 <= i < s.len(),
    ensures
        lookup(s.remove(i), k) == if s[i].0 == k {
            None::<Seq<char>>
        } else {
            lookup(s, k)
        },
    decreases s.len(),
{
    let t = s.remove(i);
    if i == 0 {
        assert(t =~= s.drop_first());
        if s[0].0 == k {
            lemma_lookup_key_index(s.drop_first(), k);
            if key_index(s.drop_first(), k) >= 0 {
                let j = key_index(s.drop_first(), k);
                assert(s.drop_first()[j] == s[j + 1]);
                assert(s[0].0 == s[j + 1].0);
                assert(false);
            }
        }
    } else {
        assert(t[0] == s[0]);
        if s[0].0 != k {
            assert(t.drop_first() =~= s.drop_first().remove(i - 1));
            assert(env_wf(s.drop_first())) by {
                assert(forall|a: int, b: int| 0 <= a < b < s.drop_first().len()
                    ==> (#[trigger] s.drop_first()[a]).0 != (#[trigger] s.drop_first()[b]).0);
            }
            assert(s.drop_first()[i - 1] == s[i]);
            lemma_lookup_remove(s.drop_first(), i - 1, k);
        }
    }
}

/// The ordered environment block.
pub struct EnvMap {
    pub items: Vec<(String, String)>,
}

impl View for EnvMap {
    type V = Seq<(Seq<char>, Seq<char>)>;

    open spec fn view(&self) -> Seq<(Seq<char>, Seq<char>)> {
        pairs_view(self.items@)
    }
}

impl EnvMap {
    /// An empty environment.
    pub fn new() -> (r: EnvMap)
        ensures
            r@ =~= Seq::<(Seq<char>, Seq<char>)>::empty(),
            env_wf(r@),
    {
        EnvMap { items: Vec::new() }
    }

    /// An environment taken over from existing pairs with distinct keys, in
    /// their order.
    pub fn from_pairs(pairs: Vec<(String, String)>) -> (r: EnvMap)
        requires
            forall|i: int, j: int| 0 <= i < j < pairs@.len() ==> (#[trigger] pairs@[i]).0@
                != (#[trigger] pairs@[j]).0@,
        ensures
            r@ == pairs_view(pairs@),
            env_wf(r@),
    {
        let r = EnvMap { items: pairs };
        proof {
            assert(forall|i: int| 0 <= i < r@.len() ==> (#[trigger] r@[i]).0 == r.items@[i].0@);
        }
        r
    }

    /// Index of `k` among the keys, aligned with `key_index`.
    fn find_key(&self, k: &str) -> (r: Option<usize>)
        ensures
            match r {
                Some(i) => i as int == key_index(self@, k@),
                None => key_index(self@, k@) == -1,
            },
    {
        let ghost v = self@;
        let mut i: usize = 0;
        while i < self.items.len()
            invariant
                i <= self.items.len(),
                v == self@,
                v.len() == self.items@.len(),
                forall|j: int| 0 <= j < i ==> (#[trigger] v[j]).0 != k@,
            decreases self.items.len() - i,
        {
            proof {
                assert(v[i as int].0 == self.items@[i as int].0@);
            }
            if str_eq(self.items[i].0.as_str(), k) {
                proof {
                    lemma_lookup_key_index(v, k@);
                    if key_index(v, k@) == -1 {
                        assert(false);
                    }
                    if key_index(v, k@) < i {
                        assert(v[key_index(v, k@)].0 != k@);
                        assert(false);
                    }
                    if key_index(v, k@) > i {
                        assert(v[i as int].0 != k@);
                        assert(false);
                    }
                }
                return Some(i);
            }
            i = i + 1;
        }
        proof {
            lemma_lookup_key_index(v, k@);
            if key_index(v, k@) >= 0 {
                assert(v[key_index(v, k@)].0 == k@);
                assert(false);
            }
        }
        None
    }

    /// The value bound to `k`, if any.
    pub fn get(&self, k: &str) -> (r: Option<String>)
        ensures
            match r {
                Some(v) => lookup(self@, k@) == Some(v@),
                None => lookup(self@, k@) is None,
            },
    {
        proof {
            lemma_lookup_key_index(self@, k@);
        }
        match self.find_key(k) {
            Some(i) => {
                proof {
                    assert(self@[i as int].1 == self.items@[i as int].1@);
                }
                Some(self.items[i].1.clone())
            },
            None => None,
        }
    }

    /// Bind `k` to `v`, overwriting an existing binding in place and keeping
    /// the order of all others.
    pub fn set(&mut self, k: &str, v: String)
        requires
            env_wf(old(self)@),
        ensures
            env_wf(final(self)@),
            final(self)@ == set_spec(old(self)@, k@, v@),
            lookup(final(self)@, k@) == Some(v@),
            forall|k2: Seq<char>| k2 != k@ ==> #[trigger] lookup(final(self)@, k2) == lookup(old(self)@, k2),
            key_index(old(self)@, k@) >= 0 ==> final(self)@ == old(self)@.update(
                key_index(old(self)@, k@),
                (k@, v@),
            ),
            key_index(old(self)@, k@) == -1 ==> final(self)@ == old(self)@.push((k@, v@)),
    {
        let ghost s = self@;
        proof {
            lemma_lookup_key_index(s, k@);
        }
        match self.find_key(k) {
            Some(i) => {
                let key = self.items[i].0.clone();
                self.items.set(i, (key, v));
                proof {
                    assert(s[i as int].0 == k@);
                    assert(self@ =~= s.update(i as int, (k@, v@)));
                    lemma_lookup_update(s, i as int, v@, k@);
                    assert forall|k2: Seq<char>| k2 != k@ implies #[trigger] lookup(self@, k2)
                        == lookup(s, k2) by {
                        lemma_lookup_update(s, i as int, v@, k2);
                    }
                    assert forall|a: int, b: int| 0 <= a < b < self@.len()
                        implies (#[trigger] self@[a]).0 != (#[trigger] self@[b]).0 by {
                        assert(s[a].0 == self@[a].0 && s[b].0 == self@[b].0);
                    }
                }
            },
            None => {
                self.items.push((String::from_str(k), v));
                proof {
                    assert(self@ =~= s.push((k@, v@)));
                    lemma_lookup_push(s, (k@, v@), k@);
                    assert forall|k2: Seq<char>| k2 != k@ implies #[trigger] lookup(self@, k2)
                        == lookup(s, k2) by {
                        lemma_lookup_push(s, (k@, v@), k2);
                    }
                    assert forall|a: int, b: int| 0 <= a < b < self@.len()
                        implies (#[trigger] self@[a]).0 != (#[trigger] self@[b]).0 by {
                        if b == self@.len() - 1 {
                            assert(s[a].0 != k@);
                        } else {
                            assert(s[a].0 == self@[a].0 && s[b].0 == self@[b].0);
                        }
                    }
                }
            },
        }
    }

    /// Drop the binding of `k`, if any, keeping the order of all others.
    pub fn remove(&mut self, k: &str)
        requires
            env_wf(old(self)@),
        ensures
            env_wf(final(self)@),
            lookup(final(self)@, k@) is None,
            forall|k2: Seq<char>| k2 != k@ ==> #[trigger] lookup(final(self)@, k2) == lookup(old(self)@, k2),
            key_index(old(self)@, k@) >= 0 ==> final(self)@ == old(self)@.remove(key_index(old(self)@, k@)),
            key_index(old(self)@, k@) == -1 ==> final(self)@ == old(self)@,
    {
        let ghost s = self@;
        proof {
            lemma_lookup_key_index(s, k@);
        }
        match self.find_key(k) {
            Some(i) => {
                self.items.remove(i);
                proof {
                    assert(self@ =~= s.remove(i as int));
                    assert(s[i as int].0 == k@);
                    lemma_lookup_remove(s, i as int, k@);
                    assert forall|k2: Seq<char>| k2 != k@ implies #[trigger] lookup(self@, k2)
                        == lookup(s, k2) by {
                        lemma_lookup_remove(s, i as int, k2);
                    }
                    assert forall|a: int, b: int| 0 <= a < b < self@.len()
                        implies (#[trigger] self@[a]).0 != (#[trigger] self@[b]).0 by {
                        let a0 = if a < i { a } else { a + 1 };
                        let b0 = if b < i { b } else { b + 1 };
                        assert(self@[a] == s[a0] && self@[b] == s[b0]);
                    }
                }
            },
            None => {},
        }
    }

    /// The value bound to `k`, or the empty string when unset: the launcher's
    /// reading of an environment variable.
    pub fn get_or_empty(&self, k: &str) -> (r: String)
        ensures
            match lookup(self@, k@) {
                Some(v) => r@ == v,
                None => r@ =~= Seq::<char>::empty(),
            },
    {
        match self.get(k) {
            Some(v) => v,
            None => String::new(),
        }
    }

    /// Prepend `v` to the list-valued variable `k`: set it when unset or
    /// empty; leave it unchanged when `v` already occurs in the current value
    /// as a substring (a deliberate, known imprecision of the launcher: a
    /// value can be masked by a longer entry that contains it); otherwise the
    /// new value goes first, `:`-separated, with all prior entries kept.
    pub fn prepend(&mut self, k: &str, v: &str)
        requires
            env_wf(old(self)@),
        ensures
            env_wf(final(self)@),
            final(self)@ == prepend_spec(old(self)@, k@, v@),
            forall|k2: Seq<char>| k2 != k@ ==> #[trigger] lookup(final(self)@, k2) == lookup(old(self)@, k2),
            match lookup(old(self)@, k@) {
                None => lookup(final(self)@, k@) == Some(v@),
                Some(cur) => {
                    &&& cur.len() == 0 ==> lookup(final(self)@, k@) == Some(v@)
                    &&& cur.len() > 0 && has_sub(cur, v@) ==> final(self)@ == old(self)@
                    &&& cur.len() > 0 && !has_sub(cur, v@) ==> lookup(final(self)@, k@) == Some(
                        v@ + seq![':'] + cur,
                    )
                },
            },
    {
        proof {
            reveal_strlit(":");
            assert(":"@ =~= seq![':']);
        }
        match self.get(k) {
            None => {
                self.set(k, String::from_str(v));
            },
            Some(cur) => {
                if cur.as_str().unicode_len() == 0 {
                    self.set(k, String::from_str(v));
                } else if !contains_str(cur.as_str(), v) {
                    let joined = concat_str(v, ":");
                    let joined = concat_str(joined.as_str(), cur.as_str());
                    proof {
                        assert(joined@ =~= v@ + seq![':'] + cur@);
                    }
                    self.set(k, joined);
                }
            },
        }
    }

    /// Merge pairs in order: a variable that is already bound keeps its
    /// value, every other pair is set.
    pub fn merge_pairs(&mut self, pairs: &Vec<(String, String)>)
        requires
            env_wf(old(self)@),
        ensures
            env_wf(final(self)@),
            final(self)@ == merge_missing_spec(old(self)@, pairs_view(pairs@)),
    {
        let ghost s0 = self@;
        let ghost pv = pairs_view(pairs@);
        let mut i: usize = 0;
        proof {
            assert(pv.take(0) =~= Seq::<(Seq<char>, Seq<char>)>::empty());
        }
        while i < pairs.len()
            invariant
                i <= pairs.len(),
                pairs@.len() == pv.len(),
                pv == pairs_view(pairs@),
                env_wf(self@),
                self@ == merge_missing_spec(s0, pv.take(i as int)),
            decreases pairs.len() - i,
        {
            proof {
                assert(pv[i as int] == (pairs@[i as int].0@, pairs@[i as int].1@));
                assert(pv.take(i + 1).drop_last() =~= pv.take(i as int));
                assert(pv.take(i + 1).last() == pv[i as int]);
            }
            let bound = match self.get(pairs[i].0.as_str()) {
                Some(_) => true,
                None => false,
            };
            if !bound {
                self.set(pairs[i].0.as_str(), pairs[i].1.clone());
            }
            i = i + 1;
        }
        proof {
            assert(pv.take(pairs@.len() as int) =~= pv);
        }
    }

    /// Merge the assignments of a `.env` collaborator file into the block.
    /// As dotenv itself behaves, a variable that is already set keeps its
    /// value.  Which pairs the file held depends on the disk; what came back
    /// is merged exactly, and a file that cannot be read changes nothing.
    pub fn merge_dotenv(&mut self, path: &str) -> (r: bool)
        requires
            env_wf(old(self)@),
        ensures
            env_wf(final(self)@),
            r ==> exists|ps: Seq<(Seq<char>, Seq<char>)>| final(self)@ == merge_missing_spec(
                old(self)@,
                ps,
            ),
            !r ==> final(self)@ == old(self)@,
    {
        match crate::probe::dotenv_pairs(path) {
            Some(pairs) => {
                self.merge_pairs(&pairs);
                proof {
                    assert(self@ == merge_missing_spec(old(self)@, pairs_view(pairs@)));
                }
                true
            },
            None => false,
        }
    }

    /// The block materialized as `KEY=VALUE` lines, in order.
    pub fn to_lines(&self) -> (r: Vec<String>)
        ensures
            r.deep_view() == self@.map_values(|p: (Seq<char>, Seq<char>)| p.0 + seq!['='] + p.1),
    {
        proof {
            reveal_strlit("=");
            assert("="@ =~= seq!['=']);
        }
        let ghost goal = self@.map_values(|p: (Seq<char>, Seq<char>)| p.0 + seq!['='] + p.1);
        let mut r: Vec<String> = Vec::new();
        proof {
            assert(r.deep_view() =~= goal.take(0));
        }
        let mut i: usize = 0;
        while i < self.items.len()
            invariant
                i <= self.items.len(),
                self@.len() == self.items@.len(),
                goal == self@.map_values(|p: (Seq<char>, Seq<char>)| p.0 + seq!['='] + p.1),
                r.deep_view() == goal.take(i as int),
            decreases self.items.len() - i,
        {
            proof {
                reveal_strlit("=");
                assert("="@ =~= seq!['=']);
                assert(self@[i as int].0 == self.items@[i as int].0@);
                assert(self@[i as int].1 == self.items@[i as int].1@);
            }
            let line = concat_str(self.items[i].0.as_str(), "=");
            let line = concat_str(line.as_str(), self.items[i].1.as_str());
            let ghost old_dv = r.deep_view();
            r.push(line);
            proof {
                assert(r.deep_view() =~= old_dv.push(line@));
                assert(line@ =~= goal[i as int]);
                assert(r.deep_view() =~= goal.take(i + 1));
            }
            i = i + 1;
        }
        proof {
            assert(goal.take(self.items@.len() as int) =~= goal);
        }
        r
    }
}

} // verus!
