//! Verified string helpers over `Seq<char>` views: searching, splitting,
//! replacing, trimming and concatenation.  Everything downstream (path
//! splitting, the cache codec, the environment rules) is specified in terms
//! of the spec functions defined here.

use vstd::prelude::*;
use vstd::string::*;

verus! {

/// Index of the last occurrence of `c` in `s`, or -1 if absent.
pub open spec fn last_index_of(s: Seq<char>, c: char) -> int
    decreases s.len(),
{
    if s.len() == 0 {
        -1
    } else if s.last() == c {
        s.len() - 1
    } else {
        last_index_of(s.drop_last(), c)
    }
}

pub proof fn lemma_last_index_of(s: Seq<char>, c: char)
    ensures
        -1 <= last_index_of(s, c) < s.len(),
        last_index_of(s, c) >= 0 ==> s[last_index_of(s, c)] == c,
        forall|j: int| last_index_of(s, c) < j < s.len() ==> s[j] != c,
    decreases s.len(),
{
    if s.len() > 0 && s.last() != c {
        lemma_last_index_of(s.drop_last(), c);
        assert forall|j: int| last_index_of(s, c) < j < s.len() implies s[j] != c by {
            if j < s.len() - 1 {
                assert(s.drop_last()[j] == s[j]);
            }
        }
    }
}

/// `s` splits into pieces between occurrences of `sep`, as `str::split` does:
/// the empty string yields one empty piece, and each separator starts a new piece.
pub open spec fn split_chars(s: Seq<char>, sep: char) -> Seq<Seq<char>>
    decreases s.len(),
{
    if s.len() == 0 {
        seq![Seq::<char>::empty()]
    } else if s[0] == sep {
        seq![Seq::<char>::empty()] + split_chars(s.drop_first(), sep)
    } else {
        let rest = split_chars(s.drop_first(), sep);
        seq![seq![s[0]] + rest[0]] + rest.drop_first()
    }
}

pub proof fn lemma_split_len(s: Seq<char>, sep: char)
    ensures
        split_chars(s, sep).len() >= 1,
    decreases s.len(),
{
    if s.len() > 0 {
        lemma_split_len(s.drop_first(), sep);
    }
}

pub proof fn lemma_split_no_sep(s: Seq<char>, sep: char)
    requires
        forall|j: int| 0 <= j < s.len() ==> s[j] != sep,
    ensures
        split_chars(s, sep) == seq![s],
    decreases s.len(),
{
    if s.len() == 0 {
        assert(s =~= Seq::<char>::empty());
        assert(split_chars(s, sep) =~= seq![s]);
    } else {
        assert(forall|j: int| 0 <= j < s.drop_first().len() ==> s.drop_first()[j] != sep);
        lemma_split_no_sep(s.drop_first(), sep);
        assert(seq![s[0]] + s.drop_first() =~= s);
        assert(split_chars(s, sep) =~= seq![s]);
    }
}

/// Splitting at the first separator: everything before it is the first piece.
pub proof fn lemma_split_first_sep(s: Seq<char>, sep: char, i: int)
    requires
        0 <= i < s.len(),
        s[i] == sep,
        forall|j: int| 0 <= j < i ==> s[j] != sep,
    ensures
        split_chars(s, sep) == seq![s.subrange(0, i)] + split_chars(s.skip(i + 1), sep),
    decreases i,
{
    if i == 0 {
        assert(s.subrange(0, 0) =~= Seq::<char>::empty());
        assert(s.skip(1) =~= s.drop_first());
        assert(split_chars(s, sep) =~= seq![s.subrange(0, i)] + split_chars(s.skip(i + 1), sep));
    } else {
        let df = s.drop_first();
        assert(df[i - 1] == sep);
        assert(forall|j: int| 0 <= j < i - 1 ==> df[j] != sep);
        lemma_split_first_sep(df, sep, i - 1);
        let rest = split_chars(df, sep);
        assert(rest[0] == df.subrange(0, i - 1));
        assert(seq![s[0]] + df.subrange(0, i - 1) =~= s.subrange(0, i));
        assert(rest.drop_first() =~= split_chars(df.skip(i), sep));
        assert(df.skip(i) =~= s.skip(i + 1));
        assert(split_chars(s, sep) =~= seq![s.subrange(0, i)] + split_chars(s.skip(i + 1), sep));
    }
}

/// Splitting distributes over a separator between two halves.
pub proof fn lemma_split_concat(x: Seq<char>, sep: char, y: Seq<char>)
    ensures
        split_chars(x + seq![sep] + y, sep) == split_chars(x, sep) + split_chars(y, sep),
    decreases x.len(),
{
    let s = x + seq![sep] + y;
    if x.len() == 0 {
        assert(s[0] == sep);
        assert(s.drop_first() =~= y);
        assert(split_chars(s, sep) =~= split_chars(x, sep) + split_chars(y, sep));
    } else if x[0] == sep {
        assert(s[0] == sep);
        assert(s.drop_first() =~= x.drop_first() + seq![sep] + y);
        lemma_split_concat(x.drop_first(), sep, y);
        assert(split_chars(s, sep) =~= split_chars(x, sep) + split_chars(y, sep));
    } else {
        assert(s[0] == x[0] && s[0] != sep);
        assert(s.drop_first() =~= x.drop_first() + seq![sep] + y);
        lemma_split_concat(x.drop_first(), sep, y);
        let restx = split_chars(x.drop_first(), sep);
        lemma_split_len(x.drop_first(), sep);
        let rest = split_chars(s.drop_first(), sep);
        assert(rest =~= restx + split_chars(y, sep));
        assert(rest[0] == restx[0]);
        assert(rest.drop_first() =~= restx.drop_first() + split_chars(y, sep));
        assert(split_chars(s, sep) =~= split_chars(x, sep) + split_chars(y, sep));
    }
}

/// Every occurrence of the character `c` in `s` replaced by `r`.
pub open spec fn replace_char(s: Seq<char>, c: char, r: Seq<char>) -> Seq<char>
    decreases s.len(),
{
    if s.len() == 0 {
        Seq::<char>::empty()
    } else {
        replace_char(s.drop_last(), c, r) + (if s.last() == c {
            r
        } else {
            seq![s.last()]
        })
    }
}

pub proof fn lemma_replace_concat(a: Seq<char>, b: Seq<char>, c: char, r: Seq<char>)
    ensures
        replace_char(a + b, c, r) == replace_char(a, c, r) + replace_char(b, c, r),
    decreases b.len(),
{
    if b.len() == 0 {
        assert(a + b =~= a);
        assert(replace_char(b, c, r) =~= Seq::<char>::empty());
        assert(replace_char(a + b, c, r) =~= replace_char(a, c, r) + replace_char(b, c, r));
    } else {
        assert((a + b).drop_last() =~= a + b.drop_last());
        assert((a + b).last() == b.last());
        lemma_replace_concat(a, b.drop_last(), c, r);
        assert(replace_char(a + b, c, r) =~= replace_char(a, c, r) + replace_char(b, c, r));
    }
}

pub proof fn lemma_replace_absent(s: Seq<char>, c: char, r: Seq<char>)
    requires
        forall|j: int| 0 <= j < s.len() ==> s[j] != c,
    ensures
        replace_char(s, c, r) == s,
    decreases s.len(),
{
    if s.len() == 0 {
        assert(replace_char(s, c, r) =~= s);
    } else {
        assert(forall|j: int| 0 <= j < s.drop_last().len() ==> s.drop_last()[j] != c);
        lemma_replace_absent(s.drop_last(), c, r);
        assert(replace_char(s, c, r) =~= s.drop_last() + seq![s.last()]);
        assert(s.drop_last() + seq![s.last()] =~= s);
    }
}

/// Whitespace characters recognised by the trim helpers.
pub open spec fn is_space_char(c: char) -> bool {
    c == ' ' || c == '\t' || c == '\n' || c == '\r'
}

pub open spec fn trim_start_chars(s: Seq<char>) -> Seq<char>
    decreases s.len(),
{
    if s.len() > 0 && is_space_char(s[0]) {
        trim_start_chars(s.drop_first())
    } else {
        s
    }
}

pub open spec fn trim_end_chars(s: Seq<char>) -> Seq<char>
    decreases s.len(),
{
    if s.len() > 0 && is_space_char(s.last()) {
        trim_end_chars(s.drop_last())
    } else {
        s
    }
}

pub open spec fn trim_chars(s: Seq<char>) -> Seq<char> {
    trim_end_chars(trim_start_chars(s))
}

proof fn lemma_trim_start_skip(s: Seq<char>, i: int)
    requires
        0 <= i <= s.len(),
        forall|j: int| 0 <= j < i ==> is_space_char(s[j]),
    ensures
        trim_start_chars(s) == trim_start_chars(s.skip(i)),
    decreases i,
{
    if i > 0 {
        assert(is_space_char(s[0]));
        assert(s.drop_first() =~= s.skip(1));
        lemma_trim_start_skip(s.skip(1), i - 1);
        assert(s.skip(1).skip(i - 1) =~= s.skip(i));
    } else {
        assert(s.skip(0) =~= s);
    }
}

proof fn lemma_trim_end_take(s: Seq<char>, i: int)
    requires
        0 <= i <= s.len(),
        forall|j: int| i <= j < s.len() ==> is_space_char(s[j]),
    ensures
        trim_end_chars(s) == trim_end_chars(s.take(i)),
    decreases s.len() - i,
{
    if i < s.len() {
        assert(is_space_char(s.last()));
        assert(s.drop_last() =~= s.take(s.len() - 1));
        lemma_trim_end_take(s.take(s.len() - 1), i);
        assert(s.take(s.len() - 1).take(i) =~= s.take(i));
    } else {
        assert(s.take(i) =~= s);
    }
}

/// Whether `c` counts as whitespace for trimming.
pub fn is_space(c: char) -> (r: bool)
    ensures
        r == is_space_char(c),
{
    c == ' ' || c == '\t' || c == '\n' || c == '\r'
}

/// First occurrence of `c` in `s` at or after index `from`.
pub fn find_char(s: &str, c: char, from: usize) -> (r: Option<usize>)
    ensures
        match r {
            Some(i) => from <= i < s@.len() && s@[i as int] == c && (forall|j: int|
                from <= j < i ==> s@[j] != c),
            None => forall|j: int| from <= j < s@.len() ==> s@[j] != c,
        },
{
    let len = s.unicode_len();
    let mut i = from;
    while i < len
        invariant
            from <= i,
            len == s@.len(),
            forall|j: int| from <= j < i ==> s@[j] != c,
        decreases len - i,
    {
        if s.get_char(i) == c {
            return Some(i);
        }
        i = i + 1;
    }
    None
}

/// Last occurrence of `c` in `s`, aligned with `last_index_of`.
pub fn rfind_char(s: &str, c: char) -> (r: Option<usize>)
    ensures
        match r {
            Some(i) => i as int == last_index_of(s@, c) && i < s@.len() && s@[i as int] == c
                && (forall|j: int| i < j < s@.len() ==> s@[j] != c),
            None => last_index_of(s@, c) == -1 && (forall|j: int| 0 <= j < s@.len() ==> s@[j] != c),
        },
{
    let len = s.unicode_len();
    let mut i = len;
    proof {
        assert(s@.take(len as int) =~= s@);
    }
    while i > 0
        invariant
            i <= len,
            len == s@.len(),
            forall|j: int| i <= j < s@.len() ==> s@[j] != c,
            last_index_of(s@, c) == last_index_of(s@.take(i as int), c),
        decreases i,
    {
        let prev = i - 1;
        if s.get_char(prev) == c {
            proof {
                assert(s@.take(i as int).last() == s@[prev as int]);
            }
            return Some(prev);
        }
        proof {
            assert(s@.take(i as int).drop_last() =~= s@.take(prev as int));
        }
        i = prev;
    }
    proof {
        assert(s@.take(0) =~= Seq::<char>::empty());
    }
    None
}

/// Does `n` occur in `h` starting exactly at index `at`?
pub fn match_at(h: &str, n: &str, at: usize) -> (r: bool)
    requires
        at + n@.len() <= h@.len(),
    ensures
        r == (h@.subrange(at as int, at as int + n@.len() as int) == n@),
{
    let nlen = n.unicode_len();
    let hlen = h.unicode_len();
    let ghost sub = h@.subrange(at as int, at as int + n@.len() as int);
    let mut j: usize = 0;
    while j < nlen
        invariant
            j <= nlen,
            nlen == n@.len(),
            hlen == h@.len(),
            at + n@.len() <= h@.len(),
            sub == h@.subrange(at as int, at as int + n@.len() as int),
            forall|k: int| 0 <= k < j ==> h@[at + k] == n@[k],
        decreases nlen - j,
    {
        if s_get(h, at + j) != s_get(n, j) {
            proof {
                assert(sub[j as int] == h@[at + j]);
            }
            return false;
        }
        j = j + 1;
    }
    proof {
        assert(sub =~= n@);
    }
    true
}

/// `get_char` under a name that keeps call sites short.
pub fn s_get(s: &str, i: usize) -> (c: char)
    requires
        i < s@.len(),
    ensures
        c == s@[i as int],
{
    s.get_char(i)
}

/// View equality of two string slices.
pub fn str_eq(a: &str, b: &str) -> (r: bool)
    ensures
        r == (a@ == b@),
{
    let alen = a.unicode_len();
    let blen = b.unicode_len();
    if alen != blen {
        return false;
    }
    let r = match_at(a, b, 0);
    proof {
        assert(a@.subrange(0, a@.len() as int) =~= a@);
    }
    r
}

/// Does `s` start with `p` (over views)?
pub fn starts_with_str(s: &str, p: &str) -> (r: bool)
    ensures
        r == p@.is_prefix_of(s@),
{
    let plen = p.unicode_len();
    if plen > s.unicode_len() {
        return false;
    }
    match_at(s, p, 0)
}

/// Does `s` end with `p` (over views)?
pub fn ends_with_str(s: &str, p: &str) -> (r: bool)
    ensures
        r == p@.is_suffix_of(s@),
{
    let plen = p.unicode_len();
    let slen = s.unicode_len();
    if plen > slen {
        return false;
    }
    let r = match_at(s, p, slen - plen);
    proof {
        assert(s@.subrange(s@.len() - p@.len(), s@.len() as int) =~= s@.skip(s@.len() - p@.len()));
    }
    r
}

/// `n` occurs somewhere in `h` as a contiguous substring.
pub open spec fn has_sub(h: Seq<char>, n: Seq<char>) -> bool {
    exists|i: int| 0 <= i && i + n.len() <= h.len() && #[trigger] h.subrange(i, i + n.len() as int)
        == n
}

/// Substring search, aligned with `has_sub`.
pub fn contains_str(h: &str, n: &str) -> (r: bool)
    ensures
        r == has_sub(h@, n@),
{
    let hlen = h.unicode_len();
    let nlen = n.unicode_len();
    if nlen > hlen {
        return false;
    }
    if nlen == 0 {
        proof {
            assert(h@.subrange(0, 0 + n@.len() as int) =~= n@);
        }
        return true;
    }
    let mut i: usize = 0;
    while i <= hlen - nlen
        invariant
            1 <= nlen <= hlen,
            hlen == h@.len(),
            nlen == n@.len(),
            forall|k: int| 0 <= k < i ==> #[trigger] h@.subrange(k, k + n@.len() as int) != n@,
        decreases hlen - i,
    {
        if match_at(h, n, i) {
            return true;
        }
        i = i + 1;
    }
    false
}

/// Concatenation of two string slices.
pub fn concat_str(a: &str, b: &str) -> (r: String)
    ensures
        r@ == a@ + b@,
{
    let mut r = String::from_str(a);
    r.append(b);
    r
}

/// Is the view of `s` among the views of the strings in `v`?
pub fn vec_contains_str(v: &Vec<String>, s: &str) -> (r: bool)
    ensures
        r == v.deep_view().contains(s@),
{
    let mut i: usize = 0;
    while i < v.len()
        invariant
            i <= v.len(),
            forall|j: int| 0 <= j < i ==> v.deep_view()[j] != s@,
        decreases v.len() - i,
    {
        proof {
            assert(v.deep_view()[i as int] == v@[i as int]@);
        }
        if str_eq(v[i].as_str(), s) {
            return true;
        }
        i = i + 1;
    }
    proof {
        assert(v.deep_view().len() == v@.len());
    }
    false
}

/// Split `s` on every occurrence of `sep`, as `str::split` does.
pub fn split_char(s: &str, sep: char) -> (r: Vec<String>)
    ensures
        r.deep_view() == split_chars(s@, sep),
{
    let mut r: Vec<String> = Vec::new();
    let len = s.unicode_len();
    let mut start: usize = 0;
    proof {
        assert(s@.skip(0) =~= s@);
        assert(r.deep_view() =~= Seq::<Seq<char>>::empty());
    }
    loop
        invariant
            start <= len,
            len == s@.len(),
            split_chars(s@, sep) == r.deep_view() + split_chars(s@.skip(start as int), sep),
        decreases len - start,
    {
        match find_char(s, sep, start) {
            Some(i) => {
                let piece = s.substring_char(start, i);
                proof {
                    let rem = s@.skip(start as int);
                    assert(rem[i - start] == s@[i as int]);
                    assert(forall|j: int| 0 <= j < i - start ==> rem[j] == s@[j + start]);
                    lemma_split_first_sep(rem, sep, i - start);
                    assert(rem.subrange(0, i - start) =~= s@.subrange(start as int, i as int));
                    assert(rem.skip(i - start + 1) =~= s@.skip(i as int + 1));
                }
                r.push(String::from_str(piece));
                proof {
                    assert(r.deep_view().drop_last() + seq![piece@] =~= r.deep_view());
                    assert(split_chars(s@, sep) =~= r.deep_view() + split_chars(
                        s@.skip(i as int + 1),
                        sep,
                    ));
                }
                start = i + 1;
            },
            None => {
                let piece = s.substring_char(start, len);
                proof {
                    let rem = s@.skip(start as int);
                    assert(forall|j: int| 0 <= j < rem.len() ==> rem[j] == s@[j + start]);
                    lemma_split_no_sep(rem, sep);
                    assert(rem =~= s@.subrange(start as int, len as int));
                }
                r.push(String::from_str(piece));
                proof {
                    assert(r.deep_view().drop_last() + seq![piece@] =~= r.deep_view());
                    assert(split_chars(s@, sep) =~= r.deep_view());
                }
                return r;
            },
        }
    }
}

/// Replace every occurrence of the character `c` in `s` by `rep`.
pub fn replace_char_with(s: &str, c: char, rep: &str) -> (res: String)
    ensures
        res@ == replace_char(s@, c, rep@),
{
    let mut res = String::new();
    let len = s.unicode_len();
    let mut i: usize = 0;
    while i < len
        invariant
            i <= len,
            len == s@.len(),
            res@ == replace_char(s@.take(i as int), c, rep@),
        decreases len - i,
    {
        let ch = s.get_char(i);
        if ch == c {
            res.append(rep);
        } else {
            res.append(s.substring_char(i, i + 1));
            proof {
                assert(s@.subrange(i as int, i as int + 1) =~= seq![s@[i as int]]);
            }
        }
        proof {
            assert(s@.take(i as int + 1).drop_last() =~= s@.take(i as int));
            assert(s@.take(i as int + 1).last() == s@[i as int]);
        }
        i = i + 1;
    }
    proof {
        assert(s@.take(len as int) =~= s@);
    }
    res
}

/// Trim the whitespace recognised by `is_space_char` from both ends.
pub fn trim_str<'a>(s: &'a str) -> (r: &'a str)
    ensures
        r@ == trim_chars(s@),
{
    let len = s.unicode_len();
    let mut b: usize = 0;
    while b < len && is_space(s.get_char(b))
        invariant
            b <= len,
            len == s@.len(),
            forall|j: int| 0 <= j < b ==> is_space_char(s@[j]),
        decreases len - b,
    {
        b = b + 1;
    }
    proof {
        lemma_trim_start_skip(s@, b as int);
    }
    if b == len {
        let r = s.substring_char(len, len);
        proof {
            assert(s@.skip(len as int) =~= Seq::<char>::empty());
            assert(r@ =~= Seq::<char>::empty());
        }
        return r;
    }
    let ghost ts = trim_start_chars(s@);
    proof {
        assert(!is_space_char(s@[b as int]));
        assert(s@.skip(b as int)[0] == s@[b as int]);
        assert(ts == s@.skip(b as int));
    }
    let mut e: usize = len;
    while e > b && is_space(s.get_char(e - 1))
        invariant
            b <= e <= len,
            len == s@.len(),
            forall|j: int| e <= j < len ==> is_space_char(s@[j]),
        decreases e,
    {
        e = e - 1;
    }
    proof {
        assert(forall|j: int| 0 <= j < ts.len() ==> ts[j] == s@[j + b]);
        lemma_trim_end_take(ts, e - b as int);
        assert(ts.take(e - b as int) =~= s@.subrange(b as int, e as int));
        if e > b {
            assert(!is_space_char(ts.take(e - b as int).last()));
        } else {
            assert(ts.take(0) =~= Seq::<char>::empty());
        }
    }
    s.substring_char(b, e)
}

} // verus!
