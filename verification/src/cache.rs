//! The library path engine: discovery of the directories under a library
//! root that hold shared objects, the relocatable cache text they are written
//! to, and the reconstruction of the search path from that text.
//!
//! The cache is one directory per line; the library root's absolute prefix is
//! replaced by the single marker character `+`, so the text stays valid after
//! the bundle is moved.  The first line is the bare marker: the root itself
//! is always part of the search path.

use vstd::prelude::*;
use vstd::string::*;
use crate::probe::WalkEntry;
use crate::probe::walk_entries;
use crate::strutil::has_sub;
use crate::strutil::is_space_char;
use crate::strutil::trim_chars;
use crate::strutil::replace_char;
use crate::strutil::split_chars;
use crate::strutil::split_char;
use crate::strutil::lemma_replace_concat;
use crate::strutil::lemma_replace_absent;
use crate::strutil::lemma_split_concat;
use crate::strutil::lemma_split_no_sep;
use crate::strutil::ends_with_str;
use crate::strutil::contains_str;
use crate::strutil::vec_contains_str;
use crate::strutil::str_eq;
use crate::strutil::trim_str;
use crate::strutil::replace_char_with;

verus! {

/// A file name that marks its directory as holding shared objects: it ends
/// in `.so` or contains `.so.` (a versioned shared object).
pub open spec fn so_name(name: Seq<char>) -> bool {
    seq!['.', 's', 'o'].is_suffix_of(name) || has_sub(name, seq!['.', 's', 'o', '.'])
}

/// A walk entry whose parent directory belongs in the cache: its name marks
/// a shared object and its parent is not the library root itself.
pub open spec fn qualifies(e: WalkEntry, root: Seq<char>) -> bool {
    so_name(e.name@) && e.parent@ != root
}

/// The parent directories of qualifying entries, each once, in the order of
/// first discovery.
pub open spec fn collect_spec(es: Seq<WalkEntry>, root: Seq<char>) -> Seq<Seq<char>>
    decreases es.len(),
{
    if es.len() == 0 {
        Seq::<Seq<char>>::empty()
    } else {
        let prev = collect_spec(es.drop_last(), root);
        if qualifies(es.last(), root) && !prev.contains(es.last().parent@) {
            prev.push(es.last().parent@)
        } else {
            prev
        }
    }
}

/// `d` with the prefix of `root`'s length removed (empty when `d` is shorter).
pub open spec fn strip_root(d: Seq<char>, root: Seq<char>) -> Seq<char> {
    if d.len() >= root.len() {
        d.skip(root.len() as int)
    } else {
        Seq::<char>::empty()
    }
}

/// The cache text for a list of directories: the marker line for the root,
/// then one marker-prefixed line per directory.
pub open spec fn encode_cache(dirs: Seq<Seq<char>>, root: Seq<char>) -> Seq<char>
    decreases dirs.len(),
{
    if dirs.len() == 0 {
        seq!['+']
    } else {
        encode_cache(dirs.drop_last(), root) + seq!['\n', '+'] + strip_root(dirs.last(), root)
    }
}

/// The search path reconstructed from cache text: trimmed, lines joined with
/// `:`, and the marker expanded to the current root.
pub open spec fn decode_cache(content: Seq<char>, root: Seq<char>) -> Seq<char> {
    replace_char(replace_char(trim_chars(content), '\n', seq![':']), '+', root)
}

/// Text that may stand in a cache line suffix or a root path without
/// interfering with the codec: no separator, no newline or other whitespace,
/// and no marker character.
pub open spec fn cache_safe_text(s: Seq<char>) -> bool {
    forall|j: int| 0 <= j < s.len() ==> s[j] != ':' && s[j] != '+' && !is_space_char(#[trigger] s[j])
}

/// Discovery: the parent directory of every entry whose name marks a shared
/// object, except the root itself, deduplicated in first-discovery order.
#[verifier::loop_isolation(false)]
pub fn collect_so_dirs(entries: &Vec<WalkEntry>, root: &str) -> (r: Vec<String>)
    ensures
        r.deep_view() == collect_spec(entries@, root@),
{
    proof {
        reveal_strlit(".so");
        reveal_strlit(".so.");
        assert(".so"@ =~= seq!['.', 's', 'o']);
        assert(".so."@ =~= seq!['.', 's', 'o', '.']);
        assert(entries@.take(0) =~= Seq::<WalkEntry>::empty());
    }
    let mut r: Vec<String> = Vec::new();
    proof {
        assert(r.deep_view() =~= Seq::<Seq<char>>::empty());
    }
    let mut i: usize = 0;
    while i < entries.len()
        invariant
            i <= entries.len(),
            r.deep_view() == collect_spec(entries@.take(i as int), root@),
        decreases entries.len() - i,
    {
        let e = &entries[i];
        let is_so = ends_with_str(e.name.as_str(), ".so") || contains_str(e.name.as_str(), ".so.");
        if is_so && !str_eq(e.parent.as_str(), root) && !vec_contains_str(&r, e.parent.as_str()) {
            let ghost old_dv = r.deep_view();
            r.push(e.parent.clone());
            proof {
                assert(r.deep_view() =~= old_dv.push(e.parent@));
            }
        }
        proof {
            assert(entries@.take(i + 1).drop_last() =~= entries@.take(i as int));
            assert(entries@.take(i + 1).last() == entries@[i as int]);
        }
        i = i + 1;
    }
    proof {
        assert(entries@.take(entries.len() as int) =~= entries@);
    }
    r
}

/// The cache text for the discovered directories.
#[verifier::loop_isolation(false)]
pub fn encode_cache_text(dirs: &Vec<String>, root: &str) -> (r: String)
    ensures
        r@ == encode_cache(dirs.deep_view(), root@),
{
    proof {
        reveal_strlit("+");
        reveal_strlit("\n+");
        assert("+"@ =~= seq!['+']);
        assert("\n+"@ =~= seq!['\n', '+']);
        assert(dirs.deep_view().take(0) =~= Seq::<Seq<char>>::empty());
    }
    let mut r = String::from_str("+");
    let rootlen = root.unicode_len();
    let mut i: usize = 0;
    while i < dirs.len()
        invariant
            i <= dirs.len(),
            rootlen == root@.len(),
            r@ == encode_cache(dirs.deep_view().take(i as int), root@),
        decreases dirs.len() - i,
    {
        r.append("\n+");
        let d = &dirs[i];
        let dlen = d.as_str().unicode_len();
        proof {
            assert(dirs.deep_view()[i as int] == dirs@[i as int]@);
        }
        if dlen >= rootlen {
            r.append(d.as_str().substring_char(rootlen, dlen));
        }
        proof {
            assert(dirs.deep_view().take(i + 1).drop_last() =~= dirs.deep_view().take(i as int));
            assert(dirs.deep_view().take(i + 1).last() == dirs.deep_view()[i as int]);
            if dlen < rootlen {
                assert(r@ =~= encode_cache(dirs.deep_view().take(i as int), root@) + seq!['\n', '+']
                    + strip_root(dirs.deep_view()[i as int], root@));
            }
        }
        i = i + 1;
    }
    proof {
        assert(dirs.deep_view().take(dirs.len() as int) =~= dirs.deep_view());
    }
    r
}

/// The search path from cache text and the current root.
pub fn decode_cache_text(content: &str, root: &str) -> (r: String)
    ensures
        r@ == decode_cache(content@, root@),
{
    proof {
        reveal_strlit(":");
        assert(":"@ =~= seq![':']);
    }
    let t = trim_str(content);
    let joined = replace_char_with(t, '\n', ":");
    replace_char_with(joined.as_str(), '+', root)
}

/// Discovery and encoding in one step: the cache text for whatever the walk
/// of `root` returned.  The walk depends on the disk; the text is the exact
/// encoding of the directories collected from it.
pub fn gen_lib_path_content(root: &str) -> (r: String)
    ensures
        exists|es: Seq<WalkEntry>| r@ == encode_cache(collect_spec(es, root@), root@),
{
    let entries = walk_entries(root);
    let dirs = collect_so_dirs(&entries, root);
    let r = encode_cache_text(&dirs, root);
    proof {
        assert(r@ == encode_cache(collect_spec(entries@, root@), root@));
    }
    r
}

/// The path component between the first and second `/` of a cache line: the
/// immediate child of the marker, which names the library subdirectory.
pub open spec fn second_comp(line: Seq<char>) -> Seq<char> {
    if split_chars(line, '/').len() > 1 {
        split_chars(line, '/')[1]
    } else {
        Seq::<char>::empty()
    }
}

/// The second `/`-separated component of a cache line.
pub fn second_component(line: &str) -> (r: String)
    ensures
        r@ == second_comp(line@),
{
    let parts = split_char(line, '/');
    proof {
        assert(parts@.len() == parts.deep_view().len());
    }
    if parts.len() > 1 {
        proof {
            assert(parts.deep_view()[1] == parts@[1]@);
        }
        parts[1].clone()
    } else {
        String::new()
    }
}

/// Each value once, keeping the position of its first occurrence.
pub open spec fn dedup_firsts(xs: Seq<Seq<char>>) -> Seq<Seq<char>>
    decreases xs.len(),
{
    if xs.len() == 0 {
        Seq::<Seq<char>>::empty()
    } else {
        let prev = dedup_firsts(xs.drop_last());
        if prev.contains(xs.last()) {
            prev
        } else {
            prev.push(xs.last())
        }
    }
}

/// The distinct immediate child names of the root named by the cache text,
/// in first-occurrence order.
pub open spec fn child_names_spec(content: Seq<char>) -> Seq<Seq<char>> {
    dedup_firsts(split_chars(trim_chars(content), '\n').map_values(|l: Seq<char>| second_comp(l)))
}

/// The distinct immediate child names of the root named by the cache text,
/// in first-occurrence order: they drive the environment synthesizer.
#[verifier::loop_isolation(false)]
pub fn cache_child_names(content: &str) -> (r: Vec<String>)
    ensures
        r.deep_view() == child_names_spec(content@),
{
    let t = trim_str(content);
    let lines = split_char(t, '\n');
    let ghost goal = lines.deep_view().map_values(|l: Seq<char>| second_comp(l));
    let mut r: Vec<String> = Vec::new();
    let mut i: usize = 0;
    proof {
        assert(r.deep_view() =~= dedup_firsts(goal.take(0)));
    }
    while i < lines.len()
        invariant
            i <= lines.len(),
            r.deep_view() == dedup_firsts(goal.take(i as int)),
        decreases lines.len() - i,
    {
        proof {
            assert(lines.deep_view()[i as int] == lines@[i as int]@);
            assert(goal[i as int] == second_comp(lines@[i as int]@));
            assert(goal.take(i + 1).drop_last() =~= goal.take(i as int));
            assert(goal.take(i + 1).last() == goal[i as int]);
        }
        let name = second_component(lines[i].as_str());
        if !vec_contains_str(&r, name.as_str()) {
            let ghost old_dv = r.deep_view();
            r.push(name);
            proof {
                assert(r.deep_view() =~= old_dv.push(goal[i as int]));
            }
        }
        i = i + 1;
    }
    proof {
        assert(goal.take(lines@.len() as int) =~= goal);
    }
    r
}

/// The lazy-discovery decision over the two probe answers: the cache text is
/// generated exactly when no cache file exists yet and the library root is
/// writable; otherwise nothing is written and resolution falls back to the
/// root alone.
pub fn gen_lib_path_when_needed(root: &str, cache_exists: bool, root_writable: bool) -> (r: Option<
    String,
>)
    ensures
        (r is Some) == (!cache_exists && root_writable),
        r is Some ==> exists|es: Seq<WalkEntry>| r->Some_0@ == encode_cache(
            collect_spec(es, root@),
            root@,
        ),
{
    if !cache_exists && root_writable {
        Some(gen_lib_path_content(root))
    } else {
        None
    }
}

/// Lazy discovery against the real disk: what the two probes answer is the
/// disk's business; the decision over the answers is
/// `gen_lib_path_when_needed`.
pub fn maybe_gen_lib_path(root: &str, lib_path_file: &str) -> (r: Option<String>)
    ensures
        r is Some ==> exists|es: Seq<WalkEntry>| r->Some_0@ == encode_cache(
            collect_spec(es, root@),
            root@,
        ),
{
    gen_lib_path_when_needed(
        root,
        crate::probe::path_exists(lib_path_file),
        crate::probe::is_writable(root),
    )
}

/// Discovery is a function of the walked entries alone: two walks that report
/// the same names and parents yield byte-identical cache text.  Regenerating
/// the cache over an unchanged tree is therefore idempotent.
proof fn lemma_collect_congruence(es1: Seq<WalkEntry>, es2: Seq<WalkEntry>, root: Seq<char>)
    requires
        es1.len() == es2.len(),
        forall|i: int| 0 <= i < es1.len() ==> (#[trigger] es1[i]).name@ == es2[i].name@
            && es1[i].parent@ == es2[i].parent@,
    ensures
        collect_spec(es1, root) == collect_spec(es2, root),
    decreases es1.len(),
{
    if es1.len() > 0 {
        assert(forall|i: int| 0 <= i < es1.drop_last().len() ==> (#[trigger] es1.drop_last()[i]).name@
            == es2.drop_last()[i].name@ && es1.drop_last()[i].parent@ == es2.drop_last()[i].parent@);
        lemma_collect_congruence(es1.drop_last(), es2.drop_last(), root);
        assert(es1.last().name@ == es2.last().name@ && es1.last().parent@ == es2.last().parent@);
        assert(qualifies(es1.last(), root) == qualifies(es2.last(), root));
        assert(collect_spec(es1, root) =~= collect_spec(es2, root));
    } else {
        assert(collect_spec(es1, root) =~= collect_spec(es2, root));
    }
}

pub proof fn lemma_regen_idempotent(es1: Seq<WalkEntry>, es2: Seq<WalkEntry>, root: Seq<char>)
    requires
        es1.len() == es2.len(),
        forall|i: int| 0 <= i < es1.len() ==> (#[trigger] es1[i]).name@ == es2[i].name@
            && es1[i].parent@ == es2[i].parent@,
    ensures
        encode_cache(collect_spec(es1, root), root) == encode_cache(collect_spec(es2, root), root),
{
    lemma_collect_congruence(es1, es2, root);
}

/// Discovery never records a directory twice.
pub proof fn lemma_collect_no_dups(es: Seq<WalkEntry>, root: Seq<char>)
    ensures
        forall|i: int, j: int| 0 <= i < j < collect_spec(es, root).len()
            ==> collect_spec(es, root)[i] != collect_spec(es, root)[j],
    decreases es.len(),
{
    if es.len() > 0 {
        lemma_collect_no_dups(es.drop_last(), root);
        let prev = collect_spec(es.drop_last(), root);
        let cur = collect_spec(es, root);
        if qualifies(es.last(), root) && !prev.contains(es.last().parent@) {
            assert forall|i: int, j: int| 0 <= i < j < cur.len() implies cur[i] != cur[j] by {
                if j == cur.len() - 1 {
                    assert(cur[i] == prev[i]);
                    assert(!prev.contains(es.last().parent@));
                    assert(prev[i] != es.last().parent@);
                }
            }
        }
    }
}

/// Discovery records exactly the parents of qualifying entries.
pub proof fn lemma_collect_membership(es: Seq<WalkEntry>, root: Seq<char>)
    ensures
        forall|p: Seq<char>| #[trigger] collect_spec(es, root).contains(p) <==> (exists|i: int|
            0 <= i < es.len() && qualifies(#[trigger] es[i], root) && es[i].parent@ == p),
    decreases es.len(),
{
    let cur = collect_spec(es, root);
    if es.len() == 0 {
        assert forall|p: Seq<char>| #[trigger] cur.contains(p) implies (exists|i: int|
            0 <= i < es.len() && qualifies(#[trigger] es[i], root) && es[i].parent@ == p) by {
            assert(cur.len() == 0);
        }
    } else {
        lemma_collect_membership(es.drop_last(), root);
        let dl = es.drop_last();
        let prev = collect_spec(dl, root);
        assert forall|p: Seq<char>| #[trigger] cur.contains(p) implies (exists|i: int|
            0 <= i < es.len() && qualifies(#[trigger] es[i], root) && es[i].parent@ == p) by {
            if prev.contains(p) {
                let i = choose|i: int| 0 <= i < dl.len() && qualifies(#[trigger] dl[i], root)
                    && dl[i].parent@ == p;
                assert(es[i] == dl[i]);
                assert(qualifies(es[i], root) && es[i].parent@ == p);
            } else {
                assert(qualifies(es.last(), root) && es.last().parent@ == p);
                assert(es[es.len() - 1] == es.last());
            }
        }
        assert forall|p: Seq<char>| (exists|i: int| 0 <= i < es.len()
            && qualifies(#[trigger] es[i], root) && es[i].parent@ == p) implies #[trigger] cur.contains(p) by {
            let i = choose|i: int| 0 <= i < es.len() && qualifies(#[trigger] es[i], root)
                && es[i].parent@ == p;
            if i < es.len() - 1 {
                assert(dl[i] == es[i]);
                assert(prev.contains(p));
                if qualifies(es.last(), root) && !prev.contains(es.last().parent@) {
                    let k = choose|k: int| 0 <= k < prev.len() && prev[k] == p;
                    assert(cur[k] == p);
                } else {
                    assert(cur == prev);
                }
            } else {
                if prev.contains(es.last().parent@) {
                    let k = choose|k: int| 0 <= k < prev.len() && prev[k] == p;
                    assert(cur[k] == p);
                } else {
                    assert(cur.last() == p);
                }
            }
        }
    }
}

proof fn lemma_replace_single(x: char, c: char, r: Seq<char>)
    ensures
        x == c ==> replace_char(seq![x], c, r) == r,
        x != c ==> replace_char(seq![x], c, r) == seq![x],
{
    assert(seq![x].drop_last() =~= Seq::<char>::empty());
    assert(replace_char(Seq::<char>::empty(), c, r) == Seq::<char>::empty());
    assert(seq![x].last() == x);
    if x == c {
        assert(replace_char(seq![x], c, r) =~= r);
    } else {
        assert(replace_char(seq![x], c, r) =~= seq![x]);
    }
}

proof fn lemma_encode_shape(dirs: Seq<Seq<char>>, root: Seq<char>)
    ensures
        encode_cache(dirs, root).len() >= 1,
        encode_cache(dirs, root)[0] == '+',
        encode_cache(dirs, root).last() == '+' || (dirs.len() > 0
            && strip_root(dirs.last(), root).len() > 0
            && encode_cache(dirs, root).last() == strip_root(dirs.last(), root).last()),
    decreases dirs.len(),
{
    if dirs.len() > 0 {
        lemma_encode_shape(dirs.drop_last(), root);
    }
}

/// Decoding without the leading trim, used for the inductive round trip.
spec fn decode_raw(content: Seq<char>, root: Seq<char>) -> Seq<char> {
    replace_char(replace_char(content, '\n', seq![':']), '+', root)
}

proof fn lemma_round_trip_raw(dirs: Seq<Seq<char>>, old_root: Seq<char>, new_root: Seq<char>)
    requires
        cache_safe_text(new_root),
        forall|i: int| 0 <= i < dirs.len() ==> cache_safe_text(
            #[trigger] strip_root(dirs[i], old_root),
        ),
    ensures
        split_chars(decode_raw(encode_cache(dirs, old_root), new_root), ':') == seq![new_root]
            + dirs.map_values(|d: Seq<char>| new_root + strip_root(d, old_root)),
    decreases dirs.len(),
{
    let reloc = |d: Seq<char>| new_root + strip_root(d, old_root);
    if dirs.len() == 0 {
        let e = encode_cache(dirs, old_root);
        assert(e =~= seq!['+']);
        lemma_replace_single('+', '\n', seq![':']);
        assert(replace_char(e, '\n', seq![':']) == seq!['+']);
        lemma_replace_single('+', '+', new_root);
        assert(decode_raw(e, new_root) == new_root);
        assert(forall|j: int| 0 <= j < new_root.len() ==> new_root[j] != ':');
        lemma_split_no_sep(new_root, ':');
        assert(seq![new_root] + dirs.map_values(reloc) =~= seq![new_root]);
    } else {
        let dl = dirs.drop_last();
        assert(forall|i: int| 0 <= i < dl.len() ==> dl[i] == dirs[i]);
        lemma_round_trip_raw(dl, old_root, new_root);
        let e_dl = encode_cache(dl, old_root);
        let suf = strip_root(dirs.last(), old_root);
        assert(cache_safe_text(suf));
        let e = encode_cache(dirs, old_root);
        assert(e == e_dl + seq!['\n', '+'] + suf);

        // Push the newline replacement through the concatenation.
        let nl = seq![':'];
        lemma_replace_concat(e_dl + seq!['\n', '+'], suf, '\n', nl);
        lemma_replace_concat(e_dl + seq!['\n'], seq!['+'], '\n', nl);
        lemma_replace_concat(e_dl, seq!['\n'], '\n', nl);
        assert(e_dl + seq!['\n', '+'] =~= (e_dl + seq!['\n']) + seq!['+']);
        assert(e =~= (e_dl + seq!['\n', '+']) + suf);
        lemma_replace_single('\n', '\n', nl);
        lemma_replace_single('+', '\n', nl);
        lemma_replace_absent(suf, '\n', nl);
        let r1 = replace_char(e, '\n', nl);
        assert(r1 == replace_char(e_dl, '\n', nl) + seq![':'] + seq!['+'] + suf);

        // Push the marker replacement through as well.
        let r1_dl = replace_char(e_dl, '\n', nl);
        lemma_replace_concat(r1_dl + seq![':'] + seq!['+'], suf, '+', new_root);
        lemma_replace_concat(r1_dl + seq![':'], seq!['+'], '+', new_root);
        lemma_replace_concat(r1_dl, seq![':'], '+', new_root);
        assert(r1 =~= ((r1_dl + seq![':']) + seq!['+']) + suf);
        lemma_replace_single(':', '+', new_root);
        lemma_replace_single('+', '+', new_root);
        lemma_replace_absent(suf, '+', new_root);
        let r2 = replace_char(r1, '+', new_root);
        assert(r2 == decode_raw(e_dl, new_root) + seq![':'] + new_root + suf);

        // Split at the separator that ends the decoded prefix.
        let y = new_root + suf;
        assert(forall|j: int| 0 <= j < y.len() ==> y[j] != ':');
        lemma_split_no_sep(y, ':');
        lemma_split_concat(decode_raw(e_dl, new_root), ':', y);
        assert(r2 =~= decode_raw(e_dl, new_root) + seq![':'] + y);
        assert(split_chars(r2, ':') == split_chars(decode_raw(e_dl, new_root), ':') + seq![y]);
        assert(seq![new_root] + dirs.map_values(reloc) =~= (seq![new_root] + dl.map_values(reloc))
            + seq![y]);
        assert(split_chars(decode_raw(e, new_root), ':') =~= seq![new_root] + dirs.map_values(
            reloc,
        ));
    }
}

proof fn lemma_trim_identity(s: Seq<char>)
    requires
        s.len() > 0,
        !is_space_char(s[0]),
        !is_space_char(s.last()),
    ensures
        trim_chars(s) == s,
{
    assert(trim_chars(s) == s);
}

/// Relocation round trip: the cache written under one root, decoded under
/// another, yields the new root followed by every directory re-based onto the
/// new root, in order, joined by `:`.  Decoding under the original root
/// reproduces the original directories.
///
/// The preconditions are limits of the cache text itself: a root or a
/// directory suffix holding the marker `+`, the separator `:`, a newline or
/// other edge whitespace could not survive the line-and-marker format.
pub proof fn lemma_cache_round_trip(dirs: Seq<Seq<char>>, old_root: Seq<char>, new_root: Seq<char>)
    requires
        cache_safe_text(new_root),
        forall|i: int| 0 <= i < dirs.len() ==> cache_safe_text(
            #[trigger] strip_root(dirs[i], old_root),
        ),
    ensures
        split_chars(decode_cache(encode_cache(dirs, old_root), new_root), ':') == seq![new_root]
            + dirs.map_values(|d: Seq<char>| new_root + strip_root(d, old_root)),
{
    let e = encode_cache(dirs, old_root);
    lemma_encode_shape(dirs, old_root);
    if e.last() == '+' {
        lemma_trim_identity(e);
    } else {
        assert(!is_space_char(e.last()));
        lemma_trim_identity(e);
    }
    assert(decode_cache(e, new_root) == decode_raw(e, new_root));
    lemma_round_trip_raw(dirs, old_root, new_root);
}

/// Resolution after discovery lists the root first and then exactly the
/// qualifying parent directories, each exactly once, in discovery order.
///
/// As in the round-trip lemma, the preconditions only exclude roots and
/// suffixes that the line-and-marker text format cannot carry.
pub proof fn lemma_resolve_after_regen_exact(es: Seq<WalkEntry>, root: Seq<char>)
    requires
        cache_safe_text(root),
        forall|i: int| 0 <= i < es.len() && qualifies(#[trigger] es[i], root) ==> root.is_prefix_of(
            es[i].parent@,
        ) && cache_safe_text(strip_root(es[i].parent@, root)),
    ensures
        ({
            let dirs = collect_spec(es, root);
            let parts = split_chars(decode_cache(encode_cache(dirs, root), root), ':');
            &&& parts == seq![root] + dirs
            &&& (forall|i: int, j: int| 1 <= i < j < parts.len() ==> parts[i] != parts[j])
            &&& (forall|p: Seq<char>| dirs.contains(p) <==> (exists|i: int| 0 <= i < es.len()
                && qualifies(#[trigger] es[i], root) && es[i].parent@ == p))
        }),
{
    let dirs = collect_spec(es, root);
    lemma_collect_membership(es, root);
    assert forall|i: int| 0 <= i < dirs.len() implies root.is_prefix_of(#[trigger] dirs[i])
        && cache_safe_text(strip_root(dirs[i], root)) by {
        assert(dirs.contains(dirs[i]));
        let k = choose|k: int| 0 <= k < es.len() && qualifies(#[trigger] es[k], root)
            && es[k].parent@ == dirs[i];
    }
    lemma_cache_round_trip(dirs, root, root);
    let reloc = |d: Seq<char>| root + strip_root(d, root);
    assert forall|i: int| 0 <= i < dirs.len() implies #[trigger] dirs.map_values(reloc)[i]
        == dirs[i] by {
        assert(root.is_prefix_of(dirs[i]));
        assert(root + dirs[i].skip(root.len() as int) =~= dirs[i]);
    }
    assert(dirs.map_values(reloc) =~= dirs);
    let parts = split_chars(decode_cache(encode_cache(dirs, root), root), ':');
    assert(parts == seq![root] + dirs);
    lemma_collect_no_dups(es, root);
    assert forall|i: int, j: int| 1 <= i < j < parts.len() implies parts[i] != parts[j] by {
        assert(parts[i] == dirs[i - 1] && parts[j] == dirs[j - 1]);
    }
}

} // verus!
