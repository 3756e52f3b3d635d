//! Interpreter resolution: which bundled dynamic loader launches the target.
//! An explicit override names the sole candidate; otherwise an ordered,
//! architecture-specific list of well-known loader names is tried, and the
//! first one that exists directly inside the library root wins.  There is no
//! fallback: with no candidate present the resolution fails, fatally.

use vstd::prelude::*;
use vstd::string::*;
use crate::elf::{ElfClass, LaunchError};
use crate::probe::path_exists;
use crate::strutil::concat_str;

verus! {

/// The well-known loader names, in preference order: the glibc loader first,
/// then the musl variant, then the legacy name.
pub open spec fn default_loader_names() -> Seq<Seq<char>> {
    seq!["ld-linux-x86-64.so.2"@, "ld-musl-x86_64.so.1"@, "ld-linux.so.2"@]
}

/// The candidate list: a non-empty override is the sole candidate, an empty
/// override leaves nothing to try, and no override falls back to the
/// well-known names.
pub open spec fn candidates_spec(override_name: Option<Seq<char>>) -> Seq<Seq<char>> {
    match override_name {
        Some(n) => if n.len() > 0 {
            seq![n]
        } else {
            Seq::<Seq<char>>::empty()
        },
        None => default_loader_names(),
    }
}

pub open spec fn opt_str_view(o: Option<&str>) -> Option<Seq<char>> {
    match o {
        Some(n) => Some(n@),
        None => None,
    }
}

/// A bare file name: no `/`, so joining it under a directory stays directly
/// inside that directory.
pub open spec fn slash_free(s: Seq<char>) -> bool {
    forall|j: int| 0 <= j < s.len() ==> s[j] != '/'
}

/// The loader file names that will be tried, in order.
pub fn interpreter_candidates(override_name: Option<&str>) -> (r: Vec<String>)
    ensures
        r.deep_view() == candidates_spec(opt_str_view(override_name)),
{
    let mut r: Vec<String> = Vec::new();
    match override_name {
        Some(n) => {
            if n.unicode_len() > 0 {
                r.push(String::from_str(n));
                proof {
                    assert(r.deep_view() =~= seq![n@]);
                }
            } else {
                proof {
                    assert(r.deep_view() =~= Seq::<Seq<char>>::empty());
                }
            }
        },
        None => {
            r.push(String::from_str("ld-linux-x86-64.so.2"));
            r.push(String::from_str("ld-musl-x86_64.so.1"));
            r.push(String::from_str("ld-linux.so.2"));
            proof {
                assert(r.deep_view() =~= default_loader_names());
            }
        },
    }
    r
}

/// Every candidate is a bare file name whenever the override is one.
pub proof fn lemma_candidates_slash_free(override_name: Option<Seq<char>>)
    requires
        match override_name {
            Some(n) => slash_free(n),
            None => true,
        },
    ensures
        forall|i: int| 0 <= i < candidates_spec(override_name).len() ==> slash_free(
            #[trigger] candidates_spec(override_name)[i],
        ),
{
    reveal_strlit("ld-linux-x86-64.so.2");
    reveal_strlit("ld-musl-x86_64.so.1");
    reveal_strlit("ld-linux.so.2");
    assert forall|i: int| 0 <= i < candidates_spec(override_name).len() implies slash_free(
        #[trigger] candidates_spec(override_name)[i],
    ) by {
        match override_name {
            Some(n) => {},
            None => {
                if i == 0 {
                    assert(slash_free("ld-linux-x86-64.so.2"@));
                } else if i == 1 {
                    assert(slash_free("ld-musl-x86_64.so.1"@));
                } else {
                    assert(slash_free("ld-linux.so.2"@));
                }
            },
        }
    }
}

/// Index of the first true flag, or -1 when none is.
pub open spec fn first_true(flags: Seq<bool>) -> int
    decreases flags.len(),
{
    if flags.len() == 0 {
        -1
    } else if flags[0] {
        0
    } else if first_true(flags.drop_first()) == -1 {
        -1
    } else {
        first_true(flags.drop_first()) + 1
    }
}

pub proof fn lemma_first_true(flags: Seq<bool>)
    ensures
        -1 <= first_true(flags) < flags.len(),
        first_true(flags) == -1 ==> forall|j: int| 0 <= j < flags.len() ==> !flags[j],
        first_true(flags) >= 0 ==> flags[first_true(flags)] && (forall|j: int|
            0 <= j < first_true(flags) ==> !flags[j]),
    decreases flags.len(),
{
    if flags.len() == 0 {
    } else if flags[0] {
    } else {
        lemma_first_true(flags.drop_first());
        let d = flags.drop_first();
        if first_true(d) == -1 {
            assert forall|j: int| 0 <= j < flags.len() implies !flags[j] by {
                if j > 0 {
                    assert(d[j - 1] == flags[j]);
                }
            }
        } else {
            assert(d[first_true(d)] == flags[first_true(flags)]);
            assert forall|j: int| 0 <= j < first_true(flags) implies !flags[j] by {
                if j > 0 {
                    assert(d[j - 1] == flags[j]);
                }
            }
        }
    }
}

/// What resolution returns for a candidate list and the existence answer for
/// each candidate: the first existing candidate joined under the root, or the
/// interpreter-not-found error when none exists.
pub open spec fn selection_spec(
    library_path: Seq<char>,
    cands: Seq<Seq<char>>,
    flags: Seq<bool>,
) -> Result<Seq<char>, LaunchError> {
    if first_true(flags) >= 0 {
        Ok(library_path + "/"@ + cands[first_true(flags)])
    } else {
        Err(LaunchError::InterpreterNotFound)
    }
}

/// A resolution result as plain values.
pub open spec fn resolution_view(r: Result<String, LaunchError>) -> Result<Seq<char>, LaunchError> {
    match r {
        Ok(p) => Ok(p@),
        Err(e) => Err(e),
    }
}

/// The first-match decision over the per-candidate existence flags: succeeds
/// with the first candidate whose flag is set, fails exactly when none is.
pub fn first_existing(library_path: &str, cands: &Vec<String>, flags: &Vec<bool>) -> (r: Result<
    String,
    LaunchError,
>)
    requires
        flags@.len() == cands@.len(),
    ensures
        selection_spec(library_path@, cands.deep_view(), flags@) == resolution_view(r),
{
    proof {
        lemma_first_true(flags@);
    }
    let mut i: usize = 0;
    while i < cands.len()
        invariant
            i <= cands.len(),
            flags@.len() == cands@.len(),
            cands@.len() == cands.deep_view().len(),
            forall|j: int| 0 <= j < i ==> !flags@[j],
        decreases cands.len() - i,
    {
        if flags[i] {
            proof {
                lemma_first_true(flags@);
                if first_true(flags@) == -1 {
                    assert(!flags@[i as int]);
                } else if first_true(flags@) < i {
                    assert(flags@[first_true(flags@)]);
                } else if first_true(flags@) > i {
                    assert(!flags@[i as int]);
                }
                assert(first_true(flags@) == i);
                assert(cands.deep_view()[i as int] == cands@[i as int]@);
            }
            let joined = concat_str(library_path, "/");
            let candidate_path = concat_str(joined.as_str(), cands[i].as_str());
            proof {
                assert(candidate_path@ == library_path@ + "/"@ + cands.deep_view()[i as int]);
            }
            return Ok(candidate_path);
        }
        i = i + 1;
    }
    proof {
        lemma_first_true(flags@);
        if first_true(flags@) >= 0 {
            assert(flags@[first_true(flags@)]);
            assert(false);
        }
    }
    Err(LaunchError::InterpreterNotFound)
}

/// The first candidate loader that exists directly inside the library root.
/// Which candidates exist depends on the disk; whatever it answered, the
/// result is exactly the first-match selection over those answers, so success
/// is the first existing candidate's root-joined path (a bare file name under
/// the root: the override must be a plain file name, as the precondition
/// says) and failure is exactly `InterpreterNotFound`, owed precisely when no
/// candidate exists.
pub fn select_interpreter(library_path: &str, override_name: Option<&str>) -> (r: Result<
    String,
    LaunchError,
>)
    requires
        match override_name {
            Some(n) => slash_free(n@),
            None => true,
        },
    ensures
        exists|flags: Seq<bool>| flags.len() == candidates_spec(opt_str_view(override_name)).len()
            && #[trigger] selection_spec(
            library_path@,
            candidates_spec(opt_str_view(override_name)),
            flags,
        ) == resolution_view(r),
        match r {
            Ok(p) => exists|i: int| 0 <= i < candidates_spec(opt_str_view(override_name)).len()
                && p@ == library_path@ + "/"@ + candidates_spec(opt_str_view(override_name))[i]
                && slash_free(#[trigger] candidates_spec(opt_str_view(override_name))[i]),
            Err(e) => e == LaunchError::InterpreterNotFound,
        },
{
    let ghost cs = candidates_spec(opt_str_view(override_name));
    let cands = interpreter_candidates(override_name);
    let mut flags: Vec<bool> = Vec::new();
    let mut i: usize = 0;
    while i < cands.len()
        invariant
            i <= cands.len(),
            flags@.len() == i,
            cands.deep_view() == cs,
            cands@.len() == cs.len(),
        decreases cands.len() - i,
    {
        let joined = concat_str(library_path, "/");
        let candidate_path = concat_str(joined.as_str(), cands[i].as_str());
        flags.push(path_exists(candidate_path.as_str()));
        i = i + 1;
    }
    let r = first_existing(library_path, &cands, &flags);
    proof {
        lemma_first_true(flags@);
        lemma_candidates_slash_free(opt_str_view(override_name));
        assert(selection_spec(library_path@, cs, flags@) == resolution_view(r));
        if r is Ok {
            assert(r->Ok_0@ == library_path@ + "/"@ + cs[first_true(flags@)]);
        }
    }
    r
}

/// The library root matching a target's ELF class: 32-bit binaries must use
/// the 32-bit library root and its interpreter.
pub fn pick_library_root(class: ElfClass, shared_lib: &str, shared_lib32: &str) -> (r: String)
    ensures
        r@ == match class {
            ElfClass::Bits32 => shared_lib32@,
            ElfClass::Bits64 => shared_lib@,
        },
{
    match class {
        ElfClass::Bits32 => String::from_str(shared_lib32),
        ElfClass::Bits64 => String::from_str(shared_lib),
    }
}

} // verus!
