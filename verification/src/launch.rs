//! Launch-mode and identity resolution: which of the three launch modes
//! applies, what the target binary is called, and the recovery of an
//! application name from desktop-integration metadata.

use vstd::prelude::*;
use vstd::string::*;
use crate::strutil::is_space_char;
use crate::strutil::is_space;
use crate::strutil::trim_chars;
use crate::strutil::split_chars;
use crate::strutil::replace_char;
use crate::strutil::str_eq;
use crate::strutil::starts_with_str;
use crate::strutil::split_char;
use crate::strutil::trim_str;
use crate::strutil::replace_char_with;
use crate::strutil::lemma_split_len;
use crate::paths::basename_chars;
use crate::paths::basename;

verus! {

/// The three launch modes.
#[derive(Clone, Copy, Debug, PartialEq, Eq, Structural)]
pub enum LaunchMode {
    /// Invoked under the launcher's own canonical name.
    SelfMode,
    /// Invoked under another name: that name is the target binary.
    NamedBinary,
    /// Invoked under the reserved desktop-integration entry-point name.
    AppRun,
}

/// The sub-commands available in self mode.
#[derive(Clone, Copy, Debug, PartialEq, Eq, Structural)]
pub enum SelfAction {
    PrintVersion,
    PrintHelp,
    GenLibPath,
    RunPackager,
    DispatchTarget,
    ListTargets,
}

pub open spec fn mode_spec(bin_name: Seq<char>, launcher_name: Seq<char>) -> LaunchMode {
    if bin_name == launcher_name {
        LaunchMode::SelfMode
    } else if bin_name == "AppRun"@ {
        LaunchMode::AppRun
    } else {
        LaunchMode::NamedBinary
    }
}

/// The launch mode, selected once at startup from the effective binary name.
pub fn resolve_launch_mode(bin_name: &str, launcher_name: &str) -> (r: LaunchMode)
    ensures
        r == mode_spec(bin_name@, launcher_name@),
{
    if str_eq(bin_name, launcher_name) {
        LaunchMode::SelfMode
    } else if str_eq(bin_name, "AppRun") {
        LaunchMode::AppRun
    } else {
        LaunchMode::NamedBinary
    }
}

pub open spec fn self_action_spec(has_args: bool, first_arg: Seq<char>) -> SelfAction {
    if !has_args {
        SelfAction::ListTargets
    } else if first_arg == "-v"@ || first_arg == "--version"@ {
        SelfAction::PrintVersion
    } else if first_arg == "-h"@ || first_arg == "--help"@ {
        SelfAction::PrintHelp
    } else if first_arg == "-g"@ || first_arg == "--gen-lib-path"@ {
        SelfAction::GenLibPath
    } else if first_arg == "l"@ || first_arg == "lib4bin"@ {
        SelfAction::RunPackager
    } else {
        SelfAction::DispatchTarget
    }
}

/// The self-mode dispatch on the first remaining argument.  With no argument
/// the launcher lists the available targets and exits with failure.
pub fn resolve_self_action(has_args: bool, first_arg: &str) -> (r: SelfAction)
    ensures
        r == self_action_spec(has_args, first_arg@),
{
    if !has_args {
        SelfAction::ListTargets
    } else if str_eq(first_arg, "-v") || str_eq(first_arg, "--version") {
        SelfAction::PrintVersion
    } else if str_eq(first_arg, "-h") || str_eq(first_arg, "--help") {
        SelfAction::PrintHelp
    } else if str_eq(first_arg, "-g") || str_eq(first_arg, "--gen-lib-path") {
        SelfAction::GenLibPath
    } else if str_eq(first_arg, "l") || str_eq(first_arg, "lib4bin") {
        SelfAction::RunPackager
    } else {
        SelfAction::DispatchTarget
    }
}

/// The effective binary name at startup: when `argv[0]` is a symlink that
/// resolves to the launcher itself, the symlink's name wins; otherwise the
/// launcher's own file name stands.
pub fn initial_bin_name(arg0_links_to_launcher: bool, arg0_name: &str, launcher_name: &str) -> (r:
    String)
    ensures
        r@ == if arg0_links_to_launcher {
            arg0_name@
        } else {
            launcher_name@
        },
{
    if arg0_links_to_launcher {
        String::from_str(arg0_name)
    } else {
        String::from_str(launcher_name)
    }
}

/// In self mode, a named target is executed directly only when it is
/// executable and either hardlinked to the launcher or without a same-named
/// binary in the shared binary directory; otherwise resolution falls through
/// to the general named-binary path.
pub fn named_dispatch_direct(is_exe: bool, hardlinked: bool, shared_bin_exists: bool) -> (r: bool)
    ensures
        r == (is_exe && (hardlinked || !shared_bin_exists)),
{
    is_exe && (hardlinked || !shared_bin_exists)
}

/// Whitespace-separated tokens of `s`, in order, each non-empty.
pub open spec fn tokens_spec(s: Seq<char>) -> Seq<Seq<char>>
    decreases s.len(),
{
    if s.len() == 0 {
        Seq::<Seq<char>>::empty()
    } else if is_space_char(s[0]) {
        tokens_spec(s.drop_first())
    } else {
        let rest = tokens_spec(s.drop_first());
        if s.len() > 1 && !is_space_char(s[1]) {
            seq![seq![s[0]] + rest[0]] + rest.drop_first()
        } else {
            seq![seq![s[0]]] + rest
        }
    }
}

proof fn lemma_tokens_skip_spaces(s: Seq<char>, i: int)
    requires
        0 <= i <= s.len(),
        forall|j: int| 0 <= j < i ==> is_space_char(s[j]),
    ensures
        tokens_spec(s) == tokens_spec(s.skip(i)),
    decreases i,
{
    if i > 0 {
        assert(is_space_char(s[0]));
        assert(s.drop_first() =~= s.skip(1));
        lemma_tokens_skip_spaces(s.skip(1), i - 1);
        assert(s.skip(1).skip(i - 1) =~= s.skip(i));
    } else {
        assert(s.skip(0) =~= s);
    }
}

proof fn lemma_tokens_first(s: Seq<char>, e: int)
    requires
        s.len() > 0,
        0 < e <= s.len(),
        forall|j: int| 0 <= j < e ==> !is_space_char(s[j]),
        e == s.len() || is_space_char(s[e]),
    ensures
        tokens_spec(s) == seq![s.subrange(0, e)] + tokens_spec(s.skip(e)),
    decreases e,
{
    let df = s.drop_first();
    if e == 1 {
        assert(s.subrange(0, 1) =~= seq![s[0]]);
        assert(df =~= s.skip(1));
        if s.len() == 1 {
            assert(tokens_spec(s) =~= seq![s.subrange(0, e)] + tokens_spec(s.skip(e)));
        } else {
            assert(is_space_char(s[1]));
            assert(tokens_spec(s) =~= seq![s.subrange(0, e)] + tokens_spec(s.skip(e)));
        }
    } else {
        assert(!is_space_char(s[1]));
        assert(df[e - 2] == s[e - 1]);
        assert(forall|j: int| 0 <= j < e - 1 ==> df[j] == s[j + 1]);
        if e - 1 < df.len() {
            assert(df[e - 1] == s[e]);
        }
        lemma_tokens_first(df, e - 1);
        let rest = tokens_spec(df);
        assert(rest[0] == df.subrange(0, e - 1));
        assert(seq![s[0]] + df.subrange(0, e - 1) =~= s.subrange(0, e));
        assert(rest.drop_first() =~= tokens_spec(df.skip(e - 1)));
        assert(df.skip(e - 1) =~= s.skip(e));
        assert(tokens_spec(s) =~= seq![s.subrange(0, e)] + tokens_spec(s.skip(e)));
    }
}

/// The whitespace-separated tokens of `s`.
pub fn split_ws_tokens(s: &str) -> (r: Vec<String>)
    ensures
        r.deep_view() == tokens_spec(s@),
{
    let len = s.unicode_len();
    let mut r: Vec<String> = Vec::new();
    let mut pos: usize = 0;
    proof {
        assert(r.deep_view() =~= Seq::<Seq<char>>::empty());
        assert(s@.skip(0) =~= s@);
    }
    while pos < len
        invariant
            pos <= len,
            len == s@.len(),
            tokens_spec(s@) == r.deep_view() + tokens_spec(s@.skip(pos as int)),
        decreases len - pos,
    {
        // Skip the whitespace run.
        let mut b = pos;
        while b < len && is_space(s.get_char(b))
            invariant
                pos <= b <= len,
                len == s@.len(),
                forall|j: int| pos <= j < b ==> is_space_char(s@[j]),
            decreases len - b,
        {
            b = b + 1;
        }
        proof {
            let rem = s@.skip(pos as int);
            assert(forall|j: int| 0 <= j < b - pos ==> rem[j] == s@[j + pos]);
            lemma_tokens_skip_spaces(rem, b - pos as int);
            assert(rem.skip(b - pos as int) =~= s@.skip(b as int));
        }
        if b == len {
            proof {
                assert(s@.skip(len as int) =~= Seq::<char>::empty());
                assert(tokens_spec(s@) =~= r.deep_view());
            }
            return r;
        }
        // Take the token.
        let mut e = b;
        while e < len && !is_space(s.get_char(e))
            invariant
                b <= e <= len,
                len == s@.len(),
                forall|j: int| b <= j < e ==> !is_space_char(s@[j]),
            decreases len - e,
        {
            e = e + 1;
        }
        proof {
            let rem = s@.skip(b as int);
            assert(forall|j: int| 0 <= j < rem.len() ==> rem[j] == s@[j + b]);
            assert(!is_space_char(rem[0]));
            if e < len {
                assert(is_space_char(rem[e - b]));
            }
            lemma_tokens_first(rem, e - b as int);
            assert(rem.subrange(0, e - b as int) =~= s@.subrange(b as int, e as int));
            assert(rem.skip(e - b as int) =~= s@.skip(e as int));
        }
        let tok = String::from_str(s.substring_char(b, e));
        let ghost old_dv = r.deep_view();
        r.push(tok);
        proof {
            assert(r.deep_view() =~= old_dv.push(s@.subrange(b as int, e as int)));
            assert(tokens_spec(s@) =~= r.deep_view() + tokens_spec(s@.skip(e as int)));
        }
        pos = e;
    }
    proof {
        assert(s@.skip(len as int) =~= Seq::<char>::empty());
        assert(tokens_spec(s@) =~= r.deep_view());
    }
    r
}

/// The first whitespace-separated token, or the empty string when there is
/// none.
pub open spec fn first_token_spec(s: Seq<char>) -> Seq<char> {
    if tokens_spec(s).len() > 0 {
        tokens_spec(s)[0]
    } else {
        Seq::<char>::empty()
    }
}

pub fn first_ws_token(s: &str) -> (r: String)
    ensures
        r@ == first_token_spec(s@),
{
    let toks = split_ws_tokens(s);
    if toks.len() > 0 {
        proof {
            assert(toks.deep_view()[0] == toks@[0]@);
        }
        toks[0].clone()
    } else {
        String::new()
    }
}

/// The `Exec=` entry name of the first line that carries one: everything
/// after the marker, up to the first whitespace.
pub open spec fn first_exec_token(lines: Seq<Seq<char>>) -> Option<Seq<char>>
    decreases lines.len(),
{
    if lines.len() == 0 {
        None
    } else if "Exec="@.is_prefix_of(lines[0]) {
        Some(first_token_spec(lines[0].skip(5)))
    } else {
        first_exec_token(lines.drop_first())
    }
}

/// The application name recovered from a `.desktop` file's `Exec=` line.
pub fn appname_from_desktop(content: &str) -> (r: Option<String>)
    ensures
        match r {
            Some(n) => first_exec_token(split_chars(content@, '\n')) == Some(n@),
            None => first_exec_token(split_chars(content@, '\n')) is None,
        },
{
    let lines = split_char(content, '\n');
    let ghost ls = lines.deep_view();
    let mut i: usize = 0;
    proof {
        assert(ls.skip(0) =~= ls);
        reveal_strlit("Exec=");
    }
    while i < lines.len()
        invariant
            i <= lines.len(),
            ls == lines.deep_view(),
            ls == split_chars(content@, '\n'),
            lines@.len() == ls.len(),
            "Exec="@.len() == 5,
            first_exec_token(ls) == first_exec_token(ls.skip(i as int)),
            forall|j: int| 0 <= j < i ==> !("Exec="@.is_prefix_of(#[trigger] ls[j])),
        decreases lines.len() - i,
    {
        proof {
            assert(ls[i as int] == lines@[i as int]@);
            assert(ls.skip(i as int)[0] == ls[i as int]);
            assert(ls.skip(i as int).drop_first() =~= ls.skip(i + 1));
        }
        let line = &lines[i];
        if starts_with_str(line.as_str(), "Exec=") {
            let rest = line.as_str().substring_char(5, line.as_str().unicode_len());
            proof {
                assert(rest@ =~= ls[i as int].skip(5));
                assert("Exec="@.is_prefix_of(ls.skip(i as int)[0]));
                assert(first_exec_token(ls.skip(i as int)) == Some(
                    first_token_spec(ls[i as int].skip(5)),
                ));
            }
            let tok = first_ws_token(rest);
            return Some(tok);
        }
        i = i + 1;
    }
    proof {
        assert(ls.skip(ls.len() as int) =~= Seq::<Seq<char>>::empty());
    }
    None
}

/// An app name normalized for dispatch: its base name, with single and double
/// quotes removed.
pub open spec fn normalized_app_name(name: Seq<char>) -> Seq<char> {
    replace_char(
        replace_char(basename_chars(name), '\'', Seq::<char>::empty()),
        '"',
        Seq::<char>::empty(),
    )
}

pub fn normalize_app_name(name: &str) -> (r: String)
    ensures
        r@ == normalized_app_name(name@),
{
    let base = basename(name);
    let step = replace_char_with(base.as_str(), '\'', "");
    let r = replace_char_with(step.as_str(), '"', "");
    proof {
        reveal_strlit("");
        assert(""@ =~= Seq::<char>::empty());
    }
    r
}

/// The first line of the trimmed content of the `.app` name file.
pub open spec fn app_file_first_line(content: Seq<char>) -> Seq<char> {
    split_chars(trim_chars(content), '\n')[0]
}

pub fn appname_from_app_file(content: &str) -> (r: String)
    ensures
        r@ == app_file_first_line(content@),
{
    let t = trim_str(content);
    let parts = split_char(t, '\n');
    proof {
        lemma_split_len(t@, '\n');
        assert(parts@.len() == parts.deep_view().len());
        assert(parts.deep_view()[0] == parts@[0]@);
    }
    parts[0].clone()
}

/// The names listed by `unset` directives in `.env`-style content: for every
/// trimmed line that starts with the directive, all tokens after the first.
pub open spec fn line_unsets(line: Seq<char>) -> Seq<Seq<char>> {
    if "unset "@.is_prefix_of(trim_chars(line)) {
        tokens_spec(trim_chars(line)).drop_first()
    } else {
        Seq::<Seq<char>>::empty()
    }
}

pub open spec fn unsets_of_lines(lines: Seq<Seq<char>>) -> Seq<Seq<char>>
    decreases lines.len(),
{
    if lines.len() == 0 {
        Seq::<Seq<char>>::empty()
    } else {
        unsets_of_lines(lines.drop_last()) + line_unsets(lines.last())
    }
}

pub open spec fn unset_names_spec(content: Seq<char>) -> Seq<Seq<char>> {
    unsets_of_lines(split_chars(trim_chars(content), '\n'))
}

/// The variable names that `.env` content marks for removal.
#[verifier::loop_isolation(false)]
pub fn unset_names(content: &str) -> (r: Vec<String>)
    ensures
        r.deep_view() == unset_names_spec(content@),
{
    let t = trim_str(content);
    let lines = split_char(t, '\n');
    let ghost ls = lines.deep_view();
    let mut r: Vec<String> = Vec::new();
    let mut i: usize = 0;
    proof {
        reveal_strlit("unset ");
        assert(ls.take(0) =~= Seq::<Seq<char>>::empty());
        assert(r.deep_view() =~= unsets_of_lines(ls.take(0)));
    }
    while i < lines.len()
        invariant
            i <= lines.len(),
            r.deep_view() == unsets_of_lines(ls.take(i as int)),
        decreases lines.len() - i,
    {
        proof {
            assert(ls[i as int] == lines@[i as int]@);
            assert(ls.take(i + 1).drop_last() =~= ls.take(i as int));
            assert(ls.take(i + 1).last() == ls[i as int]);
        }
        let line = trim_str(lines[i].as_str());
        if starts_with_str(line, "unset ") {
            let toks = split_ws_tokens(line);
            proof {
                assert("unset "@[0] == 'u');
                assert(line@[0] == 'u');
                assert(tokens_spec(line@).len() >= 1);
                assert(toks@.len() == toks.deep_view().len());
            }
            let mut j: usize = 1;
            let ghost base = r.deep_view();
            proof {
                assert(base + toks.deep_view().drop_first().take(0) =~= base);
            }
            while j < toks.len()
                invariant
                    1 <= j <= toks.len(),
                    r.deep_view() == base + toks.deep_view().drop_first().take(j - 1),
                decreases toks.len() - j,
            {
                proof {
                    assert(toks.deep_view()[j as int] == toks@[j as int]@);
                    assert(toks.deep_view().drop_first().take(j as int).drop_last()
                        =~= toks.deep_view().drop_first().take(j - 1));
                    assert(toks.deep_view().drop_first().take(j as int).last()
                        == toks.deep_view()[j as int]);
                }
                let ghost old_dv = r.deep_view();
                r.push(toks[j].clone());
                proof {
                    assert(r.deep_view() =~= old_dv.push(toks.deep_view()[j as int]));
                    assert(r.deep_view() =~= base + toks.deep_view().drop_first().take(j as int));
                }
                j = j + 1;
            }
            proof {
                assert(toks.deep_view().drop_first().take(toks@.len() - 1)
                    =~= toks.deep_view().drop_first());
                assert(line_unsets(ls[i as int]) == toks.deep_view().drop_first());
                assert(r.deep_view() =~= unsets_of_lines(ls.take(i + 1)));
            }
        } else {
            proof {
                assert(line_unsets(ls[i as int]) =~= Seq::<Seq<char>>::empty());
                assert(r.deep_view() + line_unsets(ls[i as int]) =~= r.deep_view());
            }
        }
        i = i + 1;
    }
    proof {
        assert(ls.take(ls.len() as int) =~= ls);
    }
    r
}

} // verus!
