//! Assembly of the final exec step: backend choice, spoofed `argv[0]`,
//! preload list, and the interpreter's argument vector.  Two backends exist:
//! a direct system-level process replacement for frozen-interpreter bundles,
//! and an emulated user-space one for everything else (the interpreter path
//! may exceed the kernel's interpreter path-length limit).  Both take the
//! same argv/env block; only app code performs the replacement itself.

use vstd::prelude::*;
use vstd::string::*;
use crate::strutil::split_chars;
use crate::strutil::trim_chars;
use crate::strutil::split_char;
use crate::strutil::trim_str;

verus! {

/// How the process image is replaced.
#[derive(Clone, Copy, Debug, PartialEq, Eq, Structural)]
pub enum ExecBackend {
    /// A direct system-level exec call.
    DirectSyscall,
    /// A user-space exec that maps the interpreter into the current process.
    EmulatedLoader,
}

/// A frozen-interpreter bundle must go through the direct system call; every
/// other target uses the emulated loader.
pub open spec fn backend_for(frozen: bool) -> ExecBackend {
    if frozen {
        ExecBackend::DirectSyscall
    } else {
        ExecBackend::EmulatedLoader
    }
}

pub fn choose_backend(frozen: bool) -> (r: ExecBackend)
    ensures
        r == backend_for(frozen),
{
    if frozen {
        ExecBackend::DirectSyscall
    } else {
        ExecBackend::EmulatedLoader
    }
}

/// A frozen-interpreter bundle sees its own path as `argv[0]`; every other
/// target sees the original invocation path.
pub open spec fn argv0_for(frozen: bool, target: Seq<char>, invocation: Seq<char>) -> Seq<char> {
    if frozen {
        target
    } else {
        invocation
    }
}

pub fn spoof_argv0(frozen: bool, target: &str, invocation: &str) -> (r: String)
    ensures
        r@ == argv0_for(frozen, target@, invocation@),
{
    if frozen {
        String::from_str(target)
    } else {
        String::from_str(invocation)
    }
}

/// `parts` joined by `sep`, with nothing added around empty parts.
pub open spec fn join_char(parts: Seq<Seq<char>>, sep: char) -> Seq<char>
    decreases parts.len(),
{
    if parts.len() == 0 {
        Seq::<char>::empty()
    } else if parts.len() == 1 {
        parts[0]
    } else {
        join_char(parts.drop_last(), sep) + seq![sep] + parts.last()
    }
}

/// The preload list handed to the interpreter: the lines of the `.preload`
/// file, each trimmed, space-joined.
pub open spec fn preload_spec(content: Seq<char>) -> Seq<char> {
    join_char(split_chars(trim_chars(content), '\n').map_values(|l: Seq<char>| trim_chars(l)), ' ')
}

/// The space-joined preload value from the `.preload` file's content.
pub fn preload_value(content: &str) -> (r: String)
    ensures
        r@ == preload_spec(content@),
{
    let t = trim_str(content);
    let parts = split_char(t, '\n');
    let ghost goal = split_chars(trim_chars(content@), '\n').map_values(
        |l: Seq<char>| trim_chars(l),
    );
    let mut r = String::new();
    let mut i: usize = 0;
    proof {
        assert(goal.take(0) =~= Seq::<Seq<char>>::empty());
    }
    while i < parts.len()
        invariant
            i <= parts.len(),
            parts.deep_view() == split_chars(trim_chars(content@), '\n'),
            parts@.len() == parts.deep_view().len(),
            goal == parts.deep_view().map_values(|l: Seq<char>| trim_chars(l)),
            r@ == join_char(goal.take(i as int), ' '),
        decreases parts.len() - i,
    {
        proof {
            assert(parts.deep_view()[i as int] == parts@[i as int]@);
            assert(goal[i as int] == trim_chars(parts@[i as int]@));
        }
        let piece = trim_str(parts[i].as_str());
        if i > 0 {
            r.append(" ");
            proof {
                reveal_strlit(" ");
                assert(" "@ =~= seq![' ']);
            }
        }
        r.append(piece);
        proof {
            assert(goal.take(i + 1).drop_last() =~= goal.take(i as int));
            assert(goal.take(i + 1).last() == goal[i as int]);
            if i == 0 {
                assert(r@ =~= join_char(goal.take(1), ' '));
            }
        }
        i = i + 1;
    }
    proof {
        assert(goal.take(parts@.len() as int) =~= goal);
    }
    r
}

/// The interpreter's final argument vector: interpreter path,
/// `--library-path` and the search path, `--argv0` and the spoofed value, the
/// optional `--preload` pair, the target, then the caller's arguments.
pub open spec fn interpreter_args_spec(
    interpreter: Seq<char>,
    library_path: Seq<char>,
    argv0: Seq<char>,
    preload: Option<Seq<char>>,
    target: Seq<char>,
    args: Seq<Seq<char>>,
) -> Seq<Seq<char>> {
    seq![interpreter, "--library-path"@, library_path, "--argv0"@, argv0] + (match preload {
        Some(p) => seq!["--preload"@, p],
        None => Seq::<Seq<char>>::empty(),
    }) + seq![target] + args
}

pub open spec fn opt_string_view(o: Option<&String>) -> Option<Seq<char>> {
    match o {
        Some(p) => Some(p@),
        None => None,
    }
}

/// Build the interpreter argument vector.
#[verifier::loop_isolation(false)]
pub fn build_interpreter_args(
    interpreter: &str,
    library_path: &str,
    argv0: &str,
    preload: Option<&String>,
    target: &str,
    args: &Vec<String>,
) -> (r: Vec<String>)
    ensures
        r.deep_view() == interpreter_args_spec(
            interpreter@,
            library_path@,
            argv0@,
            opt_string_view(preload),
            target@,
            args.deep_view(),
        ),
{
    let ghost goal = interpreter_args_spec(
        interpreter@,
        library_path@,
        argv0@,
        opt_string_view(preload),
        target@,
        args.deep_view(),
    );
    let mut r: Vec<String> = Vec::new();
    r.push(String::from_str(interpreter));
    r.push(String::from_str("--library-path"));
    r.push(String::from_str(library_path));
    r.push(String::from_str("--argv0"));
    r.push(String::from_str(argv0));
    match preload {
        Some(p) => {
            r.push(String::from_str("--preload"));
            r.push(p.clone());
        },
        None => {},
    }
    r.push(String::from_str(target));
    let ghost base = r.deep_view();
    proof {
        assert(base =~= goal.take(base.len() as int));
    }
    let mut i: usize = 0;
    while i < args.len()
        invariant
            i <= args.len(),
            args@.len() == args.deep_view().len(),
            r.deep_view() == base + args.deep_view().take(i as int),
        decreases args.len() - i,
    {
        let ghost old_dv = r.deep_view();
        proof {
            assert(args.deep_view()[i as int] == args@[i as int]@);
        }
        r.push(args[i].clone());
        proof {
            assert(r.deep_view() =~= old_dv.push(args.deep_view()[i as int]));
            assert(base + args.deep_view().take(i + 1) =~= old_dv.push(
                args.deep_view()[i as int],
            ));
        }
        i = i + 1;
    }
    proof {
        assert(args.deep_view().take(args@.len() as int) =~= args.deep_view());
        assert(r.deep_view() =~= goal);
    }
    r
}

} // verus!
