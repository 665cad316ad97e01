//! Port resolution from command-line arguments.
//!
//! The listener takes its port from the value following the first `--port`
//! flag; when no `--port` is present, from the value following the first
//! `-p` flag; and otherwise falls back to the default port. A flag that is
//! the last token names no value, so the default is taken then too.

use vstd::prelude::*;

verus! {

/// The value following the first occurrence of `arg` in `args`, if both the
/// occurrence and a following value exist.
pub open spec fn arg_value_spec(args: Seq<Seq<char>>, arg: Seq<char>) -> Option<Seq<char>>
    decreases args.len(),
{
    if args.len() == 0 {
        None
    } else if args[0] == arg {
        if args.len() >= 2 {
            Some(args[1])
        } else {
            None
        }
    } else {
        arg_value_spec(args.drop_first(), arg)
    }
}

proof fn lemma_arg_value_skip(args: Seq<Seq<char>>, arg: Seq<char>, i: int)
    requires
        0 <= i <= args.len(),
        forall|j: int| 0 <= j < i ==> args[j] != arg,
    ensures
        arg_value_spec(args, arg) == arg_value_spec(args.skip(i), arg),
    decreases i,
{
    if i > 0 {
        assert(args[0] != arg);
        assert(args.drop_first() =~= args.skip(1));
        assert(forall|j: int| 0 <= j < i - 1 ==> args.skip(1)[j] == args[j + 1]);
        lemma_arg_value_skip(args.skip(1), arg, i - 1);
        assert(args.skip(1).skip(i - 1) =~= args.skip(i));
    } else {
        assert(args.skip(0) =~= args);
    }
}

/// The value that the original command line assigns to the flag `arg`: the
/// argument following the first occurrence of `arg`, or an error when `arg`
/// is absent or is the last argument.
pub fn argument_value(arg: &str, args: &Vec<String>) -> (r: Result<String, ()>)
    ensures
        r matches Ok(v) ==> arg_value_spec(args.deep_view(), arg@) == Some(v@),
        r is Err ==> arg_value_spec(args.deep_view(), arg@) is None,
{
    let needle: String = arg.to_owned();
    let mut i: usize = 0;
    while i < args.len()
        invariant
            i <= args.len(),
            needle@ == arg@,
            forall|j: int| 0 <= j < i ==> args.deep_view()[j] != arg@,
        decreases args.len() - i,
    {
        if args[i] == needle {
            proof {
                lemma_arg_value_skip(args.deep_view(), arg@, i as int);
            }
            if i + 1 < args.len() {
                assert(args.deep_view().skip(i as int)[1] == args.deep_view()[i + 1]);
                return Ok(args[i + 1].clone());
            } else {
                return Err(());
            }
        }
        i += 1;
    }
    proof {
        lemma_arg_value_skip(args.deep_view(), arg@, args.len() as int);
    }
    Err(())
}

/// The port used when no flag names one.
pub open spec fn default_port_spec() -> Seq<char> {
    "6969"@
}

/// Whether `arg` occurs in `args`.
pub open spec fn flag_present(args: Seq<Seq<char>>, arg: Seq<char>) -> bool {
    exists|j: int| 0 <= j < args.len() && args[j] == arg
}

/// The port named on the command line: the `--port` flag is consulted when
/// it is present, otherwise the `-p` flag when that one is; a flag that is
/// the last token names no port.
pub open spec fn flagged_port_spec(args: Seq<Seq<char>>) -> Option<Seq<char>> {
    if flag_present(args, "--port"@) {
        arg_value_spec(args, "--port"@)
    } else if flag_present(args, "-p"@) {
        arg_value_spec(args, "-p"@)
    } else {
        None
    }
}

/// The port the listener binds to: the flagged port when one is given,
/// otherwise the default.
pub open spec fn chosen_port_spec(args: Seq<Seq<char>>) -> Seq<char> {
    match flagged_port_spec(args) {
        Some(p) => p,
        None => default_port_spec(),
    }
}

fn contains_arg(args: &Vec<String>, arg: &str) -> (r: bool)
    ensures
        r == flag_present(args.deep_view(), arg@),
{
    let needle: String = arg.to_owned();
    let mut i: usize = 0;
    while i < args.len()
        invariant
            i <= args.len(),
            needle@ == arg@,
            forall|j: int| 0 <= j < i ==> args.deep_view()[j] != arg@,
        decreases args.len() - i,
    {
        if args[i] == needle {
            assert(args.deep_view()[i as int] == arg@);
            return true;
        }
        i += 1;
    }
    false
}

/// Resolves the listening port from the argument list. Returns the port and
/// whether the default was taken (so the caller can report it).
pub fn resolve_port(args: &Vec<String>) -> (r: (String, bool))
    ensures
        r.0@ == chosen_port_spec(args.deep_view()),
        r.1 <==> flagged_port_spec(args.deep_view()) is None,
{
    if contains_arg(args, "--port") {
        match argument_value("--port", args) {
            Ok(v) => (v, false),
            Err(_) => ("6969".to_owned(), true),
        }
    } else if contains_arg(args, "-p") {
        match argument_value("-p", args) {
            Ok(v) => (v, false),
            Err(_) => ("6969".to_owned(), true),
        }
    } else {
        ("6969".to_owned(), true)
    }
}

} // verus!
