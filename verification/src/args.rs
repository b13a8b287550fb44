//! Forwarding of command-line arguments to the wrapped tool, and the final
//! exit-code reconciliation.

use vstd::prelude::*;
use crate::classify::bytes_start_with;
use crate::classify::starts_with_chars;

verus! {

/// The plugin invocation marker: the redundant first argument supplied when
/// the wrapper is invoked as a build-tool plugin rather than directly.
pub open spec fn plugin_marker() -> Seq<char> {
    "single-line"@
}

/// The argument bytes spell exactly the plugin marker.
pub open spec fn is_marker(arg: Seq<u8>) -> bool {
    arg.len() == plugin_marker().len() && starts_with_chars(arg, plugin_marker())
}

/// Whether the first of the given arguments is the plugin marker, to be
/// dropped rather than forwarded.
pub fn drops_marker(args: &Vec<Vec<u8>>) -> (r: bool)
    ensures
        r == (args.deep_view().len() > 0 && is_marker(args.deep_view()[0])),
{
    proof {
        reveal_strlit("single-line");
        assert(vstd::string::is_ascii("single-line"));
        assert(args.deep_view().len() == args@.len());
        if args@.len() > 0 {
            assert(args.deep_view()[0] == args@[0]@);
        }
    }
    if args.len() == 0 {
        return false;
    }
    let first = &args[0];
    if first.len() != 11 {
        return false;
    }
    let r = bytes_start_with(first.as_slice(), 0, "single-line");
    proof {
        assert(first@.skip(0) =~= first@);
    }
    r
}

/// Forwards the received arguments to the wrapped tool: if the very first is
/// the plugin marker, exactly that one token is dropped; otherwise all
/// arguments pass through unchanged, in their original order.
pub fn forward_args(args: Vec<Vec<u8>>) -> (out: Vec<Vec<u8>>)
    ensures
        args.deep_view().len() > 0 && is_marker(args.deep_view()[0]) ==> out.deep_view()
            == args.deep_view().skip(1),
        !(args.deep_view().len() > 0 && is_marker(args.deep_view()[0])) ==> out.deep_view()
            == args.deep_view(),
{
    let mut args = args;
    if drops_marker(&args) {
        let ghost before = args.deep_view();
        args.remove(0);
        proof {
            assert(args.deep_view() =~= before.skip(1));
        }
    }
    args
}

/// The wrapper's exit code: the distinguished failure code when the stream
/// processor failed, else the wrapped process's own code.
pub fn wrapper_exit_code(worker_ok: bool, child_code: i32) -> (r: i32)
    ensures
        worker_ok ==> r == child_code,
        !worker_ok ==> r == 1,
{
    if worker_ok {
        child_code
    } else {
        1
    }
}

} // verus!
