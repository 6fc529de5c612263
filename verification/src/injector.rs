//! Typing recognised text into the focused window: which tool to run, with
//! which arguments, whether the tool can be found, and the `ydotoold` daemon.
use vstd::prelude::*;
use crate::config::InjectMethod;
use crate::paths::{bytes_of, bytes_range, candidates, opt_bytes, search_candidates};
use crate::text::{owned, push_char};

verus! {

/// The program that an injection method runs.
pub open spec fn tool_of(method: InjectMethod) -> Seq<char> {
    match method {
        InjectMethod::Wtype => "wtype"@,
        InjectMethod::Ydotool => "ydotool"@,
    }
}

/// The program that an injection method runs.
pub fn inject_tool(method: &InjectMethod) -> (r: &'static str)
    ensures
        r@ == tool_of(*method),
{
    match method {
        InjectMethod::Wtype => "wtype",
        InjectMethod::Ydotool => "ydotool",
    }
}

/// The text that is typed for a recognised text: a space follows it, so that
/// consecutive segments do not run together.
pub open spec fn typed_text(text: Seq<char>) -> Seq<char> {
    text.push(' ')
}

/// The text that is typed for a recognised text.
pub fn text_to_type(text: &str) -> (r: String)
    ensures
        r@ == typed_text(text@),
{
    let mut r = owned(text);
    push_char(&mut r, ' ');
    r
}

/// The command line (program first) that types `text` with `method`.
pub open spec fn inject_argv(method: InjectMethod, text: Seq<char>) -> Seq<Seq<char>> {
    match method {
        InjectMethod::Wtype => seq!["wtype"@, typed_text(text)],
        InjectMethod::Ydotool => seq![
            "ydotool"@,
            "type"@,
            "--key-delay"@,
            "0"@,
            "--"@,
            typed_text(text),
        ],
    }
}

/// The command line (program first) that types `text` with `method`.
pub fn inject_command(method: &InjectMethod, text: &str) -> (r: Vec<String>)
    ensures
        r@.len() == inject_argv(*method, text@).len(),
        forall|i: int| 0 <= i < r@.len() ==> #[trigger] r@[i]@ == inject_argv(*method, text@)[i],
{
    let typed = text_to_type(text);
    match method {
        InjectMethod::Wtype => {
            let r = vec![owned("wtype"), typed];
            r
        },
        InjectMethod::Ydotool => {
            let r = vec![
                owned("ydotool"),
                owned("type"),
                owned("--key-delay"),
                owned("0"),
                owned("--"),
                typed,
            ];
            r
        },
    }
}

/// The typed text is the recognised text followed by exactly one space,
/// whatever the text ends with, and it is the last argument of both command
/// lines.
pub proof fn lemma_typed_text_adds_one_space(method: InjectMethod, text: Seq<char>)
    ensures
        typed_text(text).len() == text.len() + 1,
        typed_text(text)[text.len() as int] == ' ',
        typed_text(text).take(text.len() as int) == text,
        inject_argv(method, text).last() == typed_text(text),
        inject_argv(method, text)[0] == tool_of(method),
{
    assert(typed_text(text).take(text.len() as int) =~= text);
}

/// `f` answered `answer` when asked about a file at `place`.
pub open spec fn reported<F: Fn(Vec<u8>) -> bool>(f: F, place: Seq<u8>, answer: bool) -> bool {
    exists|p: Vec<u8>| p@ == place && #[trigger] f.ensures((p,), answer)
}

/// Whether the injection tool is installed: true when some place where the
/// search path `path_var` (the value of `PATH`, if set) leads for the tool
/// holds a file, as `is_file` reports. Places are tried in order; the first
/// hit ends the search. No `PATH` means the tool is not found.
pub fn check_inject_tool<F: Fn(Vec<u8>) -> bool>(
    method: &InjectMethod,
    path_var: Option<&[u8]>,
    is_file: F,
) -> (r: bool)
    requires
        forall|p: Vec<u8>| is_file.requires((p,)),
    ensures
        path_var is None ==> !r,
        path_var matches Some(pv) ==> {
            let c = search_candidates(pv@, bytes_of(tool_of(*method)));
            &&& r ==> exists|i: int| 0 <= i < c.len() && #[trigger] reported(is_file, c[i], true)
            &&& !r ==> forall|i: int| 0 <= i < c.len() ==> #[trigger] reported(is_file, c[i], false)
        },
{
    match path_var {
        None => false,
        Some(pv) => {
            let tool = inject_tool(method);
            let places = candidates(pv, tool.as_bytes());
            let ghost c = search_candidates(pv@, bytes_of(tool_of(*method)));
            let mut i: usize = 0;
            let mut hit = false;
            while i < places.len() && !hit
                invariant
                    i <= places.len(),
                    places@.len() == c.len(),
                    forall|k: int| 0 <= k < places@.len() ==> #[trigger] places@[k]@ == c[k],
                    forall|p: Vec<u8>| is_file.requires((p,)),
                    hit ==> exists|k: int| 0 <= k < c.len() && #[trigger] reported(is_file, c[k], true),
                    !hit ==> forall|k: int| 0 <= k < i ==> #[trigger] reported(is_file, c[k], false),
                decreases places.len() - i, if hit { 0int } else { 1int },
            {
                let p = bytes_range(places[i].as_slice(), 0, places[i].len());
                let ghost asked = p;
                let found = is_file(p);
                assert(places@[i as int]@.subrange(0, places@[i as int]@.len() as int) =~= places@[i as int]@);
                assert(asked@ == c[i as int]);
                assert(is_file.ensures((asked,), found));
                if found {
                    assert(reported(is_file, c[i as int], true));
                    hit = true;
                } else {
                    assert(reported(is_file, c[i as int], false));
                    i = i + 1;
                }
            }
            hit
        },
    }
}

/// Where `ydotoold` listens: the `YDOTOOL_SOCKET` value when it is set,
/// `/tmp/.ydotool_socket` otherwise.
pub open spec fn socket_path_for(from_env: Option<Seq<u8>>) -> Seq<u8> {
    match from_env {
        Some(p) => p,
        None => bytes_of("/tmp/.ydotool_socket"@),
    }
}

/// Where `ydotoold` listens, given the value of `YDOTOOL_SOCKET` if it is set.
pub fn ydotool_socket_path(from_env: Option<Vec<u8>>) -> (r: Vec<u8>)
    ensures
        r@ == socket_path_for(opt_bytes(from_env)),
{
    match from_env {
        Some(p) => p,
        None => {
            let d = "/tmp/.ydotool_socket".as_bytes();
            bytes_range(d, 0, d.len())
        },
    }
}

/// How many times the socket is looked for after starting `ydotoold`.
pub const YDOTOOLD_CHECKS: u32 = 10;

/// Milliseconds to wait before each look.
pub const YDOTOOLD_CHECK_INTERVAL_MS: u64 = 50;

/// What to do after looking for the `ydotoold` socket.
#[derive(Clone, Copy, Debug, PartialEq, Eq, Structural)]
pub enum DaemonWait {
    /// The socket is there: the daemon is up.
    Ready,
    /// Wait one interval and look again.
    WaitAgain,
    /// Every look failed: give up and warn.
    GiveUp,
}

/// The decision after the `checks_done`-th look (counting from 1) for the
/// socket of a freshly started `ydotoold`.
pub fn daemon_wait(checks_done: u32, socket_exists: bool) -> (r: DaemonWait)
    ensures
        r == (if socket_exists {
            DaemonWait::Ready
        } else if checks_done >= YDOTOOLD_CHECKS {
            DaemonWait::GiveUp
        } else {
            DaemonWait::WaitAgain
        }),
{
    if socket_exists {
        DaemonWait::Ready
    } else if checks_done >= YDOTOOLD_CHECKS {
        DaemonWait::GiveUp
    } else {
        DaemonWait::WaitAgain
    }
}

} // verus!
