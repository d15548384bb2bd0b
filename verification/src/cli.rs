//! Decisions of the command-line entry point: which panics belong to the
//! network stack, what a control line on stdin asks for, and what a failed
//! session tells the user.
use vstd::prelude::*;

use crate::error::{spec_message, AetherError};
use crate::text::{chars_of, eq_str, fold, folded, owned, split_chars, split_on};

verus! {

/// `s` with every backslash turned into a slash.
pub open spec fn slashes(s: Seq<char>) -> Seq<char> {
    s.map_values(|c: char| if c == '\\' { '/' } else { c })
}

/// `s` split at every `/`.
pub open spec fn split_slash(s: Seq<char>) -> Seq<Seq<char>> {
    split_on(s, '/')
}

/// A path component that names crate `name`, bare or with a version suffix
/// (`smoltcp`, `smoltcp-0.12.0`).
pub open spec fn names_crate(seg: Seq<char>, name: Seq<char>) -> bool {
    seg == name || (name.len() < seg.len() && seg.take(name.len() as int) == name && seg[name.len() as int] == '-')
}

/// Some run of components is the crate `name` followed by exactly `tail`.
pub open spec fn in_crate(segs: Seq<Seq<char>>, name: Seq<char>, tail: Seq<Seq<char>>) -> bool {
    exists|j: int|
        0 <= j && j + tail.len() + 1 <= segs.len() && names_crate(#[trigger] segs[j], name)
            && segs.subrange(j + 1, j + 1 + tail.len()) == tail
}

pub open spec fn spec_is_netstack_panic(file: Seq<char>) -> bool {
    let segs = split_slash(slashes(file));
    in_crate(segs, "smoltcp"@, seq!["src"@, "socket"@, "tcp.rs"@])
        || in_crate(segs, "smoltcp"@, seq!["src"@, "socket"@, "udp.rs"@])
        || in_crate(segs, "smoltcp"@, seq!["src"@, "iface"@, "mod.rs"@])
        || (segs.len() >= 2 && segs[segs.len() - 2] == "src"@ && segs[segs.len() - 1] == "netstack.rs"@)
}

/// The path components of `file`, backslashes read as slashes.
fn components(file: &str) -> (segs: Vec<Vec<char>>)
    ensures
        segs@.map_values(|v: Vec<char>| v@) == split_slash(slashes(file@)),
{
    let v = chars_of(file);
    let mut w: Vec<char> = Vec::new();
    let mut i: usize = 0;
    while i < v.len()
        invariant
            v@ == file@,
            i <= v@.len(),
            w@ == slashes(v@.take(i as int)),
        decreases v@.len() - i,
    {
        w.push(if v[i] == '\\' { '/' } else { v[i] });
        i += 1;
        assert(w@ =~= slashes(v@.take(i as int)));
    }
    assert(v@.take(v@.len() as int) =~= v@);
    split_chars(&w, '/')
}

/// Whether component `seg` names crate `name`.
fn names_crate_exec(seg: &Vec<char>, name: &str) -> (b: bool)
    ensures
        b == names_crate(seg@, name@),
{
    if eq_str(seg, name) {
        return true;
    }
    let n = name.unicode_len();
    if n < seg.len() && crate::text::starts_with_str(seg, name) && seg[n] == '-' {
        return true;
    }
    false
}

/// Whether `segs[j..j + tail.len()]` spells `tail`.
fn tail_matches(segs: &Vec<Vec<char>>, j: usize, tail: &[&str]) -> (b: bool)
    requires
        j + tail@.len() <= segs@.len(),
    ensures
        b == (segs@.map_values(|v: Vec<char>| v@).subrange(j as int, j + tail@.len()) == tail@.map_values(
            |s: &str| s@,
        )),
{
    let ghost sv = segs@.map_values(|v: Vec<char>| v@);
    let ghost tv = tail@.map_values(|s: &str| s@);
    let mut t: usize = 0;
    let len = segs.len();
    while t < tail.len()
        invariant
            len == segs@.len(),
            j + tail@.len() <= segs@.len(),
            sv == segs@.map_values(|v: Vec<char>| v@),
            tv == tail@.map_values(|s: &str| s@),
            t <= tail@.len(),
            forall|q: int| 0 <= q < t ==> sv[j + q] == tv[q],
        decreases tail@.len() - t,
    {
        if !eq_str(&segs[j + t], tail[t]) {
            assert(sv.subrange(j as int, j + tail@.len())[t as int] != tv[t as int]);
            return false;
        }
        t += 1;
    }
    assert(sv.subrange(j as int, j + tail@.len()) =~= tv);
    true
}

fn in_crate_exec(segs: &Vec<Vec<char>>, name: &str, tail: &[&str]) -> (b: bool)
    ensures
        b == in_crate(segs@.map_values(|v: Vec<char>| v@), name@, tail@.map_values(|s: &str| s@)),
{
    let ghost sv = segs@.map_values(|v: Vec<char>| v@);
    let ghost tv = tail@.map_values(|s: &str| s@);
    let want = tail.len();
    if segs.len() <= want {
        return false;
    }
    let mut j: usize = 0;
    let len = segs.len();
    while j + want < len
        invariant
            len == segs@.len(),
            want == tail@.len(),
            want < segs@.len(),
            sv == segs@.map_values(|v: Vec<char>| v@),
            tv == tail@.map_values(|s: &str| s@),
            j + want <= segs@.len(),
            forall|q: int| 0 <= q < j ==> !(names_crate(#[trigger] sv[q], name@) && sv.subrange(q + 1, q + 1 + want) == tv),
        decreases segs@.len() - j,
    {
        if names_crate_exec(&segs[j], name) && tail_matches(segs, j + 1, tail) {
            assert(sv[j as int] == segs@[j as int]@);
            return true;
        }
        assert(sv[j as int] == segs@[j as int]@);
        j += 1;
    }
    assert forall|q: int| 0 <= q && q + tv.len() + 1 <= sv.len() implies !(names_crate(#[trigger] sv[q], name@)
        && sv.subrange(q + 1, q + 1 + tv.len()) == tv) by {
        assert(q < j);
    }
    false
}

/// Whether a panic raised in `file` came from the network stack: smoltcp's
/// TCP, UDP or interface code (by path component, any version suffix), or our
/// own `src/netstack.rs`.
pub fn is_netstack_panic(file: &str) -> (b: bool)
    ensures
        b == spec_is_netstack_panic(file@),
{
    let segs = components(file);
    let ghost sv = segs@.map_values(|v: Vec<char>| v@);
    proof {
        reveal_strlit("src");
        reveal_strlit("socket");
        reveal_strlit("tcp.rs");
        reveal_strlit("udp.rs");
        reveal_strlit("iface");
        reveal_strlit("mod.rs");
    }
    let tcp: [&str; 3] = ["src", "socket", "tcp.rs"];
    let udp: [&str; 3] = ["src", "socket", "udp.rs"];
    let iface: [&str; 3] = ["src", "iface", "mod.rs"];
    assert(tcp@.map_values(|s: &str| s@) =~= seq!["src"@, "socket"@, "tcp.rs"@]);
    assert(udp@.map_values(|s: &str| s@) =~= seq!["src"@, "socket"@, "udp.rs"@]);
    assert(iface@.map_values(|s: &str| s@) =~= seq!["src"@, "iface"@, "mod.rs"@]);
    if in_crate_exec(&segs, "smoltcp", &tcp) || in_crate_exec(&segs, "smoltcp", &udp) || in_crate_exec(
        &segs,
        "smoltcp",
        &iface,
    ) {
        return true;
    }
    let n = segs.len();
    if n >= 2 {
        assert(sv[n - 2] == segs@[n - 2]@ && sv[n - 1] == segs@[n - 1]@);
    }
    n >= 2 && eq_str(&segs[n - 2], "src") && eq_str(&segs[n - 1], "netstack.rs")
}

/// What a line on the control stdin asks for.
#[derive(Debug, Clone, Copy, PartialEq, Eq, Structural)]
pub enum ControlAction {
    /// Shut the engine down gracefully.
    Shutdown,
    /// Let an in-flight scan finish with its best result.
    Cancel,
    /// A token nobody knows; reported, not acted on.
    Unrecognised,
    /// A blank line.
    Blank,
}

pub open spec fn spec_control_action(line: Seq<char>) -> ControlAction {
    let f = folded(line);
    if f == "shutdown"@ {
        ControlAction::Shutdown
    } else if f == "cancel"@ {
        ControlAction::Cancel
    } else if f.len() == 0 {
        ControlAction::Blank
    } else {
        ControlAction::Unrecognised
    }
}

pub fn control_action(line: &str) -> (a: ControlAction)
    ensures
        a == spec_control_action(line@),
{
    let f = fold(line);
    if eq_str(&f, "shutdown") {
        ControlAction::Shutdown
    } else if eq_str(&f, "cancel") {
        ControlAction::Cancel
    } else if f.len() == 0 {
        ControlAction::Blank
    } else {
        ControlAction::Unrecognised
    }
}

/// What a failed session tells the user: a hint for "no clean endpoint",
/// the error's own message otherwise.
pub open spec fn spec_failure_message(e: AetherError) -> Seq<char> {
    match e {
        AetherError::NoCleanEndpoint => "No working gateway found. Try HTTP/2, another scan mode, or a different network."@,
        _ => spec_message(e),
    }
}

pub fn failure_message(e: &AetherError) -> (m: String)
    ensures
        m@ == spec_failure_message(*e),
{
    match e {
        AetherError::NoCleanEndpoint => owned(
            "No working gateway found. Try HTTP/2, another scan mode, or a different network.",
        ),
        _ => e.message(),
    }
}

} // verus!
