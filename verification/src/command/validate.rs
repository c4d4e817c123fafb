//! Argument checks for commands whose arguments end up in a shell line.
//!
//! `Transport::shell` sends its argument to the device's `sh -c`, so these
//! checks are the only thing standing between an agent-supplied string and
//! shell injection on the device.

use vstd::prelude::*;

use crate::command::error::{CommandError, CommandResult};
use crate::text::{
    chars_of, has_char, is_ascii_alnum, is_ascii_alnum_char, is_ascii_alpha, is_ascii_alpha_char,
    push_chars, push_str, split_on, split_vec, starts_with, starts_with_str, string_of, trim,
    trim_start, trim_start_vec, trim_vec, views,
};

verus! {

/// One `.`-separated piece of a package name: non-empty, and only ASCII
/// letters, digits and `_`.
pub open spec fn package_segment_ok(seg: Seq<char>) -> bool {
    seg.len() > 0 && forall|i: int|
        0 <= i < seg.len() ==> is_ascii_alnum(#[trigger] seg[i]) || seg[i] == '_'
}

/// A plausible Android package name: it contains a `.`, every `.`-separated
/// piece is non-empty and made of ASCII letters, digits and `_`, and it starts
/// with an ASCII letter.
pub open spec fn valid_package_name(p: Seq<char>) -> bool {
    &&& p.len() > 0
    &&& p.contains('.')
    &&& forall|k: int|
        0 <= k < split_on(p, '.').len() ==> package_segment_ok(#[trigger] split_on(p, '.')[k])
    &&& is_ascii_alpha(p[0])
}

pub open spec fn path_char_ok(c: char) -> bool {
    is_ascii_alnum(c) || c == '.' || c == '_' || c == '-' || c == '/'
}

/// A plain relative path: non-empty, not starting with `/`, no empty or `..`
/// piece between slashes, and only ASCII letters, digits, `.`, `_`, `-`, `/`.
pub open spec fn valid_relative_path(p: Seq<char>) -> bool {
    &&& p.len() > 0
    &&& p[0] != '/'
    &&& forall|k: int|
        0 <= k < split_on(p, '/').len() ==> {
            let seg = #[trigger] split_on(p, '/')[k];
            seg.len() > 0 && seg != ".."@
        }
    &&& forall|i: int| 0 <= i < p.len() ==> path_char_ok(#[trigger] p[i])
}

/// The message for a failed `run-as`: it quotes the output, trimmed.
pub open spec fn run_as_error(pkg: Seq<char>, raw: Seq<char>) -> Seq<char> {
    "cannot access `"@ + pkg + "`'s data dir: "@ + trim(raw)
        + " (the package must be debuggable, or the device rooted)"@
}

/// `run-as` failed: its output, less leading white space, starts with `run-as:`.
pub open spec fn run_as_failed(raw: Seq<char>) -> bool {
    starts_with(trim_start(raw), "run-as:"@)
}

fn segment_ok(seg: &Vec<char>) -> (r: bool)
    ensures
        r == package_segment_ok(seg@),
{
    if seg.len() == 0 {
        return false;
    }
    let mut i: usize = 0;
    while i < seg.len()
        invariant
            i <= seg.len(),
            forall|j: int| 0 <= j < i ==> is_ascii_alnum(#[trigger] seg@[j]) || seg@[j] == '_',
        decreases seg.len() - i,
    {
        let c = seg[i];
        if !(is_ascii_alnum_char(c) || c == '_') {
            return false;
        }
        i += 1;
    }
    true
}

/// Accepts exactly the plausible Android package names; anything else is an
/// invalid argument naming the rejected text.
pub fn validate_package_name(pkg: &str) -> (r: CommandResult<()>)
    ensures
        valid_package_name(pkg@) ==> r is Ok,
        !valid_package_name(pkg@) ==> (r matches Err(CommandError::InvalidArgument(m)) && m@
            == "`"@ + pkg@ + "` is not a valid Android package name"@),
{
    let p = chars_of(pkg);
    let mut valid = p.len() > 0 && has_char(&p, '.') && is_ascii_alpha_char(p[0]);
    if valid {
        let segs = split_vec(&p, '.');
        let ghost sv = views(segs@);
        let mut k: usize = 0;
        while k < segs.len()
            invariant
                k <= segs.len(),
                sv == views(segs@),
                sv == split_on(p@, '.'),
                valid ==> forall|j: int| 0 <= j < k ==> package_segment_ok(#[trigger] sv[j]),
                !valid ==> exists|j: int| 0 <= j < sv.len() && !package_segment_ok(#[trigger] sv[j]),
            decreases segs.len() - k,
        {
            assert(sv[k as int] == segs@[k as int]@);
            if valid && !segment_ok(&segs[k]) {
                valid = false;
            }
            k += 1;
        }
        assert(valid == valid_package_name(p@));
    }
    if valid {
        Ok(())
    } else {
        let mut msg: Vec<char> = Vec::new();
        push_str(&mut msg, "`");
        push_str(&mut msg, pkg);
        push_str(&mut msg, "` is not a valid Android package name");
        Err(CommandError::InvalidArgument(string_of(msg.as_slice())))
    }
}

fn is_dot_dot(seg: &Vec<char>) -> (r: bool)
    ensures
        r == (seg@ == ".."@),
{
    proof {
        reveal_strlit("..");
    }
    seg.len() == 2 && seg[0] == '.' && seg[1] == '.' && {
        assert(seg@ =~= ".."@);
        true
    }
}

/// Accepts exactly the plain relative paths; anything else is an invalid
/// argument naming the rejected text.
pub fn validate_relative_path(path: &str) -> (r: CommandResult<()>)
    ensures
        valid_relative_path(path@) ==> r is Ok,
        !valid_relative_path(path@) ==> (r matches Err(CommandError::InvalidArgument(m)) && m@
            == "`"@ + path@ + "` is not a safe relative path"@),
{
    let p = chars_of(path);
    let mut valid = p.len() > 0 && p[0] != '/';
    if valid {
        let mut i: usize = 0;
        while i < p.len()
            invariant
                i <= p.len(),
                valid ==> forall|j: int| 0 <= j < i ==> path_char_ok(#[trigger] p@[j]),
                !valid ==> exists|j: int| 0 <= j < p.len() && !path_char_ok(#[trigger] p@[j]),
            decreases p.len() - i,
        {
            let c = p[i];
            if valid && !(is_ascii_alnum_char(c) || c == '.' || c == '_' || c == '-' || c == '/') {
                valid = false;
                assert(!path_char_ok(p@[i as int]));
            }
            i += 1;
        }
    }
    if valid {
        let segs = split_vec(&p, '/');
        let ghost sv = views(segs@);
        let mut k: usize = 0;
        while k < segs.len()
            invariant
                k <= segs.len(),
                sv == views(segs@),
                sv == split_on(p@, '/'),
                valid ==> forall|j: int| 0 <= j < k ==> {
                    let seg = #[trigger] sv[j];
                    seg.len() > 0 && seg != ".."@
                },
                !valid ==> exists|j: int|
                    0 <= j < sv.len() && {
                        let seg = #[trigger] sv[j];
                        !(seg.len() > 0 && seg != ".."@)
                    },
            decreases segs.len() - k,
        {
            assert(sv[k as int] == segs@[k as int]@);
            if valid && (segs[k].len() == 0 || is_dot_dot(&segs[k])) {
                valid = false;
            }
            k += 1;
        }
    }
    assert(valid == valid_relative_path(p@));
    if valid {
        Ok(())
    } else {
        let mut msg: Vec<char> = Vec::new();
        push_str(&mut msg, "`");
        push_str(&mut msg, path);
        push_str(&mut msg, "` is not a safe relative path");
        Err(CommandError::InvalidArgument(string_of(msg.as_slice())))
    }
}

/// `run-as` prints a one-line error and produces no other output when it
/// can't switch into the package's uid (unknown package, not debuggable, no
/// root). That is surfaced as an invalid argument that quotes the error.
pub fn check_run_as_output(pkg: &str, raw: &str) -> (r: CommandResult<()>)
    ensures
        !run_as_failed(raw@) ==> r is Ok,
        run_as_failed(raw@) ==> (r matches Err(CommandError::InvalidArgument(m)) && m@
            == run_as_error(pkg@, raw@)),
{
    let rv = chars_of(raw);
    let ts = trim_start_vec(&rv);
    if starts_with_str(&ts, "run-as:") {
        let t = trim_vec(&rv);
        let mut msg: Vec<char> = Vec::new();
        push_str(&mut msg, "cannot access `");
        push_str(&mut msg, pkg);
        push_str(&mut msg, "`'s data dir: ");
        push_chars(&mut msg, &t);
        push_str(&mut msg, " (the package must be debuggable, or the device rooted)");
        return Err(CommandError::InvalidArgument(string_of(msg.as_slice())));
    }
    Ok(())
}

} // verus!
