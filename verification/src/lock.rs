//! What the lock of a running loop tells.
use vstd::prelude::*;

use crate::error::Error;
use crate::text;

verus! {

/// What the lock file holds while a process runs the loop.
pub fn lock_text(pid: u32) -> (r: String)
    ensures
        r@ == text::dec(pid as nat) + "\n"@,
{
    let mut out = text::dec_string(pid as u64);
    out.push_str("\n");
    out
}

/// The process that a lock file names.
pub open spec fn holder(content: Seq<char>) -> Option<int> {
    match text::read_int(text::trimmed(content)) {
        Some(p) => if i32::MIN <= p <= i32::MAX {
            Some(p)
        } else {
            None
        },
        None => None,
    }
}

/// What is told of a lock that another process holds.
pub open spec fn held_text(content: Option<Seq<char>>, errno: Seq<char>) -> Seq<char> {
    (match content {
        Some(c) => match holder(c) {
            Some(p) => " (held by pid "@ + text::dec_int(p) + ")"@,
            None => Seq::empty(),
        },
        None => Seq::empty(),
    }) + " ["@ + errno + "]"@
}

/// The error for a lock that another process holds. `content` is what its file
/// holds, where it can be read.
pub fn held(path: &str, content: Option<String>, errno: &str) -> (r: Error)
    ensures
        r matches Error::Locked { path: p, detail } && p@ == path@ && detail@ == held_text(
            match content {
                Some(c) => Some(c@),
                None => None,
            },
            errno@,
        ),
{
    let mut detail = String::new();
    if let Some(c) = content {
        if let Some(p) = text::parse_i32(text::trim(c.as_str()).as_str()) {
            detail = text::owned(" (held by pid ");
            detail.push_str(text::dec_int_string(p as i64).as_str());
            detail.push_str(")");
        }
    }
    detail.push_str(" [");
    detail.push_str(errno);
    detail.push_str("]");
    Error::Locked { path: text::owned(path), detail }
}

/// A lock file names the process that wrote it.
pub proof fn law_lock_names_its_holder(pid: u32)
    requires
        pid <= i32::MAX,
    ensures
        holder(text::dec(pid as nat) + "\n"@) == Some(pid as int),
{
    reveal_strlit("\n");
    let d = text::dec(pid as nat);
    let s = d + "\n"@;
    text::law_dec_reads_back(pid as nat);
    assert(text::is_digit(d[0]));
    assert(text::is_digit(d[d.len() - 1]));
    assert(s.drop_last() =~= d);
    assert(s.last() == '\n');
    assert(text::without_trailing_white(s) == text::without_trailing_white(d));
    assert(text::without_leading_white(s) == s);
    assert(text::trimmed(s) == d);
}

/// A held lock is told with its holder, where the lock file names one, and with
/// the reason that the system gave.
pub proof fn law_held_lock_names_the_holder(pid: u32, errno: Seq<char>)
    requires
        pid <= i32::MAX,
    ensures
        held_text(Some(text::dec(pid as nat) + "\n"@), errno) == " (held by pid "@ + text::dec(
            pid as nat,
        ) + ")"@ + " ["@ + errno + "]"@,
        held_text(None, errno) == " ["@ + errno + "]"@,
{
    law_lock_names_its_holder(pid);
    assert(Seq::<char>::empty() + " ["@ + errno + "]"@ == " ["@ + errno + "]"@);
}

} // verus!
