//! How a second viewer hands the path it was started with to the one that runs.

use vstd::prelude::*;

use crate::text::{copy_text, decimal_text, trimmed};

verus! {

use crate::text::{decimal, is_trimmed, is_white_space};

/// The port on which the running viewer listens.
pub const IPC_PORT: u16 = 52384;

/// The address at which the running viewer listens.
pub open spec fn address_text() -> Seq<char> {
    "127.0.0.1:"@ + decimal(IPC_PORT as nat)
}

/// The address at which the running viewer listens.
pub fn ipc_address() -> (r: String)
    ensures
        r@ == address_text(),
{
    let mut r = copy_text("127.0.0.1:");
    r.append(decimal_text(IPC_PORT as u64).as_str());
    r
}

/// What is sent to have a file opened: the text of its path and the end of a line.
pub open spec fn request_text(path: Seq<char>) -> Seq<char> {
    path + "\n"@
}

/// What is sent to have a file opened: the text of its path and the end of a line.
pub fn open_request(path: &str) -> (r: String)
    ensures
        r@ == request_text(path@),
{
    let mut r = copy_text(path);
    r.append("\n");
    r
}

/// The text of the path in a line that was received.
pub fn requested_path(line: &str) -> (r: String)
    ensures
        is_trimmed(r@, line@),
{
    trimmed(line)
}

/// A text has just one trimmed form.
pub proof fn lemma_trimmed_unique(a: Seq<char>, b: Seq<char>, s: Seq<char>)
    requires
        is_trimmed(a, s),
        is_trimmed(b, s),
    ensures
        a == b,
{
    let (f, t) = choose|from: int, to: int|
        {
            &&& 0 <= from <= to <= s.len()
            &&& #[trigger] s.subrange(from, to) == a
            &&& forall|i: int| 0 <= i < from ==> is_white_space(#[trigger] s[i])
            &&& forall|i: int| to <= i < s.len() ==> is_white_space(#[trigger] s[i])
            &&& a.len() > 0 ==> !is_white_space(a[0]) && !is_white_space(a.last())
        };
    let (g, u) = choose|from: int, to: int|
        {
            &&& 0 <= from <= to <= s.len()
            &&& #[trigger] s.subrange(from, to) == b
            &&& forall|i: int| 0 <= i < from ==> is_white_space(#[trigger] s[i])
            &&& forall|i: int| to <= i < s.len() ==> is_white_space(#[trigger] s[i])
            &&& b.len() > 0 ==> !is_white_space(b[0]) && !is_white_space(b.last())
        };
    if a.len() > 0 {
        assert(a[0] == s[f] && a.last() == s[t - 1]);
    }
    if b.len() > 0 {
        assert(b[0] == s[g] && b.last() == s[u - 1]);
    }
    if a.len() > 0 && b.len() > 0 {
        assert(f == g && t == u);
    } else if a.len() > 0 {
        assert(is_white_space(s[f]));
    } else if b.len() > 0 {
        assert(is_white_space(s[g]));
    }
    assert(a =~= b);
}

/// What one viewer asks for, the other is asked for: a path that neither starts nor ends in white
/// space comes out of the request as it went in.
pub proof fn lemma_request_is_received(path: Seq<char>, received: Seq<char>)
    requires
        path.len() > 0 ==> !is_white_space(path[0]) && !is_white_space(path.last()),
        is_trimmed(received, request_text(path)),
    ensures
        received == path,
{
    reveal_strlit("\n");
    let line = path + "\n"@;
    let n = path.len() as int;
    assert(line.subrange(0, n) =~= path);
    assert(forall|i: int| n <= i < line.len() ==> is_white_space(#[trigger] line[i]));
    assert(is_trimmed(path, line));
    lemma_trimmed_unique(received, path, line);
}

} // verus!
