//! Text lines and the nickname command.
//!
//! A decrypted type-0 payload is one text or command line. The receiver trims
//! it and classifies it: a line that opens with the nickname-change command
//! token renames the peer, any other line is an ordinary message. The sender
//! encodes a nickname change as such a line through the normal encrypted
//! text path, so both ends agree without a dedicated frame type.

use vstd::prelude::*;
use vstd::slice::{slice_subrange, slice_to_vec};

verus! {

/// ASCII whitespace, as both line trimming and token splitting see it.
pub open spec fn is_space(b: u8) -> bool {
    b == 32 || b == 9 || b == 10 || b == 13
}

/// `s` without its leading whitespace.
pub open spec fn spec_trim_start(s: Seq<u8>) -> Seq<u8>
    decreases s.len(),
{
    if s.len() > 0 && is_space(s.first()) {
        spec_trim_start(s.drop_first())
    } else {
        s
    }
}

/// `s` without its trailing whitespace.
pub open spec fn spec_trim_end(s: Seq<u8>) -> Seq<u8>
    decreases s.len(),
{
    if s.len() > 0 && is_space(s.last()) {
        spec_trim_end(s.drop_last())
    } else {
        s
    }
}

/// `s` without leading and trailing whitespace.
pub open spec fn spec_trim(s: Seq<u8>) -> Seq<u8> {
    spec_trim_end(spec_trim_start(s))
}

/// The longest whitespace-free suffix of `s`: what the receiver takes as the
/// argument of a command, the last whitespace-separated token.
pub open spec fn spec_last_token(s: Seq<u8>) -> Seq<u8>
    decreases s.len(),
{
    if s.len() == 0 {
        s
    } else if is_space(s.last()) {
        Seq::empty()
    } else {
        spec_last_token(s.drop_last()).push(s.last())
    }
}

/// Whether `s` begins with `p`.
pub open spec fn spec_starts_with(s: Seq<u8>, p: Seq<u8>) -> bool {
    s.len() >= p.len() && s.take(p.len() as int) == p
}

/// The long nickname command token: `/nick` and a space.
pub open spec fn spec_nick_token() -> Seq<u8> {
    seq![47u8, 110u8, 105u8, 99u8, 107u8, 32u8]
}

/// The short nickname command token: `/n` and a space.
pub open spec fn spec_nick_token_short() -> Seq<u8> {
    seq![47u8, 110u8, 32u8]
}

/// Whether a trimmed line is a nickname-change command.
pub open spec fn spec_is_nick_cmd(t: Seq<u8>) -> bool {
    spec_starts_with(t, spec_nick_token()) || spec_starts_with(t, spec_nick_token_short())
}

/// The nickname-change line announcing `n`: the command token, the nickname,
/// and a line feed, sent through the normal encrypted text path.
pub open spec fn spec_nick_command(n: Seq<u8>) -> Seq<u8> {
    spec_nick_token() + n + seq![10u8]
}

/// What one received line means.
pub enum LineClass {
    /// The peer renamed itself to `nick`.
    NickChange { nick: Vec<u8> },
    /// An ordinary message, trimmed.
    Text { line: Vec<u8> },
}

fn byte_is_space(b: u8) -> (r: bool)
    ensures
        r == is_space(b),
{
    b == 32 || b == 9 || b == 10 || b == 13
}

proof fn lemma_trim_start_skip(s: Seq<u8>, i: int)
    requires
        0 <= i <= s.len(),
        forall|k: int| 0 <= k < i ==> is_space(#[trigger] s[k]),
        i == s.len() || !is_space(s[i]),
    ensures
        spec_trim_start(s) == s.skip(i),
    decreases i,
{
    if i == 0 {
        assert(s.skip(0) =~= s);
    } else {
        assert(is_space(s.first()));
        lemma_trim_start_skip(s.drop_first(), i - 1);
        assert(s.drop_first().skip(i - 1) =~= s.skip(i));
    }
}

proof fn lemma_trim_end_take(s: Seq<u8>, i: int)
    requires
        0 <= i <= s.len(),
        forall|k: int| i <= k < s.len() ==> is_space(#[trigger] s[k]),
        i == 0 || !is_space(s[i - 1]),
    ensures
        spec_trim_end(s) == s.take(i),
    decreases s.len(),
{
    if i == s.len() {
        if s.len() > 0 {
            assert(!is_space(s.last()));
        }
        assert(s.take(i) =~= s);
    } else {
        assert(is_space(s.last()));
        lemma_trim_end_take(s.drop_last(), i);
        assert(s.drop_last().take(i) =~= s.take(i));
    }
}

proof fn lemma_last_token_skip(s: Seq<u8>, i: int)
    requires
        -1 <= i < s.len(),
        forall|k: int| i < k < s.len() ==> !is_space(#[trigger] s[k]),
        i == -1 || is_space(s[i]),
    ensures
        spec_last_token(s) == s.skip(i + 1),
    decreases s.len(),
{
    if s.len() == 0 {
        assert(s.skip(i + 1) =~= s);
    } else if i == s.len() - 1 {
        assert(s.skip(i + 1) =~= Seq::<u8>::empty());
    } else {
        assert(!is_space(s.last()));
        lemma_last_token_skip(s.drop_last(), i);
        assert(s.drop_last().skip(i + 1).push(s.last()) =~= s.skip(i + 1));
    }
}

/// Strips leading and trailing whitespace from a received line.
pub fn trim(line: &[u8]) -> (r: Vec<u8>)
    ensures
        r@ == spec_trim(line@),
{
    let len = line.len();
    let mut start: usize = 0;
    while start < len && byte_is_space(line[start])
        invariant
            start <= len,
            len == line@.len(),
            forall|k: int| 0 <= k < start ==> is_space(#[trigger] line@[k]),
        decreases len - start,
    {
        start = start + 1;
    }
    let mut end: usize = len;
    while end > start && byte_is_space(line[end - 1])
        invariant
            start <= end <= len,
            len == line@.len(),
            forall|k: int| end <= k < len ==> is_space(#[trigger] line@[k]),
        decreases end,
    {
        end = end - 1;
    }
    proof {
        lemma_trim_start_skip(line@, start as int);
        lemma_trim_end_take(line@.skip(start as int), end - start);
        assert(line@.skip(start as int).take(end - start) =~= line@.subrange(
            start as int,
            end as int,
        ));
    }
    slice_to_vec(slice_subrange(line, start, end))
}

fn slice_starts_with(s: &[u8], p: &[u8]) -> (r: bool)
    ensures
        r == spec_starts_with(s@, p@),
{
    if s.len() < p.len() {
        proof {
            assert(!spec_starts_with(s@, p@));
        }
        return false;
    }
    let mut i: usize = 0;
    while i < p.len()
        invariant
            i <= p@.len() <= s@.len(),
            forall|k: int| 0 <= k < i ==> s@[k] == p@[k],
        decreases p@.len() - i,
    {
        if s[i] != p[i] {
            proof {
                assert(s@.take(p@.len() as int)[i as int] != p@[i as int]);
            }
            return false;
        }
        i = i + 1;
    }
    proof {
        assert(s@.take(p@.len() as int) =~= p@);
    }
    true
}

/// The whitespace-free suffix of a line: the argument of a command.
fn last_token(line: &[u8]) -> (r: Vec<u8>)
    ensures
        r@ == spec_last_token(line@),
{
    let len = line.len();
    let mut cut: usize = len;
    while cut > 0 && !byte_is_space(line[cut - 1])
        invariant
            cut <= len,
            len == line@.len(),
            forall|k: int| cut <= k < len ==> !is_space(#[trigger] line@[k]),
        decreases cut,
    {
        cut = cut - 1;
    }
    proof {
        lemma_last_token_skip(line@, cut - 1);
        assert(line@.skip(cut as int) =~= line@.subrange(cut as int, len as int));
    }
    slice_to_vec(slice_subrange(line, cut, len))
}

/// Builds the text line that announces a nickname change to a peer.
pub fn nick_command(nick: &[u8]) -> (r: Vec<u8>)
    ensures
        r@ == spec_nick_command(nick@),
{
    let mut r: Vec<u8> = Vec::new();
    r.push(47);
    r.push(110);
    r.push(105);
    r.push(99);
    r.push(107);
    r.push(32);
    r.extend_from_slice(nick);
    r.push(10);
    proof {
        assert(r@ =~= spec_nick_command(nick@));
    }
    r
}

/// Trims a decrypted line and classifies it: a nickname-change command names
/// the peer's new nickname, its last whitespace-separated token; anything
/// else is an ordinary message.
pub fn classify_line(line: &[u8]) -> (r: LineClass)
    ensures
        ({
            let t = spec_trim(line@);
            if spec_is_nick_cmd(t) {
                r matches LineClass::NickChange { nick } && nick@ == spec_last_token(t)
            } else {
                r matches LineClass::Text { line: l } && l@ == t
            }
        }),
{
    let t = trim(line);
    let long_token: [u8; 6] = [47, 110, 105, 99, 107, 32];
    let short_token: [u8; 3] = [47, 110, 32];
    proof {
        assert(long_token@ =~= spec_nick_token());
        assert(short_token@ =~= spec_nick_token_short());
    }
    if slice_starts_with(t.as_slice(), long_token.as_slice()) || slice_starts_with(
        t.as_slice(),
        short_token.as_slice(),
    ) {
        let nick = last_token(t.as_slice());
        LineClass::NickChange { nick }
    } else {
        LineClass::Text { line: t }
    }
}

/// A nickname-change line built by `nick_command` is read back as exactly
/// that: the receiver classifies it as a nickname change and recovers the
/// announced nickname unchanged, for every whitespace-free, nonempty
/// nickname.
pub proof fn lemma_nick_command_round_trip(n: Seq<u8>)
    requires
        n.len() > 0,
        forall|k: int| 0 <= k < n.len() ==> !is_space(#[trigger] n[k]),
    ensures
        spec_is_nick_cmd(spec_trim(spec_nick_command(n))),
        spec_last_token(spec_trim(spec_nick_command(n))) == n,
{
    let cmd = spec_nick_command(n);
    assert(cmd[0] == 47u8 && !is_space(cmd[0]));
    lemma_trim_start_skip(cmd, 0);
    assert(cmd.skip(0) =~= cmd);
    let t = spec_nick_token() + n;
    assert(forall|k: int| 6 <= k < t.len() ==> t[k] == n[k - 6] && !is_space(#[trigger] t[k]));
    assert(!is_space(t[t.len() - 1]));
    assert(forall|k: int| t.len() <= k < cmd.len() ==> is_space(#[trigger] cmd[k]));
    lemma_trim_end_take(cmd, t.len() as int);
    assert(cmd.take(t.len() as int) =~= t);
    assert(t.take(spec_nick_token().len() as int) =~= spec_nick_token());
    assert(spec_starts_with(t, spec_nick_token()));
    assert(is_space(t[5]));
    lemma_last_token_skip(t, 5);
    assert(t.skip(6) =~= n);
}

} // verus!
