use vstd::prelude::*;
use crate::text::{chars_of, join, string_of};

verus! {

/// Where the argument that starts `s` ends, reading from `i` in the given
/// state: at the first space outside quotes, where a backslash escapes the
/// character after it and a double quote opens or closes a quotation.
pub open spec fn arg_end(s: Seq<char>, i: int, quoted: bool, escaped: bool) -> int
    decreases s.len() - i,
{
    if i >= s.len() {
        s.len() as int
    } else if escaped {
        arg_end(s, i + 1, quoted, false)
    } else if s[i] == '\\' {
        arg_end(s, i + 1, quoted, true)
    } else if s[i] == '"' {
        arg_end(s, i + 1, !quoted, false)
    } else if s[i] == ' ' && !quoted {
        i
    } else {
        arg_end(s, i + 1, quoted, false)
    }
}

/// The length, in characters, of the argument that starts `s`.
pub open spec fn arg_len(s: Seq<char>) -> int {
    arg_end(s, 0, false, false)
}

/// The arguments of a command line: each runs to its closing space, which is
/// dropped.
pub open spec fn split_args(s: Seq<char>) -> Seq<Seq<char>>
    decreases s.len(),
{
    if s.len() == 0 {
        Seq::empty()
    } else {
        let e = arg_len(s);
        let next = if e + 1 <= s.len() { e + 1 } else { s.len() as int };
        proof {
            lemma_arg_end_range(s, 0, false, false);
        }
        seq![s.subrange(0, e)] + split_args(s.subrange(next, s.len() as int))
    }
}

/// An argument ends no earlier than where reading starts and no later than the line.
pub proof fn lemma_arg_end_range(s: Seq<char>, i: int, quoted: bool, escaped: bool)
    requires
        0 <= i,
    ensures
        i <= arg_end(s, i, quoted, escaped) <= s.len() || (i > s.len() && arg_end(s, i, quoted, escaped)
            == s.len()),
    decreases s.len() - i,
{
    if i < s.len() {
        if escaped {
            lemma_arg_end_range(s, i + 1, quoted, false);
        } else if s[i] == '\\' {
            lemma_arg_end_range(s, i + 1, quoted, true);
        } else if s[i] == '"' {
            lemma_arg_end_range(s, i + 1, !quoted, false);
        } else if !(s[i] == ' ' && !quoted) {
            lemma_arg_end_range(s, i + 1, quoted, false);
        }
    }
}

/// The length, in characters, of the argument that starts `cs`.
fn arg_length(cs: &[char]) -> (r: usize)
    ensures
        r == arg_len(cs@),
{
    let n = cs.len();
    let mut quoted = false;
    let mut escaped = false;
    let mut i: usize = 0;
    while i < n
        invariant
            i <= n,
            n == cs@.len(),
            arg_len(cs@) == arg_end(cs@, i as int, quoted, escaped),
        decreases n - i,
    {
        let c = cs[i];
        if escaped {
            escaped = false;
        } else if c == '\\' {
            escaped = true;
        } else if c == '"' {
            quoted = !quoted;
        } else if c == ' ' && !quoted {
            return i;
        }
        i = i + 1;
    }
    i
}

/// The length, in characters, of the argument that starts `command`.
pub fn consume_arg(command: &str) -> (r: usize)
    ensures
        r == arg_len(command@),
{
    let cs = chars_of(command);
    arg_length(cs.as_slice())
}

/// Splits a command line into its arguments.
pub fn split_command(command: &str) -> (r: Vec<String>)
    ensures
        r@.len() == split_args(command@).len(),
        forall|i: int| 0 <= i < r@.len() ==> (#[trigger] r@[i])@ == split_args(command@)[i],
{
    let cs = chars_of(command);
    let n = cs.len();
    let mut out: Vec<String> = Vec::new();
    let mut pos: usize = 0;
    assert(cs@.subrange(0, n as int) =~= cs@);
    assert(out@.map_values(|s: String| s@) + split_args(cs@) =~= split_args(cs@));
    while pos < n
        invariant
            pos <= n,
            n == cs@.len(),
            cs@ == command@,
            split_args(command@) == out@.map_values(|s: String| s@) + split_args(cs@.subrange(pos as int, n as int)),
        decreases n - pos,
    {
        let rest = vstd::slice::slice_subrange(cs.as_slice(), pos, n);
        let e = arg_length(rest);
        proof {
            lemma_arg_end_range(rest@, 0, false, false);
        }
        let piece = vstd::slice::slice_subrange(rest, 0, e);
        let ghost before = out@.map_values(|s: String| s@);
        let ghost tail = cs@.subrange(pos as int, n as int);
        assert(rest@ == tail);
        out.push(string_of(piece));
        let next = if e < rest.len() { pos + e + 1 } else { n };
        assert(tail.subrange(if e + 1 <= tail.len() { e + 1 } else { tail.len() as int }, tail.len() as int)
            =~= cs@.subrange(next as int, n as int));
        assert(out@.map_values(|s: String| s@) =~= before.push(piece@));
        assert(split_args(tail) == seq![tail.subrange(0, e as int)] + split_args(cs@.subrange(next as int, n as int)));
        assert(before.push(piece@) + split_args(cs@.subrange(next as int, n as int)) =~= before + split_args(tail));
        pos = next;
    }
    assert(split_args(cs@.subrange(n as int, n as int)) =~= Seq::<Seq<char>>::empty()) by {
        assert(cs@.subrange(n as int, n as int) =~= Seq::<char>::empty());
    }
    assert(split_args(command@) =~= out@.map_values(|s: String| s@));
    out
}

/// What `$` logs for a command it cannot find.
pub fn unknown_command_message(command: &str) -> (r: String)
    ensures
        r@ == "Unknown command "@ + command@,
{
    join("Unknown command ", command)
}

} // verus!
