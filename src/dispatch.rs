use vstd::prelude::*;
use crate::text::{chars_of, split_chars, split_on, string_of_range};

verus! {

/// A line from the host's input channel.
#[derive(Debug, PartialEq, Eq)]
pub enum Request {
    /// A script path alone: start it, or stop it if it is running.
    Toggle { name: String },
    /// Start a script with a shared memory region and its `name:size` modules.
    Start { name: String, memory: String, modules: Vec<String> },
    /// A line with one separator only.
    Malformed,
}

/// The line without its line break (`\n` or `\r\n`).
pub open spec fn without_newline(s: Seq<char>) -> Seq<char> {
    if s.len() > 0 && s.last() == '\n' {
        let t = s.drop_last();
        if t.len() > 0 && t.last() == '\r' {
            t.drop_last()
        } else {
            t
        }
    } else {
        s
    }
}

/// The fields of a request line, separated by NUL: one field names a script to
/// toggle; three or more give a script, a shared memory name and the
/// comma-separated module list.
pub open spec fn fields(line: Seq<char>) -> Seq<Seq<char>> {
    split_on(without_newline(line), '\0')
}

/// Reads one line of the host's input channel.
pub fn parse_request(line: &str) -> (r: Request)
    ensures
        fields(line@).len() == 1 ==> (r matches Request::Toggle { name } && name@ == without_newline(line@)),
        fields(line@).len() == 2 ==> r is Malformed,
        fields(line@).len() >= 3 ==> (r matches Request::Start { name, memory, modules } && name@ == fields(
            line@,
        )[0] && memory@ == fields(line@)[1] && modules@.len() == split_on(fields(line@)[2], ',').len()
            && forall|i: int|
            0 <= i < modules@.len() ==> (#[trigger] modules@[i])@ == split_on(fields(line@)[2], ',')[i]),
{
    let cs = chars_of(line);
    let mut end = cs.len();
    if end > 0 && cs[end - 1] == '\n' {
        end = end - 1;
        if end > 0 && cs[end - 1] == '\r' {
            end = end - 1;
        }
    }
    let body = vstd::slice::slice_subrange(cs.as_slice(), 0, end);
    assert(body@ =~= without_newline(line@));
    let parts = split_chars(body, '\0');
    proof {
        lemma_split_nonempty(body@, '\0');
    }
    if parts.len() == 1 {
        let name = string_of_range(&cs, 0, end);
        return Request::Toggle { name };
    }
    if parts.len() == 2 {
        return Request::Malformed;
    }
    let name = parts[0].clone();
    let memory = parts[1].clone();
    let list = chars_of(parts[2].as_str());
    let modules = split_chars(list.as_slice(), ',');
    Request::Start { name, memory, modules }
}

/// A split always gives at least one piece.
proof fn lemma_split_nonempty(s: Seq<char>, sep: char)
    ensures
        split_on(s, sep).len() >= 1,
{
    reveal_with_fuel(split_on, 1);
}

} // verus!
