use vstd::prelude::*;

use crate::cli::Cli;
use crate::error::BridgeError;
use crate::protocol::typable::{escape_path_for_typable, escaped, open_command, open_command_text};
use crate::text::{
    last_index_of, lemma_last_index_absent, lemma_last_index_bounds, lemma_last_index_after, all_digits, chars_of, decimal, digits_value, is_digit, is_digit_run, lemma_decimal_round_trip,
    parse_u64_digits, string_from_chars,
};

verus! {

broadcast use vstd::string::group_string_axioms;

/// The number that a run of digits denotes, when it fits in a `u64`.
pub open spec fn parsed_number(d: Seq<char>) -> Option<u64> {
    if digits_value(d) <= u64::MAX as nat {
        Some(digits_value(d) as u64)
    } else {
        None
    }
}

/// The line and column that an open argument names, read from the right. When the part
/// after the last colon is a run of digits, it is a suffix: if the part between the last
/// two colons is a run of digits too, they are `:line:column`; otherwise the last part is
/// `:line` alone. When the part after the last colon is not a run of digits (or there is
/// no colon), nothing is named. A number too large for a `u64` is not named.
pub open spec fn open_position(s: Seq<char>) -> (Option<u64>, Option<u64>) {
    match last_index_of(s, ':') {
        None => (None, None),
        Some(p2) => {
            let last = s.skip(p2 + 1);
            if !all_digits(last) {
                (None, None)
            } else {
                match last_index_of(s.take(p2), ':') {
                    Some(p1) => {
                        let middle = s.subrange(p1 + 1, p2);
                        if all_digits(middle) {
                            (parsed_number(middle), parsed_number(last))
                        } else {
                            (parsed_number(last), None)
                        }
                    },
                    None => (parsed_number(last), None),
                }
            }
        },
    }
}

fn last_colon_before(v: &[char], end: usize) -> (r: Option<usize>)
    requires
        end <= v@.len(),
    ensures
        match r {
            Some(q) => q < end && last_index_of(v@.take(end as int), ':') == Some(q as int),
            None => last_index_of(v@.take(end as int), ':') is None,
        },
{
    let mut j = end;
    while j > 0
        invariant
            j <= end <= v@.len(),
            last_index_of(v@.take(end as int), ':') == last_index_of(v@.take(j as int), ':'),
        decreases j,
    {
        let ghost t = v@.take(j as int);
        assert(t.last() == v@[j - 1]);
        assert(t.drop_last() == v@.take(j - 1));
        if v[j - 1] == ':' {
            return Some(j - 1);
        }
        j = j - 1;
    }
    None
}

fn parse_number(d: &[char]) -> (r: Option<u64>)
    requires
        all_digits(d@),
    ensures
        r == parsed_number(d@),
{
    parse_u64_digits(d)
}

/// Whether a text is a nonempty run of ASCII digits.
fn is_digits(s: &[char]) -> (r: bool)
    ensures
        r == all_digits(s@),
{
    is_digit_run(s)
}

/// Parse `path`, optional `:line`, optional `:column` suffix from the right. The path
/// keeps the whole argument, suffix included.
pub fn parse_open_arg(arg: &str) -> (r: (String, Option<u64>, Option<u64>))
    ensures
        r.0@ == arg@,
        (r.1, r.2) == open_position(arg@),
{
    let v = chars_of(arg);
    let s = v.as_slice();
    let path = string_from_chars(s);
    assert(s@ == v@);
    assert(s@.take(s@.len() as int) == s@);
    match last_colon_before(s, v.len()) {
        None => (path, None, None),
        Some(p2) => {
            let last = &s[p2 + 1..v.len()];
            assert(last@ == v@.skip(p2 + 1));
            assert(s@.take(p2 as int).len() == p2);
            if !is_digits(last) {
                return (path, None, None);
            }
            match last_colon_before(s, p2) {
                Some(p1) => {
                    let middle = &s[p1 + 1..p2];
                    assert(middle@ == v@.subrange(p1 + 1, p2 as int));
                    if is_digits(middle) {
                        (path, parse_number(middle), parse_number(last))
                    } else {
                        (path, parse_number(last), None)
                    }
                },
                None => (path, parse_number(last), None),
            }
        },
    }
}

/// Splits a path at its first colon: the part before it, and the rest from the colon on
/// (empty when there is no colon).
pub fn split_open_base(path: &str) -> (r: (String, String))
    ensures
        r.0@ + r.1@ == path@,
        !r.0@.contains(':'),
        r.1@.len() == 0 || r.1@[0] == ':',
{
    let v = chars_of(path);
    let mut i: usize = 0;
    while i < v.len() && v[i] != ':'
        invariant
            i <= v@.len(),
            forall|k: int| 0 <= k < i ==> v@[k] != ':',
        decreases v@.len() - i,
    {
        i = i + 1;
    }
    let base = string_from_chars(&v.as_slice()[0..i]);
    let suffix = string_from_chars(&v.as_slice()[i..v.len()]);
    assert(base@ + suffix@ == v@);
    proof {
        if base@.contains(':') {
            let k = choose|k: int| 0 <= k < base@.len() && base@[k] == ':';
            assert(v@[k] == ':');
        }
    }
    (base, suffix)
}

/// What opening a file needs from outside: the Helix socket, and the path to resolve
/// against the file system before it is handed to Helix.
#[derive(Debug)]
pub struct OpenRequest {
    pub socket: String,
    pub path: String,
}

/// The first step of `open`: resolve the socket (`env_socket` is the value of
/// `HELIX_SOCKET_PATH`), then read the argument's path.
pub fn run(cli: &Cli, arg: &str, env_socket: Option<String>) -> (r: Result<OpenRequest, BridgeError>)
    ensures
        match (cli.helix_socket, env_socket) {
            (Some(p), _) => r matches Ok(q) && q.socket@ == p@ && q.path@ == arg@,
            (None, Some(e)) => r matches Ok(q) && q.socket@ == e@ && q.path@ == arg@,
            (None, None) => r == Err::<OpenRequest, BridgeError>(BridgeError::HelixSocketUnset),
        },
{
    let socket = cli.helix_socket(env_socket)?;
    let (path, _line, _column) = parse_open_arg(arg);
    Ok(OpenRequest { socket, path })
}

/// The typable command that opens a resolved path in Helix.
pub fn command_for_path(path: &str) -> (cmd: String)
    ensures
        cmd@ == open_command_text(escaped(path@)),
{
    let escaped_path = escape_path_for_typable(path);
    open_command(escaped_path.as_str())
}

/// The decimal text of a number holds no colon and reads back as the number.
proof fn lemma_decimal_suffix(n: u64)
    ensures
        !decimal(n as nat).contains(':'),
        all_digits(decimal(n as nat)),
        parsed_number(decimal(n as nat)) == Some(n),
{
    lemma_decimal_round_trip(n as nat);
    let d = decimal(n as nat);
    if d.contains(':') {
        let k = choose|k: int| 0 <= k < d.len() && d[k] == ':';
        assert(is_digit(d[k]));
    }
}

/// A path followed by `:<line>:<column>` names that line and column, whatever the path.
pub proof fn lemma_line_and_column_suffix(path: Seq<char>, line: u64, column: u64)
    ensures
        open_position(path + ":"@ + decimal(line as nat) + ":"@ + decimal(column as nat)) == (
        Some(line), Some(column)),
{
    reveal_strlit(":");
    let dl = decimal(line as nat);
    let dc = decimal(column as nat);
    lemma_decimal_suffix(line);
    lemma_decimal_suffix(column);
    let first = path.push(':') + dl;
    let s = first.push(':') + dc;
    assert(path + ":"@ + dl + ":"@ + dc == s);
    lemma_last_index_after(first, dc, ':');
    let p2 = first.len() as int;
    assert(s.skip(p2 + 1) == dc);
    assert(s.take(p2) == first);
    lemma_last_index_after(path, dl, ':');
    assert(s.subrange(path.len() as int + 1, p2) == dl);
}

/// Whether a path itself ends in `:<digits>`.
pub open spec fn ends_in_number(path: Seq<char>) -> bool {
    match last_index_of(path, ':') {
        Some(p) => all_digits(path.skip(p + 1)),
        None => false,
    }
}

/// A path that does not itself end in `:<digits>`, followed by `:<line>`, names that line
/// and no column; colons elsewhere in the path do not matter.
pub proof fn lemma_line_suffix(path: Seq<char>, line: u64)
    requires
        !ends_in_number(path),
    ensures
        open_position(path + ":"@ + decimal(line as nat)) == (Some(line), None::<u64>),
{
    reveal_strlit(":");
    let dl = decimal(line as nat);
    lemma_decimal_suffix(line);
    let s = path.push(':') + dl;
    assert(path + ":"@ + dl == s);
    lemma_last_index_after(path, dl, ':');
    let p2 = path.len() as int;
    assert(s.skip(p2 + 1) == dl);
    assert(s.take(p2) == path);
    match last_index_of(path, ':') {
        Some(p1) => {
            lemma_last_index_bounds(path, ':');
            assert(s.subrange(p1 + 1, p2) == path.skip(p1 + 1));
        },
        None => {},
    }
}

/// A path without a colon names no line and no column.
pub proof fn lemma_plain_path(path: Seq<char>)
    requires
        !path.contains(':'),
    ensures
        open_position(path) == (None::<u64>, None::<u64>),
{
    lemma_last_index_absent(path, ':');
}

} // verus!
