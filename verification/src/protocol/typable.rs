use vstd::prelude::*;

use crate::text::{chars_of, string_from_chars};
use vstd::string::StringExecFns;

verus! {

/// What one character of a path becomes inside a quoted typable argument.
pub open spec fn escaped_char(c: char) -> Seq<char> {
    if c == '\\' || c == '"' {
        seq!['\\', c]
    } else {
        seq![c]
    }
}

/// A path with every `\` and `"` preceded by a backslash.
pub open spec fn escaped(s: Seq<char>) -> Seq<char>
    decreases s.len(),
{
    if s.len() == 0 {
        seq![]
    } else {
        escaped_char(s[0]) + escaped(s.skip(1))
    }
}

/// Reading a quoted typable argument back: a backslash takes the next character literally.
pub open spec fn unescaped(t: Seq<char>) -> Seq<char>
    decreases t.len(),
{
    if t.len() == 0 {
        seq![]
    } else if t[0] == '\\' && t.len() >= 2 {
        seq![t[1]] + unescaped(t.skip(2))
    } else {
        seq![t[0]] + unescaped(t.skip(1))
    }
}

/// The typable command that opens an already escaped path.
pub open spec fn open_command_text(escaped_path: Seq<char>) -> Seq<char> {
    "open \""@ + escaped_path + "\""@
}

/// Escape `\` and `"` for paths embedded in typable `:open "…"` commands.
pub fn escape_path_for_typable(path: &str) -> (out: String)
    ensures
        out@ == escaped(path@),
{
    let v = chars_of(path);
    let mut out: Vec<char> = Vec::new();
    let mut i: usize = 0;
    assert(v@.skip(0) == v@);
    while i < v.len()
        invariant
            i <= v.len(),
            v@ == path@,
            escaped(path@) == out@ + escaped(v@.skip(i as int)),
        decreases v.len() - i,
    {
        let ch = v[i];
        let ghost rest = v@.skip(i as int);
        assert(rest[0] == ch);
        assert(rest.skip(1) == v@.skip(i + 1));
        let ghost before = out@;
        if ch == '\\' || ch == '"' {
            out.push('\\');
            out.push(ch);
        } else {
            out.push(ch);
        }
        assert(out@ == before + escaped_char(ch));
        assert(before + (escaped_char(ch) + escaped(v@.skip(i + 1))) == out@ + escaped(
            v@.skip(i + 1),
        ));
        i = i + 1;
    }
    assert(v@.skip(v.len() as int) == Seq::<char>::empty());
    assert(out@ + Seq::<char>::empty() == out@);
    string_from_chars(out.as_slice())
}

/// Build the typable open command body (hx adds the leading `:`).
pub fn open_command(escaped_path: &str) -> (cmd: String)
    ensures
        cmd@ == open_command_text(escaped_path@),
{
    let mut cmd = String::from_str("open \"");
    cmd.append(escaped_path);
    cmd.append("\"");
    cmd
}

/// Unescaping gives back exactly the path that was escaped.
pub proof fn lemma_unescape_escaped(s: Seq<char>)
    ensures
        unescaped(escaped(s)) == s,
    decreases s.len(),
{
    if s.len() > 0 {
        let rest = escaped(s.skip(1));
        lemma_unescape_escaped(s.skip(1));
        let t = escaped_char(s[0]) + rest;
        assert(escaped(s) == t);
        if s[0] == '\\' || s[0] == '"' {
            assert(t[0] == '\\' && t[1] == s[0]);
            assert(t.skip(2) == rest);
        } else {
            assert(t[0] == s[0]);
            assert(t.skip(1) == rest);
        }
        assert(s == seq![s[0]] + s.skip(1));
    }
}

/// Two paths with the same escaped form are the same path.
pub proof fn lemma_escape_injective(a: Seq<char>, b: Seq<char>)
    requires
        escaped(a) == escaped(b),
    ensures
        a == b,
{
    lemma_unescape_escaped(a);
    lemma_unescape_escaped(b);
}

/// Reading a quoted argument from just after its opening quote: characters up to the
/// first quote that no backslash escapes, a backslash taking the next character
/// literally. Gives the argument and the text after its closing quote, or nothing when
/// the quote is never closed.
pub open spec fn read_quoted(t: Seq<char>) -> Option<(Seq<char>, Seq<char>)>
    decreases t.len(),
{
    if t.len() == 0 {
        None
    } else if t[0] == '"' {
        Some((Seq::empty(), t.skip(1)))
    } else if t[0] == '\\' && t.len() >= 2 {
        match read_quoted(t.skip(2)) {
            Some((c, r)) => Some((seq![t[1]] + c, r)),
            None => None,
        }
    } else {
        match read_quoted(t.skip(1)) {
            Some((c, r)) => Some((seq![t[0]] + c, r)),
            None => None,
        }
    }
}

/// An escaped path followed by a quote reads back as exactly that path, and the quote
/// after it is the closing one: nothing in the path can end the argument early.
pub proof fn lemma_read_quoted_escaped(p: Seq<char>, r: Seq<char>)
    ensures
        read_quoted(escaped(p) + seq!['"'] + r) == Some((p, r)),
    decreases p.len(),
{
    let t = escaped(p) + seq!['"'] + r;
    if p.len() == 0 {
        assert(escaped(p) == Seq::<char>::empty());
        assert(t == seq!['"'] + r);
        assert(t.skip(1) == r);
    } else {
        lemma_read_quoted_escaped(p.skip(1), r);
        let rest = escaped(p.skip(1)) + seq!['"'] + r;
        assert(escaped(p) == escaped_char(p[0]) + escaped(p.skip(1)));
        if p[0] == '\\' || p[0] == '"' {
            assert(t == seq!['\\', p[0]] + rest);
            assert(t.skip(2) == rest);
        } else {
            assert(t == seq![p[0]] + rest);
            assert(t.skip(1) == rest);
        }
        assert(seq![p[0]] + p.skip(1) == p);
    }
}

/// The `:open` command is `open "` followed by an argument that reads back as exactly the
/// path and is closed by the command's last quote.
pub proof fn lemma_open_command_holds_path(p: Seq<char>)
    ensures
        open_command_text(escaped(p)).take(6) == "open \""@,
        read_quoted(open_command_text(escaped(p)).skip(6)) == Some((p, Seq::<char>::empty())),
{
    reveal_strlit("open \"");
    reveal_strlit("\"");
    let c = open_command_text(escaped(p));
    assert(c.skip(6) == escaped(p) + seq!['"'] + Seq::<char>::empty());
    assert(c.take(6) == "open \""@);
    lemma_read_quoted_escaped(p, Seq::empty());
}

} // verus!
