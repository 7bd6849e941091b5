use vstd::prelude::*;

use crate::protocol::socket_json::SocketLine;
use crate::text::{decimal, is_digit, lemma_decimal_round_trip, lemma_replaced_absent, replace_text, replaced, str_eq, u64_to_decimal};

verus! {

/// The text of an optional string field, empty when absent.
pub open spec fn field_text(o: Option<String>) -> Seq<char> {
    match o {
        Some(s) => s@,
        None => Seq::empty(),
    }
}

/// The decimal text of an optional number field, empty when absent.
pub open spec fn number_text(o: Option<u64>) -> Seq<char> {
    match o {
        Some(n) => decimal(n as nat),
        None => Seq::empty(),
    }
}

/// The command with `{path}`, `{line}`, `{column}` and `{mode}` replaced in that order,
/// each pass working on the result of the previous one.
pub open spec fn substituted(command: Seq<char>, event: SocketLine) -> Seq<char> {
    let a = replaced(command, "{path}"@, field_text(event.path));
    let b = replaced(a, "{line}"@, number_text(event.line));
    let c = replaced(b, "{column}"@, number_text(event.column));
    replaced(c, "{mode}"@, field_text(event.mode))
}

/// Whether one `when` filter entry holds of an event.
pub open spec fn filter_holds(key: Seq<char>, expected: Seq<char>, event: SocketLine) -> bool {
    if key == "path"@ {
        field_text(event.path) == expected
    } else if key == "line"@ {
        event.line is Some && decimal(event.line->0 as nat) == expected
    } else if key == "column"@ {
        event.column is Some && decimal(event.column->0 as nat) == expected
    } else if key == "mode"@ {
        field_text(event.mode) == expected
    } else if key == "event"@ {
        field_text(event.event) == expected
    } else {
        false
    }
}

/// Whether every entry of a `when` filter holds of an event.
pub open spec fn when_holds(filters: Seq<(String, String)>, event: SocketLine) -> bool {
    forall|i: int| 0 <= i < filters.len() ==> filter_holds(#[trigger] filters[i].0@, filters[i].1@, event)
}

fn text_or_empty(o: &Option<String>) -> (r: String)
    ensures
        r@ == field_text(*o),
{
    match o {
        Some(s) => s.clone(),
        None => String::new(),
    }
}

fn number_or_empty(o: Option<u64>) -> (r: String)
    ensures
        r@ == number_text(o),
{
    match o {
        Some(n) => u64_to_decimal(n),
        None => String::new(),
    }
}

/// Substitute `{path}`, `{line}`, `{column}`, `{mode}` from a Helix event line.
pub fn substitute(command: &str, event: &SocketLine) -> (out: String)
    ensures
        out@ == substituted(command@, *event),
{
    proof {
        reveal_strlit("{path}");
        reveal_strlit("{line}");
        reveal_strlit("{column}");
        reveal_strlit("{mode}");
    }
    let path = text_or_empty(&event.path);
    let line = number_or_empty(event.line);
    let column = number_or_empty(event.column);
    let mode = text_or_empty(&event.mode);
    let a = replace_text(command, "{path}", path.as_str());
    let b = replace_text(a.as_str(), "{line}", line.as_str());
    let c = replace_text(b.as_str(), "{column}", column.as_str());
    replace_text(c.as_str(), "{mode}", mode.as_str())
}

fn filter_matches(key: &String, expected: &String, event: &SocketLine) -> (r: bool)
    ensures
        r == filter_holds(key@, expected@, *event),
{
    if str_eq(key.as_str(), "path") {
        text_or_empty(&event.path) == *expected
    } else if str_eq(key.as_str(), "line") {
        match event.line {
            Some(n) => u64_to_decimal(n) == *expected,
            None => false,
        }
    } else if str_eq(key.as_str(), "column") {
        match event.column {
            Some(n) => u64_to_decimal(n) == *expected,
            None => false,
        }
    } else if str_eq(key.as_str(), "mode") {
        text_or_empty(&event.mode) == *expected
    } else if str_eq(key.as_str(), "event") {
        text_or_empty(&event.event) == *expected
    } else {
        false
    }
}

/// Returns true when optional `when` filters match the event fields: every entry must
/// hold, and an entry with a key other than `path`, `line`, `column`, `mode` or `event`
/// never holds.
pub fn matches_when(filters: &Vec<(String, String)>, event: &SocketLine) -> (r: bool)
    ensures
        r == when_holds(filters@, *event),
{
    let mut i: usize = 0;
    while i < filters.len()
        invariant
            i <= filters.len(),
            forall|j: int| 0 <= j < i ==> filter_holds(#[trigger] filters@[j].0@, filters@[j].1@, *event),
        decreases filters.len() - i,
    {
        if !filter_matches(&filters[i].0, &filters[i].1, event) {
            return false;
        }
        i = i + 1;
    }
    true
}

/// A command without `{` is run exactly as written, whatever the event.
pub proof fn lemma_substitute_plain_command(command: Seq<char>, event: SocketLine)
    requires
        !command.contains('{'),
    ensures
        substituted(command, event) == command,
{
    reveal_strlit("{path}");
    reveal_strlit("{line}");
    reveal_strlit("{column}");
    reveal_strlit("{mode}");
    lemma_replaced_absent(command, "{path}"@, field_text(event.path));
    lemma_replaced_absent(command, "{line}"@, number_text(event.line));
    lemma_replaced_absent(command, "{column}"@, number_text(event.column));
    lemma_replaced_absent(command, "{mode}"@, field_text(event.mode));
}

/// A filter holds exactly when each of its parts holds: neither the order of the entries
/// nor how they are grouped matters, and the empty filter holds of every event.
pub proof fn lemma_filters_compose(a: Seq<(String, String)>, b: Seq<(String, String)>, event: SocketLine)
    ensures
        when_holds(a + b, event) == (when_holds(a, event) && when_holds(b, event)),
        when_holds(Seq::empty(), event),
{
    let ab = a + b;
    if when_holds(a, event) && when_holds(b, event) {
        assert forall|i: int| 0 <= i < ab.len() implies filter_holds(
            #[trigger] ab[i].0@,
            ab[i].1@,
            event,
        ) by {
            if i < a.len() {
                assert(ab[i] == a[i]);
            } else {
                assert(ab[i] == b[i - a.len()]);
            }
        }
    }
    if when_holds(ab, event) {
        assert forall|i: int| 0 <= i < a.len() implies filter_holds(#[trigger] a[i].0@, a[i].1@, event) by {
            assert(ab[i] == a[i]);
        }
        assert forall|i: int| 0 <= i < b.len() implies filter_holds(#[trigger] b[i].0@, b[i].1@, event) by {
            assert(ab[i + a.len()] == b[i]);
        }
    }
}

// ---------------------------------------------------------------- one-pass reading of substitution

/// Whether a text is one of the four placeholders.
pub open spec fn is_placeholder(x: Seq<char>) -> bool {
    x == "{path}"@ || x == "{line}"@ || x == "{column}"@ || x == "{mode}"@
}

/// Whether a text holds no brace.
pub open spec fn brace_free(x: Seq<char>) -> bool {
    !x.contains('{') && !x.contains('}')
}

/// Pieces written one after another.
pub open spec fn concat_pieces(ps: Seq<Seq<char>>) -> Seq<char>
    decreases ps.len(),
{
    if ps.len() == 0 {
        Seq::empty()
    } else {
        ps[0] + concat_pieces(ps.skip(1))
    }
}

/// What one piece of a command becomes: a placeholder its field's text, other text itself.
pub open spec fn piece_value(x: Seq<char>, event: SocketLine) -> Seq<char> {
    if x == "{path}"@ {
        field_text(event.path)
    } else if x == "{line}"@ {
        number_text(event.line)
    } else if x == "{column}"@ {
        number_text(event.column)
    } else if x == "{mode}"@ {
        field_text(event.mode)
    } else {
        x
    }
}

/// The command with every placeholder replaced by its field's text in a single pass.
pub open spec fn filled(ps: Seq<Seq<char>>, event: SocketLine) -> Seq<char> {
    concat_pieces(ps.map_values(|x: Seq<char>| piece_value(x, event)))
}

/// Pieces each of which is a placeholder or text without braces.
pub open spec fn well_pieced(ps: Seq<Seq<char>>) -> bool {
    forall|i: int| 0 <= i < ps.len() ==> is_placeholder(#[trigger] ps[i]) || brace_free(ps[i])
}

/// One replacement pass over pieces: the pieces equal to `pat` become `rep`.
pub open spec fn pass_pieces(ps: Seq<Seq<char>>, pat: Seq<char>, rep: Seq<char>) -> Seq<Seq<char>> {
    ps.map_values(|x: Seq<char>| if x == pat { rep } else { x })
}

proof fn lemma_placeholder_shape(x: Seq<char>)
    requires
        is_placeholder(x),
    ensures
        x.len() >= 2,
        x[0] == '{',
        x[x.len() - 1] == '}',
        forall|k: int| 0 < k < x.len() ==> #[trigger] x[k] != '{',
        forall|k: int| 0 <= k < x.len() - 1 ==> #[trigger] x[k] != '}',
{
    reveal_strlit("{path}");
    reveal_strlit("{line}");
    reveal_strlit("{column}");
    reveal_strlit("{mode}");
}

/// Replacing in two parts separately is replacing in the whole, when no occurrence of the
/// pattern starts in the first part and runs into the second.
proof fn lemma_replaced_split(x: Seq<char>, y: Seq<char>, pat: Seq<char>, rep: Seq<char>)
    requires
        pat.len() > 0,
        forall|i: int|
            0 <= i < x.len() && i + pat.len() > x.len() && i + pat.len() <= x.len() + y.len()
                ==> #[trigger] (x + y).subrange(i, i + pat.len()) != pat,
    ensures
        replaced(x + y, pat, rep) == replaced(x, pat, rep) + replaced(y, pat, rep),
    decreases x.len(),
{
    let s = x + y;
    let n = pat.len() as int;
    if x.len() == 0 {
        assert(s == y);
        assert(replaced(x, pat, rep) == Seq::<char>::empty());
    } else if n <= s.len() && s.take(n) == pat {
        if n > x.len() {
            assert((x + y).subrange(0, 0 + pat.len() as int) != pat);
            assert(s.subrange(0, n) == s.take(n));
            assert(false);
        }
        assert(x.take(n) == s.take(n));
        assert(s.skip(n) == x.skip(n) + y);
        assert forall|i: int|
            0 <= i < x.skip(n).len() && i + n > x.skip(n).len() && i + n <= x.skip(n).len()
                + y.len() implies #[trigger] (x.skip(n) + y).subrange(i, i + n) != pat by {
            assert((x.skip(n) + y).subrange(i, i + n) == s.subrange(i + n, i + n + n));
        }
        lemma_replaced_split(x.skip(n), y, pat, rep);
    } else {
        if n <= x.len() && x.take(n) == pat {
            assert(s.take(n) == x.take(n));
        }
        assert(s[0] == x[0]);
        assert(s.skip(1) == x.skip(1) + y);
        assert forall|i: int|
            0 <= i < x.skip(1).len() && i + n > x.skip(1).len() && i + n <= x.skip(1).len()
                + y.len() implies #[trigger] (x.skip(1) + y).subrange(i, i + n) != pat by {
            assert((x.skip(1) + y).subrange(i, i + n) == s.subrange(i + 1, i + 1 + n));
        }
        lemma_replaced_split(x.skip(1), y, pat, rep);
        assert(seq![s[0]] + replaced(s.skip(1), pat, rep) == seq![x[0]] + replaced(x.skip(1), pat, rep)
            + replaced(y, pat, rep));
    }
}

/// A replacement pass on pieces: each piece is replaced on its own.
proof fn lemma_pass(ps: Seq<Seq<char>>, pat: Seq<char>, rep: Seq<char>)
    requires
        is_placeholder(pat),
        well_pieced(ps),
    ensures
        replaced(concat_pieces(ps), pat, rep) == concat_pieces(pass_pieces(ps, pat, rep)),
    decreases ps.len(),
{
    lemma_placeholder_shape(pat);
    let q = pass_pieces(ps, pat, rep);
    if ps.len() == 0 {
        assert(concat_pieces(ps) == Seq::<char>::empty());
        assert(q.len() == 0);
    } else {
        let x = ps[0];
        let y = concat_pieces(ps.skip(1));
        let n = pat.len() as int;
        assert(is_placeholder(ps[0]) || brace_free(ps[0]));
        assert(well_pieced(ps.skip(1))) by {
            assert forall|i: int| 0 <= i < ps.skip(1).len() implies is_placeholder(
                #[trigger] ps.skip(1)[i],
            ) || brace_free(ps.skip(1)[i]) by {
                assert(ps.skip(1)[i] == ps[i + 1]);
            }
        }
        lemma_pass(ps.skip(1), pat, rep);
        assert(q.skip(1) == pass_pieces(ps.skip(1), pat, rep));
        // No occurrence of `pat` starts in the first piece and runs past it.
        assert forall|i: int|
            0 <= i < x.len() && i + n > x.len() && i + n <= x.len() + y.len()
                implies #[trigger] (x + y).subrange(i, i + n) != pat by {
            let w = (x + y).subrange(i, i + n);
            if w == pat {
                assert(w[0] == (x + y)[i]);
                assert((x + y)[i] == x[i]);
                if brace_free(x) {
                    assert(x.contains(x[i]));
                } else {
                    lemma_placeholder_shape(x);
                    assert(i == 0);
                    assert(w[x.len() - 1] == x[x.len() - 1]);
                }
            }
        }
        lemma_replaced_split(x, y, pat, rep);
        // The first piece on its own.
        if x == pat {
            assert(x.take(n) == pat);
            assert(x.skip(n) == Seq::<char>::empty());
            assert(replaced(x, pat, rep) == rep + replaced(Seq::<char>::empty(), pat, rep));
            assert(rep + Seq::<char>::empty() == rep);
        } else if brace_free(x) {
            lemma_replaced_absent(x, pat, rep);
        } else {
            lemma_placeholder_shape(x);
            if n <= x.len() && x.take(n) == pat {
                assert(x[n - 1] == pat[n - 1]);
                assert(n == x.len());
                assert(x == x.take(n));
            }
            assert(!x.skip(1).contains(pat[0])) by {
                if x.skip(1).contains(pat[0]) {
                    let k = choose|k: int| 0 <= k < x.skip(1).len() && x.skip(1)[k] == pat[0];
                    assert(x[k + 1] == '{');
                }
            }
            lemma_replaced_absent(x.skip(1), pat, rep);
            assert(seq![x[0]] + x.skip(1) == x);
        }
        assert(q[0] == (if x == pat { rep } else { x }));
    }
}

/// Digits hold no brace.
proof fn lemma_number_text_brace_free(o: Option<u64>)
    ensures
        brace_free(number_text(o)),
{
    if let Some(n) = o {
        lemma_decimal_round_trip(n as nat);
        let d = decimal(n as nat);
        if d.contains('{') {
            let k = choose|k: int| 0 <= k < d.len() && d[k] == '{';
            assert(is_digit(d[k]));
        }
        if d.contains('}') {
            let k = choose|k: int| 0 <= k < d.len() && d[k] == '}';
            assert(is_digit(d[k]));
        }
    } else {
        assert(number_text(o) == Seq::<char>::empty());
    }
}

/// When every brace of a command belongs to a placeholder and the path and mode hold no
/// braces, the four passes of `substitute` come to one simultaneous replacement of each
/// placeholder by its field's text, all other text kept in order.
pub proof fn lemma_substitute_in_one_pass(ps: Seq<Seq<char>>, event: SocketLine)
    requires
        well_pieced(ps),
        brace_free(field_text(event.path)),
        brace_free(field_text(event.mode)),
    ensures
        substituted(concat_pieces(ps), event) == filled(ps, event),
{
    reveal_strlit("{path}");
    reveal_strlit("{line}");
    reveal_strlit("{column}");
    reveal_strlit("{mode}");
    let pv = field_text(event.path);
    let lv = number_text(event.line);
    let cv = number_text(event.column);
    let mv = field_text(event.mode);
    lemma_number_text_brace_free(event.line);
    lemma_number_text_brace_free(event.column);
    let p1 = pass_pieces(ps, "{path}"@, pv);
    let p2 = pass_pieces(p1, "{line}"@, lv);
    let p3 = pass_pieces(p2, "{column}"@, cv);
    let p4 = pass_pieces(p3, "{mode}"@, mv);
    // A text without braces is none of the placeholders.
    assert forall|x: Seq<char>| brace_free(x) implies !is_placeholder(x) by {
        if is_placeholder(x) {
            lemma_placeholder_shape(x);
            assert(x.contains(x[0]));
        }
    }
    lemma_pass(ps, "{path}"@, pv);
    assert(well_pieced(p1)) by {
        assert forall|i: int| 0 <= i < p1.len() implies is_placeholder(#[trigger] p1[i])
            || brace_free(p1[i]) by {
            assert(p1[i] == (if ps[i] == "{path}"@ { pv } else { ps[i] }));
        }
    }
    lemma_pass(p1, "{line}"@, lv);
    assert(well_pieced(p2)) by {
        assert forall|i: int| 0 <= i < p2.len() implies is_placeholder(#[trigger] p2[i])
            || brace_free(p2[i]) by {
            assert(p2[i] == (if p1[i] == "{line}"@ { lv } else { p1[i] }));
        }
    }
    lemma_pass(p2, "{column}"@, cv);
    assert(well_pieced(p3)) by {
        assert forall|i: int| 0 <= i < p3.len() implies is_placeholder(#[trigger] p3[i])
            || brace_free(p3[i]) by {
            assert(p3[i] == (if p2[i] == "{column}"@ { cv } else { p2[i] }));
        }
    }
    lemma_pass(p3, "{mode}"@, mv);
    let f = ps.map_values(|x: Seq<char>| piece_value(x, event));
    assert forall|i: int| 0 <= i < ps.len() implies #[trigger] p4[i] == f[i] by {
        let x = ps[i];
        assert(p1[i] == (if x == "{path}"@ { pv } else { x }));
        assert(p2[i] == (if p1[i] == "{line}"@ { lv } else { p1[i] }));
        assert(p3[i] == (if p2[i] == "{column}"@ { cv } else { p2[i] }));
        assert(p4[i] == (if p3[i] == "{mode}"@ { mv } else { p3[i] }));
        assert(is_placeholder(x) || brace_free(x));
        assert(!is_placeholder(pv) && !is_placeholder(lv) && !is_placeholder(cv)
            && !is_placeholder(mv));
    }
    assert(p4 == f);
}

/// Each kind of filter compares the event's own field: a text field (path, mode, event
/// name) reads as its text, or as the empty text when absent; a number field (line,
/// column) must be present and written in decimal; any other key never holds.
pub proof fn lemma_filter_keys(expected: Seq<char>, event: SocketLine)
    ensures
        filter_holds("path"@, expected, event) == (match event.path {
            Some(p) => p@ == expected,
            None => expected.len() == 0,
        }),
        filter_holds("mode"@, expected, event) == (match event.mode {
            Some(m) => m@ == expected,
            None => expected.len() == 0,
        }),
        filter_holds("event"@, expected, event) == (match event.event {
            Some(e) => e@ == expected,
            None => expected.len() == 0,
        }),
        filter_holds("line"@, expected, event) == (match event.line {
            Some(n) => decimal(n as nat) == expected,
            None => false,
        }),
        filter_holds("column"@, expected, event) == (match event.column {
            Some(n) => decimal(n as nat) == expected,
            None => false,
        }),
        forall|key: Seq<char>|
            key != "path"@ && key != "mode"@ && key != "event"@ && key != "line"@ && key
                != "column"@ ==> !#[trigger] filter_holds(key, expected, event),
{
    reveal_strlit("path");
    reveal_strlit("mode");
    reveal_strlit("event");
    reveal_strlit("line");
    reveal_strlit("column");
    // The keys differ in their first character.
    assert("path"@[0] == 'p' && "mode"@[0] == 'm' && "event"@[0] == 'e' && "line"@[0] == 'l'
        && "column"@[0] == 'c');
    if expected.len() == 0 {
        assert(expected == Seq::<char>::empty());
    }
}

proof fn lemma_single_placeholder(x: Seq<char>, event: SocketLine)
    requires
        is_placeholder(x),
        brace_free(field_text(event.path)),
        brace_free(field_text(event.mode)),
    ensures
        substituted(x, event) == piece_value(x, event),
{
    let ps = seq![x];
    assert(well_pieced(ps));
    lemma_substitute_in_one_pass(ps, event);
    assert(ps.skip(1) == Seq::<Seq<char>>::empty());
    assert(concat_pieces(ps) == x + concat_pieces(ps.skip(1)));
    assert(x + Seq::<char>::empty() == x);
    let f = ps.map_values(|y: Seq<char>| piece_value(y, event));
    assert(f.skip(1) == Seq::<Seq<char>>::empty());
    assert(concat_pieces(f) == f[0] + concat_pieces(f.skip(1)));
    assert(f[0] + Seq::<char>::empty() == f[0]);
}

/// A placeholder alone is replaced by exactly its field's text: the path and mode as
/// they are (when they hold no braces, so no later pass touches them), the line and
/// column in decimal, and an absent field by nothing.
pub proof fn lemma_placeholder_alone(event: SocketLine)
    requires
        brace_free(field_text(event.path)),
        brace_free(field_text(event.mode)),
    ensures
        event.path matches Some(p) ==> substituted("{path}"@, event) == p@,
        event.path is None ==> substituted("{path}"@, event) == Seq::<char>::empty(),
        event.mode matches Some(m) ==> substituted("{mode}"@, event) == m@,
        event.mode is None ==> substituted("{mode}"@, event) == Seq::<char>::empty(),
        event.line matches Some(n) ==> substituted("{line}"@, event) == decimal(n as nat),
        event.line is None ==> substituted("{line}"@, event) == Seq::<char>::empty(),
        event.column matches Some(n) ==> substituted("{column}"@, event) == decimal(n as nat),
        event.column is None ==> substituted("{column}"@, event) == Seq::<char>::empty(),
{
    reveal_strlit("{path}");
    reveal_strlit("{line}");
    reveal_strlit("{column}");
    reveal_strlit("{mode}");
    lemma_single_placeholder("{path}"@, event);
    lemma_single_placeholder("{line}"@, event);
    lemma_single_placeholder("{column}"@, event);
    lemma_single_placeholder("{mode}"@, event);
    // The placeholders differ in their second character.
    assert("{path}"@[1] == 'p' && "{line}"@[1] == 'l' && "{column}"@[1] == 'c' && "{mode}"@[1]
        == 'm');
}

} // verus!
