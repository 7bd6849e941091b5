use vstd::prelude::*;

use crate::error::BridgeError;
use crate::protocol::socket_json::V1_EVENTS;
use crate::text::{lemma_split_joined, split_at, chars_of, push_char, string_from_chars, is_blank, is_blank_text, join_texts, joined, str_eq, texts_of};

use vstd::string::StringExecFns;

verus! {

broadcast use vstd::string::group_string_axioms;

/// How a handler's shell command is run.
#[derive(Debug, Clone, Copy, PartialEq, Eq, Structural)]
pub enum SpawnMode {
    /// In the background, at most a fixed number at a time.
    Async,
    /// To completion before the next event is handled.
    Sync,
}

impl Default for SpawnMode {
    fn default() -> (r: Self)
        ensures
            r == SpawnMode::Async,
    {
        SpawnMode::Async
    }
}

/// The spawn mode used when the config names none.
pub fn default_spawn() -> (r: SpawnMode)
    ensures
        r == SpawnMode::Async,
{
    SpawnMode::Async
}

/// The `[subscribe]` table.
#[derive(Debug, Clone, PartialEq, Eq)]
pub struct SubscribeConfig {
    pub events: Vec<String>,
}

/// The `[handler_defaults]` table.
#[derive(Debug, Clone, PartialEq, Eq)]
pub struct HandlerDefaults {
    pub debounce_ms: u64,
    pub spawn: SpawnMode,
}

impl Default for HandlerDefaults {
    fn default() -> (r: Self)
        ensures
            r.debounce_ms == 0,
            r.spawn == SpawnMode::Async,
    {
        HandlerDefaults { debounce_ms: 0, spawn: default_spawn() }
    }
}

/// One `[[handlers]]` entry. `when` holds the entries of the filter table in the order in
/// which they were read; they come from a table, so no key occurs twice, and what the
/// filter means depends neither on their order nor on how they are grouped
/// (`template::lemma_filters_compose`).
#[derive(Debug, Clone, PartialEq, Eq)]
pub struct Handler {
    pub event: String,
    pub command: String,
    pub debounce_ms: Option<u64>,
    pub spawn: Option<SpawnMode>,
    pub when: Option<Vec<(String, String)>>,
}

/// The whole handler configuration.
#[derive(Debug, Clone, PartialEq, Eq)]
pub struct Config {
    pub subscribe: SubscribeConfig,
    pub handler_defaults: HandlerDefaults,
    pub handlers: Vec<Handler>,
}

/// The debounce delay that applies to a handler.
pub open spec fn debounce_of(h: Handler, defaults: HandlerDefaults) -> u64 {
    match h.debounce_ms {
        Some(d) => d,
        None => defaults.debounce_ms,
    }
}

/// The spawn mode that applies to a handler.
pub open spec fn spawn_of(h: Handler, defaults: HandlerDefaults) -> SpawnMode {
    match h.spawn {
        Some(s) => s,
        None => defaults.spawn,
    }
}

impl Handler {
    /// The handler's own debounce delay, or the default one.
    pub fn effective_debounce_ms(&self, defaults: &HandlerDefaults) -> (d: u64)
        ensures
            d == debounce_of(*self, *defaults),
    {
        match self.debounce_ms {
            Some(d) => d,
            None => defaults.debounce_ms,
        }
    }

    /// The handler's own spawn mode, or the default one.
    pub fn effective_spawn(&self, defaults: &HandlerDefaults) -> (s: SpawnMode)
        ensures
            s == spawn_of(*self, *defaults),
    {
        match self.spawn {
            Some(s) => s,
            None => defaults.spawn,
        }
    }
}

/// The events that protocol version 1 defines.
pub open spec fn is_v1_event(e: Seq<char>) -> bool {
    ||| e == "document-focus"@
    ||| e == "document-open"@
    ||| e == "document-close"@
    ||| e == "document-write"@
    ||| e == "mode-changed"@
    ||| e == "cwd-changed"@
}

/// The subscribed events that protocol version 1 does not define, in order.
pub open spec fn unknown_of(events: Seq<String>) -> Seq<Seq<char>>
    decreases events.len(),
{
    if events.len() == 0 {
        Seq::empty()
    } else if is_v1_event(events.last()@) {
        unknown_of(events.drop_last())
    } else {
        unknown_of(events.drop_last()).push(events.last()@)
    }
}

/// Whether a name is one of the protocol's version 1 events.
pub fn is_known_event(name: &str) -> (r: bool)
    ensures
        r == is_v1_event(name@),
{
    let mut k: usize = 0;
    while k < 6
        invariant
            k <= 6,
            forall|j: int| 0 <= j < k ==> V1_EVENTS@[j]@ != name@,
        decreases 6 - k,
    {
        if str_eq(V1_EVENTS[k], name) {
            return true;
        }
        k = k + 1;
    }
    false
}

impl Config {
    /// Checks what the config must hold: some subscribed event, some handler, and no
    /// handler whose command is empty once trimmed (the first such handler is named).
    pub fn validate(&self) -> (r: Result<(), BridgeError>)
        ensures
            match r {
                Ok(()) => {
                    &&& self.subscribe.events@.len() > 0
                    &&& self.handlers@.len() > 0
                    &&& forall|i: int|
                        0 <= i < self.handlers@.len() ==> !is_blank_text(
                            #[trigger] self.handlers@[i].command@,
                        )
                },
                Err(BridgeError::EmptySubscribeEvents) => self.subscribe.events@.len() == 0,
                Err(BridgeError::NoHandlers) => {
                    &&& self.subscribe.events@.len() > 0
                    &&& self.handlers@.len() == 0
                },
                Err(BridgeError::EmptyHandlerCommand { event }) => {
                    &&& self.subscribe.events@.len() > 0
                    &&& exists|i: int|
                        {
                            &&& 0 <= i < self.handlers@.len()
                            &&& is_blank_text(#[trigger] self.handlers@[i].command@)
                            &&& event@ == self.handlers@[i].event@
                            &&& forall|j: int|
                                0 <= j < i ==> !is_blank_text(#[trigger] self.handlers@[j].command@)
                        }
                },
                Err(_) => false,
            },
    {
        if self.subscribe.events.len() == 0 {
            return Err(BridgeError::EmptySubscribeEvents);
        }
        if self.handlers.len() == 0 {
            return Err(BridgeError::NoHandlers);
        }
        let mut i: usize = 0;
        while i < self.handlers.len()
            invariant
                i <= self.handlers.len(),
                self.subscribe.events@.len() > 0,
                forall|j: int|
                    0 <= j < i ==> !is_blank_text(#[trigger] self.handlers@[j].command@),
            decreases self.handlers.len() - i,
        {
            if is_blank(self.handlers[i].command.as_str()) {
                let event = self.handlers[i].event.clone();
                assert(is_blank_text(self.handlers@[i as int].command@));
                return Err(BridgeError::EmptyHandlerCommand { event });
            }
            i = i + 1;
        }
        Ok(())
    }

    /// The subscribed events that protocol version 1 does not define, in order.
    pub fn unknown_events(&self) -> (r: Vec<String>)
        ensures
            texts_of(r@) == unknown_of(self.subscribe.events@),
    {
        let events = &self.subscribe.events;
        let mut r: Vec<String> = Vec::new();
        let mut i: usize = 0;
        while i < events.len()
            invariant
                i <= events.len(),
                events == &self.subscribe.events,
                texts_of(r@) == unknown_of(events@.take(i as int)),
            decreases events.len() - i,
        {
            let ghost t = events@.take(i + 1);
            assert(t.drop_last() == events@.take(i as int));
            assert(t.last() == events@[i as int]);
            if !is_known_event(events[i].as_str()) {
                r.push(events[i].clone());
                assert(texts_of(r@) == texts_of(r@.drop_last()).push(events@[i as int]@));
            }
            i = i + 1;
        }
        assert(events@.take(events.len() as int) == events@);
        r
    }

    /// The subscribed events joined with commas, as `hx --subscribe` takes them.
    pub fn subscribe_event_list(&self) -> (s: String)
        ensures
            s@ == joined(texts_of(self.subscribe.events@), ","@),
    {
        join_texts(&self.subscribe.events, ",")
    }
}

// ---------------------------------------------------------------- environment references

/// Whether a character may appear in a variable name: an ASCII letter or digit, or `_`.
pub open spec fn is_name_char(c: char) -> bool {
    ('0' <= c <= '9') || ('A' <= c <= 'Z') || ('a' <= c <= 'z') || c == '_'
}

/// The length of the run of name characters at the start of `s`.
pub open spec fn var_run_len(s: Seq<char>) -> nat
    decreases s.len(),
{
    if s.len() > 0 && is_name_char(s[0]) {
        1 + var_run_len(s.skip(1))
    } else {
        0
    }
}

/// A run of name characters never reaches past the end of the text.
pub proof fn lemma_var_run_len_bound(s: Seq<char>)
    ensures
        var_run_len(s) <= s.len(),
    decreases s.len(),
{
    if s.len() > 0 && is_name_char(s[0]) {
        lemma_var_run_len_bound(s.skip(1));
    }
}

/// The value of the first environment entry named `name`; empty when there is none.
pub open spec fn env_value(env: Seq<(String, String)>, name: Seq<char>) -> Seq<char>
    decreases env.len(),
{
    if env.len() == 0 {
        Seq::empty()
    } else if env[0].0@ == name {
        env[0].1@
    } else {
        env_value(env.skip(1), name)
    }
}

/// The text with `${NAME}` and `$NAME` references replaced by the values of the named
/// variables (nothing for an unset one). The name of `$NAME` is the longest run of name
/// characters after the `$`. A `$` that starts neither form, and every other character,
/// is kept as it is; inserted values are not expanded again.
pub open spec fn expanded(s: Seq<char>, env: Seq<(String, String)>) -> Seq<char>
    decreases s.len(),
{
    if s.len() == 0 {
        Seq::empty()
    } else if s[0] == '$' && s.len() >= 2 && s[1] == '{' {
        let k = var_run_len(s.skip(2)) as int;
        if k > 0 && 2 + k < s.len() && s[2 + k] == '}' {
            env_value(env, s.subrange(2, 2 + k)) + expanded(s.skip(3 + k), env)
        } else {
            seq![s[0]] + expanded(s.skip(1), env)
        }
    } else if s[0] == '$' && var_run_len(s.skip(1)) > 0 {
        let k = var_run_len(s.skip(1)) as int;
        proof {
            lemma_var_run_len_bound(s.skip(1));
        }
        env_value(env, s.subrange(1, 1 + k)) + expanded(s.skip(1 + k), env)
    } else {
        seq![s[0]] + expanded(s.skip(1), env)
    }
}

fn is_var_char(c: char) -> (r: bool)
    ensures
        r == is_name_char(c),
{
    ('0' <= c && c <= '9') || ('A' <= c && c <= 'Z') || ('a' <= c && c <= 'z') || c == '_'
}

fn var_run_end(s: &[char], start: usize) -> (e: usize)
    requires
        start <= s@.len(),
    ensures
        start <= e <= s@.len(),
        e - start == var_run_len(s@.skip(start as int)),
{
    let mut j = start;
    while j < s.len() && is_var_char(s[j])
        invariant
            start <= j <= s@.len(),
            var_run_len(s@.skip(start as int)) == (j - start) + var_run_len(s@.skip(j as int)),
        decreases s@.len() - j,
    {
        assert(s@.skip(j as int).skip(1) == s@.skip(j + 1));
        j = j + 1;
    }
    j
}

/// The name of a `${NAME}` reference whose name starts at `start` (just after `${`):
/// the position of the closing brace, when a nonempty name runs up to it.
fn parse_braced_var(s: &[char], start: usize) -> (r: Option<usize>)
    requires
        start <= s@.len(),
    ensures
        ({
            let k = var_run_len(s@.skip(start as int)) as int;
            match r {
                Some(end) => end == start + k && k > 0 && end < s@.len() && s@[end as int] == '}',
                None => !(k > 0 && start + k < s@.len() && s@[start + k] == '}'),
            }
        }),
{
    let end = var_run_end(s, start);
    if end > start && end < s.len() && s[end] == '}' {
        Some(end)
    } else {
        None
    }
}

/// The name of a `$NAME` reference whose name starts at `start` (just after `$`): where
/// the name ends, when it is nonempty.
fn parse_simple_var(s: &[char], start: usize) -> (r: Option<usize>)
    requires
        start <= s@.len(),
    ensures
        ({
            let k = var_run_len(s@.skip(start as int)) as int;
            match r {
                Some(end) => end == start + k && k > 0 && end <= s@.len(),
                None => k == 0,
            }
        }),
{
    let end = var_run_end(s, start);
    if end > start {
        Some(end)
    } else {
        None
    }
}

fn push_env_value(out: &mut String, env: &Vec<(String, String)>, name: &String)
    ensures
        final(out)@ == old(out)@ + env_value(env@, name@),
{
    let mut k: usize = 0;
    assert(env@.skip(0) == env@);
    while k < env.len()
        invariant
            k <= env.len(),
            out@ == old(out)@,
            env_value(env@, name@) == env_value(env@.skip(k as int), name@),
        decreases env.len() - k,
    {
        assert(env@.skip(k as int)[0] == env@[k as int]);
        assert(env@.skip(k as int).skip(1) == env@.skip(k + 1));
        if env[k].0 == *name {
            out.append(env[k].1.as_str());
            return;
        }
        k = k + 1;
    }
    assert(out@ + Seq::<char>::empty() == out@);
}

/// Appends the value of the variable named by `s[from..to]` (nothing when it is unset).
fn push_var(out: &mut String, env: &Vec<(String, String)>, s: &[char], from: usize, to: usize)
    requires
        from <= to <= s@.len(),
    ensures
        final(out)@ == old(out)@ + env_value(env@, s@.subrange(from as int, to as int)),
{
    let name = string_from_chars(&s[from..to]);
    push_env_value(out, env, &name);
}

/// Expand `$VAR` and `${VAR}` from the given environment (name and value of each
/// variable that is set).
pub fn expand_env_vars(input: &str, env: &Vec<(String, String)>) -> (out: String)
    ensures
        out@ == expanded(input@, env@),
{
    let chars = chars_of(input);
    let s = chars.as_slice();
    let ghost t = input@;
    let mut out = String::new();
    let mut i: usize = 0;
    assert(s@ == t);
    assert(t.skip(0) == t);
    while i < s.len()
        invariant
            i <= s@.len(),
            s@ == t,
            t == input@,
            expanded(t, env@) == out@ + expanded(t.skip(i as int), env@),
        decreases s@.len() - i,
    {
        let ghost rest = t.skip(i as int);
        let ghost before = out@;
        assert(rest[0] == t[i as int]);
        assert(rest.skip(1) == t.skip(i + 1));
        if s[i] == '$' {
            if i + 1 < s.len() && s[i + 1] == '{' {
                assert(rest[1] == t[i + 1]);
                assert(rest.skip(2) == t.skip(i + 2));
                if let Some(end) = parse_braced_var(s, i + 2) {
                    let ghost k = end - (i + 2);
                    assert(rest[2 + k] == t[end as int]);
                    assert(rest.subrange(2, 2 + k) == t.subrange(i + 2, end as int));
                    assert(rest.skip(3 + k) == t.skip(end + 1));
                    push_var(&mut out, env, s, i + 2, end);
                    i = end + 1;
                    continue;
                }
            } else if let Some(end) = parse_simple_var(s, i + 1) {
                let ghost k = end - (i + 1);
                assert(rest.subrange(1, 1 + k) == t.subrange(i + 1, end as int));
                assert(rest.skip(1 + k) == t.skip(end as int));
                push_var(&mut out, env, s, i + 1, end);
                i = end;
                continue;
            }
        }
        push_char(&mut out, s[i]);
        assert(out@ + expanded(t.skip(i + 1), env@) == before + (seq![t[i as int]] + expanded(
            t.skip(i + 1),
            env@,
        )));
        i = i + 1;
    }
    assert(t.skip(t.len() as int) == Seq::<char>::empty());
    assert(out@ + Seq::<char>::empty() == out@);
    out
}

/// Text without `$` comes out of the expansion unchanged.
pub proof fn lemma_expand_without_references(s: Seq<char>, env: Seq<(String, String)>)
    requires
        !s.contains('$'),
    ensures
        expanded(s, env) == s,
    decreases s.len(),
{
    if s.len() > 0 {
        assert(s.contains(s[0]));
        assert(!s.skip(1).contains('$')) by {
            if s.skip(1).contains('$') {
                let k = choose|k: int| 0 <= k < s.skip(1).len() && s.skip(1)[k] == '$';
                assert(s[k + 1] == '$');
            }
        }
        lemma_expand_without_references(s.skip(1), env);
        assert(s == seq![s[0]] + s.skip(1));
    }
}

/// A run of name characters followed by text that does not start with one has the
/// run's length.
proof fn lemma_var_run_of_name(name: Seq<char>, rest: Seq<char>)
    requires
        forall|i: int| 0 <= i < name.len() ==> is_name_char(#[trigger] name[i]),
        rest.len() == 0 || !is_name_char(rest[0]),
    ensures
        var_run_len(name + rest) == name.len(),
    decreases name.len(),
{
    if name.len() == 0 {
        assert(name + rest == rest);
    } else {
        assert((name + rest)[0] == name[0]);
        assert((name + rest).skip(1) == name.skip(1) + rest);
        lemma_var_run_of_name(name.skip(1), rest);
    }
}

/// A reference `$NAME` or `${NAME}` followed by more text expands to the variable's value
/// followed by the expansion of that text: the name is the longest run of name
/// characters, and the value is inserted as it is.
pub proof fn lemma_expand_reference(
    name: Seq<char>,
    rest: Seq<char>,
    env: Seq<(String, String)>,
)
    requires
        name.len() > 0,
        forall|i: int| 0 <= i < name.len() ==> is_name_char(#[trigger] name[i]),
    ensures
        rest.len() == 0 || !is_name_char(rest[0]) ==> expanded(seq!['$'] + name + rest, env)
            == env_value(env, name) + expanded(rest, env),
        expanded(seq!['$', '{'] + name + seq!['}'] + rest, env) == env_value(env, name)
            + expanded(rest, env),
{
    let k = name.len() as int;
    if rest.len() == 0 || !is_name_char(rest[0]) {
        let s = seq!['$'] + name + rest;
        assert(s.skip(1) == name + rest);
        lemma_var_run_of_name(name, rest);
        assert(s.subrange(1, 1 + k) == name);
        assert(s.skip(1 + k) == rest);
        assert(s[0] == '$');
        assert(name[0] != '{');
        assert(s[1] == name[0]);
    }
    let b = seq!['$', '{'] + name + seq!['}'] + rest;
    assert(b.skip(2) == name + (seq!['}'] + rest));
    lemma_var_run_of_name(name, seq!['}'] + rest);
    assert(b[2 + k] == '}');
    assert(b.subrange(2, 2 + k) == name);
    assert(b.skip(3 + k) == rest);
}

/// The comma-joined event list, split at its commas, gives back the subscribed events in
/// order (duplicates kept), provided no event holds a comma.
pub proof fn lemma_event_list_splits_back(events: Seq<String>)
    requires
        events.len() > 0,
        forall|i: int| 0 <= i < events.len() ==> !(#[trigger] events[i])@.contains(','),
    ensures
        split_at(joined(texts_of(events), ","@), ',') == texts_of(events),
{
    reveal_strlit(",");
    assert(","@ == seq![',']);
    let t = texts_of(events);
    assert forall|i: int| 0 <= i < t.len() implies !(#[trigger] t[i]).contains(',') by {
        assert(t[i] == events[i]@);
    }
    lemma_split_joined(t, ',');
}

/// A `$` that is followed by a character that is neither `{` nor a name character starts
/// no reference and is kept as it is; so is a `$` at the very end of the text.
pub proof fn lemma_lone_dollar_kept(c: char, rest: Seq<char>, env: Seq<(String, String)>)
    requires
        c != '{',
        !is_name_char(c),
    ensures
        expanded(seq!['$', c] + rest, env) == seq!['$'] + expanded(seq![c] + rest, env),
        expanded(seq!['$'], env) == seq!['$'],
{
    let s = seq!['$', c] + rest;
    assert(s[0] == '$' && s[1] == c);
    assert(s.skip(1) == seq![c] + rest);
    assert(var_run_len(s.skip(1)) == 0);
    let e = seq!['$'];
    assert(e.skip(1) == Seq::<char>::empty());
    assert(var_run_len(e.skip(1)) == 0);
    assert(expanded(Seq::<char>::empty(), env) == Seq::<char>::empty());
    assert(seq!['$'] + Seq::<char>::empty() == seq!['$']);
}

/// `${` that does not open a `${NAME}` reference (no name, or a name not closed by `}`)
/// keeps its `$`, and the text after the `$` is expanded on its own.
pub proof fn lemma_unclosed_brace_kept(rest: Seq<char>, env: Seq<(String, String)>)
    requires
        !({
            let k = var_run_len(rest) as int;
            k > 0 && k < rest.len() && rest[k] == '}'
        }),
    ensures
        expanded(seq!['$', '{'] + rest, env) == seq!['$'] + expanded(seq!['{'] + rest, env),
{
    let s = seq!['$', '{'] + rest;
    assert(s.skip(2) == rest);
    assert(s.skip(1) == seq!['{'] + rest);
    let k = var_run_len(rest) as int;
    if k > 0 && 2 + k < s.len() {
        assert(s[2 + k] == rest[k]);
    }
}

/// A handler that sets its own debounce delay or spawn mode gets exactly that, whatever
/// the defaults; one that sets none gets the default.
pub proof fn lemma_handler_settings_win(h: Handler, defaults: HandlerDefaults)
    ensures
        h.debounce_ms matches Some(d) ==> debounce_of(h, defaults) == d,
        h.debounce_ms is None ==> debounce_of(h, defaults) == defaults.debounce_ms,
        h.spawn matches Some(m) ==> spawn_of(h, defaults) == m,
        h.spawn is None ==> spawn_of(h, defaults) == defaults.spawn,
{
}

} // verus!
