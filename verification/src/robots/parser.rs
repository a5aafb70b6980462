//! The grammar of one line of robots.txt.
//!
//! A line is read from its start. Each function says where the parts of the
//! line stand, as indices into its characters, or what is missing. Nothing is
//! ever read twice: once a part has been recognised, what follows it must fit,
//! or the line is none of that kind.

use vstd::prelude::*;
use crate::robots::text::{chars_of, find_at, lower, same_ignoring_case, stands_at, string_of};

verus! {

/// The kinds of character that the grammar tells apart.
#[derive(Clone, Copy, Debug, PartialEq, Eq)]
pub enum CharClass {
    /// Space, tab, carriage return and line feed.
    Space,
    /// What an agent name is made of: ASCII letters, `-`, `_` and `*`.
    Agent,
    /// What the name of a directive is made of: anything but a space and `:`.
    Name,
    /// What a value is made of: anything but a space, `#` and a line feed.
    Value,
}

/// What a line lacks to be of the kind asked for.
#[derive(Clone, Copy, Debug, PartialEq, Eq)]
pub enum Mismatch {
    /// The keyword does not stand where it is expected.
    Keyword,
    /// No `:` follows the name.
    Colon,
    /// No agent name follows the `:`.
    Agent,
    /// The directive has no name.
    Name,
    /// Text follows the `:`, but it does not start with a value.
    Value,
}

/// The name of a directive: one of the two that the policy acts on, or another.
#[derive(Clone, Copy, Debug, PartialEq, Eq)]
pub enum Directive {
    Allow,
    Disallow,
    Other,
}

/// Where the parts of a rule stand in its line.
pub struct RuleAt {
    pub directive: Directive,
    /// Start and end of the name as written.
    pub name: (int, int),
    /// Start and end of the value.
    pub value: (int, int),
}

/// Where the parts of a rule stand in its line.
#[derive(Clone, Copy, Debug, PartialEq, Eq)]
pub struct RuleSpan {
    pub directive: Directive,
    /// Start and end of the name as written.
    pub name: (usize, usize),
    /// Start and end of the value.
    pub value: (usize, usize),
}

impl View for RuleSpan {
    type V = RuleAt;

    open spec fn view(&self) -> RuleAt {
        RuleAt {
            directive: self.directive,
            name: (self.name.0 as int, self.name.1 as int),
            value: (self.value.0 as int, self.value.1 as int),
        }
    }
}

/// Whether `c` may stand in an agent name.
pub open spec fn is_agent_char(c: char) -> bool {
    ('a' <= c && c <= 'z') || ('A' <= c && c <= 'Z') || c == '-' || c == '_' || c == '*'
}

impl CharClass {
    /// Whether `c` is of this kind.
    pub open spec fn holds(self, c: char) -> bool {
        match self {
            CharClass::Space => c == ' ' || c == '\t' || c == '\r' || c == '\n',
            CharClass::Agent => is_agent_char(c),
            CharClass::Name => c != ' ' && c != ':',
            CharClass::Value => c != ' ' && c != '#' && c != '\n',
        }
    }

    /// Whether `c` is of this kind.
    pub fn admits(self, c: char) -> (b: bool)
        ensures
            b == self.holds(c),
    {
        match self {
            CharClass::Space => c == ' ' || c == '\t' || c == '\r' || c == '\n',
            CharClass::Agent => is_user_agent(c),
            CharClass::Name => c != ' ' && c != ':',
            CharClass::Value => c != ' ' && c != '#' && c != '\n',
        }
    }
}

/// The end of the longest run of characters of kind `class` that starts at
/// `from`: `from` itself where there is none.
pub open spec fn run_end(input: Seq<char>, from: int, class: CharClass) -> int
    decreases input.len() - from,
{
    if 0 <= from < input.len() && class.holds(input[from]) {
        run_end(input, from + 1, class)
    } else {
        from
    }
}

/// Whether `word` stands in `input` at `at`, in capitals or small letters.
pub open spec fn keyword_at(input: Seq<char>, at: int, word: Seq<char>) -> bool {
    stands_at(word, input, at, true)
}

/// Whether a `:` stands in `input` at `at`.
pub open spec fn colon_at(input: Seq<char>, at: int) -> bool {
    0 <= at < input.len() && input[at] == ':'
}

/// A user-agent line: whitespace, the keyword `user-agent`, whitespace, `:`,
/// whitespace, an agent name and whitespace, each whitespace optional. The
/// result holds the start and the end of the name, and the index after the
/// last whitespace.
pub open spec fn user_agent_at(input: Seq<char>) -> Result<(int, int, int), Mismatch> {
    let word = run_end(input, 0, CharClass::Space);
    if !keyword_at(input, word, "user-agent"@) {
        Err(Mismatch::Keyword)
    } else {
        let colon = run_end(input, word + "user-agent"@.len(), CharClass::Space);
        if !colon_at(input, colon) {
            Err(Mismatch::Colon)
        } else {
            let start = run_end(input, colon + 1, CharClass::Space);
            let end = run_end(input, start, CharClass::Agent);
            if end == start {
                Err(Mismatch::Agent)
            } else {
                Ok((start, end, run_end(input, end, CharClass::Space)))
            }
        }
    }
}

/// What `user_agent` gives for `input`: the rest of the line and the agent name.
pub open spec fn user_agent_of(input: Seq<char>) -> Result<(Seq<char>, Seq<char>), Mismatch> {
    match user_agent_at(input) {
        Ok((start, end, rest)) => Ok(
            (input.subrange(rest, input.len() as int), input.subrange(start, end)),
        ),
        Err(m) => Err(m),
    }
}

/// The end of `allow` or of its misspelling `alow` at `from`, if one of them
/// stands there.
pub open spec fn allow_at(input: Seq<char>, from: int) -> Option<int> {
    if keyword_at(input, from, "allow"@) {
        Some(from + "allow"@.len())
    } else if keyword_at(input, from, "alow"@) {
        Some(from + "alow"@.len())
    } else {
        None
    }
}

/// The end of `disallow` or of its misspelling `disalow` at `from`, if one of
/// them stands there.
pub open spec fn disallow_at(input: Seq<char>, from: int) -> Option<int> {
    if keyword_at(input, from, "disallow"@) {
        Some(from + "disallow"@.len())
    } else if keyword_at(input, from, "disalow"@) {
        Some(from + "disalow"@.len())
    } else {
        None
    }
}

/// The directive whose name starts at `from`, and the end of that name. The
/// two known directives are tried first, in the order `allow`, `disallow`: a
/// name that only begins with one of them is read as that directive, and ends
/// where the keyword ends.
pub open spec fn directive_at(input: Seq<char>, from: int) -> Result<(Directive, int), Mismatch> {
    match allow_at(input, from) {
        Some(end) => Ok((Directive::Allow, end)),
        None => match disallow_at(input, from) {
            Some(end) => Ok((Directive::Disallow, end)),
            None => {
                let end = run_end(input, from, CharClass::Name);
                if end == from {
                    Err(Mismatch::Name)
                } else {
                    Ok((Directive::Other, end))
                }
            },
        },
    }
}

/// The name under which a directive is kept: the two known directives in
/// small letters and spelt right, any other as it was written.
pub open spec fn name_text(input: Seq<char>, directive: Directive, name: (int, int)) -> Seq<char> {
    match directive {
        Directive::Allow => "allow"@,
        Directive::Disallow => "disallow"@,
        Directive::Other => input.subrange(name.0, name.1),
    }
}

/// What `allow_rule` gives for `input`.
pub open spec fn allow_rule_of(input: Seq<char>) -> Result<(Seq<char>, Seq<char>), Mismatch> {
    match allow_at(input, 0) {
        Some(end) => Ok((input.subrange(end, input.len() as int), "allow"@)),
        None => Err(Mismatch::Keyword),
    }
}

/// What `disallow_rule` gives for `input`.
pub open spec fn disallow_rule_of(input: Seq<char>) -> Result<(Seq<char>, Seq<char>), Mismatch> {
    match disallow_at(input, 0) {
        Some(end) => Ok((input.subrange(end, input.len() as int), "disallow"@)),
        None => Err(Mismatch::Keyword),
    }
}

/// What `rule_name` gives for `input`: the rest after the name and the
/// whitespace around it, and the name.
pub open spec fn rule_name_of(input: Seq<char>) -> Result<(Seq<char>, Seq<char>), Mismatch> {
    let from = run_end(input, 0, CharClass::Space);
    match directive_at(input, from) {
        Ok((directive, end)) => Ok(
            (
                input.subrange(run_end(input, end, CharClass::Space), input.len() as int),
                name_text(input, directive, (from, end)),
            ),
        ),
        Err(m) => Err(m),
    }
}

/// A rule line: whitespace, the name of a directive, whitespace, `:`,
/// whitespace and a value, each whitespace optional. The value is empty where
/// the line is over, and else runs up to the next space, `#` or line feed and
/// is not empty.
pub open spec fn rule_at(input: Seq<char>) -> Result<RuleAt, Mismatch> {
    let from = run_end(input, 0, CharClass::Space);
    match directive_at(input, from) {
        Err(m) => Err(m),
        Ok((directive, end)) => {
            let colon = run_end(input, end, CharClass::Space);
            if !colon_at(input, colon) {
                Err(Mismatch::Colon)
            } else {
                let start = run_end(input, colon + 1, CharClass::Space);
                let stop = run_end(input, start, CharClass::Value);
                if start < input.len() && stop == start {
                    Err(Mismatch::Value)
                } else {
                    Ok(RuleAt { directive, name: (from, end), value: (start, stop) })
                }
            }
        },
    }
}

/// The name and the value of the rule that stands at `at` in `input`.
pub open spec fn rule_text(input: Seq<char>, at: RuleAt) -> (Seq<char>, Seq<char>) {
    (name_text(input, at.directive, at.name), input.subrange(at.value.0, at.value.1))
}

/// What `rule` gives for `input`: the rest of the line after the value, and
/// the rule.
pub open spec fn rule_of(input: Seq<char>) -> Result<
    (Seq<char>, (Seq<char>, Seq<char>)),
    Mismatch,
> {
    match rule_at(input) {
        Ok(at) => Ok((input.subrange(at.value.1, input.len() as int), rule_text(input, at))),
        Err(m) => Err(m),
    }
}

/// A run ends inside the input, holds only characters of its kind, and cannot
/// be made longer.
pub proof fn lemma_run_end(input: Seq<char>, from: int, class: CharClass)
    requires
        0 <= from <= input.len(),
    ensures
        from <= run_end(input, from, class) <= input.len(),
        forall|k: int| from <= k < run_end(input, from, class) ==> class.holds(input[k]),
        run_end(input, from, class) < input.len() ==> !class.holds(
            input[run_end(input, from, class)],
        ),
    decreases input.len() - from,
{
    if from < input.len() && class.holds(input[from]) {
        lemma_run_end(input, from + 1, class);
    }
}

/// A run is read from where it starts: what stands before that place has no
/// part in where the run ends.
pub proof fn lemma_run_end_after(head: Seq<char>, tail: Seq<char>, from: int, class: CharClass)
    requires
        0 <= from <= tail.len(),
    ensures
        run_end(head + tail, head.len() + from, class) == head.len() + run_end(tail, from, class),
    decreases tail.len() - from,
{
    if from < tail.len() {
        assert((head + tail)[head.len() + from] == tail[from]);
        if class.holds(tail[from]) {
            lemma_run_end_after(head, tail, from + 1, class);
        }
    }
}

/// A run goes on through characters of its kind.
pub proof fn lemma_run_end_through(input: Seq<char>, from: int, to: int, class: CharClass)
    requires
        0 <= from <= to <= input.len(),
        forall|k: int| from <= k < to ==> class.holds(input[k]),
    ensures
        run_end(input, from, class) == run_end(input, to, class),
    decreases to - from,
{
    if from < to {
        lemma_run_end_through(input, from + 1, to, class);
    }
}

/// A word stands where it was put, in whatever case it was written.
proof fn lemma_keyword_stands(head: Seq<char>, word: Seq<char>, tail: Seq<char>, keyword: Seq<char>)
    requires
        same_ignoring_case(word, keyword),
    ensures
        keyword_at(head + word + tail, head.len() as int, keyword),
{
    let input = head + word + tail;
    assert(lower(word).len() == word.len());
    assert(lower(keyword).len() == keyword.len());
    assert(input.subrange(head.len() as int, (head.len() + keyword.len()) as int) =~= word);
}

/// A keyword does not stand where a word stands that differs from it at the
/// index `at`, whatever the case.
proof fn lemma_keyword_stands_not(
    head: Seq<char>,
    word: Seq<char>,
    tail: Seq<char>,
    keyword: Seq<char>,
    at: int,
)
    requires
        0 <= at < word.len(),
        at < keyword.len(),
        lower(word)[at] != lower(keyword)[at],
    ensures
        !keyword_at(head + word + tail, head.len() as int, keyword),
{
    let input = head + word + tail;
    if keyword_at(input, head.len() as int, keyword) {
        let window = input.subrange(head.len() as int, (head.len() + keyword.len()) as int);
        assert(window[at] == word[at]);
        assert(lower(window)[at] == lower(keyword)[at]);
    }
}

/// What follows the name of a known directive is read the same whatever
/// stands before it: two lines that hold the same directive and go on alike
/// after its name state the same rule and leave the same rest.
proof fn lemma_rule_after_name(
    first: Seq<char>,
    second: Seq<char>,
    tail: Seq<char>,
    directive: Directive,
)
    requires
        directive != Directive::Other,
        directive_at(first + tail, run_end(first + tail, 0, CharClass::Space)) == Ok::<
            (Directive, int),
            Mismatch,
        >((directive, first.len() as int)),
        directive_at(second + tail, run_end(second + tail, 0, CharClass::Space)) == Ok::<
            (Directive, int),
            Mismatch,
        >((directive, second.len() as int)),
    ensures
        rule_of(first + tail) == rule_of(second + tail),
        rule_name_of(first + tail) == rule_name_of(second + tail),
{
    let a = first + tail;
    let b = second + tail;
    let m = first.len() as int;
    let n = second.len() as int;
    lemma_run_end_after(first, tail, 0, CharClass::Space);
    lemma_run_end_after(second, tail, 0, CharClass::Space);
    lemma_run_end(tail, 0, CharClass::Space);
    let colon = run_end(tail, 0, CharClass::Space);
    assert(a.subrange(m + colon, a.len() as int) =~= tail.subrange(colon, tail.len() as int));
    assert(b.subrange(n + colon, b.len() as int) =~= tail.subrange(colon, tail.len() as int));
    if colon < tail.len() {
        assert(a[m + colon] == tail[colon]);
        assert(b[n + colon] == tail[colon]);
    }
    if colon_at(tail, colon) {
        lemma_run_end_after(first, tail, colon + 1, CharClass::Space);
        lemma_run_end_after(second, tail, colon + 1, CharClass::Space);
        lemma_run_end(tail, colon + 1, CharClass::Space);
        let start = run_end(tail, colon + 1, CharClass::Space);
        lemma_run_end_after(first, tail, start, CharClass::Value);
        lemma_run_end_after(second, tail, start, CharClass::Value);
        lemma_run_end(tail, start, CharClass::Value);
        let stop = run_end(tail, start, CharClass::Value);
        assert(a.subrange(m + start, m + stop) =~= tail.subrange(start, stop));
        assert(b.subrange(n + start, n + stop) =~= tail.subrange(start, stop));
        assert(a.subrange(m + stop, a.len() as int) =~= tail.subrange(stop, tail.len() as int));
        assert(b.subrange(n + stop, b.len() as int) =~= tail.subrange(stop, tail.len() as int));
    }
}

/// The misspelling `alow` is read as `allow`: a line that begins, after
/// whitespace, with one of the two, in any case, states the same rule and
/// leaves the same rest as the line with the other in its place, and the name
/// of that rule is `allow`.
pub proof fn law_misspelt_allow(
    head: Seq<char>,
    short: Seq<char>,
    long: Seq<char>,
    tail: Seq<char>,
)
    requires
        forall|i: int| 0 <= i < head.len() ==> CharClass::Space.holds(head[i]),
        same_ignoring_case(short, "alow"@),
        same_ignoring_case(long, "allow"@),
    ensures
        rule_of(head + short + tail) == rule_of(head + long + tail),
        rule_name_of(head + short + tail) == rule_name_of(head + long + tail),
        rule_name_of(head + short + tail) matches Ok((_, name)) && name == "allow"@,
{
    reveal_strlit("alow");
    reveal_strlit("allow");
    let a = head + short + tail;
    let b = head + long + tail;
    let at = head.len() as int;
    assert(lower(short).len() == short.len() && lower(long).len() == long.len());
    assert(lower(short)[0] == 'a' && lower(long)[0] == 'a');
    assert(lower(short)[2] == 'o');
    assert(a[at] == short[0] && b[at] == long[0]);
    lemma_run_end_through(a, 0, at, CharClass::Space);
    lemma_run_end_through(b, 0, at, CharClass::Space);
    lemma_keyword_stands(head, short, tail, "alow"@);
    lemma_keyword_stands(head, long, tail, "allow"@);
    lemma_keyword_stands_not(head, short, tail, "allow"@, 2);
    lemma_rule_after_name(head + short, head + long, tail, Directive::Allow);
}

/// The misspelling `disalow` is read as `disallow`: a line that begins, after
/// whitespace, with one of the two, in any case, states the same rule and
/// leaves the same rest as the line with the other in its place, and the name
/// of that rule is `disallow`.
pub proof fn law_misspelt_disallow(
    head: Seq<char>,
    short: Seq<char>,
    long: Seq<char>,
    tail: Seq<char>,
)
    requires
        forall|i: int| 0 <= i < head.len() ==> CharClass::Space.holds(head[i]),
        same_ignoring_case(short, "disalow"@),
        same_ignoring_case(long, "disallow"@),
    ensures
        rule_of(head + short + tail) == rule_of(head + long + tail),
        rule_name_of(head + short + tail) == rule_name_of(head + long + tail),
        rule_name_of(head + short + tail) matches Ok((_, name)) && name == "disallow"@,
{
    reveal_strlit("alow");
    reveal_strlit("allow");
    reveal_strlit("disalow");
    reveal_strlit("disallow");
    let a = head + short + tail;
    let b = head + long + tail;
    let at = head.len() as int;
    assert(lower(short).len() == short.len() && lower(long).len() == long.len());
    assert(lower(short)[0] == 'd' && lower(long)[0] == 'd');
    assert(lower(short)[5] == 'o');
    assert(a[at] == short[0] && b[at] == long[0]);
    lemma_run_end_through(a, 0, at, CharClass::Space);
    lemma_run_end_through(b, 0, at, CharClass::Space);
    lemma_keyword_stands_not(head, short, tail, "allow"@, 0);
    lemma_keyword_stands_not(head, short, tail, "alow"@, 0);
    lemma_keyword_stands_not(head, long, tail, "allow"@, 0);
    lemma_keyword_stands_not(head, long, tail, "alow"@, 0);
    lemma_keyword_stands(head, short, tail, "disalow"@);
    lemma_keyword_stands(head, long, tail, "disallow"@);
    lemma_keyword_stands_not(head, short, tail, "disallow"@, 5);
    lemma_rule_after_name(head + short, head + long, tail, Directive::Disallow);
}

/// Whether `c` may stand in an agent name.
pub fn is_user_agent(c: char) -> (b: bool)
    ensures
        b == is_agent_char(c),
{
    (c >= 'a' && c <= 'z') || (c >= 'A' && c <= 'Z') || c == '-' || c == '_' || c == '*'
}

/// The end of the longest run of characters of kind `class` in `line` that
/// starts at `from`.
pub fn run(line: &Vec<char>, from: usize, class: CharClass) -> (end: usize)
    requires
        from <= line.len(),
    ensures
        end == run_end(line@, from as int, class),
        from <= end <= line.len(),
{
    let mut i: usize = from;
    while i < line.len() && class.admits(line[i])
        invariant
            from <= i <= line.len(),
            run_end(line@, i as int, class) == run_end(line@, from as int, class),
        decreases line.len() - i,
    {
        i += 1;
    }
    i
}

/// Reads `line` as a user-agent line.
pub fn agent_span(line: &Vec<char>) -> (span: Result<(usize, usize, usize), Mismatch>)
    ensures
        match span {
            Ok((start, end, rest)) => user_agent_at(line@) == Ok::<(int, int, int), Mismatch>(
                (start as int, end as int, rest as int),
            ) && start < end <= rest <= line.len(),
            Err(m) => user_agent_at(line@) == Err::<(int, int, int), Mismatch>(m),
        },
{
    let word = run(line, 0, CharClass::Space);
    match find_at("user-agent", line, word, true) {
        None => Err(Mismatch::Keyword),
        Some(n) => {
            let colon = run(line, word + n, CharClass::Space);
            if colon < line.len() && line[colon] == ':' {
                let start = run(line, colon + 1, CharClass::Space);
                let end = run(line, start, CharClass::Agent);
                if end == start {
                    Err(Mismatch::Agent)
                } else {
                    Ok((start, end, run(line, end, CharClass::Space)))
                }
            } else {
                Err(Mismatch::Colon)
            }
        },
    }
}

fn allow_end(line: &Vec<char>, from: usize) -> (end: Option<usize>)
    requires
        from <= line.len(),
    ensures
        match end {
            Some(e) => allow_at(line@, from as int) == Some(e as int) && from <= e <= line.len(),
            None => allow_at(line@, from as int) is None,
        },
{
    match find_at("allow", line, from, true) {
        Some(n) => Some(from + n),
        None => match find_at("alow", line, from, true) {
            Some(n) => Some(from + n),
            None => None,
        },
    }
}

fn disallow_end(line: &Vec<char>, from: usize) -> (end: Option<usize>)
    requires
        from <= line.len(),
    ensures
        match end {
            Some(e) => disallow_at(line@, from as int) == Some(e as int) && from <= e
                <= line.len(),
            None => disallow_at(line@, from as int) is None,
        },
{
    match find_at("disallow", line, from, true) {
        Some(n) => Some(from + n),
        None => match find_at("disalow", line, from, true) {
            Some(n) => Some(from + n),
            None => None,
        },
    }
}

/// Reads the name of a directive that starts at `from`.
pub fn directive_span(line: &Vec<char>, from: usize) -> (found: Result<(Directive, usize), Mismatch>)
    requires
        from <= line.len(),
    ensures
        match found {
            Ok((directive, end)) => directive_at(line@, from as int) == Ok::<
                (Directive, int),
                Mismatch,
            >((directive, end as int)) && from <= end <= line.len(),
            Err(m) => directive_at(line@, from as int) == Err::<(Directive, int), Mismatch>(m),
        },
{
    match allow_end(line, from) {
        Some(end) => Ok((Directive::Allow, end)),
        None => match disallow_end(line, from) {
            Some(end) => Ok((Directive::Disallow, end)),
            None => {
                let end = run(line, from, CharClass::Name);
                if end == from {
                    Err(Mismatch::Name)
                } else {
                    Ok((Directive::Other, end))
                }
            },
        },
    }
}

/// Reads `line` as a rule line.
pub fn rule_span(line: &Vec<char>) -> (span: Result<RuleSpan, Mismatch>)
    ensures
        match span {
            Ok(s) => rule_at(line@) == Ok::<RuleAt, Mismatch>(s@) && s.name.0 <= s.name.1
                <= s.value.0 <= s.value.1 <= line.len(),
            Err(m) => rule_at(line@) == Err::<RuleAt, Mismatch>(m),
        },
{
    let from = run(line, 0, CharClass::Space);
    match directive_span(line, from) {
        Err(m) => Err(m),
        Ok((directive, end)) => {
            let colon = run(line, end, CharClass::Space);
            if colon < line.len() && line[colon] == ':' {
                let start = run(line, colon + 1, CharClass::Space);
                let stop = run(line, start, CharClass::Value);
                if start < line.len() && stop == start {
                    Err(Mismatch::Value)
                } else {
                    Ok(RuleSpan { directive, name: (from, end), value: (start, stop) })
                }
            } else {
                Err(Mismatch::Colon)
            }
        },
    }
}

/// The name under which the directive of a rule is kept.
pub fn directive_name(line: &Vec<char>, directive: Directive, name: (usize, usize)) -> (text: String)
    requires
        name.0 <= name.1 <= line.len(),
    ensures
        text@ == name_text(line@, directive, (name.0 as int, name.1 as int)),
{
    match directive {
        Directive::Allow => "allow".to_owned(),
        Directive::Disallow => "disallow".to_owned(),
        Directive::Other => string_of(line, name.0, name.1),
    }
}

/// Reads a user-agent line: gives what follows it in `input`, and the agent
/// name.
pub fn user_agent(input: &str) -> (found: Result<(String, String), Mismatch>)
    ensures
        match found {
            Ok((rest, name)) => user_agent_of(input@) == Ok::<(Seq<char>, Seq<char>), Mismatch>(
                (rest@, name@),
            ),
            Err(m) => user_agent_of(input@) == Err::<(Seq<char>, Seq<char>), Mismatch>(m),
        },
{
    let line = chars_of(input);
    match agent_span(&line) {
        Ok((start, end, rest)) => Ok(
            (string_of(&line, rest, line.len()), string_of(&line, start, end)),
        ),
        Err(m) => Err(m),
    }
}

/// Reads `allow` or `alow` at the start of `input`: gives what follows it, and
/// the name `allow`.
pub fn allow_rule(input: &str) -> (found: Result<(String, String), Mismatch>)
    ensures
        match found {
            Ok((rest, name)) => allow_rule_of(input@) == Ok::<(Seq<char>, Seq<char>), Mismatch>(
                (rest@, name@),
            ),
            Err(m) => allow_rule_of(input@) == Err::<(Seq<char>, Seq<char>), Mismatch>(m),
        },
{
    let line = chars_of(input);
    match allow_end(&line, 0) {
        Some(end) => Ok((string_of(&line, end, line.len()), "allow".to_owned())),
        None => Err(Mismatch::Keyword),
    }
}

/// Reads `disallow` or `disalow` at the start of `input`: gives what follows
/// it, and the name `disallow`.
pub fn disallow_rule(input: &str) -> (found: Result<(String, String), Mismatch>)
    ensures
        match found {
            Ok((rest, name)) => disallow_rule_of(input@) == Ok::<
                (Seq<char>, Seq<char>),
                Mismatch,
            >((rest@, name@)),
            Err(m) => disallow_rule_of(input@) == Err::<(Seq<char>, Seq<char>), Mismatch>(m),
        },
{
    let line = chars_of(input);
    match disallow_end(&line, 0) {
        Some(end) => Ok((string_of(&line, end, line.len()), "disallow".to_owned())),
        None => Err(Mismatch::Keyword),
    }
}

/// Reads the name of a directive and the whitespace around it: gives what
/// follows them in `input`, and the name.
pub fn rule_name(input: &str) -> (found: Result<(String, String), Mismatch>)
    ensures
        match found {
            Ok((rest, name)) => rule_name_of(input@) == Ok::<(Seq<char>, Seq<char>), Mismatch>(
                (rest@, name@),
            ),
            Err(m) => rule_name_of(input@) == Err::<(Seq<char>, Seq<char>), Mismatch>(m),
        },
{
    let line = chars_of(input);
    let from = run(&line, 0, CharClass::Space);
    match directive_span(&line, from) {
        Ok((directive, end)) => {
            let rest = run(&line, end, CharClass::Space);
            Ok((string_of(&line, rest, line.len()), directive_name(&line, directive, (from, end))))
        },
        Err(m) => Err(m),
    }
}

/// Reads a rule line: gives what follows the value in `input`, and the rule
/// as its name and its value.
pub fn rule(input: &str) -> (found: Result<(String, (String, String)), Mismatch>)
    ensures
        match found {
            Ok((rest, (name, value))) => rule_of(input@) == Ok::<
                (Seq<char>, (Seq<char>, Seq<char>)),
                Mismatch,
            >((rest@, (name@, value@))),
            Err(m) => rule_of(input@) == Err::<(Seq<char>, (Seq<char>, Seq<char>)), Mismatch>(m),
        },
{
    let line = chars_of(input);
    match rule_span(&line) {
        Ok(span) => {
            let name = directive_name(&line, span.directive, span.name);
            let value = string_of(&line, span.value.0, span.value.1);
            Ok((string_of(&line, span.value.1, line.len()), (name, value)))
        },
        Err(m) => Err(m),
    }
}

} // verus!
