//! The directive parser and what it produces.
//!
//! A robots.txt file is read line by line, from top to bottom. User-agent
//! lines open a group or add to the open one, rule lines add to the open
//! group, and a blank line closes it. Every other line, and every rule line
//! outside a group, is passed over. A group that is still open where the text
//! ends is kept.

pub mod lines;
pub mod parser;
pub mod policy;
pub mod text;

use vstd::prelude::*;
use crate::robots::lines::{lines_of, split_lines};
use crate::robots::parser::{
    agent_span, directive_name, keyword_at, rule_at, rule_span, rule_text, run_end, user_agent_at,
    CharClass,
};
use crate::robots::text::{ascii_lower, blank, chars_of, is_blank, is_whitespace, lower, string_of};

verus! {

/// A stanza of robots.txt: the agents it names and the directives that hold
/// for them, each in the order of the file.
#[derive(Debug, PartialEq, Eq)]
pub struct Group {
    /// The agent names, as they were written.
    pub user_agents: Vec<String>,
    /// The directives, each as its name and its value.
    pub rules: Vec<(String, String)>,
}

/// What a `Group` holds.
pub struct GroupView {
    pub user_agents: Seq<Seq<char>>,
    pub rules: Seq<(Seq<char>, Seq<char>)>,
}

impl DeepView for Group {
    type V = GroupView;

    open spec fn deep_view(&self) -> GroupView {
        GroupView { user_agents: self.user_agents.deep_view(), rules: self.rules.deep_view() }
    }
}

impl View for Group {
    type V = GroupView;

    open spec fn view(&self) -> GroupView {
        self.deep_view()
    }
}

/// Whether `line` is a user-agent line.
pub open spec fn is_agent_line(line: Seq<char>) -> bool {
    user_agent_at(line) is Ok
}

/// The agent that a user-agent line names.
pub open spec fn agent_of(line: Seq<char>) -> Seq<char> {
    match user_agent_at(line) {
        Ok((start, end, _)) => line.subrange(start, end),
        Err(_) => Seq::empty(),
    }
}

/// Whether `line` adds a rule to an open group.
pub open spec fn is_rule_line(line: Seq<char>) -> bool {
    !is_agent_line(line) && !is_blank(line) && rule_at(line) is Ok
}

/// The rule that a rule line states.
pub open spec fn rule_of_line(line: Seq<char>) -> (Seq<char>, Seq<char>) {
    match rule_at(line) {
        Ok(at) => rule_text(line, at),
        Err(_) => (Seq::empty(), Seq::empty()),
    }
}

/// The reader between two lines: the groups that are closed, what the open
/// group holds so far, and whether a group is open.
pub struct Scan {
    pub groups: Seq<GroupView>,
    pub user_agents: Seq<Seq<char>>,
    pub rules: Seq<(Seq<char>, Seq<char>)>,
    pub open: bool,
}

impl Scan {
    /// The reader before the first line.
    pub open spec fn start() -> Scan {
        Scan { groups: Seq::empty(), user_agents: Seq::empty(), rules: Seq::empty(), open: false }
    }

    /// The group that is being read.
    pub open spec fn current(self) -> GroupView {
        GroupView { user_agents: self.user_agents, rules: self.rules }
    }

    /// The reader after `line`. A user-agent line opens a group or adds to the
    /// open one. Inside a group a blank line closes the group and a rule line
    /// adds its rule. Every other line changes nothing.
    pub open spec fn read(self, line: Seq<char>) -> Scan {
        if is_agent_line(line) {
            Scan { user_agents: self.user_agents.push(agent_of(line)), open: true, ..self }
        } else if !self.open {
            self
        } else if is_blank(line) {
            Scan { groups: self.groups.push(self.current()), ..Scan::start() }
        } else if rule_at(line) is Ok {
            Scan { rules: self.rules.push(rule_of_line(line)), ..self }
        } else {
            self
        }
    }

    /// The reader after `lines`, one after the other.
    pub open spec fn read_all(self, lines: Seq<Seq<char>>) -> Scan
        decreases lines.len(),
    {
        if lines.len() == 0 {
            self
        } else {
            self.read_all(lines.drop_last()).read(lines.last())
        }
    }

    /// The groups once the text is over: an open group is kept.
    pub open spec fn finish(self) -> Seq<GroupView> {
        if self.open {
            self.groups.push(self.current())
        } else {
            self.groups
        }
    }
}

/// The groups that `lines` hold.
pub open spec fn groups_of_lines(lines: Seq<Seq<char>>) -> Seq<GroupView> {
    Scan::start().read_all(lines).finish()
}

/// The groups that the text of a robots.txt file holds.
pub open spec fn groups_of(text: Seq<char>) -> Seq<GroupView> {
    groups_of_lines(lines_of(text))
}

/// A blank line is no user-agent line.
pub proof fn lemma_blank_is_no_agent_line(line: Seq<char>)
    requires
        is_blank(line),
    ensures
        !is_agent_line(line),
{
    let word = run_end(line, 0, CharClass::Space);
    if keyword_at(line, word, "user-agent"@) {
        reveal_strlit("user-agent");
        let window = line.subrange(word, word + "user-agent"@.len());
        assert(lower(window)[0] == lower("user-agent"@)[0]);
        assert(window[0] == line[word]);
        assert(ascii_lower(line[word]) == 'u');
        assert(is_whitespace(line[word]));
    }
}

/// Reading two runs of lines one after the other is reading them as one.
pub proof fn lemma_read_all_append(state: Scan, first: Seq<Seq<char>>, second: Seq<Seq<char>>)
    ensures
        state.read_all(first + second) == state.read_all(first).read_all(second),
    decreases second.len(),
{
    if second.len() == 0 {
        assert(first + second =~= first);
    } else {
        lemma_read_all_append(state, first, second.drop_last());
        assert((first + second).drop_last() =~= first + second.drop_last());
        assert((first + second).last() == second.last());
    }
}

/// Between two groups the reader holds nothing, and an open group names an
/// agent.
pub proof fn lemma_closed_reader_holds_nothing(lines: Seq<Seq<char>>)
    ensures
        ({
            let state = Scan::start().read_all(lines);
            if state.open {
                state.user_agents.len() > 0
            } else {
                state.user_agents.len() == 0 && state.rules.len() == 0
            }
        }),
    decreases lines.len(),
{
    if lines.len() > 0 {
        lemma_closed_reader_holds_nothing(lines.drop_last());
    }
}

/// Groups that are closed stay as they are: reading on from between two
/// groups gives the groups read so far, and after them what the further lines
/// give by themselves.
pub proof fn lemma_read_all_after_close(closed: Seq<GroupView>, lines: Seq<Seq<char>>)
    ensures
        ({
            let alone = Scan::start().read_all(lines);
            (Scan { groups: closed, ..Scan::start() }).read_all(lines) == (Scan {
                groups: closed + alone.groups,
                ..alone
            })
        }),
    decreases lines.len(),
{
    let from = Scan { groups: closed, ..Scan::start() };
    if lines.len() == 0 {
        assert(closed + Scan::start().groups =~= closed);
    } else {
        lemma_read_all_after_close(closed, lines.drop_last());
        let alone = Scan::start().read_all(lines.drop_last());
        let after = alone.read(lines.last());
        assert(closed + after.groups =~= (Scan {
            groups: closed + alone.groups,
            ..alone
        }).read(lines.last()).groups);
    }
}

/// A blank line closes the open group for good: the lines before it and the
/// lines after it give their groups apart from each other, also where the
/// lines after it begin with a user-agent line.
pub proof fn law_blank_line_closes_group(
    before: Seq<Seq<char>>,
    blank: Seq<char>,
    after: Seq<Seq<char>>,
)
    requires
        Scan::start().read_all(before).open,
        is_blank(blank),
    ensures
        groups_of_lines(before + seq![blank] + after) == groups_of_lines(before) + groups_of_lines(
            after,
        ),
{
    let open = Scan::start().read_all(before);
    lemma_blank_is_no_agent_line(blank);
    lemma_read_all_append(Scan::start(), before + seq![blank], after);
    lemma_read_all_append(Scan::start(), before, seq![blank]);
    assert(seq![blank].drop_last() =~= Seq::<Seq<char>>::empty());
    assert(open.read_all(seq![blank]) == open.read_all(Seq::<Seq<char>>::empty()).read(blank));
    let closed = open.read(blank);
    assert(closed == Scan { groups: groups_of_lines(before), ..Scan::start() });
    lemma_read_all_after_close(groups_of_lines(before), after);
    let alone = Scan::start().read_all(after);
    if alone.open {
        assert((groups_of_lines(before) + alone.groups).push(alone.current())
            =~= groups_of_lines(before) + alone.groups.push(alone.current()));
    }
}

/// Where no group is open, what follows is read as if it stood alone.
pub proof fn law_closed_groups_stand(before: Seq<Seq<char>>, after: Seq<Seq<char>>)
    requires
        !Scan::start().read_all(before).open,
    ensures
        groups_of_lines(before + after) == groups_of_lines(before) + groups_of_lines(after),
{
    let closed = Scan::start().read_all(before);
    lemma_closed_reader_holds_nothing(before);
    lemma_read_all_append(Scan::start(), before, after);
    assert(closed.user_agents =~= Seq::<Seq<char>>::empty());
    assert(closed.rules =~= Seq::<(Seq<char>, Seq<char>)>::empty());
    assert(closed == Scan { groups: closed.groups, ..Scan::start() });
    lemma_read_all_after_close(closed.groups, after);
    let alone = Scan::start().read_all(after);
    if alone.open {
        assert((closed.groups + alone.groups).push(alone.current()) =~= closed.groups
            + alone.groups.push(alone.current()));
    }
}

/// The agents that user-agent lines name, in their order.
pub open spec fn agents_of(lines: Seq<Seq<char>>) -> Seq<Seq<char>> {
    Seq::new(lines.len(), |i: int| agent_of(lines[i]))
}

/// The rules that rule lines state, in their order.
pub open spec fn rules_of(lines: Seq<Seq<char>>) -> Seq<(Seq<char>, Seq<char>)> {
    Seq::new(lines.len(), |i: int| rule_of_line(lines[i]))
}

/// The reader after user-agent lines followed by rule lines.
proof fn lemma_stanza(agents: Seq<Seq<char>>, rules: Seq<Seq<char>>)
    requires
        forall|i: int| 0 <= i < agents.len() ==> is_agent_line(#[trigger] agents[i]),
        forall|i: int| 0 <= i < rules.len() ==> is_rule_line(#[trigger] rules[i]),
    ensures
        Scan::start().read_all(agents + rules) == if agents.len() > 0 {
            Scan {
                groups: Seq::empty(),
                user_agents: agents_of(agents),
                rules: rules_of(rules),
                open: true,
            }
        } else {
            Scan::start()
        },
    decreases agents.len() + rules.len(),
{
    let lines = agents + rules;
    let state = Scan::start().read_all(lines);
    if rules.len() > 0 {
        let front = rules.drop_last();
        let last = rules.last();
        assert forall|i: int| 0 <= i < front.len() implies is_rule_line(#[trigger] front[i]) by {
            assert(front[i] == rules[i]);
        }
        lemma_stanza(agents, front);
        assert(lines.drop_last() =~= agents + front);
        assert(lines.last() == last);
        assert(is_rule_line(rules[rules.len() - 1]));
        assert(state == Scan::start().read_all(agents + front).read(last));
        if agents.len() > 0 {
            assert(rules_of(rules) =~= rules_of(front).push(rule_of_line(last)));
        }
    } else if agents.len() > 0 {
        let front = agents.drop_last();
        let last = agents.last();
        assert forall|i: int| 0 <= i < front.len() implies is_agent_line(#[trigger] front[i]) by {
            assert(front[i] == agents[i]);
        }
        lemma_stanza(front, rules);
        assert(lines.drop_last() =~= front + rules);
        assert(lines.last() == last);
        assert(is_agent_line(agents[agents.len() - 1]));
        assert(state == Scan::start().read_all(front + rules).read(last));
        assert(agents_of(agents) =~= agents_of(front).push(agent_of(last)));
        assert(rules_of(rules) =~= Seq::<(Seq<char>, Seq<char>)>::empty());
        if front.len() == 0 {
            assert(agents_of(front) =~= Seq::<Seq<char>>::empty());
        }
    } else {
        assert(lines =~= Seq::<Seq<char>>::empty());
    }
}

/// User-agent lines that follow one another share the rules after them: they
/// and the rule lines give one group, which names every agent and holds every
/// rule, in the order of the lines. Rule lines that no user-agent line
/// precedes give nothing.
pub proof fn law_agents_share_rules(agents: Seq<Seq<char>>, rules: Seq<Seq<char>>)
    requires
        forall|i: int| 0 <= i < agents.len() ==> is_agent_line(#[trigger] agents[i]),
        forall|i: int| 0 <= i < rules.len() ==> is_rule_line(#[trigger] rules[i]),
    ensures
        groups_of_lines(agents + rules) == if agents.len() > 0 {
            seq![GroupView { user_agents: agents_of(agents), rules: rules_of(rules) }]
        } else {
            Seq::empty()
        },
{
    lemma_stanza(agents, rules);
    if agents.len() > 0 {
        let state = Scan::start().read_all(agents + rules);
        assert(state.groups.push(state.current()) =~= seq![state.current()]);
    }
}

/// Parses the text of a robots.txt file into its groups. Every text has a
/// result: lines that are no part of the grammar are passed over.
pub fn parse(robots_txt: &str) -> (groups: Vec<Group>)
    ensures
        groups.deep_view() == groups_of(robots_txt@),
{
    let text = chars_of(robots_txt);
    let lines = split_lines(&text);
    parse_lines(&lines)
}

/// Parses the lines of a robots.txt file into its groups.
pub fn parse_lines(lines: &Vec<Vec<char>>) -> (groups: Vec<Group>)
    ensures
        groups.deep_view() == groups_of_lines(lines.deep_view()),
{
    let mut groups: Vec<Group> = Vec::new();
    let mut user_agents: Vec<String> = Vec::new();
    let mut rules: Vec<(String, String)> = Vec::new();
    let mut group_started = false;
    let mut i: usize = 0;
    proof {
        assert(groups.deep_view() =~= Seq::<GroupView>::empty());
        assert(user_agents.deep_view() =~= Seq::<Seq<char>>::empty());
        assert(rules.deep_view() =~= Seq::<(Seq<char>, Seq<char>)>::empty());
    }
    while i < lines.len()
        invariant
            i <= lines.len(),
            Scan::start().read_all(lines.deep_view().take(i as int)) == (Scan {
                groups: groups.deep_view(),
                user_agents: user_agents.deep_view(),
                rules: rules.deep_view(),
                open: group_started,
            }),
        decreases lines.len() - i,
    {
        let line = &lines[i];
        let ghost before = Scan::start().read_all(lines.deep_view().take(i as int));
        proof {
            let upto = lines.deep_view().take(i + 1);
            assert(upto.drop_last() =~= lines.deep_view().take(i as int));
            assert(upto.last() =~= line@);
        }
        match agent_span(line) {
            Ok((start, end, _)) => {
                let name = string_of(line, start, end);
                let ghost names = user_agents.deep_view();
                user_agents.push(name);
                proof {
                    assert(user_agents.deep_view() =~= names.push(name@));
                }
                group_started = true;
            },
            Err(_) => {
                if group_started {
                    if blank(line) {
                        let ghost closed = groups.deep_view();
                        let group = Group { user_agents, rules };
                        groups.push(group);
                        proof {
                            assert(groups.deep_view() =~= closed.push(before.current()));
                        }
                        user_agents = Vec::new();
                        rules = Vec::new();
                        group_started = false;
                        proof {
                            assert(user_agents.deep_view() =~= Seq::<Seq<char>>::empty());
                            assert(rules.deep_view() =~= Seq::<(Seq<char>, Seq<char>)>::empty());
                        }
                    } else {
                        match rule_span(line) {
                            Ok(span) => {
                                let name = directive_name(line, span.directive, span.name);
                                let value = string_of(line, span.value.0, span.value.1);
                                let ghost held = rules.deep_view();
                                rules.push((name, value));
                                proof {
                                    assert(rules.deep_view() =~= held.push((name@, value@)));
                                }
                            },
                            Err(_) => {},
                        }
                    }
                }
            },
        }
        i += 1;
    }
    proof {
        assert(lines.deep_view().take(i as int) =~= lines.deep_view());
    }
    if group_started {
        let ghost closed = groups.deep_view();
        let ghost last = GroupView { user_agents: user_agents.deep_view(), rules: rules.deep_view() };
        groups.push(Group { user_agents, rules });
        proof {
            assert(groups.deep_view() =~= closed.push(last));
        }
    }
    groups
}

} // verus!
