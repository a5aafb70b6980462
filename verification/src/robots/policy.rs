//! What a parsed robots.txt permits.
//!
//! The groups are tried in the order of the file. The first one that names the
//! agent, by its name in any case or by the wildcard `*`, decides, and no
//! other is looked at. In that group the rule with the longest pattern that
//! the path starts with wins; a path that no `disallow` pattern covers, or
//! that an `allow` pattern covers at least as far, may be fetched. So may
//! every path where no group names the agent.

use vstd::prelude::*;
use crate::robots::text::{chars_of, find_at, lemma_stands_at_start_is_prefix, normal, same_ignoring_case};
use crate::robots::{groups_of, parse, Group, GroupView};

verus! {

/// The answer of a policy to one request.
#[derive(Clone, Copy, Debug, PartialEq, Eq, Structural)]
pub enum Verdict {
    Allowed,
    Denied,
}

/// The robots.txt of one host as it was last read.
#[derive(Debug, PartialEq, Eq)]
pub struct Policy {
    /// The host that the file was read from.
    pub host: String,
    /// The groups of the file, in its order.
    pub groups: Vec<Group>,
}

/// What a `Policy` holds.
pub struct PolicyView {
    pub host: Seq<char>,
    pub groups: Seq<GroupView>,
}

impl View for Policy {
    type V = PolicyView;

    open spec fn view(&self) -> PolicyView {
        PolicyView { host: self.host@, groups: self.groups.deep_view() }
    }
}

/// Whether an entry of a group's agent list names `agent`: the wildcard names
/// every agent, any other entry the agent of that name, in any case.
pub open spec fn names(entry: Seq<char>, agent: Seq<char>) -> bool {
    entry == seq!['*'] || same_ignoring_case(entry, agent)
}

/// Whether `group` names `agent`.
pub open spec fn concerns(group: GroupView, agent: Seq<char>) -> bool {
    exists|i: int| 0 <= i < group.user_agents.len() && names(#[trigger] group.user_agents[i], agent)
}

/// The index of the first group at or after `from` that names `agent`, or the
/// number of groups if there is none.
pub open spec fn first_concerned(groups: Seq<GroupView>, agent: Seq<char>, from: int) -> int
    decreases groups.len() - from,
{
    if 0 <= from < groups.len() && !concerns(groups[from], agent) {
        first_concerned(groups, agent, from + 1)
    } else {
        from
    }
}

/// Whether `rule` is of the kind `kind` and `path` starts with its pattern.
pub open spec fn covers(rule: (Seq<char>, Seq<char>), kind: Seq<char>, path: Seq<char>) -> bool {
    rule.0 == kind && rule.1.is_prefix_of(path)
}

/// The length of the longest pattern among the rules of the kind `kind` that
/// cover `path`, 0 where there is none.
pub open spec fn longest_cover(
    rules: Seq<(Seq<char>, Seq<char>)>,
    kind: Seq<char>,
    path: Seq<char>,
) -> nat
    decreases rules.len(),
{
    if rules.len() == 0 {
        0
    } else {
        let before = longest_cover(rules.drop_last(), kind, path);
        if covers(rules.last(), kind, path) && rules.last().1.len() > before {
            rules.last().1.len()
        } else {
            before
        }
    }
}

/// Whether the rules of `group` keep `path` from being fetched: a `disallow`
/// pattern covers it further than every `allow` pattern.
pub open spec fn forbids(group: GroupView, path: Seq<char>) -> bool {
    longest_cover(group.rules, "disallow"@, path) > longest_cover(group.rules, "allow"@, path)
}

/// The answer of `groups` to `agent` asking for `path`.
pub open spec fn verdict_of(groups: Seq<GroupView>, agent: Seq<char>, path: Seq<char>) -> Verdict {
    let first = first_concerned(groups, agent, 0);
    if 0 <= first < groups.len() && forbids(groups[first], path) {
        Verdict::Denied
    } else {
        Verdict::Allowed
    }
}

/// `first_concerned` is where it says: no group before it names the agent,
/// and the group at it does, unless there is none.
pub proof fn lemma_first_concerned(groups: Seq<GroupView>, agent: Seq<char>, from: int)
    requires
        0 <= from <= groups.len(),
    ensures
        from <= first_concerned(groups, agent, from) <= groups.len(),
        forall|k: int|
            from <= k < first_concerned(groups, agent, from) ==> !concerns(
                #[trigger] groups[k],
                agent,
            ),
        first_concerned(groups, agent, from) < groups.len() ==> concerns(
            groups[first_concerned(groups, agent, from)],
            agent,
        ),
    decreases groups.len() - from,
{
    if from < groups.len() && !concerns(groups[from], agent) {
        lemma_first_concerned(groups, agent, from + 1);
    }
}

/// `longest_cover` is the greatest length among the covering rules of its kind:
/// none of them is longer, and one of them is that long unless it is 0.
pub proof fn lemma_longest_cover(
    rules: Seq<(Seq<char>, Seq<char>)>,
    kind: Seq<char>,
    path: Seq<char>,
)
    ensures
        forall|i: int|
            0 <= i < rules.len() && covers(#[trigger] rules[i], kind, path) ==> rules[i].1.len()
                <= longest_cover(rules, kind, path),
        longest_cover(rules, kind, path) > 0 ==> exists|i: int|
            0 <= i < rules.len() && covers(#[trigger] rules[i], kind, path) && rules[i].1.len()
                == longest_cover(rules, kind, path),
    decreases rules.len(),
{
    if rules.len() > 0 {
        let front = rules.drop_last();
        lemma_longest_cover(front, kind, path);
        assert forall|i: int| 0 <= i < rules.len() && covers(#[trigger] rules[i], kind, path)
            implies rules[i].1.len() <= longest_cover(rules, kind, path) by {
            if i < rules.len() - 1 {
                assert(rules[i] == front[i]);
            }
        }
        if longest_cover(rules, kind, path) > 0 {
            if longest_cover(rules, kind, path) == longest_cover(front, kind, path) {
                let i = choose|i: int|
                    0 <= i < front.len() && covers(#[trigger] front[i], kind, path)
                        && front[i].1.len() == longest_cover(front, kind, path);
                assert(rules[i] == front[i]);
            } else {
                assert(covers(rules[rules.len() - 1], kind, path));
            }
        }
    }
}

/// The longest pattern wins: a group keeps a path from being fetched exactly
/// if one of its `disallow` rules covers the path with a pattern that is not
/// empty and is longer than the pattern of every `allow` rule that covers it.
/// A tie, and a path that no `disallow` rule covers, leave the path free.
pub proof fn law_longest_pattern_wins(group: GroupView, path: Seq<char>)
    ensures
        forbids(group, path) <==> exists|d: int|
            0 <= d < group.rules.len() && covers(#[trigger] group.rules[d], "disallow"@, path)
                && group.rules[d].1.len() > 0 && forall|a: int|
                0 <= a < group.rules.len() && covers(#[trigger] group.rules[a], "allow"@, path)
                    ==> group.rules[a].1.len() < group.rules[d].1.len(),
{
    let rules = group.rules;
    lemma_longest_cover(rules, "disallow"@, path);
    lemma_longest_cover(rules, "allow"@, path);
    let deny = longest_cover(rules, "disallow"@, path);
    let allow = longest_cover(rules, "allow"@, path);
    if forbids(group, path) {
        let d = choose|d: int|
            0 <= d < rules.len() && covers(#[trigger] rules[d], "disallow"@, path)
                && rules[d].1.len() == deny;
        assert(covers(rules[d], "disallow"@, path) && rules[d].1.len() > 0);
    }
    if exists|d: int|
        0 <= d < rules.len() && covers(#[trigger] rules[d], "disallow"@, path) && rules[d].1.len()
            > 0 && forall|a: int|
            0 <= a < rules.len() && covers(#[trigger] rules[a], "allow"@, path)
                ==> rules[a].1.len() < rules[d].1.len() {
        let d = choose|d: int|
            0 <= d < rules.len() && covers(#[trigger] rules[d], "disallow"@, path)
                && rules[d].1.len() > 0 && forall|a: int|
                0 <= a < rules.len() && covers(#[trigger] rules[a], "allow"@, path)
                    ==> rules[a].1.len() < rules[d].1.len();
        if allow > 0 {
            let a = choose|a: int|
                0 <= a < rules.len() && covers(#[trigger] rules[a], "allow"@, path)
                    && rules[a].1.len() == allow;
            assert(rules[a].1.len() < rules[d].1.len());
        }
        assert(rules[d].1.len() <= deny);
    }
}

/// The first group that names the agent decides, whatever the groups after it
/// say: the answer is that of its rules alone.
pub proof fn law_first_group_decides(
    groups: Seq<GroupView>,
    agent: Seq<char>,
    path: Seq<char>,
    first: int,
)
    requires
        0 <= first < groups.len(),
        concerns(groups[first], agent),
        forall|k: int| 0 <= k < first ==> !concerns(#[trigger] groups[k], agent),
    ensures
        verdict_of(groups, agent, path) == if forbids(groups[first], path) {
            Verdict::Denied
        } else {
            Verdict::Allowed
        },
{
    lemma_first_concerned(groups, agent, 0);
    let found = first_concerned(groups, agent, 0);
    if found < first {
        assert(!concerns(groups[found], agent));
    }
    if first < found {
        assert(!concerns(groups[first], agent));
    }
}

/// A group that does not name the agent is passed over, and where no group
/// is left the path may be fetched.
pub proof fn law_other_groups_are_passed_over(
    groups: Seq<GroupView>,
    agent: Seq<char>,
    path: Seq<char>,
)
    ensures
        groups.len() == 0 ==> verdict_of(groups, agent, path) == Verdict::Allowed,
        groups.len() > 0 && !concerns(groups[0], agent) ==> verdict_of(groups, agent, path)
            == verdict_of(groups.drop_first(), agent, path),
        (forall|k: int| 0 <= k < groups.len() ==> !concerns(#[trigger] groups[k], agent))
            ==> verdict_of(groups, agent, path) == Verdict::Allowed,
{
    lemma_first_concerned(groups, agent, 0);
    if groups.len() > 0 && !concerns(groups[0], agent) {
        let rest = groups.drop_first();
        lemma_first_concerned(rest, agent, 0);
        let found = first_concerned(groups, agent, 0);
        let found_rest = first_concerned(rest, agent, 0);
        assert(forall|k: int| 0 <= k < rest.len() ==> rest[k] == groups[k + 1]);
        if found_rest + 1 < found {
            assert(!concerns(groups[found_rest + 1], agent));
            assert(rest[found_rest] == groups[found_rest + 1]);
        }
        if found < found_rest + 1 {
            assert(rest[found - 1] == groups[found]);
            assert(!concerns(rest[found - 1], agent));
        }
        assert(found == found_rest + 1);
        if found < groups.len() {
            assert(rest[found_rest] == groups[found]);
        }
    }
    if forall|k: int| 0 <= k < groups.len() ==> !concerns(#[trigger] groups[k], agent) {
        let found = first_concerned(groups, agent, 0);
        if found < groups.len() {
            assert(!concerns(groups[found], agent));
        }
    }
}

/// Whether `group` lists the wildcard.
pub open spec fn lists_wildcard(group: GroupView) -> bool {
    exists|i: int| 0 <= i < group.user_agents.len() && #[trigger] group.user_agents[i] == seq!['*']
}

/// Whether `group` lists `agent` by its name, in any case.
pub open spec fn lists_by_name(group: GroupView, agent: Seq<char>) -> bool {
    exists|i: int|
        0 <= i < group.user_agents.len() && same_ignoring_case(
            #[trigger] group.user_agents[i],
            agent,
        )
}

/// The wildcard is the fallback: for an agent that no group lists by name,
/// the first group that lists `*` decides.
pub proof fn law_wildcard_fallback(
    groups: Seq<GroupView>,
    agent: Seq<char>,
    path: Seq<char>,
    star: int,
)
    requires
        forall|k: int| 0 <= k < groups.len() ==> !lists_by_name(#[trigger] groups[k], agent),
        0 <= star < groups.len(),
        lists_wildcard(groups[star]),
        forall|k: int| 0 <= k < star ==> !lists_wildcard(#[trigger] groups[k]),
    ensures
        verdict_of(groups, agent, path) == if forbids(groups[star], path) {
            Verdict::Denied
        } else {
            Verdict::Allowed
        },
{
    assert forall|k: int| 0 <= k < groups.len() implies (concerns(#[trigger] groups[k], agent)
        <==> lists_wildcard(groups[k])) by {
        let g = groups[k];
        assert(!lists_by_name(g, agent));
        if concerns(g, agent) {
            let i = choose|i: int|
                0 <= i < g.user_agents.len() && names(#[trigger] g.user_agents[i], agent);
            assert(g.user_agents[i] == seq!['*']);
        }
        if lists_wildcard(g) {
            let i = choose|i: int|
                0 <= i < g.user_agents.len() && #[trigger] g.user_agents[i] == seq!['*'];
            assert(names(g.user_agents[i], agent));
        }
    }
    law_first_group_decides(groups, agent, path, star);
}

/// A group whose only rule is a `disallow` with a pattern that is not empty
/// denies every path that starts with the pattern, to every agent for whom it
/// is the first group that names it.
pub proof fn law_sole_disallow_denies(
    groups: Seq<GroupView>,
    agent: Seq<char>,
    path: Seq<char>,
    first: int,
)
    requires
        0 <= first < groups.len(),
        concerns(groups[first], agent),
        forall|k: int| 0 <= k < first ==> !concerns(#[trigger] groups[k], agent),
        groups[first].rules.len() == 1,
        groups[first].rules[0].0 == "disallow"@,
        groups[first].rules[0].1.len() > 0,
        groups[first].rules[0].1.is_prefix_of(path),
    ensures
        verdict_of(groups, agent, path) == Verdict::Denied,
{
    let group = groups[first];
    law_longest_pattern_wins(group, path);
    assert(covers(group.rules[0], "disallow"@, path));
    assert("disallow"@ != "allow"@) by {
        reveal_strlit("disallow");
        reveal_strlit("allow");
        assert("disallow"@.len() == 8);
        assert("allow"@.len() == 5);
    }
    assert(forbids(group, path));
    law_first_group_decides(groups, agent, path, first);
}

/// Whether `word` and `chars` are the same text, up to the case of ASCII
/// letters where `fold` is set.
fn whole(word: &str, chars: &Vec<char>, fold: bool) -> (same: bool)
    ensures
        same == (normal(word@, fold) == normal(chars@, fold)),
{
    proof {
        assert(normal(word@, fold).len() == word@.len());
        assert(normal(chars@, fold).len() == chars@.len());
    }
    match find_at(word, chars, 0, fold) {
        Some(n) => {
            proof {
                if n == chars.len() {
                    assert(chars@.subrange(0, n as int) =~= chars@);
                }
            }
            n == chars.len()
        },
        None => {
            proof {
                if word@.len() == chars@.len() {
                    assert(chars@.subrange(0, word@.len() as int) =~= chars@);
                }
            }
            false
        },
    }
}

/// Whether `group` names `agent`.
pub fn group_concerns(group: &Group, agent: &Vec<char>) -> (b: bool)
    ensures
        b == concerns(group@, agent@),
{
    let star: Vec<char> = vec!['*'];
    let mut i: usize = 0;
    while i < group.user_agents.len()
        invariant
            i <= group.user_agents.len(),
            star@ == seq!['*'],
            forall|k: int| 0 <= k < i ==> !names(#[trigger] group@.user_agents[k], agent@),
        decreases group.user_agents.len() - i,
    {
        let entry = group.user_agents[i].as_str();
        assert(entry@ == group@.user_agents[i as int]);
        if whole(entry, &star, false) || whole(entry, agent, true) {
            return true;
        }
        i += 1;
    }
    false
}

/// The length of the longest pattern among the rules of the kind `kind` that
/// cover `path`.
pub fn longest(rules: &Vec<(String, String)>, kind: &str, path: &Vec<char>) -> (n: usize)
    ensures
        n == longest_cover(rules.deep_view(), kind@, path@),
{
    let word = chars_of(kind);
    let mut best: usize = 0;
    let mut i: usize = 0;
    while i < rules.len()
        invariant
            i <= rules.len(),
            word@ == kind@,
            best == longest_cover(rules.deep_view().take(i as int), kind@, path@),
            best <= path.len(),
        decreases rules.len() - i,
    {
        let rule = &rules[i];
        proof {
            let upto = rules.deep_view().take(i + 1);
            assert(upto.drop_last() =~= rules.deep_view().take(i as int));
            assert(upto.last() == (rule.0@, rule.1@));
            lemma_stands_at_start_is_prefix(rule.1@, path@);
        }
        if whole(rule.0.as_str(), &word, false) {
            match find_at(rule.1.as_str(), path, 0, false) {
                Some(n) => {
                    if n > best {
                        best = n;
                    }
                },
                None => {},
            }
        }
        i += 1;
    }
    proof {
        assert(rules.deep_view().take(i as int) =~= rules.deep_view());
    }
    best
}

/// Whether the rules of `group` keep `path` from being fetched.
pub fn group_forbids(group: &Group, path: &Vec<char>) -> (b: bool)
    ensures
        b == forbids(group@, path@),
{
    longest(&group.rules, "disallow", path) > longest(&group.rules, "allow", path)
}

/// The answer of `groups` to `agent` asking for `path`.
pub fn evaluate(groups: &Vec<Group>, agent: &str, path: &str) -> (verdict: Verdict)
    ensures
        verdict == verdict_of(groups.deep_view(), agent@, path@),
{
    let name = chars_of(agent);
    let mut i: usize = 0;
    while i < groups.len()
        invariant
            i <= groups.len(),
            name@ == agent@,
            first_concerned(groups.deep_view(), agent@, i as int) == first_concerned(
                groups.deep_view(),
                agent@,
                0,
            ),
        decreases groups.len() - i,
    {
        assert(groups.deep_view()[i as int] == groups[i as int]@);
        if group_concerns(&groups[i], &name) {
            let wanted = chars_of(path);
            return if group_forbids(&groups[i], &wanted) {
                Verdict::Denied
            } else {
                Verdict::Allowed
            };
        }
        i += 1;
    }
    Verdict::Allowed
}

impl Policy {
    /// The policy that the text of the robots.txt of `host` states.
    pub fn from_text(host: String, robots_txt: &str) -> (policy: Policy)
        ensures
            policy@ == (PolicyView { host: host@, groups: groups_of(robots_txt@) }),
    {
        Policy { host, groups: parse(robots_txt) }
    }

    /// Whether `agent` may fetch `path`.
    pub fn evaluate(&self, agent: &str, path: &str) -> (verdict: Verdict)
        ensures
            verdict == verdict_of(self@.groups, agent@, path@),
    {
        evaluate(&self.groups, agent, path)
    }
}

} // verus!
