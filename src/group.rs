//! Lexer groups (lexer states) and their rules, and the choice of the rule
//! that fires at a position: the longest match, earliest rule on a tie.
//!
//! A group's parent is recorded for its author's use; a group sees only the
//! rules registered on it, never its parent's.

use vstd::prelude::*;
use crate::pattern::{Pattern, in_language, is_match, is_well_formed, well_formed};

verus! {

/// An index that names a group of one registry.
#[derive(Clone, Copy, Debug, PartialEq, Eq, Hash)]
pub struct Identifier {
    pub id: usize,
}

impl Identifier {
    /// The identifier with index `id`.
    pub fn new(id: usize) -> (r: Identifier)
        ensures
            r.id == id,
    {
        Identifier { id }
    }

    /// The index that the identifier names.
    pub fn index(&self) -> (r: usize)
        ensures
            r == self.id,
    {
        self.id
    }
}

/// A rule: a pattern, the group it belongs to, and a reference to the action
/// that runs when it fires.
#[derive(Debug)]
pub struct Rule {
    pub group: Identifier,
    pub pattern: Pattern,
    pub action: usize,
}

/// A group's name and optional parent.
#[derive(Clone, Debug)]
pub struct GroupInfo {
    pub name: String,
    pub parent: Option<Identifier>,
}

/// All groups of a lexer, and all rules in the order they were declared.
#[derive(Debug)]
pub struct Registry {
    groups: Vec<GroupInfo>,
    rules: Vec<Rule>,
}

/// Rule `k` belongs to group `g` and matches `s` from `pos` to `end`, consuming
/// at least one symbol.
pub open spec fn rule_fires(rules: Seq<Rule>, g: Identifier, s: Seq<char>, pos: int, k: int, end: int) -> bool {
    &&& 0 <= k < rules.len()
    &&& rules[k].group == g
    &&& pos < end <= s.len() + 1
    &&& in_language(rules[k].pattern, s, pos, end)
}

/// `(k, end)` is the rule that wins at `pos`: no rule of the group matches
/// further, and no earlier rule matches as far.
pub open spec fn winner(rules: Seq<Rule>, g: Identifier, s: Seq<char>, pos: int, k: int, end: int) -> bool {
    &&& rule_fires(rules, g, s, pos, k, end)
    &&& forall|k2: int, e2: int| #[trigger] rule_fires(rules, g, s, pos, k2, e2) ==> e2 < end || (e2
        == end && k <= k2)
}

/// A group lacks a rule that the matching needs.
#[derive(Clone, Copy, Debug, PartialEq, Eq)]
pub enum GenError {
    /// The group has no rule matching any one character.
    MissingCatchAll(usize),
    /// The group has no rule matching the end of input.
    MissingEof(usize),
    /// The rule with this index has an inverted range or a repetition whose
    /// minimum lies above its maximum.
    MalformedPattern(usize),
}

/// Group `g` has a rule whose pattern is `p`.
pub open spec fn has_rule(rules: Seq<Rule>, g: int, p: Pattern) -> bool {
    exists|k: int| 0 <= k < rules.len() && (#[trigger] rules[k]).group.id == g && rules[k].pattern == p
}

/// Every group has a catch-all rule and an end-of-input rule.
pub open spec fn complete(n: nat, rules: Seq<Rule>) -> bool {
    forall|g: int| 0 <= g < n ==> #[trigger] has_rule(rules, g, Pattern::Any) && has_rule(rules, g, Pattern::Eof)
}

impl Registry {
    /// The groups, by identifier.
    pub closed spec fn spec_groups(&self) -> Seq<GroupInfo> {
        self.groups@
    }

    /// The rules of all groups, in declaration order.
    pub closed spec fn spec_rules(&self) -> Seq<Rule> {
        self.rules@
    }

    /// A registry with no groups.
    pub fn new() -> (r: Registry)
        ensures
            r.spec_groups().len() == 0,
            r.spec_rules().len() == 0,
    {
        Registry { groups: Vec::new(), rules: Vec::new() }
    }

    /// The number of groups.
    pub fn len(&self) -> (r: usize)
        ensures
            r == self.spec_groups().len(),
    {
        self.groups.len()
    }

    /// Add a group and return its identifier.
    pub fn define_group(&mut self, name: String, parent: Option<Identifier>) -> (r: Identifier)
        requires
            old(self).spec_groups().len() < usize::MAX,
            parent matches Some(p) ==> p.id < old(self).spec_groups().len(),
        ensures
            r.id == old(self).spec_groups().len(),
            final(self).spec_groups() == old(self).spec_groups().push(GroupInfo { name, parent }),
            final(self).spec_rules() == old(self).spec_rules(),
    {
        let id = Identifier::new(self.groups.len());
        self.groups.push(GroupInfo { name, parent });
        id
    }

    /// The name and parent of group `g`.
    pub fn group(&self, g: Identifier) -> (r: &GroupInfo)
        requires
            g.id < self.spec_groups().len(),
        ensures
            *r == self.spec_groups()[g.id as int],
    {
        &self.groups[g.id]
    }

    /// Append a rule to group `g`, after the rules it already has.
    pub fn create_rule(&mut self, g: Identifier, pattern: Pattern, action: usize)
        requires
            g.id < old(self).spec_groups().len(),
        ensures
            final(self).spec_groups() == old(self).spec_groups(),
            final(self).spec_rules() == old(self).spec_rules().push(Rule { group: g, pattern, action }),
    {
        self.rules.push(Rule { group: g, pattern, action });
    }

    /// The action of rule `k`.
    pub fn action(&self, k: usize) -> (r: usize)
        requires
            k < self.spec_rules().len(),
        ensures
            r == self.spec_rules()[k as int].action,
    {
        self.rules[k].action
    }

    /// The rule of group `g` that fires at `pos` and where its match ends: the
    /// longest non-empty match, and among equally long ones the rule declared
    /// first. `None` when no rule of the group matches there.
    pub fn longest_match(&self, g: Identifier, s: &Vec<char>, pos: usize) -> (r: Option<(usize, usize)>)
        requires
            s@.len() + 2 < usize::MAX,
            pos <= s@.len(),
        ensures
            r matches Some((k, end)) ==> winner(self.spec_rules(), g, s@, pos as int, k as int, end as int),
            r is None ==> forall|k2: int, e2: int| !#[trigger] rule_fires(self.spec_rules(), g, s@, pos as int, k2, e2),
    {
        let last: usize = s.len() + 1;
        let mut best: Option<(usize, usize)> = None;
        let mut k: usize = 0;
        while k < self.rules.len()
            invariant
                last == s@.len() + 1,
                s@.len() + 2 < usize::MAX,
                pos < last,
                k <= self.rules@.len(),
                best matches Some((bk, be)) ==> bk < k && rule_fires(self.rules@, g, s@, pos as int, bk as int, be as int),
                best matches Some((bk, be)) ==> forall|k2: int, e2: int| 0 <= k2 < k && #[trigger] rule_fires(self.rules@, g, s@, pos as int, k2, e2) ==> e2 < be || (e2 == be && bk <= k2),
                best is None ==> forall|k2: int, e2: int| 0 <= k2 < k ==> !#[trigger] rule_fires(self.rules@, g, s@, pos as int, k2, e2),
            decreases self.rules@.len() - k,
        {
            if self.rules[k].group.id == g.id {
                let mut e: usize = last;
                let mut found = false;
                while !found && e > pos
                    invariant
                        last == s@.len() + 1,
                        s@.len() + 2 < usize::MAX,
                        pos <= e <= last,
                        k < self.rules@.len(),
                        self.rules@[k as int].group == g,
                        found ==> pos < e && in_language(self.rules@[k as int].pattern, s@, pos as int, e as int),
                        forall|e2: int| e < e2 <= last ==> !#[trigger] in_language(self.rules@[k as int].pattern, s@, pos as int, e2),
                    decreases e, if found { 0int } else { 1int },
                {
                    if is_match(&self.rules[k].pattern, s, pos, e) {
                        found = true;
                    } else {
                        e -= 1;
                    }
                }
                if found {
                    assert(rule_fires(self.rules@, g, s@, pos as int, k as int, e as int));
                    let better = match best {
                        Some((_, be)) => e > be,
                        None => true,
                    };
                    if better {
                        best = Some((k, e));
                    }
                }
            }
            k += 1;
        }
        best
    }

    /// Whether group `g` has a rule whose pattern is `Any` (when `want_any`)
    /// or `Eof`.
    fn has_terminal(&self, g: usize, want_any: bool) -> (r: bool)
        ensures
            r == has_rule(self.rules@, g as int, if want_any { Pattern::Any } else { Pattern::Eof }),
    {
        let mut k: usize = 0;
        while k < self.rules.len()
            invariant
                k <= self.rules@.len(),
                forall|j: int| 0 <= j < k ==> !((#[trigger] self.rules@[j]).group.id == g
                    && self.rules@[j].pattern == (if want_any { Pattern::Any } else { Pattern::Eof })),
            decreases self.rules@.len() - k,
        {
            let hit = match &self.rules[k].pattern {
                Pattern::Any => want_any,
                Pattern::Eof => !want_any,
                _ => false,
            };
            if self.rules[k].group.id == g && hit {
                assert(self.rules@[k as int].pattern == (if want_any { Pattern::Any } else { Pattern::Eof }));
                return true;
            }
            k += 1;
        }
        false
    }

    /// Check, before any run, that every rule's pattern is well formed and
    /// that every group can always make progress: it has a rule for any one
    /// character and a rule for the end of input. The first malformed rule is
    /// reported; failing that, the first group (in order) lacking a rule,
    /// catch-all first.
    pub fn validate(&self) -> (r: Result<(), GenError>)
        ensures
            r is Ok <==> complete(self.spec_groups().len(), self.spec_rules()) && forall|k: int|
                0 <= k < self.spec_rules().len() ==> well_formed(#[trigger] self.spec_rules()[k].pattern),
            r matches Err(GenError::MalformedPattern(k)) ==> k < self.spec_rules().len()
                && !well_formed(self.spec_rules()[k as int].pattern),
            r matches Err(GenError::MissingCatchAll(g)) ==> g < self.spec_groups().len()
                && !has_rule(self.spec_rules(), g as int, Pattern::Any),
            r matches Err(GenError::MissingEof(g)) ==> g < self.spec_groups().len()
                && !has_rule(self.spec_rules(), g as int, Pattern::Eof),
    {
        let mut k: usize = 0;
        while k < self.rules.len()
            invariant
                k <= self.rules@.len(),
                forall|j: int| 0 <= j < k ==> well_formed(#[trigger] self.rules@[j].pattern),
            decreases self.rules@.len() - k,
        {
            if !is_well_formed(&self.rules[k].pattern) {
                return Err(GenError::MalformedPattern(k));
            }
            k += 1;
        }
        let mut g: usize = 0;
        while g < self.groups.len()
            invariant
                g <= self.groups@.len(),
                complete(g as nat, self.rules@),
                forall|j: int| 0 <= j < self.rules@.len() ==> well_formed(#[trigger] self.rules@[j].pattern),
            decreases self.groups@.len() - g,
        {
            if !self.has_terminal(g, true) {
                return Err(GenError::MissingCatchAll(g));
            }
            if !self.has_terminal(g, false) {
                return Err(GenError::MissingEof(g));
            }
            proof {
                assert forall|h: int| 0 <= h < g + 1 implies #[trigger] has_rule(self.rules@, h, Pattern::Any)
                    && has_rule(self.rules@, h, Pattern::Eof) by {
                    if h == g {
                        assert(has_rule(self.rules@, g as int, Pattern::Any));
                        assert(has_rule(self.rules@, g as int, Pattern::Eof));
                    }
                }
            }
            g += 1;
        }
        Ok(())
    }
}

/// Longest match with the earliest rule on a tie: where another rule of the
/// group matches exactly as far as the winner, the winner was declared first.
pub proof fn lemma_earliest_rule_wins(
    rules: Seq<Rule>,
    g: Identifier,
    s: Seq<char>,
    pos: int,
    k: int,
    end: int,
    k2: int,
)
    requires
        winner(rules, g, s, pos, k, end),
        rule_fires(rules, g, s, pos, k2, end),
    ensures
        k <= k2,
{
}

/// At most one rule wins at a position, and its match has one length.
pub proof fn lemma_winner_unique(
    rules: Seq<Rule>,
    g: Identifier,
    s: Seq<char>,
    pos: int,
    k: int,
    end: int,
    k2: int,
    end2: int,
)
    requires
        winner(rules, g, s, pos, k, end),
        winner(rules, g, s, pos, k2, end2),
    ensures
        k == k2,
        end == end2,
{
}

/// In a complete registry every group has a rule that fires at every
/// position up to the end of input, so the search for a winner never comes
/// back empty.
pub proof fn lemma_complete_always_fires(rules: Seq<Rule>, n: nat, g: Identifier, s: Seq<char>, pos: int)
    requires
        complete(n, rules),
        g.id < n,
        0 <= pos <= s.len(),
    ensures
        exists|k: int, e: int| rule_fires(rules, g, s, pos, k, e),
{
    assert(has_rule(rules, g.id as int, Pattern::Any) && has_rule(rules, g.id as int, Pattern::Eof));
    if pos < s.len() {
        let k = choose|k: int| 0 <= k < rules.len() && (#[trigger] rules[k]).group.id == g.id && rules[k].pattern == Pattern::Any;
        assert(rules[k].group == g);
        assert(rule_fires(rules, g, s, pos, k, pos + 1));
    } else {
        let k = choose|k: int| 0 <= k < rules.len() && (#[trigger] rules[k]).group.id == g.id && rules[k].pattern == Pattern::Eof;
        assert(rules[k].group == g);
        assert(rule_fires(rules, g, s, pos, k, pos + 1));
    }
}

} // verus!
