//! The capability path-ACL: which action a verb needs, and which paths a capability grants it on.
use crate::kernel::{held_scopes, is_root, scopes, texts, Verb};
use crate::path::{
    components, law_longer_is_deeper, parts, path_within, plainly_spelled, views, within,
};
use crate::text::{byte_len, concat3, strip_prefix};
use ikigai_core::Capability;
use vstd::prelude::*;

verus! {

/// The action that a verb needs. A description is not an endpoint's concern and has none.
pub open spec fn action_of(verb: Verb) -> Option<Seq<char>> {
    match verb {
        Verb::Source | Verb::Exists => Some("read"@),
        Verb::Sink => Some("write"@),
        Verb::Delete => Some("delete"@),
        Verb::Meta => None,
    }
}

/// The capability action a verb requires: reads (and existence checks) need `read`, writes need
/// `write`, deletes need `delete`.
pub fn cap_action(verb: Verb) -> (action: Option<&'static str>)
    ensures
        action is Some <==> action_of(verb) is Some,
        action matches Some(text) ==> action_of(verb) == Some(text@),
{
    match verb {
        Verb::Source | Verb::Exists => Some("read"),
        Verb::Sink => Some("write"),
        Verb::Delete => Some("delete"),
        Verb::Meta => None,
    }
}

/// A rule of the ACL: whether it allows or denies, and the directory or file that it is for.
pub struct Rule {
    pub allows: bool,
    pub dir: Seq<char>,
}

/// How every scope starts that is a rule for `action`.
pub open spec fn rule_prefix(action: Seq<char>) -> Seq<char> {
    "urn:cap:fs:"@ + action + ":"@
}

/// The rule for `action` that a scope spells: `urn:cap:fs:<action>:<path>`, with a `-` before
/// the path where it denies.
pub open spec fn rule_of(scope: Seq<char>, action: Seq<char>) -> Option<Rule> {
    if rule_prefix(action).is_prefix_of(scope) {
        let rest = scope.skip(rule_prefix(action).len() as int);
        if rest.len() > 0 && rest[0] == '-' {
            Some(Rule { allows: false, dir: rest.skip(1) })
        } else {
            Some(Rule { allows: true, dir: rest })
        }
    } else {
        None
    }
}

/// A scope spells a rule for `action` whose directory contains `target`.
pub open spec fn applies(scope: Seq<char>, action: Seq<char>, target: Seq<char>) -> bool {
    rule_of(scope, action) matches Some(rule) && within(rule.dir, target)
}

/// A scope spells a rule that allows `action`.
pub open spec fn allows(scope: Seq<char>, action: Seq<char>) -> bool {
    rule_of(scope, action) matches Some(rule) && rule.allows
}

/// How specific a rule is: how many components its directory has, however it is spelled.
pub open spec fn weight(scope: Seq<char>, action: Seq<char>) -> nat {
    match rule_of(scope, action) {
        Some(rule) => parts(rule.dir).len(),
        None => 0,
    }
}

/// The rule that `scope` spells yields to none of `scopes`: each of them that applies is less
/// specific, or is as specific and allows.
pub open spec fn prevails(
    scope: Seq<char>,
    scopes: Set<Seq<char>>,
    action: Seq<char>,
    target: Seq<char>,
) -> bool {
    forall|other: Seq<char>|
        #![trigger applies(other, action, target)]
        scopes.contains(other) && applies(other, action, target) ==> (weight(other, action)
            < weight(scope, action) || (weight(other, action) == weight(scope, action) && allows(
            other,
            action,
        )))
}

/// `scopes` grant `action` on `target`: an allowing rule applies, no more specific rule does, and
/// no rule as specific denies.
pub open spec fn grants(scopes: Set<Seq<char>>, action: Seq<char>, target: Seq<char>) -> bool {
    exists|scope: Seq<char>|
        #![trigger applies(scope, action, target)]
        scopes.contains(scope) && applies(scope, action, target) && allows(scope, action)
            && prevails(scope, scopes, action, target)
}

/// A capability that holds `held` allows `action` on `target`. The root capability (`None`)
/// allows everything.
pub open spec fn allowed(
    held: Option<Set<Seq<char>>>,
    action: Seq<char>,
    target: Seq<char>,
) -> bool {
    match held {
        None => true,
        Some(scopes) => grants(scopes, action, target),
    }
}

/// A list of scopes, or none for the root capability, as contracts speak of it.
pub open spec fn held_model(held: Option<&Vec<String>>) -> Option<Set<Seq<char>>> {
    match held {
        None => None,
        Some(list) => Some(texts(list@)),
    }
}

/// Whether `scopes` grant `action` on `target`, by longest-prefix path-ACL: among the rules whose
/// directory contains `target` the most specific decides, a deny wins ties, and no rule means
/// deny.
pub fn scopes_allow(scopes: &Vec<String>, action: &str, target: &str) -> (granted: bool)
    ensures
        granted == grants(texts(scopes@), action@, target@),
{
    let prefix = concat3("urn:cap:fs:", action, ":");
    let mut best: Option<usize> = None;
    let mut allowing: bool = false;
    let ghost mut chosen: int = -1;
    let size: usize = scopes.len();
    let mut i: usize = 0;
    while i < size
        invariant
            size == scopes@.len(),
            i <= size,
            prefix@ == rule_prefix(action@),
            best is None ==> !allowing,
            best is None ==> forall|j: int|
                0 <= j < i ==> !#[trigger] applies(scopes@[j]@, action@, target@),
            best matches Some(b) ==> {
                &&& 0 <= chosen < i
                &&& applies(scopes@[chosen]@, action@, target@)
                &&& weight(scopes@[chosen]@, action@) == b
                &&& allowing == allows(scopes@[chosen]@, action@)
                &&& forall|j: int|
                    0 <= j < i && #[trigger] applies(scopes@[j]@, action@, target@) ==> {
                        ||| weight(scopes@[j]@, action@) < b
                        ||| weight(scopes@[j]@, action@) == b && (allowing ==> allows(
                            scopes@[j]@,
                            action@,
                        ))
                    }
            },
        decreases size - i,
    {
        let scope = scopes[i].as_str();
        i = i + 1;
        let rest = match strip_prefix(scope, prefix.as_str()) {
            Some(rest) => rest,
            None => {
                continue;
            },
        };
        // A leading `-` marks a deny rule; the remainder is the directory or file.
        proof {
            reveal_strlit("-");
            assert("-"@ =~= seq!['-']);
            assert("-"@.is_prefix_of(rest@) <==> rest@.len() > 0 && rest@[0] == '-') by {
                if rest@.len() > 0 && rest@[0] == '-' {
                    assert(rest@.subrange(0, 1) =~= "-"@);
                }
                if "-"@.is_prefix_of(rest@) {
                    assert(rest@.subrange(0, 1)[0] == '-');
                }
            }
        }
        let (rule_allows, dir) = match strip_prefix(rest, "-") {
            Some(tail) => (false, tail),
            None => (true, rest),
        };
        assert(rule_of(scope@, action@) == Some(Rule { allows: rule_allows, dir: dir@ }));
        if !path_within(dir, target) {
            continue;
        }
        let list = components(dir);
        assert(list@.len() == views(list@).len());
        let len: usize = list.len();
        match best {
            Some(b) if len < b => {},
            Some(b) if len == b => {
                // A tie on specificity: deny wins.
                if allowing && !rule_allows {
                    allowing = false;
                    proof {
                        chosen = i - 1;
                    }
                }
            },
            _ => {
                best = Some(len);
                allowing = rule_allows;
                proof {
                    chosen = i - 1;
                }
            },
        }
    }
    let granted = best.is_some() && allowing;
    proof {
        let set = texts(scopes@);
        let list = scopes@.map_values(|text: String| text@);
        assert forall|j: int| 0 <= j < size implies set.contains(#[trigger] scopes@[j]@) by {
            assert(list[j] == scopes@[j]@);
        }
        if granted {
            let scope = scopes@[chosen]@;
            assert(prevails(scope, set, action@, target@)) by {
                assert forall|other: Seq<char>|
                    set.contains(other) && #[trigger] applies(other, action@, target@) implies (
                weight(other, action@) < weight(scope, action@) || (weight(other, action@)
                    == weight(scope, action@) && allows(other, action@))) by {
                    let j = choose|j: int| 0 <= j < list.len() && list[j] == other;
                    assert(applies(scopes@[j]@, action@, target@));
                }
            }
        } else if grants(set, action@, target@) {
            let scope = choose|scope: Seq<char>|
                #![trigger applies(scope, action@, target@)]
                set.contains(scope) && applies(scope, action@, target@) && allows(scope, action@)
                    && prevails(scope, set, action@, target@);
            let j = choose|j: int| 0 <= j < list.len() && list[j] == scope;
            assert(applies(scopes@[j]@, action@, target@));
            assert(applies(scopes@[chosen]@, action@, target@));
        }
    }
    granted
}

/// Whether a holder of `held` is granted `action` on `target`; `None` is the root capability, which
/// allows everything.
pub fn held_allow(held: Option<&Vec<String>>, action: &str, target: &str) -> (granted: bool)
    ensures
        granted == allowed(held_model(held), action@, target@),
{
    match held {
        None => true,
        Some(list) => scopes_allow(list, action, target),
    }
}

/// The scopes of a capability, or none for the root capability.
pub fn held_by(capability: &Capability) -> (held: Option<Vec<String>>)
    ensures
        held is None <==> held_scopes(*capability) is None,
        held matches Some(list) ==> held_scopes(*capability) == Some(texts(list@)),
{
    if is_root(capability) {
        return None;
    }
    match scopes(capability) {
        Some(list) => Some(list),
        // Not the root capability, so what lists no scopes holds none.
        None => Some(Vec::new()),
    }
}

/// Whether `capability` grants `action` on `target`. The root capability allows everything (the
/// jail is the only remaining bound).
pub fn cap_allows(capability: &Capability, action: &str, target: &str) -> (granted: bool)
    ensures
        granted == allowed(held_scopes(*capability), action@, target@),
{
    match held_by(capability) {
        Some(list) => held_allow(Some(&list), action, target),
        None => held_allow(None, action, target),
    }
}

/// The scope that allows `action` on `dir` and what is beneath it.
pub open spec fn allow_scope(action: Seq<char>, dir: Seq<char>) -> Seq<char> {
    rule_prefix(action) + dir
}

/// The scope that denies `action` on `dir` and what is beneath it.
pub open spec fn deny_scope(action: Seq<char>, dir: Seq<char>) -> Seq<char> {
    rule_prefix(action).push('-') + dir
}

/// The rules that these two kinds of scope spell. A directory that starts with `-` cannot be
/// written into an allowing scope.
pub proof fn lemma_spelled_rules(action: Seq<char>, dir: Seq<char>)
    ensures
        rule_of(deny_scope(action, dir), action) == Some(Rule { allows: false, dir }),
        dir.len() == 0 || dir[0] != '-' ==> rule_of(allow_scope(action, dir), action) == Some(
            Rule { allows: true, dir },
        ),
{
    let n = rule_prefix(action).len() as int;
    let deny = deny_scope(action, dir);
    assert(rule_prefix(action) =~= deny.subrange(0, n));
    assert(deny.skip(n)[0] == '-');
    assert(deny.skip(n).skip(1) =~= dir);
    let allow = allow_scope(action, dir);
    assert(rule_prefix(action) =~= allow.subrange(0, n));
    assert(allow.skip(n) =~= dir);
}

/// The root capability allows every action everywhere.
pub proof fn law_root_allows_everything(action: Seq<char>, target: Seq<char>)
    ensures
        allowed(None, action, target),
{
}

/// A rule is spelled by one scope only: with its directory behind the prefix, and a `-` in between
/// where it denies.
pub proof fn lemma_rule_spelling(scope: Seq<char>, action: Seq<char>)
    requires
        rule_of(scope, action) is Some,
    ensures
        ({
            let rule = rule_of(scope, action)->0;
            &&& rule.allows ==> scope == allow_scope(action, rule.dir) && (rule.dir.len() == 0
                || rule.dir[0] != '-')
            &&& !rule.allows ==> scope == deny_scope(action, rule.dir)
        }),
{
    let prefix = rule_prefix(action);
    let n = prefix.len() as int;
    let rest = scope.skip(n);
    assert(scope =~= prefix + rest);
    if rest.len() > 0 && rest[0] == '-' {
        assert(scope =~= prefix.push('-') + rest.skip(1));
    }
}

/// What a capability of listed scopes allows, by the texts that it lists: an action on a path is
/// allowed where one of them is `urn:cap:fs:`, the very action, `:` and a directory that contains
/// the path, such that no other such directory has more components, and that each directory that
/// contains the path and stands behind a `-` has fewer.
pub proof fn law_listed_scopes_decide(
    scopes: Set<Seq<char>>,
    action: Seq<char>,
    target: Seq<char>,
)
    ensures
        allowed(Some(scopes), action, target) <==> grants(scopes, action, target),
        allowed(Some(scopes), action, target) <==> exists|dir: Seq<char>|
            {
                &&& #[trigger] within(dir, target)
                &&& scopes.contains("urn:cap:fs:"@ + action + ":"@ + dir)
                &&& dir.len() == 0 || dir[0] != '-'
                &&& forall|other: Seq<char>| #[trigger]
                    within(other, target) ==> {
                        &&& scopes.contains("urn:cap:fs:"@ + action + ":"@ + other) && (other.len()
                            == 0 || other[0] != '-') ==> parts(other).len() <= parts(dir).len()
                        &&& scopes.contains("urn:cap:fs:"@ + action + ":-"@ + other) ==> parts(
                            other,
                        ).len() < parts(dir).len()
                    }
            },
{
    reveal_strlit(":");
    reveal_strlit(":-");
    assert forall|dir: Seq<char>| #[trigger] deny_scope(action, dir) == "urn:cap:fs:"@ + action
        + ":-"@ + dir by {
        assert(deny_scope(action, dir) =~= "urn:cap:fs:"@ + action + ":-"@ + dir);
    }
    if allowed(Some(scopes), action, target) {
        let scope = choose|scope: Seq<char>|
            #![trigger applies(scope, action, target)]
            scopes.contains(scope) && applies(scope, action, target) && allows(scope, action)
                && prevails(scope, scopes, action, target);
        lemma_rule_spelling(scope, action);
        let dir = rule_of(scope, action)->0.dir;
        assert forall|other: Seq<char>| #[trigger] within(other, target) implies {
            &&& scopes.contains("urn:cap:fs:"@ + action + ":"@ + other) && (other.len() == 0
                || other[0] != '-') ==> parts(other).len() <= parts(dir).len()
            &&& scopes.contains("urn:cap:fs:"@ + action + ":-"@ + other) ==> parts(other).len()
                < parts(dir).len()
        } by {
            lemma_spelled_rules(action, other);
            let deny = deny_scope(action, other);
            let allow = allow_scope(action, other);
            assert(applies(deny, action, target));
            if other.len() == 0 || other[0] != '-' {
                assert(applies(allow, action, target));
            }
        }
        assert(within(dir, target));
    }
    if exists|dir: Seq<char>|
        {
            &&& #[trigger] within(dir, target)
            &&& scopes.contains("urn:cap:fs:"@ + action + ":"@ + dir)
            &&& dir.len() == 0 || dir[0] != '-'
            &&& forall|other: Seq<char>| #[trigger]
                within(other, target) ==> {
                    &&& scopes.contains("urn:cap:fs:"@ + action + ":"@ + other) && (other.len()
                        == 0 || other[0] != '-') ==> parts(other).len() <= parts(dir).len()
                    &&& scopes.contains("urn:cap:fs:"@ + action + ":-"@ + other) ==> parts(
                        other,
                    ).len() < parts(dir).len()
                }
        } {
        let dir = choose|dir: Seq<char>|
            {
                &&& #[trigger] within(dir, target)
                &&& scopes.contains("urn:cap:fs:"@ + action + ":"@ + dir)
                &&& dir.len() == 0 || dir[0] != '-'
                &&& forall|other: Seq<char>| #[trigger]
                    within(other, target) ==> {
                        &&& scopes.contains("urn:cap:fs:"@ + action + ":"@ + other) && (other.len()
                            == 0 || other[0] != '-') ==> parts(other).len() <= parts(dir).len()
                        &&& scopes.contains("urn:cap:fs:"@ + action + ":-"@ + other) ==> parts(
                            other,
                        ).len() < parts(dir).len()
                    }
            };
        lemma_spelled_rules(action, dir);
        let scope = allow_scope(action, dir);
        assert(applies(scope, action, target));
        assert(prevails(scope, scopes, action, target)) by {
            assert forall|other: Seq<char>|
                scopes.contains(other) && #[trigger] applies(other, action, target) implies (weight(
                other,
                action,
            ) < weight(scope, action) || (weight(other, action) == weight(scope, action) && allows(
                other,
                action,
            ))) by {
                lemma_rule_spelling(other, action);
                assert(within(rule_of(other, action)->0.dir, target));
            }
        }
    }
}

/// Scopes of one action allow nothing of another: where every scope held starts with `urn:cap:fs:`
/// and an action other than the one that is asked for, the answer is no.
pub proof fn law_scopes_allow_their_own_action_only(
    scopes: Set<Seq<char>>,
    action: Seq<char>,
    target: Seq<char>,
)
    requires
        !action.contains(':'),
        forall|scope: Seq<char>| #[trigger]
            scopes.contains(scope) ==> exists|other: Seq<char>|
                {
                    &&& !other.contains(':')
                    &&& other != action
                    &&& #[trigger] ("urn:cap:fs:"@ + other + ":"@).is_prefix_of(scope)
                },
    ensures
        !allowed(Some(scopes), action, target),
{
    assert forall|scope: Seq<char>| scopes.contains(scope) implies !#[trigger] applies(
        scope,
        action,
        target,
    ) by {
        let other = choose|other: Seq<char>|
            {
                &&& !other.contains(':')
                &&& other != action
                &&& #[trigger] ("urn:cap:fs:"@ + other + ":"@).is_prefix_of(scope)
            };
        assert(rule_of(scope, other) is Some);
        if applies(scope, action, target) {
            law_actions_are_separate(scope, other, action);
        }
    }
}

/// A capability that lists nothing allows nothing, and only what `urn:cap:fs:` starts counts: other
/// scopes neither allow nor deny.
pub proof fn law_other_scopes_allow_nothing(
    scopes: Set<Seq<char>>,
    foreign: Seq<char>,
    action: Seq<char>,
    target: Seq<char>,
)
    requires
        !("urn:cap:fs:"@ + action + ":"@).is_prefix_of(foreign),
    ensures
        !allowed(Some(Set::empty()), action, target),
        allowed(Some(scopes.insert(foreign)), action, target) == allowed(
            Some(scopes),
            action,
            target,
        ),
{
    let more = scopes.insert(foreign);
    let keep = |scope: Seq<char>| rule_of(scope, action) is Some;
    law_other_scopes_have_no_say(scopes, action, target);
    law_other_scopes_have_no_say(more, action, target);
    assert(more.filter(keep) =~= scopes.filter(keep));
}

/// A list of scopes stands for the texts in it, in any order and however often.
pub proof fn law_lists_hold_their_texts(list: Vec<String>, scope: Seq<char>)
    ensures
        held_model(None) is None,
        held_model(Some(&list)) is Some,
        held_model(Some(&list))->0.contains(scope) <==> exists|i: int|
            0 <= i < list@.len() && #[trigger] list@[i]@ == scope,
{
    let all = list@.map_values(|text: String| text@);
    if texts(list@).contains(scope) {
        let i = choose|i: int| 0 <= i < all.len() && all[i] == scope;
        assert(list@[i]@ == scope);
    }
    if exists|i: int| 0 <= i < list@.len() && #[trigger] list@[i]@ == scope {
        let i = choose|i: int| 0 <= i < list@.len() && #[trigger] list@[i]@ == scope;
        assert(all[i] == scope);
    }
}

/// Reads and existence checks need `read`, writes need `write`, removals need `delete`, and a
/// description needs nothing of an endpoint.
pub proof fn law_verbs_need_their_action()
    ensures
        action_of(Verb::Source) == Some("read"@),
        action_of(Verb::Exists) == Some("read"@),
        action_of(Verb::Sink) == Some("write"@),
        action_of(Verb::Delete) == Some("delete"@),
        action_of(Verb::Meta) is None,
{
}

/// Where no rule applies the answer is no: a capability grants nothing by default.
pub proof fn law_default_deny(scopes: Set<Seq<char>>, action: Seq<char>, target: Seq<char>)
    requires
        forall|scope: Seq<char>|
            scopes.contains(scope) ==> !#[trigger] applies(scope, action, target),
    ensures
        !grants(scopes, action, target),
{
}

/// A rule that is more specific than every other one that applies decides.
pub proof fn law_most_specific_rule_decides(
    scopes: Set<Seq<char>>,
    action: Seq<char>,
    target: Seq<char>,
    scope: Seq<char>,
)
    requires
        scopes.contains(scope),
        applies(scope, action, target),
        forall|other: Seq<char>|
            scopes.contains(other) && other != scope && #[trigger] applies(other, action, target)
                ==> weight(other, action) < weight(scope, action),
    ensures
        grants(scopes, action, target) == allows(scope, action),
{
    if allows(scope, action) {
        assert(prevails(scope, scopes, action, target));
    }
}

/// A deny wins a tie: where it applies and no rule that applies is more specific, the answer is
/// no.
pub proof fn law_deny_breaks_ties(
    scopes: Set<Seq<char>>,
    action: Seq<char>,
    target: Seq<char>,
    deny: Seq<char>,
)
    requires
        scopes.contains(deny),
        applies(deny, action, target),
        !allows(deny, action),
        forall|other: Seq<char>|
            scopes.contains(other) && #[trigger] applies(other, action, target) ==> weight(
                other,
                action,
            ) <= weight(deny, action),
    ensures
        !grants(scopes, action, target),
{
}

/// One more rule that denies an action never grants it, and one more rule that allows an action
/// never takes it away.
pub proof fn law_rules_only_do_what_they_say(
    scopes: Set<Seq<char>>,
    action: Seq<char>,
    target: Seq<char>,
    scope: Seq<char>,
)
    requires
        rule_of(scope, action) is Some,
    ensures
        !allows(scope, action) && grants(scopes.insert(scope), action, target) ==> grants(
            scopes,
            action,
            target,
        ),
        allows(scope, action) && grants(scopes, action, target) ==> grants(
            scopes.insert(scope),
            action,
            target,
        ),
{
    let more = scopes.insert(scope);
    if !allows(scope, action) && grants(more, action, target) {
        let chosen = choose|chosen: Seq<char>|
            #![trigger applies(chosen, action, target)]
            more.contains(chosen) && applies(chosen, action, target) && allows(chosen, action)
                && prevails(chosen, more, action, target);
        assert(scopes.contains(chosen));
        assert(prevails(chosen, scopes, action, target));
    }
    if allows(scope, action) && grants(scopes, action, target) {
        let chosen = choose|chosen: Seq<char>|
            #![trigger applies(chosen, action, target)]
            scopes.contains(chosen) && applies(chosen, action, target) && allows(chosen, action)
                && prevails(chosen, scopes, action, target);
        if applies(scope, action, target) && weight(scope, action) > weight(chosen, action) {
            assert(prevails(scope, more, action, target));
            assert(more.contains(scope));
        } else {
            assert(prevails(chosen, more, action, target));
            assert(more.contains(chosen));
        }
    }
}

/// How a directory is spelled makes no difference: an allow and a deny of one directory are a
/// tie, and the deny wins it.
pub proof fn law_spelling_makes_no_difference(
    action: Seq<char>,
    denied: Seq<char>,
    respelled: Seq<char>,
    target: Seq<char>,
)
    requires
        respelled.len() == 0 || respelled[0] != '-',
        parts(denied) == parts(respelled),
    ensures
        !grants(
            set![deny_scope(action, denied), allow_scope(action, respelled)],
            action,
            target,
        ),
{
    lemma_spelled_rules(action, denied);
    lemma_spelled_rules(action, respelled);
    let deny = deny_scope(action, denied);
    let scopes = set![deny, allow_scope(action, respelled)];
    if within(denied, target) {
        assert(applies(deny, action, target));
        law_deny_breaks_ties(scopes, action, target, deny);
    } else {
        law_default_deny(scopes, action, target);
    }
}

/// An allowlist: a single allowing rule grants its directory, what is beneath it, and no more.
pub proof fn law_allowlist(action: Seq<char>, dir: Seq<char>, target: Seq<char>)
    requires
        dir.len() == 0 || dir[0] != '-',
    ensures
        grants(set![allow_scope(action, dir)], action, target) <==> within(dir, target),
{
    lemma_spelled_rules(action, dir);
    let scope = allow_scope(action, dir);
    if within(dir, target) {
        assert(applies(scope, action, target));
        law_most_specific_rule_decides(set![scope], action, target, scope);
    }
}

/// An exclusion: a directory is granted except for a subtree that is denied.
pub proof fn law_exclusion(
    action: Seq<char>,
    dir: Seq<char>,
    excluded: Seq<char>,
    target: Seq<char>,
)
    requires
        dir.len() == 0 || dir[0] != '-',
        within(dir, excluded),
    ensures
        grants(
            set![allow_scope(action, dir), deny_scope(action, excluded)],
            action,
            target,
        ) <==> within(dir, target) && !within(excluded, target),
{
    lemma_spelled_rules(action, dir);
    lemma_spelled_rules(action, excluded);
    let allow = allow_scope(action, dir);
    let deny = deny_scope(action, excluded);
    let scopes = set![allow, deny];
    if within(excluded, target) {
        assert(applies(deny, action, target));
        law_deny_breaks_ties(scopes, action, target, deny);
    } else if within(dir, target) {
        assert(applies(allow, action, target));
        assert(!applies(deny, action, target));
        law_most_specific_rule_decides(scopes, action, target, allow);
    } else {
        law_default_deny(scopes, action, target);
    }
}

/// A more specific allowing rule opens a part of an excluded subtree again.
pub proof fn law_reopened_exclusion(
    action: Seq<char>,
    dir: Seq<char>,
    excluded: Seq<char>,
    shared: Seq<char>,
    target: Seq<char>,
)
    requires
        dir.len() == 0 || dir[0] != '-',
        shared.len() == 0 || shared[0] != '-',
        within(dir, excluded),
        parts(excluded).len() < parts(shared).len(),
    ensures
        grants(
            set![
                allow_scope(action, dir),
                deny_scope(action, excluded),
                allow_scope(action, shared),
            ],
            action,
            target,
        ) <==> within(shared, target) || (within(dir, target) && !within(excluded, target)),
{
    lemma_spelled_rules(action, dir);
    lemma_spelled_rules(action, excluded);
    lemma_spelled_rules(action, shared);
    let allow = allow_scope(action, dir);
    let deny = deny_scope(action, excluded);
    let again = allow_scope(action, shared);
    let scopes = set![allow, deny, again];
    if within(shared, target) {
        assert(applies(again, action, target));
        law_most_specific_rule_decides(scopes, action, target, again);
    } else {
        assert(!applies(again, action, target));
        if within(excluded, target) {
            assert(applies(deny, action, target));
            law_deny_breaks_ties(scopes, action, target, deny);
        } else if within(dir, target) {
            assert(applies(allow, action, target));
            assert(!applies(deny, action, target));
            law_most_specific_rule_decides(scopes, action, target, allow);
        } else {
            law_default_deny(scopes, action, target);
        }
    }
}

/// No scope is a rule for two actions.
pub proof fn law_actions_are_separate(scope: Seq<char>, a: Seq<char>, b: Seq<char>)
    requires
        !a.contains(':'),
        !b.contains(':'),
        rule_of(scope, a) is Some,
        rule_of(scope, b) is Some,
    ensures
        a == b,
{
    reveal_strlit("urn:cap:fs:");
    reveal_strlit(":");
    let pa = rule_prefix(a);
    let pb = rule_prefix(b);
    assert forall|i: int| 0 <= i < pa.len() implies pa[i] == #[trigger] scope[i] by {
        assert(scope.subrange(0, pa.len() as int)[i] == scope[i]);
    }
    assert forall|i: int| 0 <= i < pb.len() implies pb[i] == #[trigger] scope[i] by {
        assert(scope.subrange(0, pb.len() as int)[i] == scope[i]);
    }
    assert(pa[11 + a.len() as int] == ':');
    assert(pb[11 + b.len() as int] == ':');
    assert(forall|i: int| 0 <= i < a.len() ==> #[trigger] a[i] == pa[11 + i]);
    assert(forall|i: int| 0 <= i < b.len() ==> #[trigger] b[i] == pb[11 + i]);
    if a.len() < b.len() {
        assert(b[a.len() as int] == scope[11 + a.len() as int]);
        assert(b.contains(':'));
    } else if b.len() < a.len() {
        assert(a[b.len() as int] == scope[11 + b.len() as int]);
        assert(a.contains(':'));
    } else {
        assert forall|i: int| 0 <= i < a.len() implies a[i] == b[i] by {
            assert(a[i] == scope[11 + i]);
            assert(b[i] == scope[11 + i]);
        }
        assert(a =~= b);
    }
}

/// Scopes for one action grant nothing of another: to read is not to write.
pub proof fn law_no_grant_across_actions(
    scopes: Set<Seq<char>>,
    held: Seq<char>,
    wanted: Seq<char>,
    target: Seq<char>,
)
    requires
        !held.contains(':'),
        !wanted.contains(':'),
        held != wanted,
        forall|scope: Seq<char>| #[trigger]
            scopes.contains(scope) ==> rule_of(scope, held) is Some,
    ensures
        !grants(scopes, wanted, target),
{
    assert forall|scope: Seq<char>| scopes.contains(scope) implies !#[trigger] applies(
        scope,
        wanted,
        target,
    ) by {
        if applies(scope, wanted, target) {
            law_actions_are_separate(scope, held, wanted);
        }
    }
}

/// Scopes that are no rule for an action have no say in it.
pub proof fn law_other_scopes_have_no_say(
    scopes: Set<Seq<char>>,
    action: Seq<char>,
    target: Seq<char>,
)
    ensures
        grants(scopes, action, target) == grants(
            scopes.filter(|scope: Seq<char>| rule_of(scope, action) is Some),
            action,
            target,
        ),
{
    let own = scopes.filter(|scope: Seq<char>| rule_of(scope, action) is Some);
    if grants(scopes, action, target) {
        let scope = choose|scope: Seq<char>|
            #![trigger applies(scope, action, target)]
            scopes.contains(scope) && applies(scope, action, target) && allows(scope, action)
                && prevails(scope, scopes, action, target);
        assert(own.contains(scope));
        assert(prevails(scope, own, action, target));
    }
    if grants(own, action, target) {
        let scope = choose|scope: Seq<char>|
            #![trigger applies(scope, action, target)]
            own.contains(scope) && applies(scope, action, target) && allows(scope, action)
                && prevails(scope, own, action, target);
        assert(prevails(scope, scopes, action, target)) by {
            assert forall|other: Seq<char>|
                scopes.contains(other) && #[trigger] applies(other, action, target) implies (weight(
                other,
                action,
            ) < weight(scope, action) || (weight(other, action) == weight(scope, action) && allows(
                other,
                action,
            ))) by {
                assert(own.contains(other));
            }
        }
    }
}

/// The length of the directory of a rule, in bytes.
pub open spec fn text_length(scope: Seq<char>, action: Seq<char>) -> nat {
    match rule_of(scope, action) {
        Some(rule) => byte_len(rule.dir),
        None => 0,
    }
}

/// The longest prefix wins: where the directories of the rules that apply are spelled plainly,
/// the most specific rule is the one with the longest text.
pub proof fn law_longest_prefix_wins(
    scopes: Set<Seq<char>>,
    action: Seq<char>,
    target: Seq<char>,
)
    requires
        forall|scope: Seq<char>|
            scopes.contains(scope) && #[trigger] applies(scope, action, target)
                ==> plainly_spelled(rule_of(scope, action)->0.dir),
    ensures
        grants(scopes, action, target) <==> exists|scope: Seq<char>|
            #![trigger applies(scope, action, target)]
            scopes.contains(scope) && applies(scope, action, target) && allows(scope, action) && (
            forall|other: Seq<char>|
                #![trigger applies(other, action, target)]
                scopes.contains(other) && applies(other, action, target) ==> (text_length(
                    other,
                    action,
                ) < text_length(scope, action) || (text_length(other, action) == text_length(
                    scope,
                    action,
                ) && allows(other, action)))),
{
    assert forall|a: Seq<char>, b: Seq<char>|
        #![trigger applies(a, action, target), applies(b, action, target)]
        scopes.contains(a) && scopes.contains(b) && applies(a, action, target) && applies(
            b,
            action,
            target,
        ) implies {
        &&& text_length(a, action) < text_length(b, action) <==> weight(a, action) < weight(
            b,
            action,
        )
        &&& text_length(a, action) == text_length(b, action) <==> weight(a, action) == weight(
            b,
            action,
        )
    } by {
        let x = rule_of(a, action)->0.dir;
        let y = rule_of(b, action)->0.dir;
        law_longer_is_deeper(x, y, target);
        law_longer_is_deeper(y, x, target);
    }
}

} // verus!
