//! What the policy promises the operator: which criteria a rule goes by, which
//! rule decides, and what it lets the caller do.

use vstd::prelude::*;
use vstd::string::*;

use crate::json::JsonView;
use crate::keyset::list_admits;
use crate::meta::{chrono_timestamp, meta_of, LevelView, MetaView};
use crate::policy::{
    any_fits, criteria_hold, decide, first_match, first_matching_rule_wins, level_fits,
    none_before, one_fits, some_fits, tightened, undecided_rule_denies, unmatched_falls_to_default,
    Action,
    Capability, CriteriaView, Operation, PolicyView, RuleView, Truth,
};
use crate::text::{fits, lower, same_ignoring_case};

verus! {

// --- patterns ---------------------------------------------------------------

/// The same letter, or an ASCII capital and its small form.
pub open spec fn alike(a: char, b: char) -> bool {
    ||| a == b
    ||| 'A' <= a <= 'Z' && b as u32 == a as u32 + 32
    ||| 'A' <= b <= 'Z' && a as u32 == b as u32 + 32
}

/// The same text but for capitals.
pub open spec fn alike_texts(a: Seq<char>, b: Seq<char>) -> bool {
    a.len() == b.len() && forall|i: int| 0 <= i < a.len() ==> alike(#[trigger] a[i], b[i])
}

proof fn lemma_alike(a: char, b: char)
    ensures
        (lower(a) == lower(b)) == alike(a, b),
{
}

/// Two texts are taken for the same exactly where they differ in ASCII capitals
/// alone.
pub proof fn case_is_all_that_may_differ(a: Seq<char>, b: Seq<char>)
    ensures
        same_ignoring_case(a, b) == alike_texts(a, b),
{
    assert forall|x: char, y: char| (#[trigger] lower(x) == #[trigger] lower(y)) == alike(x, y) by {
        lemma_alike(x, y);
    }
    if same_ignoring_case(a, b) {
        assert forall|i: int| 0 <= i < a.len() implies alike(#[trigger] a[i], b[i]) by {
            assert(lower(a[i]) == lower(b[i]));
        }
    }
    if alike_texts(a, b) {
        assert forall|i: int| 0 <= i < a.len() implies lower(#[trigger] a[i]) == lower(b[i]) by {
            assert(alike(a[i], b[i]));
        }
    }
}

/// A pattern of one character other than the asterisk fits a text of one
/// character that is alike; an asterisk fits every text; the empty pattern fits
/// the empty text alone.
pub proof fn a_pattern_stands_for_what_it_holds(c: char, text: Seq<char>)
    ensures
        c != '*' ==> fits(seq![c], text) == (text.len() == 1 && alike(c, text[0])),
        fits(seq!['*'], text),
        fits(Seq::empty(), text) == (text.len() == 0),
    decreases text.len(),
{
    reveal_with_fuel(fits, 3);
    assert(seq![c].skip(1) =~= Seq::<char>::empty());
    assert(seq!['*'].skip(1) =~= Seq::<char>::empty());
    if text.len() > 0 {
        lemma_alike(c, text[0]);
        assert(text.skip(1).len() == text.len() - 1);
        a_pattern_stands_for_what_it_holds(c, text.skip(1));
    }
}

/// `text` comes apart at `i` into a part that fits `first` and one that fits
/// `second`.
pub open spec fn fits_apart(first: Seq<char>, second: Seq<char>, text: Seq<char>, i: int) -> bool {
    0 <= i <= text.len() && fits(first, text.take(i)) && fits(second, text.skip(i))
}

/// A pattern fits a text exactly where its parts fit parts of the text, in
/// order and with nothing left over.
pub proof fn a_pattern_fits_part_by_part(first: Seq<char>, second: Seq<char>, text: Seq<char>)
    ensures
        fits(first + second, text) == exists|i: int| #[trigger]
            fits_apart(first, second, text, i),
    decreases first.len() + text.len(),
{
    let whole = first + second;
    if first.len() == 0 {
        assert(whole =~= second);
        assert(text.skip(0) =~= text);
        if fits(whole, text) {
            assert(fits_apart(first, second, text, 0));
        }
        if exists|i: int| #[trigger] fits_apart(first, second, text, i) {
            let i = choose|i: int| #[trigger] fits_apart(first, second, text, i);
            assert(text.take(i).len() == 0);
        }
    } else if first[0] == '*' {
        let shorter = first.skip(1);
        assert(whole.skip(1) =~= shorter + second);
        a_pattern_fits_part_by_part(shorter, second, text);
        if text.len() > 0 {
            a_pattern_fits_part_by_part(first, second, text.skip(1));
        }
        if fits(whole, text) {
            if fits(shorter + second, text) {
                let i = choose|i: int| #[trigger] fits_apart(shorter, second, text, i);
                assert(fits_apart(first, second, text, i));
            } else {
                let i = choose|i: int| #[trigger] fits_apart(first, second, text.skip(1), i);
                assert(text.take(i + 1).skip(1) =~= text.skip(1).take(i));
                assert(text.skip(i + 1) =~= text.skip(1).skip(i));
                assert(fits_apart(first, second, text, i + 1));
            }
        }
        if exists|i: int| #[trigger] fits_apart(first, second, text, i) {
            let i = choose|i: int| #[trigger] fits_apart(first, second, text, i);
            if fits(shorter, text.take(i)) {
                assert(fits_apart(shorter, second, text, i));
            } else {
                assert(text.take(i).skip(1) =~= text.skip(1).take(i - 1));
                assert(text.skip(i) =~= text.skip(1).skip(i - 1));
                assert(fits_apart(first, second, text.skip(1), i - 1));
            }
        }
    } else {
        let shorter = first.skip(1);
        assert(whole.skip(1) =~= shorter + second);
        assert(whole[0] == first[0]);
        if text.len() > 0 {
            a_pattern_fits_part_by_part(shorter, second, text.skip(1));
        }
        if fits(whole, text) {
            let i = choose|i: int| #[trigger] fits_apart(shorter, second, text.skip(1), i);
            assert(text.take(i + 1).skip(1) =~= text.skip(1).take(i));
            assert(text.skip(i + 1) =~= text.skip(1).skip(i));
            assert(text.take(i + 1)[0] == text[0]);
            assert(fits_apart(first, second, text, i + 1));
        }
        if exists|i: int| #[trigger] fits_apart(first, second, text, i) {
            let i = choose|i: int| #[trigger] fits_apart(first, second, text, i);
            assert(text.take(i).skip(1) =~= text.skip(1).take(i - 1));
            assert(text.skip(i) =~= text.skip(1).skip(i - 1));
            assert(text.take(i)[0] == text[0]);
            assert(fits_apart(shorter, second, text.skip(1), i - 1));
        }
    }
}

// --- criteria ---------------------------------------------------------------

/// One of the patterns fits.
pub open spec fn hits(patterns: Seq<Seq<char>>, text: Seq<char>) -> bool {
    exists|i: int| 0 <= i < patterns.len() && fits(#[trigger] patterns[i], text)
}

/// Patterns are given, and none of them fits.
pub open spec fn misses(patterns: Seq<Seq<char>>, text: Seq<char>) -> bool {
    &&& patterns.len() > 0
    &&& forall|i: int| 0 <= i < patterns.len() ==> !fits(#[trigger] patterns[i], text)
}

/// Patterns are given, and none of them fits any of the texts.
pub open spec fn misses_all(patterns: Seq<Seq<char>>, list: Seq<Seq<char>>) -> bool {
    &&& patterns.len() > 0
    &&& forall|j: int| 0 <= j < list.len() ==> misses(patterns, #[trigger] list[j])
}

/// One of the patterns fits one of the texts.
pub open spec fn hits_some(patterns: Seq<Seq<char>>, list: Seq<Seq<char>>) -> bool {
    exists|j: int| 0 <= j < list.len() && hits(patterns, #[trigger] list[j])
}

/// The operator declares the project public.
pub open spec fn declared(public_projects: Seq<Seq<char>>, project: Seq<char>) -> bool {
    exists|i: int|
        0 <= i < public_projects.len() && alike_texts(#[trigger] public_projects[i], project)
}

/// A full day, in seconds.
pub open spec fn day() -> int {
    86400
}

/// The issue is known to be public: it has no security level, and the operator
/// declares its project public.
pub open spec fn known_public(meta: MetaView) -> bool {
    &&& meta.security is Absent
    &&& meta.project matches Some(t)
    &&& declared(meta.public_projects, t)
}

/// Where patterns are given, the text is known and one of them fits it.
pub open spec fn met_by(patterns: Seq<Seq<char>>, text: Option<Seq<char>>) -> bool {
    patterns.len() > 0 ==> text is Some && hits(patterns, text->0)
}

/// Where patterns are given, the texts are known and one of them is fitted.
pub open spec fn met_by_some(patterns: Seq<Seq<char>>, list: Option<Seq<Seq<char>>>) -> bool {
    patterns.len() > 0 ==> list is Some && hits_some(patterns, list->0)
}

/// What is known of an issue speaks against one of the criteria.
pub open spec fn refuted(c: CriteriaView, meta: MetaView, now: int) -> bool {
    ||| meta.project matches Some(t) && misses(c.projects, t)
    ||| meta.components matches Some(l) && misses_all(c.components, l)
    ||| meta.labels matches Some(l) && misses_all(c.labels, l)
    ||| meta.status matches Some(t) && misses(c.statuses, t)
    ||| meta.priority matches Some(t) && misses(c.priorities, t)
    ||| meta.issue_type matches Some(t) && misses(c.issue_types, t)
    ||| meta.security matches LevelView::Present(t) && misses(c.security_levels, t)
    ||| meta.security is Absent && c.security_levels.len() > 0
    ||| meta.summary matches Some(t) && misses(c.summary, t)
    ||| meta.security is Absent && c.has_security_level == Some(true)
    ||| meta.security is Present && c.has_security_level == Some(false)
    ||| meta.security is Present && c.public_project == Some(true)
    ||| c.public_project == Some(false) && known_public(meta)
    ||| c.younger_than_days is Some && meta.created is Some && now - meta.created->0
        >= c.younger_than_days->0 * day()
    ||| c.created_by_me matches Some(wanted) && meta.created_by_me == Some(!wanted)
}

/// Every criterion that is given holds of what is known of an issue.
pub open spec fn met(c: CriteriaView, meta: MetaView, now: int) -> bool {
    &&& met_by(c.projects, meta.project)
    &&& met_by_some(c.components, meta.components)
    &&& met_by_some(c.labels, meta.labels)
    &&& met_by(c.statuses, meta.status)
    &&& met_by(c.priorities, meta.priority)
    &&& met_by(c.issue_types, meta.issue_type)
    &&& met_by(
        c.security_levels,
        match meta.security {
            LevelView::Present(t) => Some(t),
            _ => None,
        },
    )
    &&& met_by(c.summary, meta.summary)
    &&& c.has_security_level == Some(true) ==> meta.security is Present
    &&& c.has_security_level == Some(false) ==> meta.security is Absent
    &&& c.public_project == Some(true) ==> known_public(meta)
    &&& c.public_project == Some(false) ==> meta.security is Present
    &&& c.younger_than_days is Some ==> meta.created is Some && now - meta.created->0
        < c.younger_than_days->0 * day()
    &&& c.created_by_me is Some ==> meta.created_by_me == c.created_by_me
}

proof fn lemma_one_fits(patterns: Seq<Seq<char>>, text: Option<Seq<char>>)
    ensures
        one_fits(patterns, text) == Truth::No <==> text is Some && misses(patterns, text->0),
        one_fits(patterns, text) == Truth::Yes <==> met_by(patterns, text),
{
    if let Some(t) = text {
        lemma_any_fits(patterns, t);
    }
}

proof fn lemma_any_fits(patterns: Seq<Seq<char>>, text: Seq<char>)
    ensures
        any_fits(patterns, text) == hits(patterns, text),
        patterns.len() > 0 ==> misses(patterns, text) == !hits(patterns, text),
{
    if any_fits(patterns, text) {
        let i = choose|i: int| 0 <= i < patterns.len() && fits(#[trigger] patterns[i], text);
        assert(fits(patterns[i], text));
    }
    if hits(patterns, text) {
        let i = choose|i: int| 0 <= i < patterns.len() && fits(#[trigger] patterns[i], text);
        assert(fits(patterns[i], text));
    }
}

proof fn lemma_some_fits(patterns: Seq<Seq<char>>, list: Option<Seq<Seq<char>>>)
    ensures
        some_fits(patterns, list) == Truth::No <==> list is Some && misses_all(patterns, list->0),
        some_fits(patterns, list) == Truth::Yes <==> met_by_some(patterns, list),
{
    if let Some(l) = list {
        assert forall|j: int| 0 <= j < l.len() implies any_fits(patterns, #[trigger] l[j]) == hits(
            patterns,
            l[j],
        ) && (patterns.len() > 0 ==> misses(patterns, l[j]) == !hits(patterns, l[j])) by {
            lemma_any_fits(patterns, l[j]);
        }
    }
}

proof fn lemma_level_fits(patterns: Seq<Seq<char>>, level: LevelView)
    ensures
        level_fits(patterns, level) == Truth::No <==> {
            ||| level matches LevelView::Present(t) && misses(patterns, t)
            ||| level is Absent && patterns.len() > 0
        },
        level_fits(patterns, level) == Truth::Yes <==> met_by(
            patterns,
            match level {
                LevelView::Present(t) => Some(t),
                _ => None,
            },
        ),
{
    if let LevelView::Present(t) = level {
        lemma_any_fits(patterns, t);
    }
}

proof fn lemma_declared(list: Seq<Seq<char>>, project: Seq<char>)
    ensures
        list_admits(list, project) == declared(list, project),
{
    assert forall|i: int| 0 <= i < list.len() implies same_ignoring_case(#[trigger] list[i], project)
        == alike_texts(list[i], project) by {
        case_is_all_that_may_differ(list[i], project);
    }
}

/// Each criterion that is given counts. Where something that is known speaks
/// against one of them, the rule does not match, whatever the others say; where
/// all of them hold, it matches; and where neither is so, it cannot be decided.
pub proof fn every_criterion_counts(c: CriteriaView, meta: MetaView, now: int)
    ensures
        refuted(c, meta, now) ==> criteria_hold(c, meta, now) == Truth::No,
        met(c, meta, now) ==> criteria_hold(c, meta, now) == Truth::Yes,
        !refuted(c, meta, now) && !met(c, meta, now) ==> criteria_hold(c, meta, now)
            == Truth::Unknown,
{
    lemma_one_fits(c.projects, meta.project);
    lemma_some_fits(c.components, meta.components);
    lemma_some_fits(c.labels, meta.labels);
    lemma_one_fits(c.statuses, meta.status);
    lemma_one_fits(c.priorities, meta.priority);
    lemma_one_fits(c.issue_types, meta.issue_type);
    lemma_level_fits(c.security_levels, meta.security);
    lemma_one_fits(c.summary, meta.summary);
    if let Some(t) = meta.project {
        lemma_declared(meta.public_projects, t);
    }
}

// --- the deciding rule ------------------------------------------------------

/// The capability lets a caller change something on the site.
pub open spec fn changes_the_site(cap: Capability) -> bool {
    match cap {
        Capability::Read => false,
        Capability::Summary => false,
        Capability::Comments => false,
        Capability::History => false,
        Capability::Attachments => false,
        Capability::Comment => true,
        Capability::Status => true,
        Capability::Fields => true,
        Capability::Assign => true,
        Capability::Watchers => true,
        Capability::Links => true,
        Capability::Create => true,
        Capability::Attach => true,
    }
}

/// An action that lists capabilities gives this one: `allow` gives all,
/// `restrict` those listed and the summary along with `read`, `deny` none; in
/// read-only mode none that changes the site.
pub open spec fn gives(
    action: Action,
    listed: Seq<Capability>,
    read_only: bool,
    cap: Capability,
) -> bool {
    &&& !(read_only && changes_the_site(cap))
    &&& match action {
        Action::Allow => true,
        Action::Restrict => listed.contains(cap) || (cap == Capability::Summary && listed.contains(
            Capability::Read,
        )),
        Action::Deny => false,
    }
}

/// The issue is not known to be as old as the policy wants issues to be.
pub open spec fn too_young(policy: PolicyView, meta: MetaView, now: int) -> bool {
    policy.global.min_issue_age_days > 0 && (meta.created is Some ==> now - meta.created->0
        < policy.global.min_issue_age_days * day())
}

/// The first `i` rules do not apply: what is known speaks against each.
pub open spec fn passed_over(policy: PolicyView, i: int, meta: MetaView, now: int) -> bool {
    forall|j: int| 0 <= j < i ==> refuted((#[trigger] policy.rules[j]).criteria, meta, now)
}

proof fn lemma_passed_over(policy: PolicyView, i: int, meta: MetaView, now: int)
    requires
        0 <= i <= policy.rules.len(),
        passed_over(policy, i, meta, now),
    ensures
        none_before(policy.rules, i, meta, now),
{
    assert forall|j: int| 0 <= j < i implies criteria_hold(
        (#[trigger] policy.rules[j]).criteria,
        meta,
        now,
    ) == Truth::No by {
        every_criterion_counts(policy.rules[j].criteria, meta, now);
    }
}

/// The first rule that does not fall out decides. Where its criteria hold, the
/// caller may do what its action gives; where they cannot be decided, nothing.
pub proof fn the_first_rule_left_decides(
    policy: PolicyView,
    meta: MetaView,
    now: int,
    operation: Operation,
    i: int,
    cap: Capability,
)
    requires
        0 <= i < policy.rules.len(),
        passed_over(policy, i, meta, now),
        !refuted(policy.rules[i].criteria, meta, now),
        !(operation == Operation::Access && too_young(policy, meta, now)),
    ensures
        met(policy.rules[i].criteria, meta, now) ==> decide(policy, meta, now, operation).allows(cap)
            == gives(
            policy.rules[i].action,
            policy.rules[i].capabilities,
            policy.global.read_only,
            cap,
        ),
        !met(policy.rules[i].criteria, meta, now) ==> !decide(policy, meta, now, operation).allows(
            cap,
        ),
        decide(policy, meta, now, operation).rule_name() == policy.rules[i].name,
{
    lemma_passed_over(policy, i, meta, now);
    every_criterion_counts(policy.rules[i].criteria, meta, now);
    let rule = policy.rules[i];
    if met(rule.criteria, meta, now) {
        first_matching_rule_wins(policy, meta, now, operation, i);
        lemma_listed(rule.capabilities, cap);
        lemma_listed(rule.capabilities, Capability::Read);
    } else {
        undecided_rule_denies(policy, meta, now, operation, i);
        lemma_undecided_name(policy, meta, now, operation, i);
    }
}

proof fn lemma_listed(caps: Seq<Capability>, cap: Capability)
    ensures
        caps.to_set().contains(cap) == caps.contains(cap),
{
}

proof fn lemma_undecided_name(
    policy: PolicyView,
    meta: MetaView,
    now: int,
    operation: Operation,
    i: int,
)
    requires
        0 <= i < policy.rules.len(),
        none_before(policy.rules, i, meta, now),
        criteria_hold(policy.rules[i].criteria, meta, now) == Truth::Unknown,
        !(operation == Operation::Access && too_young(policy, meta, now)),
    ensures
        decide(policy, meta, now, operation).rule_name() == policy.rules[i].name,
{
    crate::policy::lemma_first_match(policy, policy.rules, meta, now, i);
    assert(policy.rules.skip(i)[0] == policy.rules[i]);
}

/// Where every rule falls out, the caller may do what the default action gives,
/// which lists no capability.
pub proof fn the_default_decides_the_rest(
    policy: PolicyView,
    meta: MetaView,
    now: int,
    operation: Operation,
    cap: Capability,
)
    requires
        passed_over(policy, policy.rules.len() as int, meta, now),
        !(operation == Operation::Access && too_young(policy, meta, now)),
    ensures
        decide(policy, meta, now, operation).allows(cap) == gives(
            policy.default_action,
            Seq::empty(),
            policy.global.read_only,
            cap,
        ),
        decide(policy, meta, now, operation).rule_name() == "default"@,
{
    lemma_passed_over(policy, policy.rules.len() as int, meta, now);
    unmatched_falls_to_default(policy, meta, now, operation);
}

/// Nothing may be done with an issue that is too young or of unknown age.
pub proof fn young_issues_are_out_of_reach(
    policy: PolicyView,
    meta: MetaView,
    now: int,
    cap: Capability,
)
    requires
        too_young(policy, meta, now),
    ensures
        !decide(policy, meta, now, Operation::Access).allows(cap),
        decide(policy, meta, now, Operation::Access).rule_name() == "min_issue_age_days"@,
{
}

// --- what is known of an issue ----------------------------------------------

/// A document is an object that holds `value` under `name`.
pub open spec fn holds(document: JsonView, name: Seq<char>, value: JsonView) -> bool {
    document matches JsonView::Object(m) && m.dom().contains(name) && m[name] == value
}

/// An issue has the field `name`, with this value.
pub open spec fn has_field(issue: JsonView, name: Seq<char>, value: JsonView) -> bool {
    exists|fields: JsonView| #[trigger]
        holds(issue, "fields"@, fields) && holds(fields, name, value)
}

/// An issue has the field `name`, and that has a text under `part`.
pub open spec fn has_part(issue: JsonView, name: Seq<char>, part: Seq<char>, text: Seq<char>) -> bool {
    exists|value: JsonView| #[trigger]
        has_field(issue, name, value) && holds(value, part, JsonView::Text(text))
}

/// Every element is an object whose `name` is the text at the same place.
pub open spec fn named_alike(items: Seq<JsonView>, list: Seq<Seq<char>>) -> bool {
    items.len() == list.len() && forall|i: int|
        0 <= i < items.len() ==> holds(#[trigger] items[i], "name"@, JsonView::Text(list[i]))
}

/// Every element is the text at the same place.
pub open spec fn texts_alike(items: Seq<JsonView>, list: Seq<Seq<char>>) -> bool {
    items.len() == list.len() && forall|i: int|
        0 <= i < items.len() ==> #[trigger] items[i] == JsonView::Text(list[i])
}

proof fn lemma_has_field(issue: JsonView, name: Seq<char>, value: JsonView)
    ensures
        has_field(issue, name, value) == (crate::meta::fields_of(issue).get(name) == Some(value)),
{
    let fields = crate::meta::fields_of(issue);
    if fields.get(name) == Some(value) {
        assert(holds(issue, "fields"@, fields));
    }
    if has_field(issue, name, value) {
        let f = choose|f: JsonView| #[trigger]
            holds(issue, "fields"@, f) && holds(f, name, value);
        assert(f == fields);
    }
}

proof fn lemma_has_part(issue: JsonView, name: Seq<char>, part: Seq<char>, text: Seq<char>)
    ensures
        has_part(issue, name, part, text) == (crate::meta::fields_of(issue).text_at2(name, part)
            == Some(text)),
{
    let fields = crate::meta::fields_of(issue);
    if let Some(value) = fields.get(name) {
        lemma_has_field(issue, name, value);
        if fields.text_at2(name, part) == Some(text) {
            assert(holds(value, part, JsonView::Text(text)));
            assert(has_field(issue, name, value));
        }
    }
    if has_part(issue, name, part, text) {
        let v = choose|v: JsonView| #[trigger]
            has_field(issue, name, v) && holds(v, part, JsonView::Text(text));
        lemma_has_field(issue, name, v);
    }
}

/// The single texts that rules go by are those of the issue: its project's key,
/// its summary, the names of its status, priority and type. What the issue does
/// not tell is unknown, and is made up from nothing else.
pub proof fn rules_go_by_the_texts_of_the_issue(
    issue: JsonView,
    caller: Option<Seq<char>>,
    public_projects: Seq<Seq<char>>,
    text: Seq<char>,
)
    ensures
        ({
            let meta = meta_of(issue, caller, public_projects);
            &&& meta.project == Some(text) <==> has_part(issue, "project"@, "key"@, text)
            &&& meta.summary == Some(text) <==> has_field(issue, "summary"@, JsonView::Text(text))
            &&& meta.status == Some(text) <==> has_part(issue, "status"@, "name"@, text)
            &&& meta.priority == Some(text) <==> has_part(issue, "priority"@, "name"@, text)
            &&& meta.issue_type == Some(text) <==> has_part(issue, "issuetype"@, "name"@, text)
            &&& meta.security == LevelView::Present(text) <==> has_part(
                issue,
                "security"@,
                "name"@,
                text,
            )
            &&& meta.public_projects == public_projects
        }),
{
    lemma_has_part(issue, "project"@, "key"@, text);
    lemma_has_field(issue, "summary"@, JsonView::Text(text));
    lemma_has_part(issue, "status"@, "name"@, text);
    lemma_has_part(issue, "priority"@, "name"@, text);
    lemma_has_part(issue, "issuetype"@, "name"@, text);
    lemma_has_part(issue, "security"@, "name"@, text);
}

/// The lists that rules go by are those of the issue: its labels, and the names
/// of its components, all of them and in order.
pub proof fn rules_go_by_the_lists_of_the_issue(
    issue: JsonView,
    caller: Option<Seq<char>>,
    public_projects: Seq<Seq<char>>,
    items: Seq<JsonView>,
    list: Seq<Seq<char>>,
)
    ensures
        ({
            let meta = meta_of(issue, caller, public_projects);
            &&& has_field(issue, "labels"@, JsonView::Array(items)) ==> (meta.labels == Some(list)
                <==> texts_alike(items, list))
            &&& has_field(issue, "components"@, JsonView::Array(items)) ==> (meta.components
                == Some(list) <==> named_alike(items, list))
            &&& meta.labels is Some ==> exists|all: Seq<JsonView>| #[trigger]
                has_field(issue, "labels"@, JsonView::Array(all))
            &&& meta.components is Some ==> exists|all: Seq<JsonView>| #[trigger]
                has_field(issue, "components"@, JsonView::Array(all))
        }),
{
    let fields = crate::meta::fields_of(issue);
    let meta = meta_of(issue, caller, public_projects);
    lemma_has_field(issue, "labels"@, JsonView::Array(items));
    lemma_has_field(issue, "components"@, JsonView::Array(items));
    if let Some(all) = fields.items_at("labels"@) {
        lemma_has_field(issue, "labels"@, JsonView::Array(all));
    }
    if let Some(all) = fields.items_at("components"@) {
        lemma_has_field(issue, "components"@, JsonView::Array(all));
    }
    if has_field(issue, "labels"@, JsonView::Array(items)) {
        if texts_alike(items, list) {
            assert forall|i: int| 0 <= i < items.len() implies (#[trigger] items[i]).text()
                == Some(list[i]) by {}
            assert(meta.labels->0 =~= list);
        }
        if meta.labels == Some(list) {
            assert forall|i: int| 0 <= i < items.len() implies #[trigger] items[i]
                == JsonView::Text(list[i]) by {
                assert(items[i].text() is Some);
            }
        }
    }
    if has_field(issue, "components"@, JsonView::Array(items)) {
        if named_alike(items, list) {
            assert forall|i: int| 0 <= i < items.len() implies (#[trigger] items[i]).text_at(
                "name"@,
            ) == Some(list[i]) by {
                assert(holds(items[i], "name"@, JsonView::Text(list[i])));
            }
            assert(meta.components->0 =~= list);
        }
        if meta.components == Some(list) {
            assert forall|i: int| 0 <= i < items.len() implies holds(
                #[trigger] items[i],
                "name"@,
                JsonView::Text(list[i]),
            ) by {
                assert(items[i].text_at("name"@) is Some);
            }
        }
    }
}

/// An issue counts as one without a security level exactly where its fields are
/// there and tell of none, or of `null`. A level that cannot be read is never
/// taken for none.
pub proof fn only_a_missing_level_is_absent(
    issue: JsonView,
    caller: Option<Seq<char>>,
    public_projects: Seq<Seq<char>>,
)
    ensures
        meta_of(issue, caller, public_projects).security is Absent <==> {
            &&& issue matches JsonView::Object(m)
            &&& m.dom().contains("fields"@)
            &&& m["fields"@] matches JsonView::Object(fields)
            &&& fields.dom().contains("security"@) ==> fields["security"@] is Null
        },
{
}

/// When the issue was created is what its timestamp says, read in Jira's form,
/// and whether the caller created it is whether its reporter has the caller's
/// account id. Neither is known where one of the two sides is not.
pub proof fn age_and_authorship_are_those_of_the_issue(
    issue: JsonView,
    caller: Option<Seq<char>>,
    public_projects: Seq<Seq<char>>,
    text: Seq<char>,
)
    ensures
        ({
            let meta = meta_of(issue, caller, public_projects);
            &&& has_field(issue, "created"@, JsonView::Text(text)) ==> meta.created
                == chrono_timestamp(text, "%Y-%m-%dT%H:%M:%S%.f%z"@)
            &&& meta.created is Some ==> exists|t: Seq<char>| #[trigger]
                has_field(issue, "created"@, JsonView::Text(t))
            &&& has_part(issue, "reporter"@, "accountId"@, text) && caller is Some
                ==> meta.created_by_me == Some(caller == Some(text))
            &&& meta.created_by_me is Some ==> caller is Some && exists|t: Seq<char>| #[trigger]
                has_part(issue, "reporter"@, "accountId"@, t)
        }),
{
    let fields = crate::meta::fields_of(issue);
    lemma_has_field(issue, "created"@, JsonView::Text(text));
    lemma_has_part(issue, "reporter"@, "accountId"@, text);
    if let Some(t) = fields.text_at("created"@) {
        lemma_has_field(issue, "created"@, JsonView::Text(t));
    }
    if let Some(t) = fields.text_at2("reporter"@, "accountId"@) {
        lemma_has_part(issue, "reporter"@, "accountId"@, t);
    }
}

// --- read-only mode ---------------------------------------------------------

proof fn lemma_read_only(
    policy: PolicyView,
    rules: Seq<RuleView>,
    meta: MetaView,
    now: int,
    cap: Capability,
)
    ensures
        ({
            let tight = first_match(tightened(policy), rules, meta, now);
            let loose = first_match(policy, rules, meta, now);
            &&& tight.allows(cap) == (loose.allows(cap) && !changes_the_site(cap))
            &&& tight.rule_name() == loose.rule_name()
        }),
    decreases rules.len(),
{
    if rules.len() > 0 {
        lemma_read_only(policy, rules.drop_first(), meta, now, cap);
    }
}

/// Read-only mode takes away what changes the site, and nothing else: the same
/// rule decides, and what only reads stays allowed where it was.
pub proof fn read_only_mode_takes_writing_away_alone(
    policy: PolicyView,
    meta: MetaView,
    now: int,
    operation: Operation,
    cap: Capability,
)
    ensures
        decide(tightened(policy), meta, now, operation).allows(cap) == (decide(
            policy,
            meta,
            now,
            operation,
        ).allows(cap) && !changes_the_site(cap)),
        decide(tightened(policy), meta, now, operation).rule_name() == decide(
            policy,
            meta,
            now,
            operation,
        ).rule_name(),
        tightened(policy).global.read_only,
        tightened(policy).global.disabled_tools == policy.global.disabled_tools,
        tightened(policy).global.max_attachment_bytes == policy.global.max_attachment_bytes,
        tightened(policy).global.allow_restricted_comments
            == policy.global.allow_restricted_comments,
        tightened(policy).global.link_custom_fields == policy.global.link_custom_fields,
{
    lemma_read_only(policy, policy.rules, meta, now, cap);
}

} // verus!
