//! What the files of the operator mean: a policy, or an audit configuration, is
//! taken exactly as it is written, with the defaults in the place of what is
//! not, and is refused where it says anything else.

use vstd::prelude::*;
use vstd::string::*;

use crate::audit::{
    audit_accepted, audit_config_in, fail_mode_named, AuditConfigError, AuditConfigView, FailMode,
};
use crate::policy::{
    action_named, capability_named, Action, Capability, CriteriaView, GlobalView, PolicyView,
    RuleView,
};
use crate::policy_file::{
    accepted, action_in, capabilities_in, capability_in, criteria_in, criteria_key, first_fault,
    global_in, global_key, only_criteria_keys, only_global_keys, only_policy_keys, only_rule_keys,
    policy_in, rule_fault, rule_in, rules_in, FaultView,
};
use crate::table::{all_texts, entry, only_word, text_list_in, word_in, TomlView};
use crate::text::trimmed;

verus! {

// --- values -----------------------------------------------------------------

/// What a table has under a key, or a list at a place.
pub open spec fn part(value: TomlView, key: Seq<char>, place: int) -> Option<TomlView> {
    match value {
        TomlView::Table(t) => if t.dom().contains(key) {
            Some(t[key])
        } else {
            None
        },
        TomlView::Array(items) => if 0 <= place < items.len() {
            Some(items[place])
        } else {
            None
        },
        _ => None,
    }
}

/// A list of settings in order, or a table with none but these keys.
pub open spec fn has_only(value: TomlView, keys: Set<Seq<char>>) -> bool {
    value is Array || (value matches TomlView::Table(t) && t.dom().subset_of(keys))
}

/// A switch is as it is written, or as by default.
pub open spec fn flag_is(value: Option<TomlView>, default: bool, b: bool) -> bool {
    match value {
        Some(v) => v == TomlView::Boolean(b),
        None => b == default,
    }
}

/// A number is as it is written, which is in its range, or as by default.
pub open spec fn number_is(value: Option<TomlView>, default: int, most: int, n: int) -> bool {
    match value {
        Some(v) => v == TomlView::Integer(n) && 0 <= n <= most,
        None => n == default,
    }
}

/// A list of texts is as it is written, or empty.
pub open spec fn texts_are(value: Option<TomlView>, list: Seq<Seq<char>>) -> bool {
    match value {
        Some(TomlView::Array(items)) => items.len() == list.len() && forall|i: int|
            0 <= i < items.len() ==> #[trigger] items[i] == TomlView::Text(list[i]),
        Some(_) => false,
        None => list.len() == 0,
    }
}

/// A switch that may be left open is as it is written.
pub open spec fn option_is(value: Option<TomlView>, b: Option<bool>) -> bool {
    match value {
        Some(v) => b is Some && v == TomlView::Boolean(b->0),
        None => b is None,
    }
}

/// A number of days that may be left open is as it is written.
pub open spec fn days_are(value: Option<TomlView>, days: Option<int>) -> bool {
    match value {
        Some(v) => days is Some && v == TomlView::Integer(days->0) && 0 <= days->0 <= u32::MAX,
        None => days is None,
    }
}

/// A value names a word: it is that text, or a table with that key alone and
/// nothing in it.
pub open spec fn names_word(value: TomlView, word: Seq<char>) -> bool {
    ||| value == TomlView::Text(word)
    ||| value matches TomlView::Table(t) && t.dom() == set![word] && match t[word] {
        TomlView::Array(items) => items.len() == 0,
        TomlView::Table(inner) => inner.dom() == Set::<Seq<char>>::empty(),
        _ => false,
    }
}

proof fn lemma_names_word(value: TomlView, word: Seq<char>)
    ensures
        names_word(value, word) <==> word_in(value) == Some(word),
{
    if let TomlView::Table(t) = value {
        if let TomlView::Table(inner) = t[word] {
            if inner.dom() == Set::<Seq<char>>::empty() {
                assert(inner =~= Map::<Seq<char>, TomlView>::empty());
            }
        }
        if names_word(value, word) {
            assert(only_word(t, word));
            let chosen = choose|key: Seq<char>| only_word(t, key);
            assert(t.dom().contains(chosen));
            assert(chosen == word);
        }
        if word_in(value) == Some(word) {
            let chosen = choose|key: Seq<char>| only_word(t, key);
            assert(only_word(t, chosen));
            assert(chosen == word);
        }
    }
}

proof fn lemma_texts_are(value: Option<TomlView>, list: Seq<Seq<char>>)
    ensures
        texts_are(value, list) <==> text_list_in(value) == Some(list),
{
    match value {
        Some(TomlView::Array(items)) => {
            if texts_are(value, list) {
                assert(all_texts(items)) by {
                    assert forall|i: int| 0 <= i < items.len() implies (
                    #[trigger] items[i]) is Text by {
                        assert(items[i] == TomlView::Text(list[i]));
                    }
                }
                assert(text_list_in(value)->0 =~= list);
            }
            if text_list_in(value) == Some(list) {
                assert forall|i: int| 0 <= i < items.len() implies #[trigger] items[i]
                    == TomlView::Text(list[i]) by {
                    assert(items[i] is Text);
                }
            }
        },
        None => {
            assert(list.len() == 0 ==> list =~= Seq::empty());
        },
        _ => {},
    }
}

// --- words ------------------------------------------------------------------

/// The word for an action.
pub open spec fn action_word(action: Action) -> Seq<char> {
    match action {
        Action::Allow => "allow"@,
        Action::Deny => "deny"@,
        Action::Restrict => "restrict"@,
    }
}

/// The word for a capability.
pub open spec fn capability_word(cap: Capability) -> Seq<char> {
    match cap {
        Capability::Read => "read"@,
        Capability::Summary => "summary"@,
        Capability::Comments => "comments"@,
        Capability::History => "history"@,
        Capability::Attachments => "attachments"@,
        Capability::Comment => "comment"@,
        Capability::Status => "status"@,
        Capability::Fields => "fields"@,
        Capability::Assign => "assign"@,
        Capability::Watchers => "watchers"@,
        Capability::Links => "links"@,
        Capability::Create => "create"@,
        Capability::Attach => "attach"@,
    }
}

/// The word for what happens while the audit stream cannot be written.
pub open spec fn mode_word(mode: FailMode) -> Seq<char> {
    match mode {
        FailMode::Open => "open"@,
        FailMode::ClosedWritesDenials => "closed_writes_denials"@,
        FailMode::ClosedAll => "closed_all"@,
    }
}

/// Each action, capability and mode goes by its own word, and by no other.
pub proof fn each_goes_by_its_own_word(
    word: Seq<char>,
    action: Action,
    cap: Capability,
    mode: FailMode,
)
    ensures
        action_named(word) == Some(action) <==> word == action_word(action),
        capability_named(word) == Some(cap) <==> word == capability_word(cap),
        fail_mode_named(word) == Some(mode) <==> word == mode_word(mode),
{
    lemma_words();
}

proof fn lemma_words()
    ensures
        "allow"@.len() == 5,
        "deny"@.len() == 4,
        "restrict"@.len() == 8,
        "read"@.len() == 4,
        "summary"@.len() == 7 && "summary"@[0] == 's',
        "comments"@.len() == 8 && "comments"@[0] == 'c',
        "history"@.len() == 7 && "history"@[0] == 'h',
        "attachments"@.len() == 11,
        "comment"@.len() == 7 && "comment"@[0] == 'c',
        "status"@.len() == 6 && "status"@[0] == 's',
        "fields"@.len() == 6 && "fields"@[0] == 'f',
        "assign"@.len() == 6 && "assign"@[0] == 'a' && "assign"@[1] == 's',
        "watchers"@.len() == 8 && "watchers"@[0] == 'w',
        "links"@.len() == 5,
        "create"@.len() == 6 && "create"@[0] == 'c',
        "attach"@.len() == 6 && "attach"@[0] == 'a' && "attach"@[1] == 't',
        "open"@.len() == 4,
        "closed_writes_denials"@.len() == 21,
        "closed_all"@.len() == 10,
{
    reveal_strlit("allow");
    reveal_strlit("deny");
    reveal_strlit("restrict");
    reveal_strlit("read");
    reveal_strlit("summary");
    reveal_strlit("comments");
    reveal_strlit("history");
    reveal_strlit("attachments");
    reveal_strlit("comment");
    reveal_strlit("status");
    reveal_strlit("fields");
    reveal_strlit("assign");
    reveal_strlit("watchers");
    reveal_strlit("links");
    reveal_strlit("create");
    reveal_strlit("attach");
    reveal_strlit("open");
    reveal_strlit("closed_writes_denials");
    reveal_strlit("closed_all");
}

// --- a policy ---------------------------------------------------------------

/// The global switches are as they are written.
pub open spec fn global_is(value: TomlView, g: GlobalView) -> bool {
    &&& has_only(
        value,
        set![
            "min_issue_age_days"@,
            "allow_restricted_comments"@,
            "read_only"@,
            "disabled_tools"@,
            "max_attachment_bytes"@,
            "public_projects"@,
            "link_custom_fields"@,
        ],
    )
    &&& number_is(
        part(value, "min_issue_age_days"@, 0),
        0,
        u32::MAX as int,
        g.min_issue_age_days,
    )
    &&& flag_is(
        part(value, "allow_restricted_comments"@, 1),
        false,
        g.allow_restricted_comments,
    )
    &&& flag_is(part(value, "read_only"@, 2), false, g.read_only)
    &&& texts_are(part(value, "disabled_tools"@, 3), g.disabled_tools)
    &&& number_is(
        part(value, "max_attachment_bytes"@, 4),
        2_097_152,
        u64::MAX as int,
        g.max_attachment_bytes,
    )
    &&& texts_are(part(value, "public_projects"@, 5), g.public_projects)
    &&& texts_are(part(value, "link_custom_fields"@, 6), g.link_custom_fields)
}

/// What a rule matches is as it is written.
pub open spec fn criteria_are(value: TomlView, c: CriteriaView) -> bool {
    &&& value is Table
    &&& has_only(
        value,
        set![
            "projects"@,
            "components"@,
            "labels"@,
            "statuses"@,
            "priorities"@,
            "issue_types"@,
            "security_levels"@,
            "summary"@,
            "has_security_level"@,
            "public_project"@,
            "created_by_me"@,
            "younger_than_days"@,
        ],
    )
    &&& texts_are(part(value, "projects"@, 0), c.projects)
    &&& texts_are(part(value, "components"@, 0), c.components)
    &&& texts_are(part(value, "labels"@, 0), c.labels)
    &&& texts_are(part(value, "statuses"@, 0), c.statuses)
    &&& texts_are(part(value, "priorities"@, 0), c.priorities)
    &&& texts_are(part(value, "issue_types"@, 0), c.issue_types)
    &&& texts_are(part(value, "security_levels"@, 0), c.security_levels)
    &&& texts_are(part(value, "summary"@, 0), c.summary)
    &&& option_is(part(value, "has_security_level"@, 0), c.has_security_level)
    &&& option_is(part(value, "public_project"@, 0), c.public_project)
    &&& option_is(part(value, "created_by_me"@, 0), c.created_by_me)
    &&& days_are(part(value, "younger_than_days"@, 0), c.younger_than_days)
}

/// Nothing is asked of an issue.
pub open spec fn no_criteria(c: CriteriaView) -> bool {
    &&& c.projects.len() == 0 && c.components.len() == 0 && c.labels.len() == 0
    &&& c.statuses.len() == 0 && c.priorities.len() == 0 && c.issue_types.len() == 0
    &&& c.security_levels.len() == 0 && c.summary.len() == 0
    &&& c.has_security_level is None && c.public_project is None
    &&& c.created_by_me is None && c.younger_than_days is None
}

/// The capabilities are as they are written, or none.
pub open spec fn capabilities_are(value: Option<TomlView>, caps: Seq<Capability>) -> bool {
    match value {
        Some(TomlView::Array(items)) => items.len() == caps.len() && forall|i: int|
            0 <= i < items.len() ==> names_word(#[trigger] items[i], capability_word(caps[i])),
        Some(_) => false,
        None => caps.len() == 0,
    }
}

/// A rule is as it is written.
pub open spec fn rule_is(value: TomlView, rule: RuleView) -> bool {
    &&& has_only(value, set!["name"@, "description"@, "action"@, "capabilities"@, "match"@])
    &&& part(value, "name"@, 0) == Some(TomlView::Text(rule.name))
    &&& match part(value, "description"@, 1) {
        Some(v) => v == TomlView::Text(rule.description),
        None => rule.description.len() == 0,
    }
    &&& part(value, "action"@, 2) is Some && names_word(
        part(value, "action"@, 2)->0,
        action_word(rule.action),
    )
    &&& capabilities_are(part(value, "capabilities"@, 3), rule.capabilities)
    &&& match part(value, "match"@, 4) {
        Some(v) => criteria_are(v, rule.criteria),
        None => no_criteria(rule.criteria),
    }
}

/// A rule can be applied: it has a name, and lists capabilities exactly where it
/// restricts.
pub open spec fn applicable(rule: RuleView) -> bool {
    trimmed(rule.name).len() > 0 && (rule.capabilities.len() > 0 <==> rule.action
        == Action::Restrict)
}

/// A policy is as its file says.
pub open spec fn policy_is(doc: Map<Seq<char>, TomlView>, p: PolicyView) -> bool {
    let file = TomlView::Table(doc);
    &&& has_only(file, set!["default_action"@, "global"@, "rule"@])
    &&& match part(file, "default_action"@, 0) {
        Some(v) => names_word(v, action_word(p.default_action)),
        None => p.default_action == Action::Allow,
    }
    &&& p.default_action != Action::Restrict
    &&& match part(file, "global"@, 0) {
        Some(v) => global_is(v, p.global),
        None => global_is(TomlView::Table(Map::empty()), p.global),
    }
    &&& match part(file, "rule"@, 0) {
        Some(TomlView::Array(items)) => items.len() == p.rules.len() && forall|i: int|
            0 <= i < items.len() ==> rule_is(#[trigger] items[i], p.rules[i]) && applicable(
                p.rules[i],
            ),
        Some(_) => false,
        None => p.rules.len() == 0,
    }
}

proof fn lemma_global_is(value: TomlView, g: GlobalView)
    ensures
        global_is(value, g) <==> global_in(value) == Some(g),
{
    lemma_texts_are(part(value, "disabled_tools"@, 3), g.disabled_tools);
    lemma_texts_are(part(value, "public_projects"@, 5), g.public_projects);
    lemma_texts_are(part(value, "link_custom_fields"@, 6), g.link_custom_fields);
    if let TomlView::Table(t) = value {
        let keys = set![
            "min_issue_age_days"@,
            "allow_restricted_comments"@,
            "read_only"@,
            "disabled_tools"@,
            "max_attachment_bytes"@,
            "public_projects"@,
            "link_custom_fields"@,
        ];
        assert(only_global_keys(t) <==> t.dom().subset_of(keys)) by {
            assert forall|k: Seq<char>| #[trigger] keys.contains(k) == global_key(k) by {}
            if only_global_keys(t) {
                assert forall|k: Seq<char>| #[trigger] t.dom().contains(k) implies keys.contains(
                    k,
                ) by {
                    assert(global_key(k));
                }
            }
            if t.dom().subset_of(keys) {
                assert forall|k: Seq<char>| #[trigger] t.dom().contains(k) implies global_key(
                    k,
                ) by {
                    assert(keys.contains(k));
                }
            }
        }
    }
    if global_is(value, g) {
        assert(global_in(value)->0 =~= g);
    }
}

proof fn lemma_criteria_are(value: TomlView, c: CriteriaView)
    requires
        value is Table,
    ensures
        criteria_are(value, c) <==> criteria_in(value->Table_0) == Some(c),
{
    let t = value->Table_0;
    lemma_texts_are(part(value, "projects"@, 0), c.projects);
    lemma_texts_are(part(value, "components"@, 0), c.components);
    lemma_texts_are(part(value, "labels"@, 0), c.labels);
    lemma_texts_are(part(value, "statuses"@, 0), c.statuses);
    lemma_texts_are(part(value, "priorities"@, 0), c.priorities);
    lemma_texts_are(part(value, "issue_types"@, 0), c.issue_types);
    lemma_texts_are(part(value, "security_levels"@, 0), c.security_levels);
    lemma_texts_are(part(value, "summary"@, 0), c.summary);
    let keys = set![
        "projects"@,
        "components"@,
        "labels"@,
        "statuses"@,
        "priorities"@,
        "issue_types"@,
        "security_levels"@,
        "summary"@,
        "has_security_level"@,
        "public_project"@,
        "created_by_me"@,
        "younger_than_days"@,
    ];
    assert(only_criteria_keys(t) <==> t.dom().subset_of(keys)) by {
        if only_criteria_keys(t) {
            assert forall|k: Seq<char>| #[trigger] t.dom().contains(k) implies keys.contains(
                k,
            ) by {
                assert(criteria_key(k));
            }
        }
        if t.dom().subset_of(keys) {
            assert forall|k: Seq<char>| #[trigger] t.dom().contains(k) implies criteria_key(k) by {
                assert(keys.contains(k));
            }
        }
    }
    if criteria_are(value, c) {
        assert(criteria_in(t)->0 =~= c);
    }
}

proof fn lemma_capabilities_are(value: Option<TomlView>, caps: Seq<Capability>)
    ensures
        capabilities_are(value, caps) <==> capabilities_in(value) == Some(caps),
{
    match value {
        Some(TomlView::Array(items)) => {
            assert forall|v: TomlView, c: Capability| #[trigger]
                names_word(v, capability_word(c)) <==> capability_in(v) == Some(c) by {
                lemma_names_word(v, capability_word(c));
                if let Some(word) = word_in(v) {
                    each_goes_by_its_own_word(word, Action::Allow, c, FailMode::Open);
                }
            }
            if capabilities_are(value, caps) {
                assert forall|i: int| 0 <= i < items.len() implies capability_in(
                    #[trigger] items[i],
                ) == Some(caps[i]) by {
                    assert(names_word(items[i], capability_word(caps[i])));
                }
                assert(capabilities_in(value)->0 =~= caps);
            }
            if capabilities_in(value) == Some(caps) {
                assert forall|i: int| 0 <= i < items.len() implies names_word(
                    #[trigger] items[i],
                    capability_word(caps[i]),
                ) by {
                    assert(capability_in(items[i]) is Some);
                    assert(capability_in(items[i]) == Some(caps[i]));
                }
            }
        },
        None => {
            assert(caps.len() == 0 ==> caps =~= Seq::empty());
        },
        _ => {},
    }
}

proof fn lemma_action_is(value: TomlView, action: Action)
    ensures
        names_word(value, action_word(action)) <==> action_in(Some(value)) == Some(action),
{
    lemma_names_word(value, action_word(action));
    if let Some(word) = word_in(value) {
        each_goes_by_its_own_word(word, action, Capability::Read, FailMode::Open);
    }
}

proof fn lemma_rule_is(value: TomlView, rule: RuleView)
    ensures
        rule_is(value, rule) <==> rule_in(value) == Some(rule),
{
    lemma_capabilities_are(part(value, "capabilities"@, 3), rule.capabilities);
    if let Some(v) = part(value, "action"@, 2) {
        lemma_action_is(v, rule.action);
    }
    match part(value, "match"@, 4) {
        Some(v) => {
            if v is Table {
                lemma_criteria_are(v, rule.criteria);
            }
        },
        None => {
            assert(no_criteria(rule.criteria) <==> rule.criteria
                =~= crate::policy::criteria_default());
        },
    }
    if part(value, "description"@, 1) is None && rule.description.len() == 0 {
        assert(rule.description =~= Seq::<char>::empty());
    }
    if let TomlView::Table(t) = value {
        let keys = set!["name"@, "description"@, "action"@, "capabilities"@, "match"@];
        assert(only_rule_keys(t) <==> t.dom().subset_of(keys)) by {
            if only_rule_keys(t) {
                assert forall|k: Seq<char>| #[trigger] t.dom().contains(k) implies keys.contains(
                    k,
                ) by {
                    assert(crate::policy_file::rule_key(k));
                }
            }
            if t.dom().subset_of(keys) {
                assert forall|k: Seq<char>| #[trigger]
                    t.dom().contains(k) implies crate::policy_file::rule_key(k) by {
                    assert(keys.contains(k));
                }
            }
        }
    }
    if rule_is(value, rule) {
        assert(rule_in(value)->0 =~= rule);
    }
}

proof fn lemma_first_fault(rules: Seq<RuleView>)
    ensures
        first_fault(rules) is None <==> forall|i: int|
            0 <= i < rules.len() ==> applicable(#[trigger] rules[i]),
    decreases rules.len(),
{
    if rules.len() > 0 {
        let rest = rules.drop_first();
        lemma_first_fault(rest);
        assert(rule_fault(rules[0]) is None <==> applicable(rules[0]));
        if forall|i: int| 0 <= i < rules.len() ==> applicable(#[trigger] rules[i]) {
            assert forall|i: int| 0 <= i < rest.len() implies applicable(#[trigger] rest[i]) by {
                assert(rest[i] == rules[i + 1]);
            }
        }
        if rule_fault(rules[0]) is None && first_fault(rest) is None {
            assert forall|i: int| 0 <= i < rules.len() implies applicable(
                #[trigger] rules[i],
            ) by {
                if i > 0 {
                    assert(rest[i - 1] == rules[i]);
                }
            }
        }
    }
}

proof fn lemma_rules_are(items: Seq<TomlView>, rules: Seq<RuleView>)
    ensures
        rules_in(items) == Some(rules) <==> items.len() == rules.len() && forall|i: int|
            0 <= i < items.len() ==> rule_is(#[trigger] items[i], rules[i]),
{
    assert forall|i: int| 0 <= i < items.len() && i < rules.len() implies (rule_is(
        #[trigger] items[i],
        rules[i],
    ) <==> rule_in(items[i]) == Some(rules[i])) by {
        lemma_rule_is(items[i], rules[i]);
    }
    if items.len() == rules.len() && forall|i: int|
        0 <= i < items.len() ==> rule_is(#[trigger] items[i], rules[i]) {
        assert forall|i: int| 0 <= i < items.len() implies rule_in(#[trigger] items[i]) == Some(
            rules[i],
        ) by {
            assert(rule_is(items[i], rules[i]));
        }
        assert(rules_in(items)->0 =~= rules);
    }
    if rules_in(items) == Some(rules) {
        assert forall|i: int| 0 <= i < items.len() implies rule_is(#[trigger] items[i], rules[i]) by {
            assert(rule_in(items[i]) is Some);
            assert(rule_in(items[i]) == Some(rules[i]));
        }
    }
}

/// A policy file is taken exactly as it is written: it is accepted as a policy
/// where that is what it says, each setting under its own name, with the default
/// for what it leaves out; and where it says anything else, it is refused.
pub proof fn a_policy_means_what_its_file_says(doc: Map<Seq<char>, TomlView>, p: PolicyView)
    ensures
        accepted(doc) == Ok::<PolicyView, FaultView>(p) <==> policy_is(doc, p),
{
    let file = TomlView::Table(doc);
    assert(part(file, "default_action"@, 0) == entry(doc, "default_action"@));
    assert(part(file, "global"@, 0) == entry(doc, "global"@));
    assert(part(file, "rule"@, 0) == entry(doc, "rule"@));
    if let Some(v) = part(file, "default_action"@, 0) {
        lemma_action_is(v, p.default_action);
    }
    match part(file, "global"@, 0) {
        Some(v) => lemma_global_is(v, p.global),
        None => {
            lemma_global_is(TomlView::Table(Map::empty()), p.global);
            lemma_no_global();
        },
    }
    match part(file, "rule"@, 0) {
        Some(TomlView::Array(items)) => {
            lemma_rules_are(items, p.rules);
        },
        None => {
            assert(p.rules.len() == 0 ==> p.rules =~= Seq::empty());
        },
        _ => {},
    }
    lemma_first_fault(p.rules);
    let keys = set!["default_action"@, "global"@, "rule"@];
    assert(only_policy_keys(doc) <==> doc.dom().subset_of(keys)) by {
        if only_policy_keys(doc) {
            assert forall|k: Seq<char>| #[trigger] doc.dom().contains(k) implies keys.contains(
                k,
            ) by {
                assert(crate::policy_file::policy_key(k));
            }
        }
        if doc.dom().subset_of(keys) {
            assert forall|k: Seq<char>| #[trigger]
                doc.dom().contains(k) implies crate::policy_file::policy_key(k) by {
                assert(keys.contains(k));
            }
        }
    }
    if policy_is(doc, p) {
        assert(policy_in(doc)->0 =~= p);
        if let Some(TomlView::Array(items)) = part(file, "rule"@, 0) {
            assert forall|i: int| 0 <= i < p.rules.len() implies applicable(
                #[trigger] p.rules[i],
            ) by {
                assert(applicable(p.rules[i]) && rule_is(items[i], p.rules[i]));
            }
        }
    }
}

/// Without a table of global switches they are those of an empty one.
proof fn lemma_no_global()
    ensures
        global_in(TomlView::Table(Map::empty())) == Some(crate::policy::global_default()),
{
    let none = Map::<Seq<char>, TomlView>::empty();
    assert(only_global_keys(none));
    assert(global_in(TomlView::Table(none))->0 =~= crate::policy::global_default());
}

// --- an audit configuration -------------------------------------------------

/// An audit configuration is as its file says, and keeps something where it
/// rotates.
pub open spec fn audit_config_is(doc: Map<Seq<char>, TomlView>, c: AuditConfigView) -> bool {
    let file = TomlView::Table(doc);
    &&& has_only(
        file,
        set![
            "path"@,
            "fsync"@,
            "fail_mode"@,
            "rotate_max_bytes"@,
            "rotate_keep"@,
            "suppressed_ids"@,
        ],
    )
    &&& part(file, "path"@, 0) == Some(TomlView::Text(c.path))
    &&& flag_is(part(file, "fsync"@, 0), false, c.fsync)
    &&& match part(file, "fail_mode"@, 0) {
        Some(v) => c.fail_mode is Some && names_word(v, mode_word(c.fail_mode->0)),
        None => c.fail_mode is None,
    }
    &&& number_is(
        part(file, "rotate_max_bytes"@, 0),
        67_108_864,
        u64::MAX as int,
        c.rotate_max_bytes,
    )
    &&& number_is(part(file, "rotate_keep"@, 0), 8, u32::MAX as int, c.rotate_keep)
    &&& flag_is(part(file, "suppressed_ids"@, 0), true, c.suppressed_ids)
    &&& c.rotate_max_bytes > 0 ==> c.rotate_keep > 0
}

/// An audit configuration is taken exactly as it is written, and refused where
/// it says anything else.
pub proof fn an_audit_configuration_means_what_its_file_says(
    doc: Map<Seq<char>, TomlView>,
    c: AuditConfigView,
)
    ensures
        audit_accepted(doc) == Ok::<AuditConfigView, AuditConfigError>(c) <==> audit_config_is(
            doc,
            c,
        ),
{
    let file = TomlView::Table(doc);
    if let Some(v) = part(file, "fail_mode"@, 0) {
        if let Some(word) = word_in(v) {
            each_goes_by_its_own_word(
                word,
                Action::Allow,
                Capability::Read,
                match c.fail_mode {
                    Some(mode) => mode,
                    None => FailMode::Open,
                },
            );
        }
        if let Some(mode) = c.fail_mode {
            lemma_names_word(v, mode_word(mode));
        }
    }
    let keys = set![
        "path"@,
        "fsync"@,
        "fail_mode"@,
        "rotate_max_bytes"@,
        "rotate_keep"@,
        "suppressed_ids"@,
    ];
    assert(crate::audit::only_audit_keys(doc) <==> doc.dom().subset_of(keys)) by {
        if crate::audit::only_audit_keys(doc) {
            assert forall|k: Seq<char>| #[trigger] doc.dom().contains(k) implies keys.contains(
                k,
            ) by {
                assert(crate::audit::audit_key(k));
            }
        }
        if doc.dom().subset_of(keys) {
            assert forall|k: Seq<char>| #[trigger]
                doc.dom().contains(k) implies crate::audit::audit_key(k) by {
                assert(keys.contains(k));
            }
        }
    }
    if audit_config_is(doc, c) {
        assert(audit_config_in(doc)->0 =~= c);
    }
}

} // verus!
