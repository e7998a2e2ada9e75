//! Reading and checking a policy file.
//!
//! A policy is read once from TOML. Unknown keys are refused so that a typo can
//! never silently weaken it.

use toml::de::DeValue;
use vstd::prelude::*;
use vstd::string::*;

use crate::policy::{
    action_named, capability_named, criteria_default, default_action_allow, global_default,
    optional_days, rules_view, Action, Capability, Criteria, CriteriaView, Global, GlobalView,
    Policy, PolicyView, Rule, RuleView,
};
use crate::table::{
    array_view, element, entry, flag_in, number_in, open_toml, optional_content, read_flag,
    read_text, read_text_list, read_u32, read_u64, read_word, shift, text_in, text_list_in,
    toml_content, toml_parse, word_in, Table, TomlNode, TomlView,
};
use crate::text::{concat3, trim, trimmed};

verus! {

// --- reading a policy file --------------------------------------------------

/// A criterion that is a flag: not given where there is no entry, `None` on
/// anything but a boolean.
pub open spec fn option_flag_in(value: Option<TomlView>) -> Option<Option<bool>> {
    match value {
        None => Some(None),
        Some(TomlView::Boolean(b)) => Some(Some(b)),
        Some(_) => None,
    }
}

/// A criterion that is a number of days: not given where there is no entry,
/// `None` on another type or out of range.
pub open spec fn option_days_in(value: Option<TomlView>) -> Option<Option<int>> {
    match value {
        None => Some(None),
        Some(TomlView::Integer(n)) => if 0 <= n <= u32::MAX {
            Some(Some(n))
        } else {
            None
        },
        Some(_) => None,
    }
}

/// The keys of the `match` table of a rule.
pub open spec fn criteria_key(k: Seq<char>) -> bool {
    ||| k == "projects"@
    ||| k == "components"@
    ||| k == "labels"@
    ||| k == "statuses"@
    ||| k == "priorities"@
    ||| k == "issue_types"@
    ||| k == "security_levels"@
    ||| k == "summary"@
    ||| k == "has_security_level"@
    ||| k == "public_project"@
    ||| k == "created_by_me"@
    ||| k == "younger_than_days"@
}

/// A table holds no other key.
pub open spec fn only_criteria_keys(t: Map<Seq<char>, TomlView>) -> bool {
    forall|k: Seq<char>| #[trigger] t.dom().contains(k) ==> criteria_key(k)
}

/// The criteria that a `match` table lists; `None` where it holds an unknown
/// key or a value of another type.
pub open spec fn criteria_in(t: Map<Seq<char>, TomlView>) -> Option<CriteriaView> {
    if {
        &&& only_criteria_keys(t)
        &&& text_list_in(entry(t, "projects"@)) is Some
        &&& text_list_in(entry(t, "components"@)) is Some
        &&& text_list_in(entry(t, "labels"@)) is Some
        &&& text_list_in(entry(t, "statuses"@)) is Some
        &&& text_list_in(entry(t, "priorities"@)) is Some
        &&& text_list_in(entry(t, "issue_types"@)) is Some
        &&& text_list_in(entry(t, "security_levels"@)) is Some
        &&& text_list_in(entry(t, "summary"@)) is Some
        &&& option_flag_in(entry(t, "has_security_level"@)) is Some
        &&& option_flag_in(entry(t, "public_project"@)) is Some
        &&& option_flag_in(entry(t, "created_by_me"@)) is Some
        &&& option_days_in(entry(t, "younger_than_days"@)) is Some
    } {
        Some(
            CriteriaView {
                projects: text_list_in(entry(t, "projects"@))->0,
                components: text_list_in(entry(t, "components"@))->0,
                labels: text_list_in(entry(t, "labels"@))->0,
                statuses: text_list_in(entry(t, "statuses"@))->0,
                priorities: text_list_in(entry(t, "priorities"@))->0,
                issue_types: text_list_in(entry(t, "issue_types"@))->0,
                security_levels: text_list_in(entry(t, "security_levels"@))->0,
                summary: text_list_in(entry(t, "summary"@))->0,
                has_security_level: option_flag_in(entry(t, "has_security_level"@))->0,
                public_project: option_flag_in(entry(t, "public_project"@))->0,
                created_by_me: option_flag_in(entry(t, "created_by_me"@))->0,
                younger_than_days: option_days_in(entry(t, "younger_than_days"@))->0,
            },
        )
    } else {
        None
    }
}

/// The keys of the `global` table.
pub open spec fn global_key(k: Seq<char>) -> bool {
    ||| k == "min_issue_age_days"@
    ||| k == "allow_restricted_comments"@
    ||| k == "read_only"@
    ||| k == "disabled_tools"@
    ||| k == "max_attachment_bytes"@
    ||| k == "public_projects"@
    ||| k == "link_custom_fields"@
}

/// A table holds no other key.
pub open spec fn only_global_keys(t: Map<Seq<char>, TomlView>) -> bool {
    forall|k: Seq<char>| #[trigger] t.dom().contains(k) ==> global_key(k)
}

/// The global switches, given what is set of each: the default in the place of
/// what is not; `None` on a value of another type.
pub open spec fn global_of(
    min_issue_age_days: Option<TomlView>,
    allow_restricted_comments: Option<TomlView>,
    read_only: Option<TomlView>,
    disabled_tools: Option<TomlView>,
    max_attachment_bytes: Option<TomlView>,
    public_projects: Option<TomlView>,
    link_custom_fields: Option<TomlView>,
) -> Option<GlobalView> {
    let age = number_in(min_issue_age_days, 0, u32::MAX as int);
    let comments = flag_in(allow_restricted_comments, false);
    let writes = flag_in(read_only, false);
    let tools = text_list_in(disabled_tools);
    let bytes = number_in(max_attachment_bytes, 2097152, u64::MAX as int);
    let projects = text_list_in(public_projects);
    let links = text_list_in(link_custom_fields);
    if {
        &&& age is Some
        &&& comments is Some
        &&& writes is Some
        &&& tools is Some
        &&& bytes is Some
        &&& projects is Some
        &&& links is Some
    } {
        Some(
            GlobalView {
                min_issue_age_days: age->0,
                allow_restricted_comments: comments->0,
                read_only: writes->0,
                disabled_tools: tools->0,
                max_attachment_bytes: bytes->0,
                public_projects: projects->0,
                link_custom_fields: links->0,
            },
        )
    } else {
        None
    }
}

/// The switches that `global` sets: a table that holds no unknown key, or a list
/// of the values in order, where those at its end may be left out and what is
/// over counts for nothing.
pub open spec fn global_in(value: TomlView) -> Option<GlobalView> {
    match value {
        TomlView::Table(t) => if only_global_keys(t) {
            global_of(
                entry(t, "min_issue_age_days"@),
                entry(t, "allow_restricted_comments"@),
                entry(t, "read_only"@),
                entry(t, "disabled_tools"@),
                entry(t, "max_attachment_bytes"@),
                entry(t, "public_projects"@),
                entry(t, "link_custom_fields"@),
            )
        } else {
            None
        },
        TomlView::Array(items) => global_of(
            element(items, 0),
            element(items, 1),
            element(items, 2),
            element(items, 3),
            element(items, 4),
            element(items, 5),
            element(items, 6),
        ),
        _ => None,
    }
}

/// The action that a value names.
pub open spec fn action_in(value: Option<TomlView>) -> Option<Action> {
    match value {
        Some(v) => match word_in(v) {
            Some(word) => action_named(word),
            None => None,
        },
        None => None,
    }
}

/// The capability that a value names.
pub open spec fn capability_in(value: TomlView) -> Option<Capability> {
    match word_in(value) {
        Some(word) => capability_named(word),
        None => None,
    }
}

/// The capabilities that a list names: none where there is no list, `None` where
/// an element names no capability.
pub open spec fn capabilities_in(value: Option<TomlView>) -> Option<Seq<Capability>> {
    match value {
        None => Some(Seq::empty()),
        Some(TomlView::Array(items)) => if forall|i: int|
            0 <= i < items.len() ==> capability_in(#[trigger] items[i]) is Some {
            Some(Seq::new(items.len(), |i: int| capability_in(items[i])->0))
        } else {
            None
        },
        Some(_) => None,
    }
}

/// The keys of a `rule` table.
pub open spec fn rule_key(k: Seq<char>) -> bool {
    ||| k == "name"@
    ||| k == "description"@
    ||| k == "action"@
    ||| k == "capabilities"@
    ||| k == "match"@
}

/// A table holds no other key.
pub open spec fn only_rule_keys(t: Map<Seq<char>, TomlView>) -> bool {
    forall|k: Seq<char>| #[trigger] t.dom().contains(k) ==> rule_key(k)
}

/// The rule, given what is set of it; `None` on a value of another type, or
/// where the name or the action is not set.
pub open spec fn rule_of(
    name: Option<TomlView>,
    description: Option<TomlView>,
    action: Option<TomlView>,
    capabilities: Option<TomlView>,
    criteria: Option<TomlView>,
) -> Option<RuleView> {
    let called = match name {
        Some(v) => text_in(v),
        None => None,
    };
    let described = match description {
        Some(v) => text_in(v),
        None => Some(Seq::empty()),
    };
    let acts = action_in(action);
    let grants = capabilities_in(capabilities);
    let matches = match criteria {
        Some(TomlView::Table(m)) => criteria_in(m),
        Some(_) => None,
        None => Some(criteria_default()),
    };
    if {
        &&& called is Some
        &&& described is Some
        &&& acts is Some
        &&& grants is Some
        &&& matches is Some
    } {
        Some(
            RuleView {
                name: called->0,
                description: described->0,
                action: acts->0,
                capabilities: grants->0,
                criteria: matches->0,
            },
        )
    } else {
        None
    }
}

/// The rule that a value describes: a table that holds no unknown key, or a list
/// of the values in order, where those at its end may be left out and what is
/// over counts for nothing.
pub open spec fn rule_in(value: TomlView) -> Option<RuleView> {
    match value {
        TomlView::Table(t) => if only_rule_keys(t) {
            rule_of(
                entry(t, "name"@),
                entry(t, "description"@),
                entry(t, "action"@),
                entry(t, "capabilities"@),
                entry(t, "match"@),
            )
        } else {
            None
        },
        TomlView::Array(items) => rule_of(
            element(items, 0),
            element(items, 1),
            element(items, 2),
            element(items, 3),
            element(items, 4),
        ),
        _ => None,
    }
}

/// The rules that a list describes, in order.
pub open spec fn rules_in(items: Seq<TomlView>) -> Option<Seq<RuleView>> {
    if forall|i: int| 0 <= i < items.len() ==> rule_in(#[trigger] items[i]) is Some {
        Some(Seq::new(items.len(), |i: int| rule_in(items[i])->0))
    } else {
        None
    }
}

/// The keys of a policy file.
pub open spec fn policy_key(k: Seq<char>) -> bool {
    ||| k == "default_action"@
    ||| k == "global"@
    ||| k == "rule"@
}

/// A table holds no other key.
pub open spec fn only_policy_keys(t: Map<Seq<char>, TomlView>) -> bool {
    forall|k: Seq<char>| #[trigger] t.dom().contains(k) ==> policy_key(k)
}

/// The policy that a TOML document describes; `None` where it holds an unknown
/// key or a value of another type.
pub open spec fn policy_in(t: Map<Seq<char>, TomlView>) -> Option<PolicyView> {
    let action = match entry(t, "default_action"@) {
        None => Some(Action::Allow),
        some => action_in(some),
    };
    let global = match entry(t, "global"@) {
        Some(g) => global_in(g),
        None => Some(global_default()),
    };
    let rules = match entry(t, "rule"@) {
        Some(TomlView::Array(items)) => rules_in(items),
        Some(_) => None,
        None => Some(Seq::empty()),
    };
    if {
        &&& only_policy_keys(t)
        &&& action is Some
        &&& global is Some
        &&& rules is Some
    } {
        Some(PolicyView { default_action: action->0, global: global->0, rules: rules->0 })
    } else {
        None
    }
}

fn read_option_flag(value: Option<DeValue<'_>>) -> (res: Option<Option<bool>>)
    ensures
        res == option_flag_in(optional_content(value)),
{
    match value {
        None => Some(None),
        Some(v) => match open_toml(v) {
            TomlNode::Boolean(b) => Some(Some(b)),
            _ => None,
        },
    }
}

fn read_option_days(value: Option<DeValue<'_>>) -> (res: Option<Option<u32>>)
    ensures
        match res {
            Some(days) => option_days_in(optional_content(value)) == Some(optional_days(days)),
            None => option_days_in(optional_content(value)) is None,
        },
{
    match value {
        None => Some(None),
        Some(v) => match open_toml(v) {
            TomlNode::Integer(n) => if 0 <= n && n <= u32::MAX as i128 {
                Some(Some(n as u32))
            } else {
                None
            },
            _ => None,
        },
    }
}

fn read_criteria(table: Table<'_>) -> (res: Option<Criteria>)
    ensures
        match res {
            Some(c) => criteria_in(table@) == Some(c@),
            None => criteria_in(table@) is None,
        },
{
    let ghost all = table@;
    let mut table = table;
    let projects = read_text_list(table.take("projects"));
    let components = read_text_list(table.take("components"));
    let labels = read_text_list(table.take("labels"));
    let statuses = read_text_list(table.take("statuses"));
    let priorities = read_text_list(table.take("priorities"));
    let issue_types = read_text_list(table.take("issue_types"));
    let security_levels = read_text_list(table.take("security_levels"));
    let summary = read_text_list(table.take("summary"));
    let has_security_level = read_option_flag(table.take("has_security_level"));
    let public_project = read_option_flag(table.take("public_project"));
    let created_by_me = read_option_flag(table.take("created_by_me"));
    let younger_than_days = read_option_days(table.take("younger_than_days"));
    proof {
        reveal_strlit("projects");
        reveal_strlit("components");
        reveal_strlit("labels");
        reveal_strlit("statuses");
        reveal_strlit("priorities");
        reveal_strlit("issue_types");
        reveal_strlit("security_levels");
        reveal_strlit("summary");
        reveal_strlit("has_security_level");
        reveal_strlit("public_project");
        reveal_strlit("created_by_me");
        reveal_strlit("younger_than_days");
        assert("projects"@.len() == 8 && "projects"@[0] == 'p');
        assert("components"@.len() == 10 && "components"@[0] == 'c');
        assert("labels"@.len() == 6);
        assert("statuses"@.len() == 8 && "statuses"@[0] == 's');
        assert("priorities"@.len() == 10 && "priorities"@[0] == 'p');
        assert("issue_types"@.len() == 11);
        assert("security_levels"@.len() == 15);
        assert("summary"@.len() == 7);
        assert("has_security_level"@.len() == 18);
        assert("public_project"@.len() == 14);
        assert("created_by_me"@.len() == 13);
        assert("younger_than_days"@.len() == 17);
        if table@ == Map::<Seq<char>, TomlView>::empty() {
            assert forall|k: Seq<char>| #[trigger] all.dom().contains(k) implies criteria_key(k) by {
                assert(!table@.dom().contains(k));
            }
        } else if only_criteria_keys(all) {
            assert(table@ =~= Map::<Seq<char>, TomlView>::empty());
        }
        assert(only_criteria_keys(all) == (table@ == Map::<Seq<char>, TomlView>::empty()));
    }
    if !table.is_empty() {
        return None;
    }
    match (projects, components, labels, statuses, priorities, issue_types, security_levels, summary, has_security_level, public_project, created_by_me, younger_than_days) {
        (Some(projects), Some(components), Some(labels), Some(statuses), Some(priorities), Some(issue_types), Some(security_levels), Some(summary), Some(has_security_level), Some(public_project), Some(created_by_me), Some(younger_than_days)) => {
            let res = Criteria {
                projects,
                components,
                labels,
                statuses,
                priorities,
                issue_types,
                security_levels,
                summary,
                has_security_level,
                public_project,
                created_by_me,
                younger_than_days,
            };
            assert(criteria_in(all)->0 =~= res@);
            Some(res)
        },
        _ => None,
    }
}

/// What is set of the global switches, still closed.
struct GlobalParts<'a> {
    age: Option<DeValue<'a>>,
    comments: Option<DeValue<'a>>,
    read_only: Option<DeValue<'a>>,
    tools: Option<DeValue<'a>>,
    bytes: Option<DeValue<'a>>,
    projects: Option<DeValue<'a>>,
    links: Option<DeValue<'a>>,
}

impl<'a> GlobalParts<'a> {
    spec fn meaning(self) -> Option<GlobalView> {
        global_of(
            optional_content(self.age),
            optional_content(self.comments),
            optional_content(self.read_only),
            optional_content(self.tools),
            optional_content(self.bytes),
            optional_content(self.projects),
            optional_content(self.links),
        )
    }

    fn read(self) -> (res: Option<Global>)
        ensures
            match res {
                Some(g) => self.meaning() == Some(g@),
                None => self.meaning() is None,
            },
    {
        let age = read_u32(self.age, 0);
        let comments = read_flag(self.comments, false);
        let read_only = read_flag(self.read_only, false);
        let tools = read_text_list(self.tools);
        let bytes = read_u64(self.bytes, 2 * 1024 * 1024);
        let projects = read_text_list(self.projects);
        let links = read_text_list(self.links);
        match (age, comments, read_only, tools, bytes, projects, links) {
            (
                Some(age),
                Some(comments),
                Some(read_only),
                Some(tools),
                Some(bytes),
                Some(projects),
                Some(links),
            ) => {
                let res = Global {
                    min_issue_age_days: age,
                    allow_restricted_comments: comments,
                    read_only,
                    disabled_tools: tools,
                    max_attachment_bytes: bytes,
                    public_projects: projects,
                    link_custom_fields: links,
                };
                assert(self.meaning()->0 =~= res@);
                Some(res)
            },
            _ => None,
        }
    }
}

fn read_global_table(table: Table<'_>) -> (res: Option<Global>)
    ensures
        match res {
            Some(g) => global_in(TomlView::Table(table@)) == Some(g@),
            None => global_in(TomlView::Table(table@)) is None,
        },
{
    let ghost all = table@;
    let mut table = table;
    let age = table.take("min_issue_age_days");
    let comments = table.take("allow_restricted_comments");
    let read_only = table.take("read_only");
    let tools = table.take("disabled_tools");
    let bytes = table.take("max_attachment_bytes");
    let projects = table.take("public_projects");
    let links = table.take("link_custom_fields");
    proof {
        reveal_strlit("min_issue_age_days");
        reveal_strlit("allow_restricted_comments");
        reveal_strlit("read_only");
        reveal_strlit("disabled_tools");
        reveal_strlit("max_attachment_bytes");
        reveal_strlit("public_projects");
        reveal_strlit("link_custom_fields");
        assert("min_issue_age_days"@.len() == 18 && "min_issue_age_days"@[0] == 'm');
        assert("allow_restricted_comments"@.len() == 25);
        assert("read_only"@.len() == 9);
        assert("disabled_tools"@.len() == 14);
        assert("max_attachment_bytes"@.len() == 20);
        assert("public_projects"@.len() == 15);
        assert("link_custom_fields"@.len() == 18 && "link_custom_fields"@[0] == 'l');
        if table@ == Map::<Seq<char>, TomlView>::empty() {
            assert forall|k: Seq<char>| #[trigger] all.dom().contains(k) implies global_key(k) by {
                assert(!table@.dom().contains(k));
            }
        } else if only_global_keys(all) {
            assert(table@ =~= Map::<Seq<char>, TomlView>::empty());
        }
        assert(only_global_keys(all) == (table@ == Map::<Seq<char>, TomlView>::empty()));
    }
    if !table.is_empty() {
        return None;
    }
    GlobalParts { age, comments, read_only, tools, bytes, projects, links }.read()
}

fn read_global(value: DeValue<'_>) -> (res: Option<Global>)
    ensures
        match res {
            Some(g) => global_in(toml_content(value)) == Some(g@),
            None => global_in(toml_content(value)) is None,
        },
{
    match open_toml(value) {
        TomlNode::Table(entries) => read_global_table(Table::from_entries(entries)),
        TomlNode::Array(items) => {
            let ghost all = array_view(items@);
            let mut items = items;
            let age = shift(&mut items);
            assert(element(array_view(items@), 0) == element(all, 1));
            let comments = shift(&mut items);
            assert(element(array_view(items@), 0) == element(all, 2));
            let read_only = shift(&mut items);
            assert(element(array_view(items@), 0) == element(all, 3));
            let tools = shift(&mut items);
            assert(element(array_view(items@), 0) == element(all, 4));
            let bytes = shift(&mut items);
            assert(element(array_view(items@), 0) == element(all, 5));
            let projects = shift(&mut items);
            assert(element(array_view(items@), 0) == element(all, 6));
            let links = shift(&mut items);
            GlobalParts { age, comments, read_only, tools, bytes, projects, links }.read()
        },
        _ => None,
    }
}

fn read_action(value: Option<DeValue<'_>>) -> (res: Option<Action>)
    ensures
        res == action_in(optional_content(value)),
{
    match value {
        None => None,
        Some(v) => match read_word(v) {
            Some(word) => Action::from_word(word.as_str()),
            None => None,
        },
    }
}

fn read_capability(value: DeValue<'_>) -> (res: Option<Capability>)
    ensures
        res == capability_in(toml_content(value)),
{
    match read_word(value) {
        Some(word) => Capability::from_word(word.as_str()),
        None => None,
    }
}

fn read_capabilities(value: Option<DeValue<'_>>) -> (res: Option<Vec<Capability>>)
    ensures
        match res {
            Some(list) => capabilities_in(optional_content(value)) == Some(list@),
            None => capabilities_in(optional_content(value)) is None,
        },
{
    let mut list: Vec<Capability> = Vec::new();
    match value {
        None => {
            assert(list@ =~= Seq::empty());
            Some(list)
        },
        Some(v) => match open_toml(v) {
            TomlNode::Array(items) => {
                let ghost all = items@;
                for item in it: items
                    invariant
                        it.seq() == all,
                        toml_content(v) == TomlView::Array(array_view(all)),
                        value == Some(v),
                        list.len() == it.index(),
                        forall|j: int|
                            0 <= j < list.len() ==> capability_in(toml_content(all[j])) == Some(
                                #[trigger] list@[j],
                            ),
                {
                    match read_capability(item) {
                        Some(c) => list.push(c),
                        None => {
                            assert(capability_in(array_view(all)[it.index()]) is None);
                            return None;
                        },
                    }
                }
                proof {
                    let content = array_view(all);
                    assert forall|i: int| 0 <= i < content.len() implies capability_in(
                        #[trigger] content[i],
                    ) is Some by {
                        assert(capability_in(content[i]) == Some(list@[i]));
                    }
                    assert(capabilities_in(optional_content(value))->0 =~= list@);
                }
                Some(list)
            },
            _ => None,
        },
    }
}

/// What is set of a rule, still closed.
struct RuleParts<'a> {
    name: Option<DeValue<'a>>,
    description: Option<DeValue<'a>>,
    action: Option<DeValue<'a>>,
    capabilities: Option<DeValue<'a>>,
    criteria: Option<DeValue<'a>>,
}

impl<'a> RuleParts<'a> {
    spec fn meaning(self) -> Option<RuleView> {
        rule_of(
            optional_content(self.name),
            optional_content(self.description),
            optional_content(self.action),
            optional_content(self.capabilities),
            optional_content(self.criteria),
        )
    }

    fn read(self) -> (res: Option<Rule>)
        ensures
            match res {
                Some(r) => self.meaning() == Some(r@),
                None => self.meaning() is None,
            },
    {
        let name = match self.name {
            Some(v) => read_text(v),
            None => None,
        };
        let description = match self.description {
            Some(v) => read_text(v),
            None => Some(String::new()),
        };
        let action = read_action(self.action);
        let capabilities = read_capabilities(self.capabilities);
        let criteria = match self.criteria {
            Some(v) => match Table::of(v) {
                Some(m) => read_criteria(m),
                None => None,
            },
            None => Some(Criteria::default()),
        };
        match (name, description, action, capabilities, criteria) {
            (Some(name), Some(description), Some(action), Some(capabilities), Some(criteria)) => {
                let res = Rule { name, description, action, capabilities, match_: criteria };
                assert(self.meaning()->0 =~= res@);
                Some(res)
            },
            _ => None,
        }
    }
}

fn read_rule_table(table: Table<'_>) -> (res: Option<Rule>)
    ensures
        match res {
            Some(r) => rule_in(TomlView::Table(table@)) == Some(r@),
            None => rule_in(TomlView::Table(table@)) is None,
        },
{
    let ghost all = table@;
    let mut table = table;
    let name = table.take("name");
    let description = table.take("description");
    let action = table.take("action");
    let capabilities = table.take("capabilities");
    let criteria = table.take("match");
    proof {
        reveal_strlit("name");
        reveal_strlit("description");
        reveal_strlit("action");
        reveal_strlit("capabilities");
        reveal_strlit("match");
        assert("name"@.len() == 4);
        assert("description"@.len() == 11);
        assert("action"@.len() == 6);
        assert("capabilities"@.len() == 12);
        assert("match"@.len() == 5);
        if table@ == Map::<Seq<char>, TomlView>::empty() {
            assert forall|k: Seq<char>| #[trigger] all.dom().contains(k) implies rule_key(k) by {
                assert(!table@.dom().contains(k));
            }
        } else if only_rule_keys(all) {
            assert(table@ =~= Map::<Seq<char>, TomlView>::empty());
        }
        assert(only_rule_keys(all) == (table@ == Map::<Seq<char>, TomlView>::empty()));
    }
    if !table.is_empty() {
        return None;
    }
    RuleParts { name, description, action, capabilities, criteria }.read()
}

fn read_rule(value: DeValue<'_>) -> (res: Option<Rule>)
    ensures
        match res {
            Some(r) => rule_in(toml_content(value)) == Some(r@),
            None => rule_in(toml_content(value)) is None,
        },
{
    match open_toml(value) {
        TomlNode::Table(entries) => read_rule_table(Table::from_entries(entries)),
        TomlNode::Array(items) => {
            let ghost all = array_view(items@);
            let mut items = items;
            let name = shift(&mut items);
            assert(element(array_view(items@), 0) == element(all, 1));
            let description = shift(&mut items);
            assert(element(array_view(items@), 0) == element(all, 2));
            let action = shift(&mut items);
            assert(element(array_view(items@), 0) == element(all, 3));
            let capabilities = shift(&mut items);
            assert(element(array_view(items@), 0) == element(all, 4));
            let criteria = shift(&mut items);
            RuleParts { name, description, action, capabilities, criteria }.read()
        },
        _ => None,
    }
}

fn read_rules(value: Option<DeValue<'_>>) -> (res: Option<Vec<Rule>>)
    ensures
        match res {
            Some(list) => match optional_content(value) {
                Some(TomlView::Array(items)) => rules_in(items) == Some(rules_view(list@)),
                Some(_) => false,
                None => list@.len() == 0,
            },
            None => match optional_content(value) {
                Some(TomlView::Array(items)) => rules_in(items) is None,
                Some(_) => true,
                None => false,
            },
        },
{
    let mut list: Vec<Rule> = Vec::new();
    match value {
        None => Some(list),
        Some(v) => match open_toml(v) {
            TomlNode::Array(items) => {
                let ghost all = items@;
                for item in it: items
                    invariant
                        it.seq() == all,
                        toml_content(v) == TomlView::Array(array_view(all)),
                        value == Some(v),
                        list.len() == it.index(),
                        forall|j: int|
                            0 <= j < list.len() ==> rule_in(toml_content(all[j])) == Some(
                                (#[trigger] list@[j])@,
                            ),
                {
                    match read_rule(item) {
                        Some(r) => list.push(r),
                        None => {
                            assert(rule_in(array_view(all)[it.index()]) is None);
                            return None;
                        },
                    }
                }
                proof {
                    let content = array_view(all);
                    assert forall|i: int| 0 <= i < content.len() implies rule_in(
                        #[trigger] content[i],
                    ) is Some by {
                        assert(rule_in(content[i]) == Some(list@[i]@));
                    }
                    assert(rules_in(content)->0 =~= rules_view(list@));
                }
                Some(list)
            },
            _ => None,
        },
    }
}

fn read_policy(table: Table<'_>) -> (res: Option<Policy>)
    ensures
        match res {
            Some(p) => policy_in(table@) == Some(p@),
            None => policy_in(table@) is None,
        },
{
    let ghost all = table@;
    let mut table = table;
    let action = match table.take("default_action") {
        None => Some(default_action_allow()),
        some => read_action(some),
    };
    let global = match table.take("global") {
        Some(v) => read_global(v),
        None => Some(Global::default()),
    };
    let rules = read_rules(table.take("rule"));
    proof {
        reveal_strlit("default_action");
        reveal_strlit("global");
        reveal_strlit("rule");
        assert("default_action"@.len() == 14);
        assert("global"@.len() == 6);
        assert("rule"@.len() == 4);
        if table@ == Map::<Seq<char>, TomlView>::empty() {
            assert forall|k: Seq<char>| #[trigger] all.dom().contains(k) implies policy_key(k) by {
                assert(!table@.dom().contains(k));
            }
        } else if only_policy_keys(all) {
            assert(table@ =~= Map::<Seq<char>, TomlView>::empty());
        }
        assert(only_policy_keys(all) == (table@ == Map::<Seq<char>, TomlView>::empty()));
    }
    if !table.is_empty() {
        return None;
    }
    match (action, global, rules) {
        (Some(default_action), Some(global), Some(rule)) => {
            let policy = Policy { default_action, global, rule };
            assert(policy_in(all)->0 =~= policy@);
            Some(policy)
        },
        _ => None,
    }
}

// --- validation -------------------------------------------------------------

/// Why a policy is refused.
#[derive(Debug)]
pub enum PolicyError {
    /// Not TOML, an unknown key, or a value of another type.
    InvalidToml,
    /// `restrict` is no default action.
    RestrictDefault,
    /// A rule's name is blank.
    UnnamedRule,
    /// A `restrict` rule that grants nothing.
    RestrictWithoutCapabilities { rule: String },
    /// Capabilities on a rule that is not `restrict`.
    CapabilitiesNotAllowed { rule: String, action: Action },
}

/// What a [`PolicyError`] means.
#[verifier::ext_equal]
pub enum FaultView {
    InvalidToml,
    RestrictDefault,
    UnnamedRule,
    RestrictWithoutCapabilities { rule: Seq<char> },
    CapabilitiesNotAllowed { rule: Seq<char>, action: Action },
}

impl View for PolicyError {
    type V = FaultView;

    open spec fn view(&self) -> FaultView {
        match self {
            PolicyError::InvalidToml => FaultView::InvalidToml,
            PolicyError::RestrictDefault => FaultView::RestrictDefault,
            PolicyError::UnnamedRule => FaultView::UnnamedRule,
            PolicyError::RestrictWithoutCapabilities { rule } => {
                FaultView::RestrictWithoutCapabilities { rule: rule@ }
            },
            PolicyError::CapabilitiesNotAllowed { rule, action } => {
                FaultView::CapabilitiesNotAllowed { rule: rule@, action: *action }
            },
        }
    }
}

impl FaultView {
    /// The text that tells the operator.
    pub open spec fn text(self) -> Seq<char> {
        match self {
            FaultView::InvalidToml => "invalid policy TOML"@,
            FaultView::RestrictDefault => {
                "default_action must be \"allow\" or \"deny\", not \"restrict\""@
            },
            FaultView::UnnamedRule => "every rule needs a non-empty name"@,
            FaultView::RestrictWithoutCapabilities { rule } => "rule \""@ + rule
                + "\": action \"restrict\" requires at least one capability"@,
            FaultView::CapabilitiesNotAllowed { rule, action } => "rule \""@ + rule + match action {
                Action::Allow => "\": action \"Allow\" must not list capabilities"@,
                Action::Deny => "\": action \"Deny\" must not list capabilities"@,
                Action::Restrict => "\": action \"Restrict\" must not list capabilities"@,
            },
        }
    }
}

impl PolicyError {
    /// The text that tells the operator.
    pub fn message(&self) -> (res: String)
        ensures
            res@ == self@.text(),
    {
        match self {
            PolicyError::InvalidToml => "invalid policy TOML".to_owned(),
            PolicyError::RestrictDefault => {
                "default_action must be \"allow\" or \"deny\", not \"restrict\"".to_owned()
            },
            PolicyError::UnnamedRule => "every rule needs a non-empty name".to_owned(),
            PolicyError::RestrictWithoutCapabilities { rule } => concat3(
                "rule \"",
                rule.as_str(),
                "\": action \"restrict\" requires at least one capability",
            ),
            PolicyError::CapabilitiesNotAllowed { rule, action } => concat3(
                "rule \"",
                rule.as_str(),
                match action {
                    Action::Allow => "\": action \"Allow\" must not list capabilities",
                    Action::Deny => "\": action \"Deny\" must not list capabilities",
                    Action::Restrict => "\": action \"Restrict\" must not list capabilities",
                },
            ),
        }
    }
}

/// What is wrong with a rule, if anything.
pub open spec fn rule_fault(rule: RuleView) -> Option<FaultView> {
    if trimmed(rule.name).len() == 0 {
        Some(FaultView::UnnamedRule)
    } else if rule.action == Action::Restrict {
        if rule.capabilities.len() == 0 {
            Some(FaultView::RestrictWithoutCapabilities { rule: rule.name })
        } else {
            None
        }
    } else if rule.capabilities.len() > 0 {
        Some(FaultView::CapabilitiesNotAllowed { rule: rule.name, action: rule.action })
    } else {
        None
    }
}

/// What is wrong with the first faulty rule, if any is.
pub open spec fn first_fault(rules: Seq<RuleView>) -> Option<FaultView>
    decreases rules.len(),
{
    if rules.len() == 0 {
        None
    } else if rule_fault(rules[0]) is Some {
        rule_fault(rules[0])
    } else {
        first_fault(rules.drop_first())
    }
}

/// What is wrong with a policy, if anything.
pub open spec fn policy_fault(policy: PolicyView) -> Option<FaultView> {
    if policy.default_action == Action::Restrict {
        Some(FaultView::RestrictDefault)
    } else {
        first_fault(policy.rules)
    }
}

/// The policy that a TOML document describes, or why it is refused.
pub open spec fn accepted(doc: Map<Seq<char>, TomlView>) -> Result<PolicyView, FaultView> {
    match policy_in(doc) {
        None => Err(FaultView::InvalidToml),
        Some(policy) => match policy_fault(policy) {
            Some(fault) => Err(fault),
            None => Ok(policy),
        },
    }
}

/// The policy that a text holds, or why it is refused.
pub open spec fn loaded(text: Seq<char>) -> Result<PolicyView, FaultView> {
    match toml_parse(text) {
        None => Err(FaultView::InvalidToml),
        Some(doc) => accepted(doc),
    }
}

/// What the outcome of loading a policy means.
pub open spec fn outcome_view(outcome: Result<Policy, PolicyError>) -> Result<
    PolicyView,
    FaultView,
> {
    match outcome {
        Ok(policy) => Ok(policy@),
        Err(error) => Err(error@),
    }
}

impl Policy {
    /// Checks what the form of the file cannot express.
    fn validate(&self) -> (res: Result<(), PolicyError>)
        ensures
            match res {
                Ok(()) => policy_fault(self@) is None,
                Err(e) => policy_fault(self@) == Some(e@),
            },
    {
        if self.default_action == Action::Restrict {
            return Err(PolicyError::RestrictDefault);
        }
        let mut i: usize = 0;
        assert(self@.rules.skip(0) =~= self@.rules);
        while i < self.rule.len()
            invariant
                i <= self.rule.len(),
                policy_fault(self@) == first_fault(self@.rules.skip(i as int)),
            decreases self.rule.len() - i,
        {
            let rule = &self.rule[i];
            proof {
                assert(self@.rules.skip(i as int)[0] == rule@);
                assert(self@.rules.skip(i as int).drop_first() =~= self@.rules.skip(i + 1));
            }
            if trim(rule.name.as_str()).unicode_len() == 0 {
                return Err(PolicyError::UnnamedRule);
            }
            match rule.action {
                Action::Restrict => {
                    if rule.capabilities.is_empty() {
                        return Err(
                            PolicyError::RestrictWithoutCapabilities { rule: rule.name.clone() },
                        );
                    }
                },
                action => {
                    if !rule.capabilities.is_empty() {
                        return Err(
                            PolicyError::CapabilitiesNotAllowed { rule: rule.name.clone(), action },
                        );
                    }
                },
            }
            i += 1;
        }
        Ok(())
    }

    /// The policy that a TOML table describes, checked.
    pub fn from_table(table: Table<'_>) -> (res: Result<Policy, PolicyError>)
        ensures
            outcome_view(res) == accepted(table@),
    {
        match read_policy(table) {
            None => Err(PolicyError::InvalidToml),
            Some(policy) => match policy.validate() {
                Ok(()) => Ok(policy),
                Err(e) => Err(e),
            },
        }
    }

    /// Reads and checks a policy.
    pub fn from_toml_str(text: &str) -> (res: Result<Policy, PolicyError>)
        ensures
            outcome_view(res) == loaded(text@),
    {
        match Table::parse(text) {
            None => Err(PolicyError::InvalidToml),
            Some(table) => Policy::from_table(table),
        }
    }
}

} // verus!
