//! Operator-controlled guard policy.
//!
//! A policy is an ordered list of rules over issue metadata, a default action
//! and a few global switches. Classification is three-valued: a rule that cannot
//! be decided because metadata is missing denies.

use vstd::prelude::*;
use vstd::string::*;

use crate::keyset::{list_admits, list_contains_ignoring_case, texts};
use crate::meta::{
    optional_int, optional_text, optional_texts, IssueMeta, LevelView, MetaView, SecurityLevel,
};
use crate::text::{fits, glob_match, same_text};

verus! {

// --- capabilities -----------------------------------------------------------

/// A capability that a policy grant can carry.
///
/// The only implication is `read` ⇒ `summary`, applied in [`Access::allows`]
/// and never stored in the set itself.
#[derive(Debug, Clone, Copy, PartialEq, Eq, Structural)]
pub enum Capability {
    /// Full issue details (implies [`Capability::Summary`]).
    Read,
    /// Redacted summary-only view of an issue.
    Summary,
    /// Read comments.
    Comments,
    /// Read the change history.
    History,
    /// List attachment metadata and download attachment content.
    Attachments,
    /// Write: add a comment.
    Comment,
    /// Write: transition the status.
    Status,
    /// Write: change fields (summary, labels, priority, ...).
    Fields,
    /// Write: change the assignee.
    Assign,
    /// Write: change watchers.
    Watchers,
    /// Write: create issue links.
    Links,
    /// Write: file a new issue.
    Create,
    /// Write: upload a new attachment.
    Attach,
}

impl Capability {
    /// The capabilities that permit changing Jira state.
    pub open spec fn writes(self) -> bool {
        match self {
            Capability::Read
            | Capability::Summary
            | Capability::Comments
            | Capability::History
            | Capability::Attachments => false,
            _ => true,
        }
    }

    /// The place in declaration order.
    pub open spec fn rank(self) -> int {
        match self {
            Capability::Read => 0,
            Capability::Summary => 1,
            Capability::Comments => 2,
            Capability::History => 3,
            Capability::Attachments => 4,
            Capability::Comment => 5,
            Capability::Status => 6,
            Capability::Fields => 7,
            Capability::Assign => 8,
            Capability::Watchers => 9,
            Capability::Links => 10,
            Capability::Create => 11,
            Capability::Attach => 12,
        }
    }

    /// Whether this capability permits changing Jira state.
    pub fn is_write(self) -> (res: bool)
        ensures
            res == self.writes(),
    {
        match self {
            Capability::Comment
            | Capability::Status
            | Capability::Fields
            | Capability::Assign
            | Capability::Watchers
            | Capability::Links
            | Capability::Create
            | Capability::Attach => true,
            _ => false,
        }
    }

    /// Every capability, in declaration order.
    pub fn all() -> (res: Vec<Capability>)
        ensures
            res@.len() == 13,
            forall|i: int| 0 <= i < 13 ==> (#[trigger] res@[i]).rank() == i,
            forall|c: Capability| #[trigger] res@.contains(c),
    {
        let res: Vec<Capability> = vec![
            Capability::Read,
            Capability::Summary,
            Capability::Comments,
            Capability::History,
            Capability::Attachments,
            Capability::Comment,
            Capability::Status,
            Capability::Fields,
            Capability::Assign,
            Capability::Watchers,
            Capability::Links,
            Capability::Create,
            Capability::Attach,
        ];
        assert forall|c: Capability| #[trigger] res@.contains(c) by {
            assert(res@[c.rank()] == c);
        }
        res
    }

    /// The capability that a word of a policy file names.
    pub fn from_word(word: &str) -> (res: Option<Capability>)
        ensures
            res == capability_named(word@),
    {
        if same_text(word, "read") {
            Some(Capability::Read)
        } else if same_text(word, "summary") {
            Some(Capability::Summary)
        } else if same_text(word, "comments") {
            Some(Capability::Comments)
        } else if same_text(word, "history") {
            Some(Capability::History)
        } else if same_text(word, "attachments") {
            Some(Capability::Attachments)
        } else if same_text(word, "comment") {
            Some(Capability::Comment)
        } else if same_text(word, "status") {
            Some(Capability::Status)
        } else if same_text(word, "fields") {
            Some(Capability::Fields)
        } else if same_text(word, "assign") {
            Some(Capability::Assign)
        } else if same_text(word, "watchers") {
            Some(Capability::Watchers)
        } else if same_text(word, "links") {
            Some(Capability::Links)
        } else if same_text(word, "create") {
            Some(Capability::Create)
        } else if same_text(word, "attach") {
            Some(Capability::Attach)
        } else {
            None
        }
    }
}

/// The capability that a word of a policy file names.
pub open spec fn capability_named(word: Seq<char>) -> Option<Capability> {
    if word == "read"@ {
        Some(Capability::Read)
    } else if word == "summary"@ {
        Some(Capability::Summary)
    } else if word == "comments"@ {
        Some(Capability::Comments)
    } else if word == "history"@ {
        Some(Capability::History)
    } else if word == "attachments"@ {
        Some(Capability::Attachments)
    } else if word == "comment"@ {
        Some(Capability::Comment)
    } else if word == "status"@ {
        Some(Capability::Status)
    } else if word == "fields"@ {
        Some(Capability::Fields)
    } else if word == "assign"@ {
        Some(Capability::Assign)
    } else if word == "watchers"@ {
        Some(Capability::Watchers)
    } else if word == "links"@ {
        Some(Capability::Links)
    } else if word == "create"@ {
        Some(Capability::Create)
    } else if word == "attach"@ {
        Some(Capability::Attach)
    } else {
        None
    }
}

/// A set of capabilities, in declaration order.
#[derive(Debug)]
pub struct Capabilities {
    list: Vec<Capability>,
}

impl View for Capabilities {
    type V = Set<Capability>;

    closed spec fn view(&self) -> Set<Capability> {
        self.list@.to_set()
    }
}

/// In declaration order, none twice.
spec fn in_order(list: Seq<Capability>) -> bool {
    forall|i: int, j: int|
        0 <= i < j < list.len() ==> (#[trigger] list[i]).rank() < (#[trigger] list[j]).rank()
}

impl Capabilities {
    #[verifier::type_invariant]
    spec fn ordered(&self) -> bool {
        in_order(self.list@)
    }

    /// The capabilities of a list; without the writing ones where `read_only`.
    pub fn of(list: &Vec<Capability>, read_only: bool) -> (res: Capabilities)
        ensures
            res@ == permitted(list@.to_set(), read_only),
    {
        let all = Capability::all();
        let mut kept: Vec<Capability> = Vec::new();
        let mut i: usize = 0;
        while i < all.len()
            invariant
                i <= all.len(),
                all@.len() == 13,
                forall|j: int| 0 <= j < 13 ==> (#[trigger] all@[j]).rank() == j,
                in_order(kept@),
                forall|j: int| 0 <= j < kept.len() ==> (#[trigger] kept@[j]).rank() < i,
                forall|c: Capability|
                    c.rank() < i ==> #[trigger] kept@.contains(c) == permitted(
                        list@.to_set(),
                        read_only,
                    ).contains(c),
            decreases all.len() - i,
        {
            let c = all[i];
            let ghost before = kept@;
            if contains_capability(list, c) && !(read_only && c.is_write()) {
                kept.push(c);
            }
            proof {
                assert forall|d: Capability| d.rank() < i + 1 implies #[trigger] kept@.contains(d)
                    == permitted(list@.to_set(), read_only).contains(d) by {
                    if d == c {
                        if kept@ != before {
                            assert(kept@[before.len() as int] == c);
                        } else if kept@.contains(c) {
                            let k = choose|k: int| 0 <= k < kept@.len() && kept@[k] == c;
                        }
                    } else {
                        assert(d.rank() != i) by {
                            if d.rank() == i {
                                assert(d.rank() == c.rank());
                            }
                        }
                        assert(before.contains(d) == permitted(list@.to_set(), read_only).contains(
                            d,
                        ));
                        if before.contains(d) {
                            let k = choose|k: int| 0 <= k < before.len() && before[k] == d;
                            assert(kept@[k] == d);
                        }
                        if kept@.contains(d) {
                            let k = choose|k: int| 0 <= k < kept@.len() && kept@[k] == d;
                            assert(before[k] == d);
                        }
                    }
                }
            }
            i += 1;
        }
        let res = Capabilities { list: kept };
        assert(res@ =~= permitted(list@.to_set(), read_only));
        res
    }

    /// Whether the set holds `cap`.
    pub fn contains(&self, cap: Capability) -> (res: bool)
        ensures
            res == self@.contains(cap),
    {
        contains_capability(&self.list, cap)
    }
}

impl Clone for Capabilities {
    fn clone(&self) -> (res: Self)
        ensures
            res@ == self@,
    {
        proof {
            use_type_invariant(self);
        }
        let list = self.list.clone();
        assert(list@ =~= self.list@);
        Capabilities { list }
    }
}

fn contains_capability(list: &Vec<Capability>, cap: Capability) -> (res: bool)
    ensures
        res == list@.contains(cap),
{
    let mut i: usize = 0;
    while i < list.len()
        invariant
            i <= list.len(),
            forall|j: int| 0 <= j < i ==> #[trigger] list@[j] != cap,
        decreases list.len() - i,
    {
        if list[i] == cap {
            assert(list@[i as int] == cap);
            return true;
        }
        i += 1;
    }
    false
}

/// What is left of a grant: in read-only mode nothing that writes.
pub open spec fn permitted(caps: Set<Capability>, read_only: bool) -> Set<Capability> {
    if read_only {
        caps.filter(|c: Capability| !c.writes())
    } else {
        caps
    }
}

// --- access -----------------------------------------------------------------

/// What a rule, or the default, does with an issue.
#[derive(Debug, Clone, Copy, PartialEq, Eq, Structural)]
pub enum Action {
    Allow,
    Deny,
    Restrict,
}

impl Action {
    /// The word for the action in a policy file.
    pub open spec fn word(self) -> Seq<char> {
        match self {
            Action::Allow => "allow"@,
            Action::Deny => "deny"@,
            Action::Restrict => "restrict"@,
        }
    }

    /// The word for the action in a policy file.
    pub fn as_word(self) -> (res: &'static str)
        ensures
            res@ == self.word(),
    {
        match self {
            Action::Allow => "allow",
            Action::Deny => "deny",
            Action::Restrict => "restrict",
        }
    }

    /// The action that a word of a policy file names.
    pub fn from_word(word: &str) -> (res: Option<Action>)
        ensures
            res == action_named(word@),
    {
        if same_text(word, "allow") {
            Some(Action::Allow)
        } else if same_text(word, "deny") {
            Some(Action::Deny)
        } else if same_text(word, "restrict") {
            Some(Action::Restrict)
        } else {
            None
        }
    }
}

/// The action that a word of a policy file names.
pub open spec fn action_named(word: Seq<char>) -> Option<Action> {
    if word == "allow"@ {
        Some(Action::Allow)
    } else if word == "deny"@ {
        Some(Action::Deny)
    } else if word == "restrict"@ {
        Some(Action::Restrict)
    } else {
        None
    }
}

/// Result of classifying an issue against the policy.
#[derive(Debug)]
pub enum Access {
    /// No capabilities; the name of the deciding rule is for the audit stream
    /// only.
    Denied { rule: String },
    /// The listed capabilities, after read-only stripping.
    Granted { caps: Capabilities, rule: String },
}

/// What an [`Access`] means.
#[verifier::ext_equal]
pub enum AccessView {
    Denied { rule: Seq<char> },
    Granted { caps: Set<Capability>, rule: Seq<char> },
}

impl AccessView {
    /// A capability is granted if it is in the set; `summary` also if `read` is.
    pub open spec fn allows(self, cap: Capability) -> bool {
        match self {
            AccessView::Denied { .. } => false,
            AccessView::Granted { caps, .. } => caps.contains(cap) || (cap == Capability::Summary
                && caps.contains(Capability::Read)),
        }
    }

    /// The name of the deciding rule.
    pub open spec fn rule_name(self) -> Seq<char> {
        match self {
            AccessView::Denied { rule } => rule,
            AccessView::Granted { rule, .. } => rule,
        }
    }
}

impl View for Access {
    type V = AccessView;

    open spec fn view(&self) -> AccessView {
        match self {
            Access::Denied { rule } => AccessView::Denied { rule: rule@ },
            Access::Granted { caps, rule } => AccessView::Granted { caps: caps@, rule: rule@ },
        }
    }
}

impl Clone for Access {
    fn clone(&self) -> (res: Self)
        ensures
            res@ == self@,
    {
        match self {
            Access::Denied { rule } => Access::Denied { rule: rule.clone() },
            Access::Granted { caps, rule } => Access::Granted {
                caps: caps.clone(),
                rule: rule.clone(),
            },
        }
    }
}

impl Access {
    /// Whether `cap` is granted. `read` implies `summary`.
    pub fn allows(&self, cap: Capability) -> (res: bool)
        ensures
            res == self@.allows(cap),
    {
        match self {
            Access::Denied { .. } => false,
            Access::Granted { caps, .. } => caps.contains(cap) || (cap == Capability::Summary
                && caps.contains(Capability::Read)),
        }
    }

    /// The name of the deciding rule; for the audit stream only.
    pub fn rule(&self) -> (res: &str)
        ensures
            res@ == self@.rule_name(),
    {
        match self {
            Access::Denied { rule } => rule.as_str(),
            Access::Granted { rule, .. } => rule.as_str(),
        }
    }
}

// --- the policy -------------------------------------------------------------

/// Global policy switches.
#[derive(Debug)]
pub struct Global {
    /// Issues created less than this many days ago are invisible (0 = disabled).
    pub min_issue_age_days: u32,
    /// Master switch for restricted-visibility comments.
    pub allow_restricted_comments: bool,
    /// Strip write capabilities and remove write tools from the listing.
    pub read_only: bool,
    /// Tool names removed from the tool listing entirely.
    pub disabled_tools: Vec<String>,
    /// Largest attachment download or upload in bytes (0 = no cap).
    pub max_attachment_bytes: u64,
    /// Project keys that the operator declares publicly browsable. An issue
    /// with no security level is public only if its project is listed here.
    pub public_projects: Vec<String>,
    /// Custom fields whose value is an issue key, such as a classic epic link.
    pub link_custom_fields: Vec<String>,
}

/// What a [`Global`] means.
#[verifier::ext_equal]
pub struct GlobalView {
    pub min_issue_age_days: int,
    pub allow_restricted_comments: bool,
    pub read_only: bool,
    pub disabled_tools: Seq<Seq<char>>,
    pub max_attachment_bytes: int,
    pub public_projects: Seq<Seq<char>>,
    pub link_custom_fields: Seq<Seq<char>>,
}

impl View for Global {
    type V = GlobalView;

    open spec fn view(&self) -> GlobalView {
        GlobalView {
            min_issue_age_days: self.min_issue_age_days as int,
            allow_restricted_comments: self.allow_restricted_comments,
            read_only: self.read_only,
            disabled_tools: texts(self.disabled_tools@),
            max_attachment_bytes: self.max_attachment_bytes as int,
            public_projects: texts(self.public_projects@),
            link_custom_fields: texts(self.link_custom_fields@),
        }
    }
}

/// The switches where a policy sets none.
pub open spec fn global_default() -> GlobalView {
    GlobalView {
        min_issue_age_days: 0,
        allow_restricted_comments: false,
        read_only: false,
        disabled_tools: Seq::empty(),
        max_attachment_bytes: 2097152,
        public_projects: Seq::empty(),
        link_custom_fields: Seq::empty(),
    }
}

impl Default for Global {
    fn default() -> (res: Self)
        ensures
            res@ == global_default(),
    {
        let res = Global {
            min_issue_age_days: 0,
            allow_restricted_comments: false,
            read_only: false,
            disabled_tools: Vec::new(),
            max_attachment_bytes: 2 * 1024 * 1024,
            public_projects: Vec::new(),
            link_custom_fields: Vec::new(),
        };
        assert(res@ =~= global_default());
        res
    }
}

/// What a rule matches. Every criterion that is given must hold; a list holds
/// where one of its glob patterns fits. An empty list is no criterion.
#[derive(Debug)]
pub struct Criteria {
    pub projects: Vec<String>,
    pub components: Vec<String>,
    pub labels: Vec<String>,
    pub statuses: Vec<String>,
    pub priorities: Vec<String>,
    pub issue_types: Vec<String>,
    pub security_levels: Vec<String>,
    pub summary: Vec<String>,
    pub has_security_level: Option<bool>,
    pub public_project: Option<bool>,
    pub younger_than_days: Option<u32>,
    pub created_by_me: Option<bool>,
}

/// What [`Criteria`] mean.
#[verifier::ext_equal]
pub struct CriteriaView {
    pub projects: Seq<Seq<char>>,
    pub components: Seq<Seq<char>>,
    pub labels: Seq<Seq<char>>,
    pub statuses: Seq<Seq<char>>,
    pub priorities: Seq<Seq<char>>,
    pub issue_types: Seq<Seq<char>>,
    pub security_levels: Seq<Seq<char>>,
    pub summary: Seq<Seq<char>>,
    pub has_security_level: Option<bool>,
    pub public_project: Option<bool>,
    pub younger_than_days: Option<int>,
    pub created_by_me: Option<bool>,
}

impl View for Criteria {
    type V = CriteriaView;

    open spec fn view(&self) -> CriteriaView {
        CriteriaView {
            projects: texts(self.projects@),
            components: texts(self.components@),
            labels: texts(self.labels@),
            statuses: texts(self.statuses@),
            priorities: texts(self.priorities@),
            issue_types: texts(self.issue_types@),
            security_levels: texts(self.security_levels@),
            summary: texts(self.summary@),
            has_security_level: self.has_security_level,
            public_project: self.public_project,
            younger_than_days: optional_days(self.younger_than_days),
            created_by_me: self.created_by_me,
        }
    }
}

/// A number of days as a mathematical integer.
pub open spec fn optional_days(days: Option<u32>) -> Option<int> {
    match days {
        Some(d) => Some(d as int),
        None => None,
    }
}

/// No criterion: every issue matches.
pub open spec fn criteria_default() -> CriteriaView {
    CriteriaView {
        projects: Seq::empty(),
        components: Seq::empty(),
        labels: Seq::empty(),
        statuses: Seq::empty(),
        priorities: Seq::empty(),
        issue_types: Seq::empty(),
        security_levels: Seq::empty(),
        summary: Seq::empty(),
        has_security_level: None,
        public_project: None,
        younger_than_days: None,
        created_by_me: None,
    }
}

impl Default for Criteria {
    /// No criterion: every issue matches.
    fn default() -> (res: Self)
        ensures
            res@ == criteria_default(),
    {
        let res = Criteria {
            projects: Vec::new(),
            components: Vec::new(),
            labels: Vec::new(),
            statuses: Vec::new(),
            priorities: Vec::new(),
            issue_types: Vec::new(),
            security_levels: Vec::new(),
            summary: Vec::new(),
            has_security_level: None,
            public_project: None,
            younger_than_days: None,
            created_by_me: None,
        };
        assert(res@ =~= criteria_default());
        res
    }
}

/// A single policy rule.
#[derive(Debug)]
pub struct Rule {
    /// Operator-facing identifier; audit stream only.
    pub name: String,
    /// Free-form operator documentation.
    pub description: String,
    pub action: Action,
    /// Required and non-empty for `restrict`; empty for `allow` and `deny`.
    pub capabilities: Vec<Capability>,
    pub match_: Criteria,
}

/// What a [`Rule`] means.
#[verifier::ext_equal]
pub struct RuleView {
    pub name: Seq<char>,
    pub description: Seq<char>,
    pub action: Action,
    pub capabilities: Seq<Capability>,
    pub criteria: CriteriaView,
}

impl View for Rule {
    type V = RuleView;

    open spec fn view(&self) -> RuleView {
        RuleView {
            name: self.name@,
            description: self.description@,
            action: self.action,
            capabilities: self.capabilities@,
            criteria: self.match_@,
        }
    }
}

/// The full guard policy.
#[derive(Debug)]
pub struct Policy {
    /// Applied when no rule matches; never `restrict` in a policy that loads.
    pub default_action: Action,
    pub global: Global,
    pub rule: Vec<Rule>,
}

/// What a [`Policy`] means.
#[verifier::ext_equal]
pub struct PolicyView {
    pub default_action: Action,
    pub global: GlobalView,
    pub rules: Seq<RuleView>,
}

/// The rules of a list, one by one.
pub open spec fn rules_view(rules: Seq<Rule>) -> Seq<RuleView> {
    Seq::new(rules.len(), |i: int| rules[i]@)
}

impl View for Policy {
    type V = PolicyView;

    open spec fn view(&self) -> PolicyView {
        PolicyView {
            default_action: self.default_action,
            global: self.global@,
            rules: rules_view(self.rule@),
        }
    }
}

impl Default for Policy {
    /// Allow everything, with restricted comments off.
    fn default() -> (res: Self)
        ensures
            res@ == (PolicyView {
                default_action: Action::Allow,
                global: global_default(),
                rules: Seq::empty(),
            }),
    {
        let res = Policy {
            default_action: default_action_allow(),
            global: Global::default(),
            rule: Vec::new(),
        };
        assert(res@.rules =~= Seq::empty());
        res
    }
}

/// The default action of a policy that names none.
pub fn default_action_allow() -> (res: Action)
    ensures
        res == Action::Allow,
{
    Action::Allow
}

// --- matching ---------------------------------------------------------------

/// The answer to a criterion.
#[derive(Debug, Clone, Copy, PartialEq, Eq, Structural)]
pub enum Truth {
    No,
    /// The metadata that would decide is missing.
    Unknown,
    Yes,
}

impl Truth {
    /// No if either is no; yes if both are yes.
    pub open spec fn and(self, other: Truth) -> Truth {
        if self == Truth::No || other == Truth::No {
            Truth::No
        } else if self == Truth::Yes && other == Truth::Yes {
            Truth::Yes
        } else {
            Truth::Unknown
        }
    }

    /// The answer to a criterion that wants `wanted`.
    pub open spec fn is_as(self, wanted: bool) -> Truth {
        match self {
            Truth::Unknown => Truth::Unknown,
            Truth::Yes => truth(wanted),
            Truth::No => truth(!wanted),
        }
    }

    fn both(self, other: Truth) -> (res: Truth)
        ensures
            res == self.and(other),
    {
        if self == Truth::No || other == Truth::No {
            Truth::No
        } else if self == Truth::Yes && other == Truth::Yes {
            Truth::Yes
        } else {
            Truth::Unknown
        }
    }

    fn wanted(self, wanted: Option<bool>) -> (res: Truth)
        ensures
            res == if_wanted(wanted, self),
    {
        match (wanted, self) {
            (None, _) => Truth::Yes,
            (Some(_), Truth::Unknown) => Truth::Unknown,
            (Some(w), Truth::Yes) => from_bool(w),
            (Some(w), Truth::No) => from_bool(!w),
        }
    }
}

pub open spec fn truth(b: bool) -> Truth {
    if b {
        Truth::Yes
    } else {
        Truth::No
    }
}

/// A criterion that may not be given holds where it is not.
pub open spec fn if_wanted(wanted: Option<bool>, fact: Truth) -> Truth {
    match wanted {
        None => Truth::Yes,
        Some(w) => fact.is_as(w),
    }
}

fn from_bool(b: bool) -> (res: Truth)
    ensures
        res == truth(b),
{
    if b {
        Truth::Yes
    } else {
        Truth::No
    }
}

/// One of the patterns fits the text.
pub open spec fn any_fits(patterns: Seq<Seq<char>>, text: Seq<char>) -> bool {
    exists|i: int| 0 <= i < patterns.len() && fits(#[trigger] patterns[i], text)
}

/// A criterion on a single text.
pub open spec fn one_fits(patterns: Seq<Seq<char>>, text: Option<Seq<char>>) -> Truth {
    if patterns.len() == 0 {
        Truth::Yes
    } else {
        match text {
            None => Truth::Unknown,
            Some(t) => truth(any_fits(patterns, t)),
        }
    }
}

/// A criterion on a list of texts, one of which must fit.
pub open spec fn some_fits(patterns: Seq<Seq<char>>, list: Option<Seq<Seq<char>>>) -> Truth {
    if patterns.len() == 0 {
        Truth::Yes
    } else {
        match list {
            None => Truth::Unknown,
            Some(l) => truth(
                exists|i: int| 0 <= i < l.len() && any_fits(patterns, #[trigger] l[i]),
            ),
        }
    }
}

/// A criterion on the name of the security level: an absent level has none.
pub open spec fn level_fits(patterns: Seq<Seq<char>>, level: LevelView) -> Truth {
    if patterns.len() == 0 {
        Truth::Yes
    } else {
        match level {
            LevelView::Unreadable => Truth::Unknown,
            LevelView::Absent => Truth::No,
            LevelView::Present(name) => truth(any_fits(patterns, name)),
        }
    }
}

/// Whether the issue has a security level.
pub open spec fn has_level(level: LevelView) -> Truth {
    match level {
        LevelView::Unreadable => Truth::Unknown,
        LevelView::Absent => Truth::No,
        LevelView::Present(_) => Truth::Yes,
    }
}

/// Whether the issue is public. A security level says no. Its absence says
/// nothing, unless the operator declares the project public.
pub open spec fn publicness(meta: MetaView) -> Truth {
    match (meta.security, meta.project) {
        (LevelView::Present(_), _) => Truth::No,
        (LevelView::Absent, Some(p)) => if list_admits(meta.public_projects, p) {
            Truth::Yes
        } else {
            Truth::Unknown
        },
        _ => Truth::Unknown,
    }
}

/// The caller's authorship as an answer.
pub open spec fn known(fact: Option<bool>) -> Truth {
    match fact {
        None => Truth::Unknown,
        Some(b) => truth(b),
    }
}

/// The issue is less than `days` days old.
pub open spec fn younger(created: int, days: int, now: int) -> bool {
    now - created < days * 86400
}

/// A criterion on the age.
pub open spec fn age_fits(days: Option<int>, created: Option<int>, now: int) -> Truth {
    match (days, created) {
        (None, _) => Truth::Yes,
        (Some(_), None) => Truth::Unknown,
        (Some(d), Some(t)) => truth(younger(t, d, now)),
    }
}

/// Whether the criteria hold of an issue.
pub open spec fn criteria_hold(c: CriteriaView, meta: MetaView, now: int) -> Truth {
    one_fits(c.projects, meta.project)
        .and(some_fits(c.components, meta.components))
        .and(some_fits(c.labels, meta.labels))
        .and(one_fits(c.statuses, meta.status))
        .and(one_fits(c.priorities, meta.priority))
        .and(one_fits(c.issue_types, meta.issue_type))
        .and(level_fits(c.security_levels, meta.security))
        .and(one_fits(c.summary, meta.summary))
        .and(if_wanted(c.has_security_level, has_level(meta.security)))
        .and(if_wanted(c.public_project, publicness(meta)))
        .and(age_fits(c.younger_than_days, meta.created, now))
        .and(if_wanted(c.created_by_me, known(meta.created_by_me)))
}

fn any_pattern_fits(patterns: &Vec<String>, text: &str) -> (res: bool)
    ensures
        res == any_fits(texts(patterns@), text@),
{
    let mut i: usize = 0;
    while i < patterns.len()
        invariant
            i <= patterns.len(),
            forall|k: int| 0 <= k < i ==> !fits(#[trigger] texts(patterns@)[k], text@),
        decreases patterns.len() - i,
    {
        if glob_match(patterns[i].as_str(), text) {
            assert(fits(texts(patterns@)[i as int], text@));
            return true;
        }
        i += 1;
    }
    false
}

fn one_text_fits(patterns: &Vec<String>, text: &Option<String>) -> (res: Truth)
    ensures
        res == one_fits(texts(patterns@), optional_text(*text)),
{
    if patterns.len() == 0 {
        Truth::Yes
    } else {
        match text {
            None => Truth::Unknown,
            Some(t) => from_bool(any_pattern_fits(patterns, t.as_str())),
        }
    }
}

fn some_text_fits(patterns: &Vec<String>, list: &Option<Vec<String>>) -> (res: Truth)
    ensures
        res == some_fits(texts(patterns@), optional_texts(*list)),
{
    if patterns.len() == 0 {
        return Truth::Yes;
    }
    let items = match list {
        None => return Truth::Unknown,
        Some(l) => l,
    };
    let mut i: usize = 0;
    while i < items.len()
        invariant
            i <= items.len(),
            patterns.len() > 0,
            optional_texts(*list) == Some(texts(items@)),
            forall|k: int|
                0 <= k < i ==> !any_fits(texts(patterns@), #[trigger] texts(items@)[k]),
        decreases items.len() - i,
    {
        if any_pattern_fits(patterns, items[i].as_str()) {
            proof {
                let l = optional_texts(*list)->0;
                assert(0 <= i < l.len() && any_fits(texts(patterns@), l[i as int]));
            }
            return Truth::Yes;
        }
        i += 1;
    }
    Truth::No
}

fn level_text_fits(patterns: &Vec<String>, level: &SecurityLevel) -> (res: Truth)
    ensures
        res == level_fits(texts(patterns@), level@),
{
    if patterns.len() == 0 {
        Truth::Yes
    } else {
        match level {
            SecurityLevel::Unreadable => Truth::Unknown,
            SecurityLevel::Absent => Truth::No,
            SecurityLevel::Present(name) => from_bool(any_pattern_fits(patterns, name.as_str())),
        }
    }
}

fn level_is_set(level: &SecurityLevel) -> (res: Truth)
    ensures
        res == has_level(level@),
{
    match level {
        SecurityLevel::Unreadable => Truth::Unknown,
        SecurityLevel::Absent => Truth::No,
        SecurityLevel::Present(_) => Truth::Yes,
    }
}

fn is_public(meta: &IssueMeta) -> (res: Truth)
    ensures
        res == publicness(meta@),
{
    match (&meta.security, &meta.project) {
        (SecurityLevel::Present(_), _) => Truth::No,
        (SecurityLevel::Absent, Some(p)) => if list_contains_ignoring_case(
            &meta.public_projects,
            p.as_str(),
        ) {
            Truth::Yes
        } else {
            Truth::Unknown
        },
        _ => Truth::Unknown,
    }
}

fn is_known(fact: Option<bool>) -> (res: Truth)
    ensures
        res == known(fact),
{
    match fact {
        None => Truth::Unknown,
        Some(b) => from_bool(b),
    }
}

fn is_younger(created: i64, days: u32, now: i64) -> (res: bool)
    ensures
        res == younger(created as int, days as int, now as int),
{
    (now as i128) - (created as i128) < (days as i128) * 86400
}

fn age_is_below(days: Option<u32>, created: Option<i64>, now: i64) -> (res: Truth)
    ensures
        res == age_fits(optional_days(days), optional_int(created), now as int),
{
    match (days, created) {
        (None, _) => Truth::Yes,
        (Some(_), None) => Truth::Unknown,
        (Some(d), Some(t)) => from_bool(is_younger(t, d, now)),
    }
}

impl Criteria {
    /// Whether the criteria hold of an issue.
    pub fn matches(&self, meta: &IssueMeta, now: i64) -> (res: Truth)
        ensures
            res == criteria_hold(self@, meta@, now as int),
    {
        one_text_fits(&self.projects, &meta.project)
            .both(some_text_fits(&self.components, &meta.components))
            .both(some_text_fits(&self.labels, &meta.labels))
            .both(one_text_fits(&self.statuses, &meta.status))
            .both(one_text_fits(&self.priorities, &meta.priority))
            .both(one_text_fits(&self.issue_types, &meta.issue_type))
            .both(level_text_fits(&self.security_levels, &meta.security))
            .both(one_text_fits(&self.summary, &meta.summary))
            .both(level_is_set(&meta.security).wanted(self.has_security_level))
            .both(is_public(meta).wanted(self.public_project))
            .both(age_is_below(self.younger_than_days, meta.created, now))
            .both(is_known(meta.created_by_me).wanted(self.created_by_me))
    }
}

// --- classification ---------------------------------------------------------

/// What an issue is classified for.
#[derive(Debug, Clone, Copy, PartialEq, Eq, Structural)]
pub enum Operation {
    /// Access to an issue that exists.
    Access,
    /// Filing a new issue; the age quarantine does not apply to it.
    Create,
}

/// What an action grants under a rule's name.
pub open spec fn grant(
    action: Action,
    listed: Set<Capability>,
    read_only: bool,
    rule: Seq<char>,
) -> AccessView {
    match action {
        Action::Allow => AccessView::Granted {
            caps: permitted(Set::full(), read_only),
            rule,
        },
        Action::Restrict => AccessView::Granted { caps: permitted(listed, read_only), rule },
        Action::Deny => AccessView::Denied { rule },
    }
}

/// The default action's grant.
pub open spec fn default_grant(policy: PolicyView) -> AccessView {
    grant(policy.default_action, Set::empty(), policy.global.read_only, "default"@)
}

/// The first rule that matches decides; one that cannot be decided denies; if
/// none matches, the default decides.
pub open spec fn first_match(
    policy: PolicyView,
    rules: Seq<RuleView>,
    meta: MetaView,
    now: int,
) -> AccessView
    decreases rules.len(),
{
    if rules.len() == 0 {
        default_grant(policy)
    } else {
        match criteria_hold(rules[0].criteria, meta, now) {
            Truth::Yes => grant(
                rules[0].action,
                rules[0].capabilities.to_set(),
                policy.global.read_only,
                rules[0].name,
            ),
            Truth::Unknown => AccessView::Denied { rule: rules[0].name },
            Truth::No => first_match(policy, rules.drop_first(), meta, now),
        }
    }
}

/// The issue is not known to be old enough to be visible.
pub open spec fn quarantined(policy: PolicyView, meta: MetaView, now: int) -> bool {
    policy.global.min_issue_age_days > 0 && match meta.created {
        None => true,
        Some(t) => younger(t, policy.global.min_issue_age_days, now),
    }
}

/// The access that the policy gives to an issue.
pub open spec fn decide(
    policy: PolicyView,
    meta: MetaView,
    now: int,
    operation: Operation,
) -> AccessView {
    if operation == Operation::Access && quarantined(policy, meta, now) {
        AccessView::Denied { rule: "min_issue_age_days"@ }
    } else {
        first_match(policy, policy.rules, meta, now)
    }
}

/// A rule asks who created the issue.
pub open spec fn asks_identity(policy: PolicyView) -> bool {
    exists|i: int|
        0 <= i < policy.rules.len() && (#[trigger] policy.rules[i]).criteria.created_by_me is Some
}

fn granted(action: Action, listed: &Vec<Capability>, read_only: bool, rule: &str) -> (res: Access)
    ensures
        res@ == grant(action, listed@.to_set(), read_only, rule@),
{
    match action {
        Action::Allow => {
            let all = Capability::all();
            assert(all@.to_set() =~= Set::full());
            Access::Granted { caps: Capabilities::of(&all, read_only), rule: rule.to_owned() }
        },
        Action::Restrict => Access::Granted {
            caps: Capabilities::of(listed, read_only),
            rule: rule.to_owned(),
        },
        Action::Deny => Access::Denied { rule: rule.to_owned() },
    }
}

impl Policy {
    /// The default action is one that a default can be.
    pub open spec fn has_default(self) -> bool {
        self.default_action != Action::Restrict
    }

    /// Number of rules; their names stay hidden.
    pub fn rule_count(&self) -> (res: usize)
        ensures
            res == self@.rules.len(),
    {
        self.rule.len()
    }

    /// Access where no rule decides.
    pub fn default_access(&self) -> (res: Access)
        requires
            self.has_default(),
        ensures
            res@ == default_grant(self@),
    {
        let none: Vec<Capability> = Vec::new();
        assert(none@.to_set() =~= Set::empty());
        granted(self.default_action, &none, self.global.read_only, "default")
    }

    /// Whether classification needs to know who the caller is.
    pub fn needs_identity(&self) -> (res: bool)
        ensures
            res == asks_identity(self@),
    {
        let mut i: usize = 0;
        while i < self.rule.len()
            invariant
                i <= self.rule.len(),
                forall|k: int|
                    0 <= k < i ==> (#[trigger] self@.rules[k]).criteria.created_by_me is None,
            decreases self.rule.len() - i,
        {
            if self.rule[i].match_.created_by_me.is_some() {
                assert(self@.rules[i as int].criteria.created_by_me is Some);
                return true;
            }
            i += 1;
        }
        false
    }

    /// Classify an issue: the age quarantine first, then the rules in order,
    /// then the default.
    pub fn classify(&self, meta: &IssueMeta, now: i64, operation: Operation) -> (res: Access)
        requires
            self.has_default(),
        ensures
            res@ == decide(self@, meta@, now as int, operation),
    {
        let days = self.global.min_issue_age_days;
        if operation == Operation::Access && days > 0 {
            let young = match meta.created {
                None => true,
                Some(t) => is_younger(t, days, now),
            };
            if young {
                return Access::Denied { rule: "min_issue_age_days".to_owned() };
            }
        }
        let mut i: usize = 0;
        assert(self@.rules.skip(0) =~= self@.rules);
        while i < self.rule.len()
            invariant
                i <= self.rule.len(),
                decide(self@, meta@, now as int, operation) == first_match(
                    self@,
                    self@.rules.skip(i as int),
                    meta@,
                    now as int,
                ),
            decreases self.rule.len() - i,
        {
            let rule = &self.rule[i];
            proof {
                assert(self@.rules.skip(i as int)[0] == rule@);
                assert(self@.rules.skip(i as int).drop_first() =~= self@.rules.skip(i + 1));
            }
            match rule.match_.matches(meta, now) {
                Truth::Yes => return granted(
                    rule.action,
                    &rule.capabilities,
                    self.global.read_only,
                    rule.name.as_str(),
                ),
                Truth::Unknown => return Access::Denied { rule: rule.name.clone() },
                Truth::No => {},
            }
            i += 1;
        }
        self.default_access()
    }
}

// --- laws -------------------------------------------------------------------

/// `read` implies `summary`, and nothing else is implied: every other
/// capability is granted only where it is listed.
pub proof fn read_implies_summary_alone(caps: Set<Capability>, rule: Seq<char>, cap: Capability)
    ensures
        ({
            let access = AccessView::Granted { caps, rule };
            &&& access.allows(Capability::Read) ==> access.allows(Capability::Summary)
            &&& access.allows(cap) && !caps.contains(cap) ==> cap == Capability::Summary
                && caps.contains(Capability::Read)
        }),
{
}

/// The rules up to `i` do not match.
pub open spec fn none_before(rules: Seq<RuleView>, i: int, meta: MetaView, now: int) -> bool {
    forall|j: int|
        0 <= j < i ==> criteria_hold((#[trigger] rules[j]).criteria, meta, now) == Truth::No
}

pub(crate) proof fn lemma_first_match(
    policy: PolicyView,
    rules: Seq<RuleView>,
    meta: MetaView,
    now: int,
    i: int,
)
    requires
        0 <= i <= rules.len(),
        none_before(rules, i, meta, now),
    ensures
        first_match(policy, rules, meta, now) == first_match(policy, rules.skip(i), meta, now),
    decreases i,
{
    if i == 0 {
        assert(rules.skip(0) =~= rules);
    } else {
        let rest = rules.drop_first();
        assert(criteria_hold(rules[0].criteria, meta, now) == Truth::No);
        assert forall|j: int| 0 <= j < i - 1 implies criteria_hold(
            (#[trigger] rest[j]).criteria,
            meta,
            now,
        ) == Truth::No by {
            assert(rest[j] == rules[j + 1]);
        }
        lemma_first_match(policy, rest, meta, now, i - 1);
        assert(rest.skip(i - 1) =~= rules.skip(i));
    }
}

/// The first rule that matches decides, whatever stands after it.
pub proof fn first_matching_rule_wins(
    policy: PolicyView,
    meta: MetaView,
    now: int,
    operation: Operation,
    i: int,
)
    requires
        0 <= i < policy.rules.len(),
        none_before(policy.rules, i, meta, now),
        criteria_hold(policy.rules[i].criteria, meta, now) == Truth::Yes,
        operation == Operation::Access ==> !quarantined(policy, meta, now),
    ensures
        decide(policy, meta, now, operation) == grant(
            policy.rules[i].action,
            policy.rules[i].capabilities.to_set(),
            policy.global.read_only,
            policy.rules[i].name,
        ),
{
    lemma_first_match(policy, policy.rules, meta, now, i);
    assert(policy.rules.skip(i)[0] == policy.rules[i]);
}

/// A rule that is reached and cannot be decided denies.
pub proof fn undecided_rule_denies(
    policy: PolicyView,
    meta: MetaView,
    now: int,
    operation: Operation,
    i: int,
)
    requires
        0 <= i < policy.rules.len(),
        none_before(policy.rules, i, meta, now),
        criteria_hold(policy.rules[i].criteria, meta, now) == Truth::Unknown,
    ensures
        decide(policy, meta, now, operation) is Denied,
{
    lemma_first_match(policy, policy.rules, meta, now, i);
    assert(policy.rules.skip(i)[0] == policy.rules[i]);
}

/// Where no rule matches, the default action decides.
pub proof fn unmatched_falls_to_default(
    policy: PolicyView,
    meta: MetaView,
    now: int,
    operation: Operation,
)
    requires
        none_before(policy.rules, policy.rules.len() as int, meta, now),
        operation == Operation::Access ==> !quarantined(policy, meta, now),
    ensures
        decide(policy, meta, now, operation) == default_grant(policy),
{
    lemma_first_match(policy, policy.rules, meta, now, policy.rules.len() as int);
}

/// An issue younger than `min_issue_age_days`, or of unknown age, is invisible;
/// filing a new one is not concerned.
pub proof fn quarantine_hides_young_issues(policy: PolicyView, meta: MetaView, now: int)
    ensures
        quarantined(policy, meta, now) ==> decide(policy, meta, now, Operation::Access) is Denied,
        decide(policy, meta, now, Operation::Create) == first_match(
            policy,
            policy.rules,
            meta,
            now,
        ),
{
}

/// In read-only mode no capability that writes is ever granted.
pub proof fn read_only_grants_no_write(
    policy: PolicyView,
    meta: MetaView,
    now: int,
    operation: Operation,
    cap: Capability,
)
    requires
        policy.global.read_only,
        cap.writes(),
    ensures
        !decide(policy, meta, now, operation).allows(cap),
{
    lemma_read_only_match(policy, policy.rules, meta, now, cap);
}

proof fn lemma_read_only_match(
    policy: PolicyView,
    rules: Seq<RuleView>,
    meta: MetaView,
    now: int,
    cap: Capability,
)
    requires
        policy.global.read_only,
        cap.writes(),
    ensures
        !first_match(policy, rules, meta, now).allows(cap),
    decreases rules.len(),
{
    if rules.len() > 0 {
        lemma_read_only_match(policy, rules.drop_first(), meta, now, cap);
    }
}

/// A policy with read-only mode switched on as well.
pub open spec fn tightened(policy: PolicyView) -> PolicyView {
    PolicyView { global: GlobalView { read_only: true, ..policy.global }, ..policy }
}

/// Switching read-only mode on can only take capabilities away.
pub proof fn read_only_only_tightens(
    policy: PolicyView,
    meta: MetaView,
    now: int,
    operation: Operation,
    cap: Capability,
)
    ensures
        decide(tightened(policy), meta, now, operation).allows(cap) ==> decide(
            policy,
            meta,
            now,
            operation,
        ).allows(cap),
{
    lemma_tightened_match(policy, policy.rules, meta, now, cap);
}

proof fn lemma_tightened_match(
    policy: PolicyView,
    rules: Seq<RuleView>,
    meta: MetaView,
    now: int,
    cap: Capability,
)
    ensures
        first_match(tightened(policy), rules, meta, now).allows(cap) ==> first_match(
            policy,
            rules,
            meta,
            now,
        ).allows(cap),
    decreases rules.len(),
{
    if rules.len() > 0 {
        lemma_tightened_match(policy, rules.drop_first(), meta, now, cap);
    }
}

/// What is known in `less` is known in `more`, and is the same there.
pub open spec fn known_less<A>(less: Option<A>, more: Option<A>) -> bool {
    less is None || less == more
}

/// `less` is `more` with some of it unread.
pub open spec fn vaguer(less: MetaView, more: MetaView) -> bool {
    &&& known_less(less.project, more.project)
    &&& known_less(less.summary, more.summary)
    &&& known_less(less.status, more.status)
    &&& known_less(less.priority, more.priority)
    &&& known_less(less.issue_type, more.issue_type)
    &&& known_less(less.labels, more.labels)
    &&& known_less(less.components, more.components)
    &&& less.security is Unreadable || less.security == more.security
    &&& known_less(less.created, more.created)
    &&& known_less(less.created_by_me, more.created_by_me)
    &&& less.public_projects == more.public_projects
}

/// A criterion answered from less is answered the same, or not at all.
proof fn lemma_vaguer_criteria(c: CriteriaView, less: MetaView, more: MetaView, now: int)
    requires
        vaguer(less, more),
    ensures
        criteria_hold(c, less, now) == Truth::Unknown || criteria_hold(c, less, now)
            == criteria_hold(c, more, now),
{
}

proof fn lemma_vaguer_match(
    policy: PolicyView,
    rules: Seq<RuleView>,
    less: MetaView,
    more: MetaView,
    now: int,
)
    requires
        vaguer(less, more),
    ensures
        first_match(policy, rules, less, now) is Denied || first_match(policy, rules, less, now)
            == first_match(policy, rules, more, now),
    decreases rules.len(),
{
    if rules.len() > 0 {
        lemma_vaguer_criteria(rules[0].criteria, less, more, now);
        lemma_vaguer_match(policy, rules.drop_first(), less, more, now);
    }
}

/// Unreadable metadata never yields more access than readable metadata would:
/// the access is the same, or it is denied.
pub proof fn unreadable_metadata_never_grants_more(
    policy: PolicyView,
    less: MetaView,
    more: MetaView,
    now: int,
    operation: Operation,
)
    requires
        vaguer(less, more),
    ensures
        decide(policy, less, now, operation) is Denied || decide(policy, less, now, operation)
            == decide(policy, more, now, operation),
{
    lemma_vaguer_match(policy, policy.rules, less, more, now);
}

/// A policy that never asks who created an issue classifies it the same
/// whoever the caller is.
pub proof fn identity_matters_only_where_asked(
    policy: PolicyView,
    meta: MetaView,
    created_by_me: Option<bool>,
    now: int,
    operation: Operation,
)
    requires
        !asks_identity(policy),
    ensures
        decide(policy, MetaView { created_by_me, ..meta }, now, operation) == decide(
            policy,
            meta,
            now,
            operation,
        ),
{
    assert forall|i: int| 0 <= i < policy.rules.len() implies (
    #[trigger] policy.rules[i]).criteria.created_by_me is None by {}
    lemma_identity_match(policy, policy.rules, meta, created_by_me, now);
}

proof fn lemma_identity_match(
    policy: PolicyView,
    rules: Seq<RuleView>,
    meta: MetaView,
    created_by_me: Option<bool>,
    now: int,
)
    requires
        forall|i: int|
            0 <= i < rules.len() ==> (#[trigger] rules[i]).criteria.created_by_me is None,
    ensures
        first_match(policy, rules, MetaView { created_by_me, ..meta }, now) == first_match(
            policy,
            rules,
            meta,
            now,
        ),
    decreases rules.len(),
{
    if rules.len() > 0 {
        let rest = rules.drop_first();
        assert forall|i: int| 0 <= i < rest.len() implies (
        #[trigger] rest[i]).criteria.created_by_me is None by {
            assert(rest[i] == rules[i + 1]);
        }
        lemma_identity_match(policy, rest, meta, created_by_me, now);
    }
}

/// A missing security level is no proof of public access: an issue counts as
/// public only where it has no level and its project is declared public.
pub proof fn no_level_is_not_public(meta: MetaView)
    ensures
        publicness(meta) == Truth::Yes <==> meta.security is Absent && meta.project is Some
            && list_admits(meta.public_projects, meta.project->0),
        meta.security is Absent && (meta.project is None || !list_admits(
            meta.public_projects,
            meta.project->0,
        )) ==> publicness(meta) == Truth::Unknown,
        meta.security is Unreadable ==> publicness(meta) == Truth::Unknown && has_level(
            meta.security,
        ) == Truth::Unknown,
{
}

} // verus!
