//! Issue metadata that rules are matched against.

use vstd::prelude::*;
use vstd::string::*;

use crate::json::{items_view, Json, JsonView};
use crate::keyset::texts;
use crate::text::same_text;

verus! {

/// The characters of an optional text.
pub open spec fn optional_text(text: Option<String>) -> Option<Seq<char>> {
    match text {
        Some(s) => Some(s@),
        None => None,
    }
}

/// The characters of an optional borrowed text.
pub open spec fn optional_str(text: Option<&str>) -> Option<Seq<char>> {
    match text {
        Some(s) => Some(s@),
        None => None,
    }
}

/// The character sequences of an optional list.
pub open spec fn optional_texts(list: Option<Vec<String>>) -> Option<Seq<Seq<char>>> {
    match list {
        Some(v) => Some(texts(v@)),
        None => None,
    }
}

/// The security level of an issue.
///
/// An absent level is knowledge that none is set, which is still no proof that
/// the issue is public. A level that cannot be read is unknown, and never
/// collapses into "no level".
#[derive(Debug)]
pub enum SecurityLevel {
    Absent,
    Present(String),
    Unreadable,
}

/// What a [`SecurityLevel`] means.
#[verifier::ext_equal]
pub enum LevelView {
    Absent,
    Present(Seq<char>),
    Unreadable,
}

impl View for SecurityLevel {
    type V = LevelView;

    open spec fn view(&self) -> LevelView {
        match self {
            SecurityLevel::Absent => LevelView::Absent,
            SecurityLevel::Present(name) => LevelView::Present(name@),
            SecurityLevel::Unreadable => LevelView::Unreadable,
        }
    }
}

/// What the guard knows of an issue. `None` is what could not be read.
#[derive(Debug)]
pub struct IssueMeta {
    pub project: Option<String>,
    pub summary: Option<String>,
    pub status: Option<String>,
    pub priority: Option<String>,
    pub issue_type: Option<String>,
    pub labels: Option<Vec<String>>,
    pub components: Option<Vec<String>>,
    pub security: SecurityLevel,
    /// Creation time in seconds of the Unix epoch.
    pub created: Option<i64>,
    pub created_by_me: Option<bool>,
    /// The projects that the operator declares publicly browsable.
    pub public_projects: Vec<String>,
}

/// What an [`IssueMeta`] means.
#[verifier::ext_equal]
pub struct MetaView {
    pub project: Option<Seq<char>>,
    pub summary: Option<Seq<char>>,
    pub status: Option<Seq<char>>,
    pub priority: Option<Seq<char>>,
    pub issue_type: Option<Seq<char>>,
    pub labels: Option<Seq<Seq<char>>>,
    pub components: Option<Seq<Seq<char>>>,
    pub security: LevelView,
    pub created: Option<int>,
    pub created_by_me: Option<bool>,
    pub public_projects: Seq<Seq<char>>,
}

/// A time as a mathematical integer.
pub open spec fn optional_int(n: Option<i64>) -> Option<int> {
    match n {
        Some(i) => Some(i as int),
        None => None,
    }
}

impl View for IssueMeta {
    type V = MetaView;

    open spec fn view(&self) -> MetaView {
        MetaView {
            project: optional_text(self.project),
            summary: optional_text(self.summary),
            status: optional_text(self.status),
            priority: optional_text(self.priority),
            issue_type: optional_text(self.issue_type),
            labels: optional_texts(self.labels),
            components: optional_texts(self.components),
            security: self.security@,
            created: optional_int(self.created),
            created_by_me: self.created_by_me,
            public_projects: texts(self.public_projects@),
        }
    }
}

// --- reading a Jira issue ---------------------------------------------------

/// The form of Jira's timestamps.
pub open spec fn jira_time_form() -> Seq<char> {
    "%Y-%m-%dT%H:%M:%S%.f%z"@
}

/// The Unix time that `chrono::DateTime::parse_from_str` reads from a text in
/// a given form, or `None` where the text has another form.
pub uninterp spec fn chrono_timestamp(text: Seq<char>, form: Seq<char>) -> Option<int>;

/// `chrono::DateTime::parse_from_str`, and the whole seconds of the Unix epoch
/// of what it read. The result is named by [`chrono_timestamp`].
#[verifier::external_body]
fn parse_timestamp(text: &str, form: &str) -> (res: Option<i64>)
    ensures
        optional_int(res) == chrono_timestamp(text@, form@),
{
    chrono::DateTime::parse_from_str(text, form).ok().map(|time| time.timestamp())
}

/// The name that every element of a list carries; `None` if one carries none.
pub open spec fn names_in(items: Seq<JsonView>) -> Option<Seq<Seq<char>>> {
    if forall|i: int| 0 <= i < items.len() ==> (#[trigger] items[i]).text_at("name"@) is Some {
        Some(Seq::new(items.len(), |i: int| items[i].text_at("name"@)->0))
    } else {
        None
    }
}

/// A list of plain texts; `None` if an element is anything else.
pub open spec fn texts_in(items: Seq<JsonView>) -> Option<Seq<Seq<char>>> {
    if forall|i: int| 0 <= i < items.len() ==> (#[trigger] items[i]).text() is Some {
        Some(Seq::new(items.len(), |i: int| items[i].text()->0))
    } else {
        None
    }
}

/// The security level: absent where the fields carry none or `null`, present
/// with a readable name, and unreadable in any other form, or where the issue
/// has no fields at all.
pub open spec fn level_of(fields: Option<JsonView>) -> LevelView {
    match fields {
        Some(JsonView::Object(m)) => match JsonView::Object(m).get("security"@) {
            None => LevelView::Absent,
            Some(JsonView::Null) => LevelView::Absent,
            Some(v) => match v.text_at("name"@) {
                Some(name) => LevelView::Present(name),
                None => LevelView::Unreadable,
            },
        },
        _ => LevelView::Unreadable,
    }
}

/// The fields of an issue, `null` where it has none.
pub open spec fn fields_of(issue: JsonView) -> JsonView {
    match issue.get("fields"@) {
        Some(f) => f,
        None => JsonView::Null,
    }
}

/// The metadata of an issue as Jira reports it.
pub open spec fn meta_of(
    issue: JsonView,
    caller: Option<Seq<char>>,
    public_projects: Seq<Seq<char>>,
) -> MetaView {
    let fields = fields_of(issue);
    MetaView {
        project: fields.text_at2("project"@, "key"@),
        summary: fields.text_at("summary"@),
        status: fields.text_at2("status"@, "name"@),
        priority: fields.text_at2("priority"@, "name"@),
        issue_type: fields.text_at2("issuetype"@, "name"@),
        labels: match fields.items_at("labels"@) {
            Some(items) => texts_in(items),
            None => None,
        },
        components: match fields.items_at("components"@) {
            Some(items) => names_in(items),
            None => None,
        },
        security: level_of(issue.get("fields"@)),
        created: match fields.text_at("created"@) {
            Some(t) => chrono_timestamp(t, jira_time_form()),
            None => None,
        },
        created_by_me: match (caller, fields.text_at2("reporter"@, "accountId"@)) {
            (Some(me), Some(reporter)) => Some(me == reporter),
            _ => None,
        },
        public_projects,
    }
}

fn owned(text: Option<&str>) -> (res: Option<String>)
    ensures
        optional_text(res) == optional_str(text),
{
    match text {
        Some(s) => Some(s.to_owned()),
        None => None,
    }
}

fn read_names(items: &Vec<Json>) -> (res: Option<Vec<String>>)
    ensures
        optional_texts(res) == names_in(items_view(items@)),
{
    let ghost views = items_view(items@);
    let mut names: Vec<String> = Vec::new();
    let mut i: usize = 0;
    while i < items.len()
        invariant
            views == items_view(items@),
            i <= items.len(),
            names.len() == i,
            forall|j: int|
                0 <= j < i ==> (#[trigger] views[j]).text_at("name"@) == Some(names@[j]@),
        decreases items.len() - i,
    {
        match items[i].text_at("name") {
            Some(name) => names.push(name.to_owned()),
            None => {
                assert(views[i as int].text_at("name"@) is None);
                return None;
            },
        }
        i += 1;
    }
    assert(names_in(views)->0 =~= texts(names@));
    Some(names)
}

fn read_texts(items: &Vec<Json>) -> (res: Option<Vec<String>>)
    ensures
        optional_texts(res) == texts_in(items_view(items@)),
{
    let ghost views = items_view(items@);
    let mut list: Vec<String> = Vec::new();
    let mut i: usize = 0;
    while i < items.len()
        invariant
            views == items_view(items@),
            i <= items.len(),
            list.len() == i,
            forall|j: int| 0 <= j < i ==> (#[trigger] views[j]).text() == Some(list@[j]@),
        decreases items.len() - i,
    {
        match items[i].as_str() {
            Some(s) => list.push(s.to_owned()),
            None => {
                assert(views[i as int].text() is None);
                return None;
            },
        }
        i += 1;
    }
    assert(texts_in(views)->0 =~= texts(list@));
    Some(list)
}

fn read_level(fields: Option<&Json>) -> (res: SecurityLevel)
    ensures
        res@ == level_of(
            match fields {
                Some(f) => Some(f@),
                None => None,
            },
        ),
{
    let members = match fields {
        Some(Json::Object(members)) => members,
        _ => return SecurityLevel::Unreadable,
    };
    match members.get("security") {
        None => SecurityLevel::Absent,
        Some(v) => if v.is_null() {
            SecurityLevel::Absent
        } else {
            match v.text_at("name") {
                Some(name) => SecurityLevel::Present(name.to_owned()),
                None => SecurityLevel::Unreadable,
            }
        },
    }
}

/// A copy of a list of texts.
pub fn copy_texts(list: &Vec<String>) -> (res: Vec<String>)
    ensures
        texts(res@) == texts(list@),
{
    let res = list.clone();
    assert(texts(res@) =~= texts(list@));
    res
}

/// A copy of an optional text.
pub fn copy_text(text: &Option<String>) -> (res: Option<String>)
    ensures
        optional_text(res) == optional_text(*text),
{
    match text {
        Some(s) => Some(s.clone()),
        None => None,
    }
}

/// A copy of an optional list of texts.
pub fn copy_optional_texts(list: &Option<Vec<String>>) -> (res: Option<Vec<String>>)
    ensures
        optional_texts(res) == optional_texts(*list),
{
    match list {
        Some(v) => Some(copy_texts(v)),
        None => None,
    }
}

impl Clone for SecurityLevel {
    fn clone(&self) -> (res: Self)
        ensures
            res@ == self@,
    {
        match self {
            SecurityLevel::Absent => SecurityLevel::Absent,
            SecurityLevel::Present(name) => SecurityLevel::Present(name.clone()),
            SecurityLevel::Unreadable => SecurityLevel::Unreadable,
        }
    }
}

impl Clone for IssueMeta {
    fn clone(&self) -> (res: Self)
        ensures
            res@ == self@,
    {
        IssueMeta {
            project: copy_text(&self.project),
            summary: copy_text(&self.summary),
            status: copy_text(&self.status),
            priority: copy_text(&self.priority),
            issue_type: copy_text(&self.issue_type),
            labels: copy_optional_texts(&self.labels),
            components: copy_optional_texts(&self.components),
            security: self.security.clone(),
            created: self.created,
            created_by_me: self.created_by_me,
            public_projects: copy_texts(&self.public_projects),
        }
    }
}

impl Default for IssueMeta {
    /// Nothing is known.
    fn default() -> (res: Self)
        ensures
            res@ == (MetaView {
                project: None,
                summary: None,
                status: None,
                priority: None,
                issue_type: None,
                labels: None,
                components: None,
                security: LevelView::Unreadable,
                created: None,
                created_by_me: None,
                public_projects: Seq::empty(),
            }),
    {
        let res = IssueMeta {
            project: None,
            summary: None,
            status: None,
            priority: None,
            issue_type: None,
            labels: None,
            components: None,
            security: SecurityLevel::Unreadable,
            created: None,
            created_by_me: None,
            public_projects: Vec::new(),
        };
        assert(texts(res.public_projects@) =~= Seq::empty());
        res
    }
}

impl IssueMeta {
    /// The metadata of an issue as Jira reports it. `caller` is the account id
    /// of the credential holder, where it is known.
    pub fn from_jira_issue(
        issue: &Json,
        caller: Option<&str>,
        public_projects: &Vec<String>,
    ) -> (res: IssueMeta)
        ensures
            res@ == meta_of(issue@, optional_str(caller), texts(public_projects@)),
    {
        let null = Json::Null;
        let fields = match issue.get("fields") {
            Some(f) => f,
            None => &null,
        };
        let created = match fields.text_at("created") {
            Some(t) => parse_timestamp(t, "%Y-%m-%dT%H:%M:%S%.f%z"),
            None => None,
        };
        let labels = match fields.items_at("labels") {
            Some(items) => read_texts(items),
            None => None,
        };
        let components = match fields.items_at("components") {
            Some(items) => read_names(items),
            None => None,
        };
        let created_by_me = match (caller, fields.text_at2("reporter", "accountId")) {
            (Some(me), Some(reporter)) => Some(same_text(me, reporter)),
            _ => None,
        };
        IssueMeta {
            project: owned(fields.text_at2("project", "key")),
            summary: owned(fields.text_at("summary")),
            status: owned(fields.text_at2("status", "name")),
            priority: owned(fields.text_at2("priority", "name")),
            issue_type: owned(fields.text_at2("issuetype", "name")),
            labels,
            components,
            security: read_level(issue.get("fields")),
            created,
            created_by_me,
            public_projects: copy_texts(public_projects),
        }
    }
}

} // verus!
