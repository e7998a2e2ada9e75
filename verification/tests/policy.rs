//! Policies: how they are read and what they decide.

use jirakeep::json::Json;
use jirakeep::meta::{IssueMeta, SecurityLevel};
use jirakeep::policy::{Action, Capability, Operation, Policy};
use jirakeep::policy_file::PolicyError;

const DAY: i64 = 86_400;
const NOW: i64 = 1_800_000_000;

fn policy(toml: &str) -> Policy {
    Policy::from_toml_str(toml).expect("policy")
}

fn meta(project: &str) -> IssueMeta {
    let mut meta = IssueMeta::default();
    meta.project = Some(project.to_owned());
    meta.summary = Some("Crash in login".to_owned());
    meta.status = Some("Open".to_owned());
    meta.priority = Some("High".to_owned());
    meta.issue_type = Some("Bug".to_owned());
    meta.labels = Some(vec!["triage".to_owned()]);
    meta.components = Some(vec!["auth".to_owned()]);
    meta.security = SecurityLevel::Absent;
    meta.created = Some(NOW - 10 * DAY);
    meta.created_by_me = Some(false);
    meta
}

fn reads(policy: &Policy, meta: &IssueMeta) -> bool {
    policy.classify(meta, NOW, Operation::Access).allows(Capability::Read)
}

fn denying(criterion: &str) -> Policy {
    policy(&format!(
        "default_action = \"allow\"\n[[rule]]\nname = \"r\"\naction = \"deny\"\n[rule.match]\n{criterion}\n"
    ))
}

#[test]
fn default_policy_allows_reads() {
    let p = Policy::default();
    let a = p.default_access();
    assert!(a.allows(Capability::Read));
    assert!(a.allows(Capability::Summary));
    assert!(a.allows(Capability::Comment));
}

#[test]
fn read_only_strips_writes() {
    let mut p = Policy::default();
    p.global.read_only = true;
    let a = p.default_access();
    assert!(a.allows(Capability::Read));
    assert!(!a.allows(Capability::Comment));
    assert!(!a.allows(Capability::Create));
}

#[test]
fn unknown_key_is_rejected() {
    let err = Policy::from_toml_str("default_action = \"allow\"\nnope = 1\n").unwrap_err();
    assert!(err.message().contains("invalid policy TOML") || err.message().contains("nope"));
}

#[test]
fn restrict_default_is_rejected() {
    let err = Policy::from_toml_str("default_action = \"restrict\"\n").unwrap_err();
    assert!(err.message().contains("default_action"));
}

#[test]
fn rule_count_and_load() {
    let p = Policy::from_toml_str(
        r#"
default_action = "deny"
[global]
read_only = true
public_projects = ["OPEN"]
[[rule]]
name = "hide-sec"
action = "deny"
[rule.match]
projects = ["SEC*"]
"#,
    )
    .expect("parses");
    assert_eq!(p.rule_count(), 1);
    assert!(p.global.read_only);
    assert_eq!(p.global.public_projects, vec!["OPEN"]);
    assert!(!p.default_access().allows(Capability::Read));
}

#[test]
fn faulty_policies_are_rejected() {
    for (text, part) in [
        ("not toml", "invalid policy TOML"),
        ("default_action = 7\n", "invalid policy TOML"),
        ("[global]\nnope = true\n", "invalid policy TOML"),
        ("[global]\nmin_issue_age_days = -1\n", "invalid policy TOML"),
        ("[[rule]]\nname = \"x\"\n", "invalid policy TOML"),
        ("[[rule]]\nname = \"x\"\naction = \"deny\"\n[rule.match]\nnope = 1\n", "invalid policy TOML"),
    ] {
        let err = Policy::from_toml_str(text).unwrap_err();
        assert!(matches!(err, PolicyError::InvalidToml), "{text}");
        assert!(err.message().contains(part), "{text}: {}", err.message());
    }
    assert!(matches!(
        Policy::from_toml_str("[[rule]]\nname = \" \"\naction = \"deny\"\n"),
        Err(PolicyError::UnnamedRule)
    ));
    assert!(matches!(
        Policy::from_toml_str("[[rule]]\nname = \"x\"\naction = \"restrict\"\n"),
        Err(PolicyError::RestrictWithoutCapabilities { rule }) if rule == "x"
    ));
    assert!(matches!(
        Policy::from_toml_str(
            "[[rule]]\nname = \"x\"\naction = \"deny\"\ncapabilities = [\"read\"]\n"
        ),
        Err(PolicyError::CapabilitiesNotAllowed { action: Action::Deny, .. })
    ));
    assert!(matches!(
        Policy::from_toml_str("default_action = \"restrict\"\n"),
        Err(PolicyError::RestrictDefault)
    ));
}

#[test]
fn a_word_may_be_the_only_key_of_a_table() {
    for text in ["default_action = { deny = {} }\n", "[default_action]\ndeny = []\n"] {
        assert_eq!(policy(text).default_action, Action::Deny, "{text}");
    }
    for text in [
        "default_action = {}\n",
        "default_action = { deny = 1 }\n",
        "default_action = { deny = [1] }\n",
        "default_action = { deny = { a = 1 } }\n",
        "default_action = { deny = {}, allow = {} }\n",
        "default_action = { nope = {} }\n",
        "default_action = [\"deny\"]\n",
    ] {
        assert!(
            matches!(Policy::from_toml_str(text), Err(PolicyError::InvalidToml)),
            "{text}"
        );
    }
    let p = policy(
        "[[rule]]\nname = \"r\"\naction = { restrict = [] }\ncapabilities = [{ summary = {} }, \"comments\"]\n",
    );
    assert_eq!(p.rule[0].action, Action::Restrict);
    assert_eq!(p.rule[0].capabilities, vec![Capability::Summary, Capability::Comments]);
}

#[test]
fn settings_may_be_listed_in_order() {
    let g = policy("global = [5, true]\n").global;
    assert_eq!((g.min_issue_age_days, g.allow_restricted_comments), (5, true));
    assert!(!g.read_only);
    assert_eq!(g.max_attachment_bytes, 2_097_152);
    let g = policy(
        "global = [0, false, true, [\"add_comment\"], 9, [\"OPEN\"], [\"customfield_1\"], \"over\"]\n",
    )
    .global;
    assert!(g.read_only);
    assert_eq!(g.disabled_tools, vec!["add_comment"]);
    assert_eq!(g.max_attachment_bytes, 9);
    assert_eq!(g.public_projects, vec!["OPEN"]);
    assert_eq!(g.link_custom_fields, vec!["customfield_1"]);
    let g = policy("global = []\n").global;
    assert_eq!(g.max_attachment_bytes, 2_097_152);

    let p = policy("rule = [[\"hide\", \"why\", \"deny\", [], { projects = [\"SEC*\"] }, 7]]\n");
    assert_eq!((p.rule[0].name.as_str(), p.rule[0].description.as_str()), ("hide", "why"));
    assert!(!reads(&p, &meta("SECRET")));
    assert!(reads(&p, &meta("OPEN")));
    let p = policy("rule = [[\"all\", \"\", \"deny\"]]\n");
    assert!(p.rule[0].capabilities.is_empty());
    for text in [
        "global = [true]\n",
        "global = 1\n",
        "rule = [[\"hide\", \"why\"]]\n",
        "rule = [[]]\n",
        "rule = [[\"hide\", \"why\", \"deny\", [], []]]\n",
        "rule = [7]\n",
        "rule = { name = \"hide\" }\n",
    ] {
        assert!(
            matches!(Policy::from_toml_str(text), Err(PolicyError::InvalidToml)),
            "{text}"
        );
    }
}

#[test]
fn sizes_may_take_all_of_64_bits() {
    let text = |n: &str| format!("[global]\nmax_attachment_bytes = {n}\n");
    let bytes = |n: &str| policy(&text(n)).global.max_attachment_bytes;
    assert_eq!(bytes("9223372036854775808"), 1 << 63);
    assert_eq!(bytes("18446744073709551615"), u64::MAX);
    assert_eq!(bytes("0x1_0"), 16);
    assert_eq!(bytes("+1_000"), 1000);
    for n in ["18446744073709551616", "-1", "1.0", "340282366920938463463374607431768211456"] {
        assert!(
            matches!(Policy::from_toml_str(&text(n)), Err(PolicyError::InvalidToml)),
            "{n}"
        );
    }
}

#[test]
fn empty_policy_is_the_default() {
    let p = policy("");
    assert_eq!(p.default_action, Action::Allow);
    assert_eq!(p.rule_count(), 0);
    assert_eq!(p.global.max_attachment_bytes, 2_097_152);
    assert!(!p.global.allow_restricted_comments);
}

#[test]
fn first_matching_rule_decides() {
    let p = policy(
        r#"
default_action = "deny"
[[rule]]
name = "one"
action = "restrict"
capabilities = ["summary"]
[rule.match]
projects = ["OPS"]
[[rule]]
name = "two"
action = "allow"
[rule.match]
projects = ["O*"]
"#,
    );
    let access = p.classify(&meta("OPS"), NOW, Operation::Access);
    assert!(access.allows(Capability::Summary) && !access.allows(Capability::Read));
    assert_eq!(access.rule(), "one");
    let access = p.classify(&meta("OX"), NOW, Operation::Access);
    assert!(access.allows(Capability::Read));
    assert_eq!(access.rule(), "two");
    let access = p.classify(&meta("X"), NOW, Operation::Access);
    assert!(!access.allows(Capability::Summary));
    assert_eq!(access.rule(), "default");
}

#[test]
fn read_implies_summary_and_nothing_else() {
    let p = policy(
        "default_action = \"deny\"\n[[rule]]\nname = \"r\"\naction = \"restrict\"\ncapabilities = [\"read\"]\n[rule.match]\nprojects = [\"A\"]\n",
    );
    let access = p.classify(&meta("A"), NOW, Operation::Access);
    assert!(access.allows(Capability::Summary));
    for cap in Capability::all() {
        let expected = cap == Capability::Read || cap == Capability::Summary;
        assert_eq!(access.allows(cap), expected, "{cap:?}");
    }
}

#[test]
fn criteria_match_what_they_name() {
    for criterion in [
        "projects = [\"OPS\"]",
        "components = [\"au*\"]",
        "labels = [\"triage\"]",
        "statuses = [\"open\"]",
        "priorities = [\"hi*\"]",
        "issue_types = [\"Bug\"]",
        "has_security_level = false",
        "younger_than_days = 30",
        "created_by_me = false",
    ] {
        assert!(!reads(&denying(criterion), &meta("OPS")), "{criterion}");
    }
    for criterion in [
        "projects = [\"SEC\"]",
        "components = [\"ui\"]",
        "labels = [\"done\"]",
        "security_levels = [\"*\"]",
        "has_security_level = true",
        "younger_than_days = 5",
        "created_by_me = true",
    ] {
        assert!(reads(&denying(criterion), &meta("OPS")), "{criterion}");
    }
}

#[test]
fn what_cannot_be_decided_is_denied() {
    let blank = IssueMeta::default();
    for criterion in [
        "projects = [\"SEC\"]",
        "labels = [\"x\"]",
        "security_levels = [\"x\"]",
        "has_security_level = true",
        "younger_than_days = 1",
        "created_by_me = true",
    ] {
        assert!(!reads(&denying(criterion), &blank), "{criterion}");
    }
}

#[test]
fn no_security_level_is_not_public() {
    let p = policy(
        "default_action = \"deny\"\n[global]\npublic_projects = [\"OPEN\"]\n[[rule]]\nname = \"public\"\naction = \"allow\"\n[rule.match]\npublic_project = true\n",
    );
    let mut open = meta("OPEN");
    open.public_projects = vec!["OPEN".to_owned()];
    assert!(reads(&p, &open));
    let mut private = meta("HR");
    private.public_projects = vec!["OPEN".to_owned()];
    assert!(!reads(&p, &private));
    open.security = SecurityLevel::Unreadable;
    assert!(!reads(&p, &open));
}

#[test]
fn young_issues_are_quarantined() {
    let p = policy("[global]\nmin_issue_age_days = 7\n");
    assert!(reads(&p, &meta("A")));
    let mut young = meta("A");
    young.created = Some(NOW - 6 * DAY);
    let access = p.classify(&young, NOW, Operation::Access);
    assert!(!access.allows(Capability::Summary));
    assert_eq!(access.rule(), "min_issue_age_days");
    young.created = None;
    assert!(!reads(&p, &young));
    // Filing an issue is another matter.
    assert!(p.classify(&young, NOW, Operation::Create).allows(Capability::Create));
}

#[test]
fn metadata_is_read_from_an_issue() {
    let issue = Json::parse(
        r#"{"key": "A-1", "fields": {
            "summary": "s", "project": {"key": "A"}, "status": {"name": "Open"},
            "labels": ["x"], "components": [{"name": "c"}], "security": {"name": "Red"},
            "created": "2020-01-01T00:00:00.000+0000", "reporter": {"accountId": "u1"}
        }}"#,
    )
    .expect("json");
    let m = IssueMeta::from_jira_issue(&issue, Some("u1"), &vec!["A".to_owned()]);
    assert_eq!(m.project.as_deref(), Some("A"));
    assert_eq!(m.labels, Some(vec!["x".to_owned()]));
    assert_eq!(m.components, Some(vec!["c".to_owned()]));
    assert!(matches!(&m.security, SecurityLevel::Present(name) if name == "Red"));
    assert_eq!(m.created, Some(1_577_836_800));
    assert_eq!(m.created_by_me, Some(true));
    let m = IssueMeta::from_jira_issue(&issue, None, &Vec::new());
    assert_eq!(m.created_by_me, None);
    let odd = Json::parse(r#"{"key": "A-1", "fields": {"security": {"id": "1"}}}"#).expect("json");
    let m = IssueMeta::from_jira_issue(&odd, None, &Vec::new());
    assert!(matches!(m.security, SecurityLevel::Unreadable));
    let none = Json::parse(r#"{"key": "A-1", "fields": {"security": null}}"#).expect("json");
    let m = IssueMeta::from_jira_issue(&none, None, &Vec::new());
    assert!(matches!(m.security, SecurityLevel::Absent));
}

#[test]
fn timestamps_are_read_in_the_form_of_jira() {
    for (text, seconds) in [
        ("2020-01-01T00:00:00.000+0000", 1_577_836_800),
        ("2020-01-01T02:00:00.500+0200", 1_577_836_800),
        ("2020-01-01T02:00:00+02:00", 1_577_836_800),
    ] {
        let issue =
            Json::parse(&format!(r#"{{"fields": {{"created": "{text}"}}}}"#)).expect("json");
        let m = IssueMeta::from_jira_issue(&issue, None, &Vec::new());
        assert_eq!(m.created, Some(seconds), "{text}");
    }
    let issue = Json::parse(r#"{"fields": {"created": "yesterday"}}"#).expect("json");
    assert_eq!(IssueMeta::from_jira_issue(&issue, None, &Vec::new()).created, None);
}
