//! Searching: denied issues are left out silently, and the issues that are
//! served name no other that may not be disclosed.

use vstd::prelude::*;
use vstd::string::*;

use crate::guard::{at_most, issue_access, Guard};
use crate::json::{items_view, Json, JsonView};
use crate::keyset::{
    admits, ascending, lemma_sorted, list_admits, list_contains_ignoring_case, sorted, texts,
    KeySet,
};
use crate::meta::{optional_str, optional_text, IssueMeta};
use crate::policy::{Operation, PolicyView};
use crate::project::projected;
use crate::scrub::{refers_to, scrubbed, scrubbed_key};
use crate::scrub::{scrubbed_issue_names_only_disclosable, scrubbed_keys_were_named_and_undisclosed};

verus! {

// --- filtering a list of issues ---------------------------------------------

/// What is served of an issue.
pub open spec fn served_view(
    policy: PolicyView,
    issue: JsonView,
    caller: Option<Seq<char>>,
    now: int,
) -> Option<JsonView> {
    projected(issue_access(policy, issue, caller, now), issue)
}

/// What is served of a list of issues, in order; denied ones are left out.
pub open spec fn served_list(
    policy: PolicyView,
    issues: Seq<JsonView>,
    caller: Option<Seq<char>>,
    now: int,
) -> Seq<JsonView>
    decreases issues.len(),
{
    if issues.len() == 0 {
        Seq::empty()
    } else {
        let earlier = served_list(policy, issues.drop_last(), caller, now);
        match served_view(policy, issues.last(), caller, now) {
            Some(v) => earlier.push(v),
            None => earlier,
        }
    }
}

/// The key of an issue, empty where it has none.
pub open spec fn key_of(issue: JsonView) -> Seq<char> {
    match issue.text_at("key"@) {
        Some(k) => k,
        None => Seq::empty(),
    }
}

/// The keys of the issues of a list that are left out, in order.
pub open spec fn dropped_list(
    policy: PolicyView,
    issues: Seq<JsonView>,
    caller: Option<Seq<char>>,
    now: int,
) -> Seq<Seq<char>>
    decreases issues.len(),
{
    if issues.len() == 0 {
        Seq::empty()
    } else {
        let earlier = dropped_list(policy, issues.drop_last(), caller, now);
        let key = key_of(issues.last());
        if served_view(policy, issues.last(), caller, now) is None && key.len() > 0 {
            earlier.push(key)
        } else {
            earlier
        }
    }
}

impl Guard {
    /// What is served of a list of issues, and the keys of those left out. The
    /// latter are for the audit stream only.
    pub fn filter_issue_list(&self, issues: &Vec<Json>, caller: Option<&str>, now: i64) -> (res: (
        Vec<Json>,
        Vec<String>,
    ))
        requires
            self.policy.has_default(),
        ensures
            items_view(res.0@) == served_list(
                self.policy@,
                items_view(issues@),
                optional_str(caller),
                now as int,
            ),
            texts(res.1@) == dropped_list(
                self.policy@,
                items_view(issues@),
                optional_str(caller),
                now as int,
            ),
    {
        let ghost views = items_view(issues@);
        let ghost who = optional_str(caller);
        let mut visible: Vec<Json> = Vec::new();
        let mut dropped: Vec<String> = Vec::new();
        let mut i: usize = 0;
        proof {
            assert(items_view(visible@) =~= served_list(
                self.policy@,
                views.take(0),
                who,
                now as int,
            ));
            assert(texts(dropped@) =~= dropped_list(self.policy@, views.take(0), who, now as int));
        }
        while i < issues.len()
            invariant
                i <= issues.len(),
                views == items_view(issues@),
                who == optional_str(caller),
                self.policy.has_default(),
                items_view(visible@) == served_list(
                    self.policy@,
                    views.take(i as int),
                    who,
                    now as int,
                ),
                texts(dropped@) == dropped_list(
                    self.policy@,
                    views.take(i as int),
                    who,
                    now as int,
                ),
            decreases issues.len() - i,
        {
            let issue = &issues[i];
            let ghost shown = items_view(visible@);
            let ghost gone = texts(dropped@);
            proof {
                assert(views.take(i + 1).drop_last() =~= views.take(i as int));
                assert(views.take(i + 1).last() == issue@);
            }
            let meta = IssueMeta::from_jira_issue(
                issue,
                caller,
                &self.policy.global.public_projects,
            );
            let access = self.policy.classify(&meta, now, Operation::Access);
            match Guard::project_issue(&access, issue) {
                Some(v) => {
                    visible.push(v);
                    assert(items_view(visible@) =~= shown.push(v@));
                },
                None => {
                    if let Some(key) = issue.text_at("key") {
                        if key.unicode_len() > 0 {
                            dropped.push(key.to_owned());
                            assert(texts(dropped@) =~= gone.push(key@));
                        }
                    }
                },
            }
            i += 1;
        }
        assert(views.take(issues@.len() as int) =~= views);
        (visible, dropped)
    }
}

// --- one scan ---------------------------------------------------------------

/// Result of one search. The client sees only the issues and the token of the
/// next page; what was scanned, dropped or scrubbed is for the audit stream.
#[derive(Debug)]
pub struct SearchWindow {
    pub issues: Vec<Json>,
    pub scanned: u32,
    pub dropped_keys: Vec<String>,
    /// Keys on whose account a reference was taken out of a served issue.
    pub scrubbed_keys: Vec<String>,
    pub next_page_token: Option<String>,
}

/// A search whose issues are filtered and whose references are not yet
/// scrubbed.
#[derive(Debug)]
pub struct SearchScan {
    /// The issues to serve.
    pub visible: Vec<Json>,
    /// Keys of the issues left out.
    pub dropped: Vec<String>,
    /// Keys that this search has shown to be visible.
    pub disclosable: KeySet,
    /// Keys that the issues name and that have yet to be assessed.
    pub candidates: KeySet,
    pub scanned: u32,
    pub next_page_token: Option<String>,
}

/// What a [`SearchScan`] means.
#[verifier::ext_equal]
pub struct ScanView {
    pub visible: Seq<JsonView>,
    pub dropped: Seq<Seq<char>>,
    pub disclosable: Set<Seq<char>>,
    pub candidates: Set<Seq<char>>,
    pub scanned: u32,
    pub next_page_token: Option<Seq<char>>,
}

impl View for SearchScan {
    type V = ScanView;

    open spec fn view(&self) -> ScanView {
        ScanView {
            visible: items_view(self.visible@),
            dropped: texts(self.dropped@),
            disclosable: self.disclosable@,
            candidates: self.candidates@,
            scanned: self.scanned,
            next_page_token: optional_text(self.next_page_token),
        }
    }
}

/// What a [`SearchWindow`] means.
#[verifier::ext_equal]
pub struct WindowView {
    pub issues: Seq<JsonView>,
    pub scanned: u32,
    pub dropped_keys: Seq<Seq<char>>,
    pub scrubbed_keys: Seq<Seq<char>>,
    pub next_page_token: Option<Seq<char>>,
}

impl View for SearchWindow {
    type V = WindowView;

    open spec fn view(&self) -> WindowView {
        WindowView {
            issues: items_view(self.issues@),
            scanned: self.scanned,
            dropped_keys: texts(self.dropped_keys@),
            scrubbed_keys: texts(self.scrubbed_keys@),
            next_page_token: optional_text(self.next_page_token),
        }
    }
}

/// The issues of a search reply.
pub open spec fn found(envelope: JsonView) -> Seq<JsonView> {
    match envelope.items_at("issues"@) {
        Some(issues) => issues,
        None => Seq::empty(),
    }
}

/// A list holds an issue with that key.
pub open spec fn has_key(issues: Seq<JsonView>, key: Seq<char>) -> bool {
    exists|i: int| 0 <= i < issues.len() && (#[trigger] issues[i]).text_at("key"@) == Some(key)
}

/// A list holds an issue that names the issue `key`.
pub open spec fn some_refers_to(
    issues: Seq<JsonView>,
    custom: Seq<Seq<char>>,
    key: Seq<char>,
) -> bool {
    exists|i: int| 0 <= i < issues.len() && refers_to(#[trigger] issues[i], custom, key)
}

/// What a scan makes of a search reply. The keys of the issues that it serves
/// may be disclosed; those that they name, and that the reply does not tell
/// about, are candidates.
pub open spec fn scan_of(
    policy: PolicyView,
    envelope: JsonView,
    max_results: int,
    caller: Option<Seq<char>>,
    now: int,
) -> ScanView {
    let all = served_list(policy, found(envelope), caller, now);
    let visible = at_most(all, max_results);
    let dropped = dropped_list(policy, found(envelope), caller, now);
    let disclosable = Set::new(|k: Seq<char>| has_key(all, k));
    ScanView {
        visible,
        dropped,
        disclosable,
        candidates: Set::new(
            |k: Seq<char>|
                some_refers_to(visible, policy.global.link_custom_fields, k) && !admits(
                    disclosable,
                    k,
                ) && !list_admits(dropped, k),
        ),
        scanned: found(envelope).len() as u32,
        next_page_token: envelope.text_at("nextPageToken"@),
    }
}

/// The keys of the issues of a list.
fn keys_in(issues: &Vec<Json>) -> (res: KeySet)
    ensures
        forall|k: Seq<char>| #[trigger] res@.contains(k) == has_key(items_view(issues@), k),
{
    let ghost views = items_view(issues@);
    let mut keys = KeySet::new();
    let mut i: usize = 0;
    while i < issues.len()
        invariant
            i <= issues.len(),
            views == items_view(issues@),
            forall|k: Seq<char>| #[trigger]
                keys@.contains(k) == has_key(views.take(i as int), k),
        decreases issues.len() - i,
    {
        let ghost held = keys@;
        if let Some(k) = issues[i].text_at("key") {
            keys.insert(k);
        }
        proof {
            let a = views.take(i as int);
            let b = views.take(i + 1);
            assert(b[i as int] == issues@[i as int]@);
            assert forall|k: Seq<char>| #[trigger] keys@.contains(k) == has_key(b, k) by {
                assert(held.contains(k) == has_key(a, k));
                if has_key(a, k) {
                    let j = choose|j: int|
                        0 <= j < a.len() && (#[trigger] a[j]).text_at("key"@) == Some(k);
                    assert(b[j].text_at("key"@) == Some(k));
                }
                if has_key(b, k) {
                    let j = choose|j: int|
                        0 <= j < b.len() && (#[trigger] b[j]).text_at("key"@) == Some(k);
                    if j < i {
                        assert(a[j].text_at("key"@) == Some(k));
                    }
                }
            }
        }
        i += 1;
    }
    assert(views.take(issues@.len() as int) =~= views);
    keys
}

/// The keys that a list of issues names and that are neither known to be
/// visible nor known to be denied.
fn unknown_keys(
    issues: &Vec<Json>,
    custom: &Vec<String>,
    visible: &KeySet,
    denied: &Vec<String>,
) -> (res: KeySet)
    ensures
        forall|k: Seq<char>| #[trigger]
            res@.contains(k) == (some_refers_to(items_view(issues@), texts(custom@), k) && !admits(
                visible@,
                k,
            ) && !list_admits(texts(denied@), k)),
{
    let ghost views = items_view(issues@);
    let mut keys = KeySet::new();
    let mut i: usize = 0;
    while i < issues.len()
        invariant
            i <= issues.len(),
            views == items_view(issues@),
            forall|k: Seq<char>| #[trigger]
                keys@.contains(k) == (some_refers_to(views.take(i as int), texts(custom@), k)
                    && !admits(visible@, k) && !list_admits(texts(denied@), k)),
        decreases issues.len() - i,
    {
        let ghost held = keys@;
        let named = Guard::linked_keys(&issues[i], custom);
        let new_keys = keep_unknown(&named, visible, denied);
        keys.extend(&new_keys);
        proof {
            let a = views.take(i as int);
            let b = views.take(i + 1);
            assert(b[i as int] == issues@[i as int]@);
            assert forall|k: Seq<char>| #[trigger]
                keys@.contains(k) == (some_refers_to(b, texts(custom@), k) && !admits(visible@, k)
                    && !list_admits(texts(denied@), k)) by {
                assert(held.contains(k) == (some_refers_to(a, texts(custom@), k) && !admits(
                    visible@,
                    k,
                ) && !list_admits(texts(denied@), k)));
                assert(texts(new_keys@).contains(k) == (named@.contains(k) && !admits(visible@, k)
                    && !list_admits(texts(denied@), k)));
                assert(named@.contains(k) == refers_to(b[i as int], texts(custom@), k));
                if some_refers_to(a, texts(custom@), k) {
                    let j = choose|j: int|
                        0 <= j < a.len() && refers_to(#[trigger] a[j], texts(custom@), k);
                    assert(refers_to(b[j], texts(custom@), k));
                }
                if some_refers_to(b, texts(custom@), k) {
                    let j = choose|j: int|
                        0 <= j < b.len() && refers_to(#[trigger] b[j], texts(custom@), k);
                    if j < i {
                        assert(refers_to(a[j], texts(custom@), k));
                    }
                }
            }
        }
        i += 1;
    }
    assert(views.take(issues@.len() as int) =~= views);
    keys
}

/// The keys of a set that are neither known to be visible nor known to be
/// denied.
fn keep_unknown(keys: &KeySet, visible: &KeySet, denied: &Vec<String>) -> (res: Vec<String>)
    ensures
        forall|k: Seq<char>| #[trigger]
            texts(res@).contains(k) == (keys@.contains(k) && !admits(visible@, k) && !list_admits(
                texts(denied@),
                k,
            )),
{
    let list = keys.keys();
    let ghost all = texts(list@);
    let mut kept = KeySet::new();
    let mut i: usize = 0;
    while i < list.len()
        invariant
            i <= list.len(),
            all == texts(list@),
            forall|k: Seq<char>| #[trigger]
                kept@.contains(k) == (all.take(i as int).contains(k) && !admits(visible@, k)
                    && !list_admits(texts(denied@), k)),
        decreases list.len() - i,
    {
        let key = list[i].as_str();
        let ghost held = kept@;
        if !visible.admits_key(key) && !list_contains_ignoring_case(denied, key) {
            kept.insert(key);
        }
        proof {
            let a = all.take(i as int);
            let b = all.take(i + 1);
            assert(b =~= a.push(key@));
            assert(b[i as int] == key@);
            assert forall|k: Seq<char>| #[trigger]
                kept@.contains(k) == (b.contains(k) && !admits(visible@, k) && !list_admits(
                    texts(denied@),
                    k,
                )) by {
                assert(held.contains(k) == (a.contains(k) && !admits(visible@, k) && !list_admits(
                    texts(denied@),
                    k,
                )));
                if a.contains(k) {
                    let j = choose|j: int| 0 <= j < a.len() && a[j] == k;
                    assert(b[j] == k);
                }
                if b.contains(k) {
                    let j = choose|j: int| 0 <= j < b.len() && b[j] == k;
                    if j < i {
                        assert(a[j] == k);
                    }
                }
            }
        }
        i += 1;
    }
    proof {
        assert(all.take(list@.len() as int) =~= all);
        assert forall|k: Seq<char>| #[trigger] all.contains(k) == keys@.contains(k) by {
            assert(all.to_set().contains(k) == all.contains(k));
        }
    }
    kept.into_keys()
}

/// The number of issues to ask for, so that enough are left after filtering.
pub open spec fn fetch_size(max_results: int) -> int {
    if max_results * 2 < 1 {
        1
    } else if max_results * 2 > 100 {
        100
    } else {
        max_results * 2
    }
}

impl Guard {
    /// The number of issues to ask for, so that enough are left after
    /// filtering.
    pub fn search_fetch_size(max_results: u32) -> (res: u32)
        ensures
            res == fetch_size(max_results as int),
    {
        if max_results == 0 {
            1
        } else if max_results > 50 {
            100
        } else {
            max_results * 2
        }
    }

    /// Filters a search reply. The issues that are left still name the keys in
    /// `candidates`, which have to be assessed before anything is served: see
    /// [`Guard::search_window`].
    pub fn search_filtered(
        &self,
        envelope: &Json,
        max_results: u32,
        caller: Option<&str>,
        now: i64,
    ) -> (res: SearchScan)
        requires
            self.policy.has_default(),
        ensures
            res@ == scan_of(
                self.policy@,
                envelope@,
                max_results as int,
                optional_str(caller),
                now as int,
            ),
    {
        let none: Vec<Json> = Vec::new();
        assert(items_view(none@) =~= Seq::empty());
        let raw = match envelope.items_at("issues") {
            Some(issues) => issues,
            None => &none,
        };
        let scanned = raw.len() as u32;
        let (mut visible, dropped) = self.filter_issue_list(raw, caller, now);
        let disclosable = keys_in(&visible);
        let ghost shown = items_view(visible@);
        if visible.len() > max_results as usize {
            visible.truncate(max_results as usize);
        }
        proof {
            assert(items_view(visible@) =~= at_most(shown, max_results as int));
        }
        let candidates = unknown_keys(
            &visible,
            &self.policy.global.link_custom_fields,
            &disclosable,
            &dropped,
        );
        let next_page_token = match envelope.text_at("nextPageToken") {
            Some(token) => Some(token.to_owned()),
            None => None,
        };
        let scan = SearchScan {
            visible,
            dropped,
            disclosable,
            candidates,
            scanned,
            next_page_token,
        };
        proof {
            let spec_scan = scan_of(
                self.policy@,
                envelope@,
                max_results as int,
                optional_str(caller),
                now as int,
            );
            assert(scan@.disclosable =~= spec_scan.disclosable);
            assert(scan@.candidates =~= spec_scan.candidates);
        }
        scan
    }
}

// --- the served window ------------------------------------------------------

/// A list of issues, each scrubbed.
pub open spec fn scrubbed_list(
    issues: Seq<JsonView>,
    custom: Seq<Seq<char>>,
    disclosable: Set<Seq<char>>,
) -> Seq<JsonView> {
    Seq::new(issues.len(), |i: int| scrubbed(issues[i], custom, disclosable))
}

/// Scrubbing a list of issues takes out a reference on account of `key`.
pub open spec fn some_scrubbed_key(
    issues: Seq<JsonView>,
    custom: Seq<Seq<char>>,
    disclosable: Set<Seq<char>>,
    key: Seq<char>,
) -> bool {
    exists|i: int|
        0 <= i < issues.len() && scrubbed_key(#[trigger] issues[i], custom, disclosable, key)
}

/// What is served of a scan once the candidates are assessed; `extra` holds
/// those that may be disclosed.
pub open spec fn window_of(
    policy: PolicyView,
    scan: ScanView,
    extra: Set<Seq<char>>,
) -> WindowView {
    let custom = policy.global.link_custom_fields;
    let disclosable = scan.disclosable.union(extra);
    WindowView {
        issues: scrubbed_list(scan.visible, custom, disclosable),
        scanned: scan.scanned,
        dropped_keys: scan.dropped,
        scrubbed_keys: sorted(
            Set::new(|k: Seq<char>| some_scrubbed_key(scan.visible, custom, disclosable, k)),
        ),
        next_page_token: scan.next_page_token,
    }
}

/// Scrubs a list of issues.
fn scrub_all(issues: &Vec<Json>, disclosable: &KeySet, custom: &Vec<String>) -> (res: (
    Vec<Json>,
    KeySet,
))
    ensures
        items_view(res.0@) == scrubbed_list(items_view(issues@), texts(custom@), disclosable@),
        forall|k: Seq<char>| #[trigger]
            res.1@.contains(k) == some_scrubbed_key(
                items_view(issues@),
                texts(custom@),
                disclosable@,
                k,
            ),
{
    let ghost views = items_view(issues@);
    let ghost fields = texts(custom@);
    let mut clean: Vec<Json> = Vec::new();
    let mut removed = KeySet::new();
    let mut i: usize = 0;
    while i < issues.len()
        invariant
            i <= issues.len(),
            views == items_view(issues@),
            fields == texts(custom@),
            clean.len() == i,
            forall|j: int|
                0 <= j < i ==> (#[trigger] clean@[j])@ == scrubbed(
                    views[j],
                    fields,
                    disclosable@,
                ),
            forall|k: Seq<char>| #[trigger]
                removed@.contains(k) == some_scrubbed_key(
                    views.take(i as int),
                    fields,
                    disclosable@,
                    k,
                ),
        decreases issues.len() - i,
    {
        let ghost held = removed@;
        assert(issues@[i as int]@ == views[i as int]);
        let (issue, gone) = Guard::scrub_links(&issues[i], disclosable, custom);
        clean.push(issue);
        removed.extend(&gone);
        proof {
            let a = views.take(i as int);
            let b = views.take(i + 1);
            assert(b[i as int] == views[i as int]);
            assert forall|k: Seq<char>| #[trigger]
                removed@.contains(k) == some_scrubbed_key(b, fields, disclosable@, k) by {
                assert(held.contains(k) == some_scrubbed_key(a, fields, disclosable@, k));
                assert(texts(gone@).contains(k) == scrubbed_key(
                    b[i as int],
                    fields,
                    disclosable@,
                    k,
                ));
                if some_scrubbed_key(a, fields, disclosable@, k) {
                    let j = choose|j: int|
                        0 <= j < a.len() && scrubbed_key(
                            #[trigger] a[j],
                            fields,
                            disclosable@,
                            k,
                        );
                    assert(scrubbed_key(b[j], fields, disclosable@, k));
                }
                if some_scrubbed_key(b, fields, disclosable@, k) {
                    let j = choose|j: int|
                        0 <= j < b.len() && scrubbed_key(
                            #[trigger] b[j],
                            fields,
                            disclosable@,
                            k,
                        );
                    if j < i {
                        assert(scrubbed_key(a[j], fields, disclosable@, k));
                    }
                }
            }
        }
        i += 1;
    }
    assert(views.take(issues@.len() as int) =~= views);
    assert(items_view(clean@) =~= scrubbed_list(views, fields, disclosable@));
    (clean, removed)
}

impl Guard {
    /// What is served of a scan. `extra` holds the candidates that may be
    /// disclosed; every other one is taken out of the issues.
    pub fn search_window(&self, scan: SearchScan, extra: &KeySet) -> (res: SearchWindow)
        ensures
            res@ == window_of(self.policy@, scan@, extra@),
            ascending(texts(res.scrubbed_keys@)),
            forall|k: Seq<char>| #[trigger]
                texts(res.scrubbed_keys@).contains(k) == some_scrubbed_key(
                    scan@.visible,
                    self.policy@.global.link_custom_fields,
                    scan@.disclosable.union(extra@),
                    k,
                ),
    {
        let ghost start = scan@;
        let mut disclosable = scan.disclosable;
        disclosable.extend(extra.keys());
        assert(disclosable@ =~= scan.disclosable@.union(extra@));
        let (issues, removed) = scrub_all(
            &scan.visible,
            &disclosable,
            &self.policy.global.link_custom_fields,
        );
        let ghost gone = removed@;
        let scrubbed_keys = removed.into_keys();
        proof {
            assert(gone =~= Set::new(
                |k: Seq<char>|
                    some_scrubbed_key(
                        start.visible,
                        self.policy@.global.link_custom_fields,
                        start.disclosable.union(extra@),
                        k,
                    ),
            ));
            lemma_sorted(texts(scrubbed_keys@));
        }
        SearchWindow {
            issues,
            scanned: scan.scanned,
            dropped_keys: scan.dropped,
            scrubbed_keys,
            next_page_token: scan.next_page_token,
        }
    }
}

// --- laws -------------------------------------------------------------------

/// Whatever is served of a list is what the access to one of its issues lets
/// the client see: no denied issue is among it.
pub proof fn served_issues_are_allowed(
    policy: PolicyView,
    issues: Seq<JsonView>,
    caller: Option<Seq<char>>,
    now: int,
    i: int,
)
    requires
        0 <= i < served_list(policy, issues, caller, now).len(),
    ensures
        exists|j: int|
            0 <= j < issues.len() && served_view(policy, #[trigger] issues[j], caller, now) == Some(
                served_list(policy, issues, caller, now)[i],
            ),
    decreases issues.len(),
{
    let rest = issues.drop_last();
    let earlier = served_list(policy, rest, caller, now);
    if i < earlier.len() {
        served_issues_are_allowed(policy, rest, caller, now, i);
        let j = choose|j: int|
            0 <= j < rest.len() && served_view(policy, #[trigger] rest[j], caller, now) == Some(
                earlier[i],
            );
        assert(issues[j] == rest[j]);
    } else {
        assert(issues[issues.len() - 1] == issues.last());
    }
}

/// Every issue is served or dropped: none is lost but by denial.
pub proof fn allowed_issues_are_served(
    policy: PolicyView,
    issues: Seq<JsonView>,
    caller: Option<Seq<char>>,
    now: int,
    j: int,
)
    requires
        0 <= j < issues.len(),
    ensures
        match served_view(policy, issues[j], caller, now) {
            Some(v) => served_list(policy, issues, caller, now).contains(v),
            None => key_of(issues[j]).len() > 0 ==> dropped_list(
                policy,
                issues,
                caller,
                now,
            ).contains(key_of(issues[j])),
        },
    decreases issues.len(),
{
    let rest = issues.drop_last();
    let shown = served_list(policy, rest, caller, now);
    let gone = dropped_list(policy, rest, caller, now);
    let all = served_list(policy, issues, caller, now);
    let all_gone = dropped_list(policy, issues, caller, now);
    if j < rest.len() {
        allowed_issues_are_served(policy, rest, caller, now, j);
        match served_view(policy, issues[j], caller, now) {
            Some(v) => {
                let k = choose|k: int| 0 <= k < shown.len() && shown[k] == v;
                assert(all[k] == v);
            },
            None => {
                if key_of(issues[j]).len() > 0 {
                    let k = choose|k: int| 0 <= k < gone.len() && gone[k] == key_of(issues[j]);
                    assert(all_gone[k] == key_of(issues[j]));
                }
            },
        }
    } else {
        match served_view(policy, issues[j], caller, now) {
            Some(v) => {
                assert(all[shown.len() as int] == v);
            },
            None => {
                if key_of(issues[j]).len() > 0 {
                    assert(all_gone[gone.len() as int] == key_of(issues[j]));
                }
            },
        }
    }
}

/// The issues of a search window name no issue but such as the search itself
/// served or as was assessed to be visible.
pub proof fn search_window_names_only_disclosable(
    policy: PolicyView,
    scan: ScanView,
    extra: Set<Seq<char>>,
    i: int,
    key: Seq<char>,
)
    requires
        0 <= i < scan.visible.len(),
        scan.visible[i].get("fields"@) is Some,
        refers_to(
            window_of(policy, scan, extra).issues[i],
            policy.global.link_custom_fields,
            key,
        ),
    ensures
        admits(scan.disclosable.union(extra), key),
{
    scrubbed_issue_names_only_disclosable(
        scan.visible[i],
        policy.global.link_custom_fields,
        scan.disclosable.union(extra),
        key,
    );
}

/// A key on whose account a search scrubbed a reference is named in none of
/// the served issues.
pub proof fn scrubbed_keys_are_gone(
    policy: PolicyView,
    scan: ScanView,
    extra: Set<Seq<char>>,
    i: int,
    key: Seq<char>,
)
    requires
        0 <= i < scan.visible.len(),
        scan.visible[i].get("fields"@) is Some,
        some_scrubbed_key(
            scan.visible,
            policy.global.link_custom_fields,
            scan.disclosable.union(extra),
            key,
        ),
    ensures
        !refers_to(
            window_of(policy, scan, extra).issues[i],
            policy.global.link_custom_fields,
            key,
        ),
{
    let custom = policy.global.link_custom_fields;
    let disclosable = scan.disclosable.union(extra);
    let visible = scan.visible;
    let j = choose|j: int|
        0 <= j < visible.len() && scrubbed_key(#[trigger] visible[j], custom, disclosable, key);
    scrubbed_keys_were_named_and_undisclosed(visible[j], custom, disclosable, key);
    if refers_to(window_of(policy, scan, extra).issues[i], custom, key) {
        scrubbed_issue_names_only_disclosable(visible[i], custom, disclosable, key);
    }
}

} // verus!
