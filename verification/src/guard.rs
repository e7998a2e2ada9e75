//! Enforcement of the policy on issues: assessment of issue keys, filtering of
//! search results and the gates of the write tools.

use vstd::prelude::*;
use vstd::string::*;

use crate::json::{Json, JsonView};
use crate::keymap::KeyMap;
use crate::keyset::{sorted, texts, KeySet};
use crate::meta::{copy_texts, meta_of, optional_str, optional_text, IssueMeta, MetaView};
use crate::policy::{
    asks_identity, decide, default_grant, Access, AccessView, Capability, Operation, Policy,
    PolicyView,
};
use crate::text::{concat3, same_text, trim, trimmed};

verus! {

/// The largest number of issue keys that one assessment fetches.
pub const MAX_ASSESS_KEYS: usize = 25;

/// Policy enforcement for everything that touches an issue.
#[derive(Debug)]
pub struct Guard {
    pub policy: Policy,
}

/// The answer to a request for an issue that is denied or does not exist.
pub open spec fn denial_text(key: Seq<char>) -> Seq<char> {
    "Issue "@ + key + " is not accessible through this server"@
}

// --- assessment -------------------------------------------------------------

/// The keys of a list, trimmed, each where it first occurs; blank ones are
/// left out.
pub open spec fn distinct_keys(keys: Seq<Seq<char>>) -> Seq<Seq<char>>
    decreases keys.len(),
{
    if keys.len() == 0 {
        Seq::empty()
    } else {
        let earlier = distinct_keys(keys.drop_last());
        let key = trimmed(keys.last());
        if key.len() == 0 || earlier.contains(key) {
            earlier
        } else {
            earlier.push(key)
        }
    }
}

/// The first elements of a sequence, `n` at most.
pub open spec fn at_most<A>(s: Seq<A>, n: int) -> Seq<A> {
    if s.len() <= n {
        s
    } else {
        s.take(n)
    }
}

/// The keys that an assessment fetches: at most [`MAX_ASSESS_KEYS`].
pub open spec fn fetch_list(keys: Seq<Seq<char>>) -> Seq<Seq<char>> {
    at_most(distinct_keys(keys), MAX_ASSESS_KEYS as int)
}

/// The issue that was fetched for a key: the reply at the place where the key
/// was requested. There is none where that fetch failed, or where the key was
/// not requested.
pub open spec fn fetched_for(
    requested: Seq<Seq<char>>,
    replies: Seq<Option<JsonView>>,
    key: Seq<char>,
) -> Option<JsonView> {
    if requested.contains(key) {
        replies[requested.index_of(key)]
    } else {
        None
    }
}

/// Access to an issue as Jira reports it.
pub open spec fn issue_access(
    policy: PolicyView,
    issue: JsonView,
    caller: Option<Seq<char>>,
    now: int,
) -> AccessView {
    decide(
        policy,
        meta_of(issue, caller, policy.global.public_projects),
        now,
        Operation::Access,
    )
}

/// The assessment of a key: access to the issue that was fetched for it, and
/// its body. A key that no issue was fetched for is denied.
pub open spec fn assessed(
    policy: PolicyView,
    found: Option<JsonView>,
    caller: Option<Seq<char>>,
    now: int,
) -> (AccessView, JsonView) {
    match found {
        Some(issue) => (issue_access(policy, issue, caller, now), issue),
        None => (AccessView::Denied { rule: "unavailable"@ }, JsonView::Null),
    }
}

/// One of the keys is `key` when trimmed.
pub open spec fn asks_for(keys: Seq<Seq<char>>, key: Seq<char>) -> bool {
    key.len() > 0 && exists|i: int| 0 <= i < keys.len() && trimmed(#[trigger] keys[i]) == key
}

/// The documents of optional replies.
pub open spec fn replies_view(replies: Seq<Option<Json>>) -> Seq<Option<JsonView>> {
    Seq::new(replies.len(), |i: int| optional_json(replies[i]))
}

/// The document of an optional reply.
pub open spec fn optional_json(reply: Option<Json>) -> Option<JsonView> {
    match reply {
        Some(v) => Some(v@),
        None => None,
    }
}

/// What an assessment says of a key.
pub open spec fn assessment_of(
    policy: PolicyView,
    keys: Seq<Seq<char>>,
    replies: Seq<Option<JsonView>>,
    caller: Option<Seq<char>>,
    now: int,
    key: Seq<char>,
) -> Option<(AccessView, JsonView)> {
    if asks_for(keys, key) {
        Some(assessed(policy, fetched_for(fetch_list(keys), replies, key), caller, now))
    } else {
        None
    }
}

/// What stands in a map of assessments.
pub open spec fn assessment_in(map: Map<Seq<char>, (Access, Json)>, key: Seq<char>) -> Option<
    (AccessView, JsonView),
> {
    if map.dom().contains(key) {
        Some((map[key].0@, map[key].1@))
    } else {
        None
    }
}

/// The distinct keys of a list are distinct, and are what the list asks for.
pub(crate) proof fn lemma_distinct_keys(keys: Seq<Seq<char>>)
    ensures
        distinct_keys(keys).no_duplicates(),
        forall|k: Seq<char>| #[trigger] distinct_keys(keys).contains(k) ==> asks_for(keys, k),
    decreases keys.len(),
{
    if keys.len() > 0 {
        let earlier = distinct_keys(keys.drop_last());
        let key = trimmed(keys.last());
        lemma_distinct_keys(keys.drop_last());
        assert forall|k: Seq<char>| #[trigger] distinct_keys(keys).contains(k) implies asks_for(
            keys,
            k,
        ) by {
            let all = distinct_keys(keys);
            let j = choose|j: int| 0 <= j < all.len() && all[j] == k;
            if j < earlier.len() {
                assert(earlier[j] == k);
                assert(earlier.contains(k));
                let i = choose|i: int|
                    0 <= i < keys.drop_last().len() && trimmed(#[trigger] keys.drop_last()[i]) == k;
                assert(trimmed(keys[i]) == k);
            } else {
                assert(trimmed(keys[keys.len() - 1]) == k);
            }
        }
    }
}

/// A key to fetch is asked for, and stands at one place only.
pub(crate) proof fn lemma_fetch_list(keys: Seq<Seq<char>>, i: int)
    requires
        0 <= i < fetch_list(keys).len(),
    ensures
        asks_for(keys, fetch_list(keys)[i]),
        fetch_list(keys).contains(fetch_list(keys)[i]),
        fetch_list(keys).index_of(fetch_list(keys)[i]) == i,
{
    lemma_distinct_keys(keys);
    let list = fetch_list(keys);
    assert(distinct_keys(keys)[i] == list[i]);
    assert(distinct_keys(keys).contains(list[i]));
    let j = list.index_of(list[i]);
    assert(list.contains(list[i]));
    assert(distinct_keys(keys)[j] == list[j]);
}

impl Guard {
    /// A guard under a policy.
    pub fn new(policy: Policy) -> (res: Guard)
        ensures
            res.policy == policy,
    {
        Guard { policy }
    }

    /// The answer to a request for an issue that is denied or does not exist:
    /// one text for both.
    pub fn denial(key: &str) -> (res: String)
        ensures
            res@ == denial_text(key@),
    {
        concat3("Issue ", key, " is not accessible through this server")
    }

    /// The account id of the caller, where the policy asks who created an
    /// issue and the lookup came back with one.
    pub fn resolve_caller(&self, looked_up: Option<String>) -> (res: Option<String>)
        ensures
            optional_text(res) == if asks_identity(self.policy@) {
                optional_text(looked_up)
            } else {
                None
            },
    {
        if self.policy.needs_identity() {
            looked_up
        } else {
            None
        }
    }

    /// The keys that an assessment has to fetch, in order.
    pub fn keys_to_fetch(keys: &Vec<String>) -> (res: Vec<String>)
        ensures
            texts(res@) == fetch_list(texts(keys@)),
    {
        let ghost all = texts(keys@);
        let mut wanted: Vec<String> = Vec::new();
        let mut i: usize = 0;
        proof {
            assert(texts(wanted@) =~= at_most(
                distinct_keys(all.take(0)),
                MAX_ASSESS_KEYS as int,
            ));
        }
        while i < keys.len()
            invariant
                i <= keys.len(),
                all == texts(keys@),
                texts(wanted@) == at_most(
                    distinct_keys(all.take(i as int)),
                    MAX_ASSESS_KEYS as int,
                ),
            decreases keys.len() - i,
        {
            let key = trim(keys[i].as_str());
            proof {
                let a = all.take(i as int);
                let b = all.take(i + 1);
                assert(b.drop_last() =~= a);
                assert(b.last() == all[i as int]);
            }
            if key.unicode_len() > 0 && wanted.len() < MAX_ASSESS_KEYS && !contains_text(
                &wanted,
                key,
            ) {
                let ghost held = texts(wanted@);
                wanted.push(key.to_owned());
                assert(texts(wanted@) =~= held.push(key@));
            }
            proof {
                let d = distinct_keys(all.take(i as int));
                let e = distinct_keys(all.take(i + 1));
                if d.len() >= MAX_ASSESS_KEYS {
                    assert(at_most(e, MAX_ASSESS_KEYS as int) =~= at_most(
                        d,
                        MAX_ASSESS_KEYS as int,
                    ));
                }
            }
            i += 1;
        }
        assert(all.take(keys@.len() as int) =~= all);
        wanted
    }

    /// Classifies issue keys against the policy.
    ///
    /// `replies` holds what came back for each key of [`Guard::keys_to_fetch`]:
    /// the issue, or `None` where the fetch failed. A key is bound to the issue
    /// fetched for it, under whatever key the server reports that, and never to
    /// another; a key that no issue was fetched for is denied.
    pub fn assess(
        &self,
        keys: &Vec<String>,
        replies: &Vec<Option<Json>>,
        caller: Option<&str>,
        now: i64,
    ) -> (res: KeyMap<(Access, Json)>)
        requires
            self.policy.has_default(),
            replies@.len() == fetch_list(texts(keys@)).len(),
        ensures
            forall|k: Seq<char>|
                #![trigger res@.dom().contains(k)]
                assessment_in(res@, k) == assessment_of(
                    self.policy@,
                    texts(keys@),
                    replies_view(replies@),
                    optional_str(caller),
                    now as int,
                    k,
                ),
    {
        let ghost all = texts(keys@);
        let wanted = Guard::keys_to_fetch(keys);
        let ghost requested = texts(wanted@);
        proof {
            lemma_distinct_keys(all);
        }
        let ghost views = replies_view(replies@);
        let mut out: KeyMap<(Access, Json)> = KeyMap::new();
        let mut i: usize = 0;
        while i < keys.len()
            invariant
                i <= keys.len(),
                all == texts(keys@),
                self.policy.has_default(),
                requested == texts(wanted@),
                views == replies_view(replies@),
                replies@.len() == wanted@.len(),
                requested.no_duplicates(),
                forall|k: Seq<char>|
                    #![trigger out@.dom().contains(k)]
                    assessment_in(out@, k) == if asks_for(all.take(i as int), k) {
                        Some(
                            assessed(
                                self.policy@,
                                fetched_for(requested, views, k),
                                optional_str(caller),
                                now as int,
                            ),
                        )
                    } else {
                        None
                    },
            decreases keys.len() - i,
        {
            let key = trim(keys[i].as_str());
            let ghost held = out@;
            if key.unicode_len() > 0 {
                let entry = self.assess_key(find_reply(&wanted, replies, key), caller, now);
                out.insert(key, entry);
            }
            proof {
                let a = all.take(i as int);
                let b = all.take(i + 1);
                assert(b[i as int] == all[i as int]);
                assert forall|k: Seq<char>|
                    #![trigger out@.dom().contains(k)]
                    assessment_in(out@, k) == if asks_for(b, k) {
                        Some(
                            assessed(
                                self.policy@,
                                fetched_for(requested, views, k),
                                optional_str(caller),
                                now as int,
                            ),
                        )
                    } else {
                        None
                    } by {
                    assert(held.dom().contains(k) == held.dom().contains(k));
                    if asks_for(a, k) {
                        let j = choose|j: int|
                            0 <= j < a.len() && trimmed(#[trigger] a[j]) == k;
                        assert(trimmed(b[j]) == k);
                    }
                    if asks_for(b, k) {
                        let j = choose|j: int|
                            0 <= j < b.len() && trimmed(#[trigger] b[j]) == k;
                        if j < i {
                            assert(trimmed(a[j]) == k);
                        }
                    }
                    if k == key@ && key@.len() > 0 {
                        assert(trimmed(b[i as int]) == k);
                    }
                }
            }
            i += 1;
        }
        assert(all.take(keys@.len() as int) =~= all);
        out
    }

    /// The assessment of one key, given the issue that was fetched for it.
    fn assess_key(&self, found: Option<&Json>, caller: Option<&str>, now: i64) -> (res: (
        Access,
        Json,
    ))
        requires
            self.policy.has_default(),
        ensures
            (res.0@, res.1@) == assessed(
                self.policy@,
                borrowed_json(found),
                optional_str(caller),
                now as int,
            ),
    {
        match found {
            Some(issue) => {
                let meta = IssueMeta::from_jira_issue(
                    issue,
                    caller,
                    &self.policy.global.public_projects,
                );
                (self.policy.classify(&meta, now, Operation::Access), issue.clone())
            },
            None => (Access::Denied { rule: "unavailable".to_owned() }, Json::Null),
        }
    }
}

/// Whether a list holds a text.
pub fn contains_text(list: &Vec<String>, text: &str) -> (res: bool)
    ensures
        res == texts(list@).contains(text@),
{
    let mut i: usize = 0;
    while i < list.len()
        invariant
            i <= list.len(),
            forall|k: int| 0 <= k < i ==> #[trigger] texts(list@)[k] != text@,
        decreases list.len() - i,
    {
        if same_text(list[i].as_str(), text) {
            assert(texts(list@)[i as int] == text@);
            return true;
        }
        i += 1;
    }
    false
}

/// The document of a borrowed reply.
spec fn borrowed_json(reply: Option<&Json>) -> Option<JsonView> {
    match reply {
        Some(v) => Some(v@),
        None => None,
    }
}

/// The issue that was fetched for a key.
fn find_reply<'a>(requested: &Vec<String>, replies: &'a Vec<Option<Json>>, key: &str) -> (res: Option<
    &'a Json,
>)
    requires
        replies@.len() == requested@.len(),
        texts(requested@).no_duplicates(),
    ensures
        borrowed_json(res) == fetched_for(texts(requested@), replies_view(replies@), key@),
{
    let ghost keys = texts(requested@);
    let mut i: usize = 0;
    while i < requested.len()
        invariant
            i <= requested.len(),
            keys == texts(requested@),
            replies@.len() == requested@.len(),
            keys.no_duplicates(),
            forall|j: int| 0 <= j < i ==> #[trigger] keys[j] != key@,
        decreases requested.len() - i,
    {
        if same_text(requested[i].as_str(), key) {
            assert(keys[i as int] == key@);
            assert(keys.contains(key@));
            return replies[i].as_ref();
        }
        i += 1;
    }
    None
}

// --- laws of assessment -----------------------------------------------------

/// A body that an assessment returns was fetched in the same assessment, for
/// the very key that it is returned for, and access is what the policy says of
/// that body.
pub proof fn assessed_body_was_fetched(
    policy: PolicyView,
    keys: Seq<Seq<char>>,
    replies: Seq<Option<JsonView>>,
    caller: Option<Seq<char>>,
    now: int,
    key: Seq<char>,
)
    requires
        replies.len() == fetch_list(keys).len(),
    ensures
        match assessment_of(policy, keys, replies, caller, now, key) {
            Some((access, body)) => {
                ||| access == AccessView::Denied { rule: "unavailable"@ } && body is Null
                ||| exists|i: int|
                    0 <= i < replies.len() && fetch_list(keys)[i] == key && #[trigger] replies[i]
                        == Some(body) && access == issue_access(policy, body, caller, now)
            },
            None => !asks_for(keys, key),
        },
{
    if fetch_list(keys).contains(key) {
        let i = fetch_list(keys).index_of(key);
        assert(fetch_list(keys)[i] == key);
        assert(replies[i] == replies[i]);
    }
}

/// A requested key is bound to the reply that came for it, whatever came for
/// the others and whatever keys the issues report: to the issue where the fetch
/// came back with one, and else it is denied.
pub proof fn requested_key_binds_to_its_own_issue(
    policy: PolicyView,
    keys: Seq<Seq<char>>,
    replies: Seq<Option<JsonView>>,
    caller: Option<Seq<char>>,
    now: int,
    i: int,
)
    requires
        replies.len() == fetch_list(keys).len(),
        0 <= i < replies.len(),
    ensures
        assessment_of(policy, keys, replies, caller, now, fetch_list(keys)[i]) == Some(
            match replies[i] {
                Some(issue) => (issue_access(policy, issue, caller, now), issue),
                None => (AccessView::Denied { rule: "unavailable"@ }, JsonView::Null),
            },
        ),
{
    lemma_fetch_list(keys, i);
}

/// A key whose fetch failed, or that was not fetched, is denied.
pub proof fn failed_fetch_is_denied(
    policy: PolicyView,
    keys: Seq<Seq<char>>,
    replies: Seq<Option<JsonView>>,
    caller: Option<Seq<char>>,
    now: int,
    key: Seq<char>,
)
    requires
        asks_for(keys, key),
        forall|i: int|
            0 <= i < fetch_list(keys).len() && fetch_list(keys)[i] == key ==> #[trigger] replies[i]
                is None,
    ensures
        assessment_of(policy, keys, replies, caller, now, key) == Some(
            (AccessView::Denied { rule: "unavailable"@ }, JsonView::Null),
        ),
{
    if fetch_list(keys).contains(key) {
        let i = fetch_list(keys).index_of(key);
        assert(replies[i] is None);
    }
}

// --- disclosure -------------------------------------------------------------

/// A key may appear in a response: it was assessed, and its summary is
/// visible.
pub open spec fn disclosed(
    policy: PolicyView,
    keys: Seq<Seq<char>>,
    replies: Seq<Option<JsonView>>,
    caller: Option<Seq<char>>,
    now: int,
    key: Seq<char>,
) -> bool {
    &&& keys.contains(key)
    &&& match assessment_of(policy, keys, replies, caller, now, key) {
        Some((access, _)) => access.allows(Capability::Summary),
        None => false,
    }
}

impl Guard {
    /// The keys of a set that may appear in a response: those whose summary is
    /// visible. `replies` holds what came back for each key of
    /// [`Guard::keys_to_fetch`] on the set; a failed fetch discloses nothing.
    pub fn disclosable(
        &self,
        keys: &KeySet,
        replies: &Vec<Option<Json>>,
        caller: Option<&str>,
        now: i64,
    ) -> (res: KeySet)
        requires
            self.policy.has_default(),
            replies@.len() == fetch_list(sorted(keys@)).len(),
        ensures
            forall|k: Seq<char>| #[trigger]
                res@.contains(k) == disclosed(
                    self.policy@,
                    sorted(keys@),
                    replies_view(replies@),
                    optional_str(caller),
                    now as int,
                    k,
                ),
    {
        let list = keys.keys();
        let ghost all = texts(list@);
        let assessments = self.assess(list, replies, caller, now);
        let mut out = KeySet::new();
        let mut i: usize = 0;
        while i < list.len()
            invariant
                i <= list.len(),
                all == texts(list@),
                forall|k: Seq<char>|
                    #![trigger assessments@.dom().contains(k)]
                    assessment_in(assessments@, k) == assessment_of(
                        self.policy@,
                        all,
                        replies_view(replies@),
                        optional_str(caller),
                        now as int,
                        k,
                    ),
                forall|k: Seq<char>| #[trigger]
                    out@.contains(k) == (all.take(i as int).contains(k) && disclosed(
                        self.policy@,
                        all,
                        replies_view(replies@),
                        optional_str(caller),
                        now as int,
                        k,
                    )),
            decreases list.len() - i,
        {
            let key = list[i].as_str();
            let ghost held = out@;
            let shown = match assessments.get(key) {
                Some(entry) => entry.0.allows(Capability::Summary),
                None => false,
            };
            proof {
                assert(all[i as int] == key@);
                assert(all.contains(key@));
                assert(shown == disclosed(
                    self.policy@,
                    all,
                    replies_view(replies@),
                    optional_str(caller),
                    now as int,
                    key@,
                ));
            }
            if shown {
                out.insert(key);
            }
            proof {
                let a = all.take(i as int);
                let b = all.take(i + 1);
                assert(b =~= a.push(key@));
                assert forall|k: Seq<char>| #[trigger] out@.contains(k) == (b.contains(k)
                    && disclosed(
                    self.policy@,
                    all,
                    replies_view(replies@),
                    optional_str(caller),
                    now as int,
                    k,
                )) by {
                    assert(held.contains(k) == (a.contains(k) && disclosed(
                        self.policy@,
                        all,
                        replies_view(replies@),
                        optional_str(caller),
                        now as int,
                        k,
                    )));
                    if a.contains(k) {
                        let j = choose|j: int| 0 <= j < a.len() && a[j] == k;
                        assert(b[j] == k);
                    }
                    if b.contains(k) {
                        let j = choose|j: int| 0 <= j < b.len() && b[j] == k;
                        if j < i {
                            assert(a[j] == k);
                        }
                    }
                    assert(b[i as int] == key@);
                }
            }
            i += 1;
        }
        assert(all.take(list@.len() as int) =~= all);
        out
    }
}

// --- gates ------------------------------------------------------------------

/// The largest attachment that the policy lets through; `None` where there is
/// no limit.
pub open spec fn attachment_limit(policy: PolicyView) -> Option<int> {
    if policy.global.max_attachment_bytes == 0 {
        None
    } else {
        Some(policy.global.max_attachment_bytes)
    }
}

/// An attachment is within the limit. Under a limit an unknown size is not.
pub open spec fn within_limit(policy: PolicyView, size: Option<int>) -> bool {
    match (attachment_limit(policy), size) {
        (None, _) => true,
        (Some(limit), Some(n)) => n <= limit,
        (Some(_), None) => false,
    }
}

/// The metadata of an issue that the caller is about to file.
pub open spec fn prospective(policy: PolicyView, meta: MetaView) -> MetaView {
    MetaView {
        created_by_me: Some(true),
        public_projects: policy.global.public_projects,
        ..meta
    }
}

/// A size as a mathematical integer.
pub open spec fn optional_size(size: Option<u64>) -> Option<int> {
    match size {
        Some(n) => Some(n as int),
        None => None,
    }
}

impl Guard {
    /// Whether an attachment is within the limit. `size` is `None` where the
    /// metadata does not tell it.
    pub fn attachment_within_cap(&self, size: Option<u64>) -> (res: bool)
        ensures
            res == within_limit(self.policy@, optional_size(size)),
    {
        match (self.attachment_cap(), size) {
            (None, _) => true,
            (Some(cap), Some(n)) => n <= cap,
            (Some(_), None) => false,
        }
    }

    /// The largest attachment that the policy lets through; `None` where there
    /// is no limit.
    pub fn attachment_cap(&self) -> (res: Option<u64>)
        ensures
            optional_size(res) == attachment_limit(self.policy@),
    {
        if self.policy.global.max_attachment_bytes == 0 {
            None
        } else {
            Some(self.policy.global.max_attachment_bytes)
        }
    }

    /// Access to an issue that the caller is about to file.
    pub fn may_create(&self, meta: &IssueMeta, now: i64) -> (res: Access)
        requires
            self.policy.has_default(),
        ensures
            res@ == decide(
                self.policy@,
                prospective(self.policy@, meta@),
                now as int,
                Operation::Create,
            ),
    {
        let mut prospect = meta.clone();
        prospect.created_by_me = Some(true);
        prospect.public_projects = copy_texts(&self.policy.global.public_projects);
        self.policy.classify(&prospect, now, Operation::Create)
    }

    /// Whether the default access grants a capability.
    pub fn allows(&self, cap: Capability) -> (res: bool)
        requires
            self.policy.has_default(),
        ensures
            res == default_grant(self.policy@).allows(cap),
    {
        self.policy.default_access().allows(cap)
    }
}

/// An attachment of unknown size never passes where one of known size could be
/// refused.
pub proof fn unknown_size_never_passes_a_limit(policy: PolicyView)
    ensures
        within_limit(policy, None) ==> forall|n: int| #[trigger] within_limit(policy, Some(n)),
{
}

} // verus!
