//! What the audit stream tells: the verdict on a call, the rule behind it, the
//! keys that were kept back and how many issues a search went through.

use vstd::prelude::*;
use vstd::string::*;

use crate::answers::attachments_told;
use crate::audit::{
    blank_cell, hex_text, rotation, sink_after, tool_record, AuditSink, AuditState, CellView,
    FailMode, SinkStep, Verdict,
};
use crate::flow::{
    cleaned, disclosed_keys, fresh, gate_entry, gate_noted, gate_passed, info_ended, info_fetched,
    info_goes_on, issue_keys, linked_fetched, proceeds, resolved, resumed, search_noted,
    search_result, served_noted, InfoView, OutcomeView, PendingView, RunView, StageView, StepView,
    Trace,
};
use crate::guard::{assessment_of, fetch_list};
use crate::hiding::{lemma_may_be_told, may_be_told};
use crate::json::JsonView;
use crate::keeping::{
    issue_mentions, lemma_mentions, lemma_mentions_finite, lemma_sorted_set, plain_fields,
};
use crate::keyset::{admits, sorted, texts};
use crate::meta::meta_of;
use crate::outcomes::lemma_details_members;
use crate::permits::{
    leave_is_all_that_a_tool_waits_for, lemma_needs, lemma_passed, let_through, needs,
};
use crate::policy::{decide, AccessView, Capability, Operation};
use crate::project::{projected, ungated_issue};
use crate::reply::{account_id_of, ErrorView};
use crate::requests::{
    a_run_keeps_its_call, asks_who, is_attachment, lemma_attachment_with, of_a_file,
};
use crate::scrub::{scrubbed, scrubbed_key};
use crate::search::{dropped_list, served_view, some_scrubbed_key, window_of, ScanView};
use crate::searching::{
    issues_of, lemma_search_kept, lemma_some_finite, may_then, mentioned_by_some, search_kept,
};
use crate::server::KeepView;
use crate::text::{hex_byte, hex_digit, numeral, trimmed};
use crate::visibility::{
    details_keys, disclosed_from, lemma_details_disclosed, names_only_visible, scanned_in_run,
    search_shows_only_visible_issues, shown_visible,
};

verus! {

// --- records ----------------------------------------------------------------

/// The record of a call tells all that was noted of it, each under its name, and
/// the keys only where the operator wants them.
pub proof fn a_record_tells_what_was_noted(
    state: AuditState,
    tool: Seq<char>,
    cell: CellView,
    duration_ms: u64,
    error: Option<Seq<char>>,
)
    requires
        cell.suppressed.len() <= u64::MAX,
    ensures
        ({
            let record = tool_record(state, tool, cell, duration_ms, error);
            &&& record.v == 1
            &&& record.kind == "tool_call"@
            &&& record.tool == Some(tool)
            &&& record.duration_ms == Some(duration_ms)
            &&& record.error == error
            &&& record.rule == cell.rule
            &&& record.transport == Some(state.transport@)
            &&& match state.policy_hash {
                Some(hash) => record.policy_hash == Some(hash@),
                None => record.policy_hash is None,
            }
            &&& record.client_name is None && record.client_version is None
            &&& record.protocol_version is None
            &&& match cell.verdict {
                Some(Verdict::Served) => record.verdict == Some("served"@),
                Some(Verdict::Denied) => record.verdict == Some("denied"@),
                Some(Verdict::Refused) => record.verdict == Some("refused"@),
                Some(Verdict::Filtered) => record.verdict == Some("filtered"@),
                None => record.verdict is None,
            }
            &&& match cell.scan {
                Some(scan) => record.scanned == Some(scan.0) && record.dropped == Some(scan.1),
                None => record.scanned is None && record.dropped is None,
            }
            &&& record.suppressed_keys is Some ==> record.suppressed_keys->0 == cell.suppressed
            &&& record.suppressed_keys is Some <==> state.suppressed_ids && cell.suppressed.len()
                > 0
            &&& cell.suppressed_count is Some ==> record.suppressed_count == cell.suppressed_count
            &&& cell.suppressed_count is None && cell.suppressed.len() > 0
                ==> record.suppressed_count is Some && record.suppressed_count->0
                == cell.suppressed.len()
            &&& cell.suppressed_count is None && cell.suppressed.len() == 0
                ==> record.suppressed_count is None
        }),
{
}

/// A mode that is set is the mode; where none is, calls over HTTP all wait for
/// the stream and others never do. The mode between refuses what writes.
pub proof fn a_failing_stream_stops_what_the_mode_says(mode: FailMode, http: bool, writes: bool)
    ensures
        FailMode::chosen(Some(mode), http) == mode,
        FailMode::chosen(None, http).refusal(writes) == http,
        FailMode::ClosedAll.refusal(writes),
        FailMode::ClosedWritesDenials.refusal(writes) == writes,
        !FailMode::Open.refusal(writes),
{
}

/// A rotation moves each kept file up by one number, below the highest, and the
/// file itself to number one; it moves nothing else.
pub proof fn a_rotation_moves_every_file_up(path: Seq<char>, keep: int, k: int)
    requires
        keep >= 1,
        1 <= k < keep,
    ensures
        rotation(path, keep).contains((path + "."@ + numeral(k as nat), path + "."@ + numeral(
            (k + 1) as nat,
        ))),
        rotation(path, keep).contains((path, path + "."@ + numeral(1))),
        rotation(path, keep).len() == keep,
{
    let moves = rotation(path, keep);
    assert(moves[keep - 1 - k] == (path + "."@ + numeral(k as nat), path + "."@ + numeral(
        (k + 1) as nat,
    )));
    assert(moves[keep - 1] == (path, path + "."@ + numeral(1)));
}

/// A sink counts the bytes of its file: a line that is written adds its length
/// and the end of the line, and a rotation starts from nothing. What the sink is
/// set to never changes.
pub proof fn a_sink_counts_what_its_file_holds(sink: AuditSink, steps: Seq<SinkStep>, line: u64)
    ensures
        ({
            let now = sink_after(sink, steps);
            let written = sink_after(sink, steps.push(SinkStep::Written { line }));
            &&& now.bytes + line + 1 <= u64::MAX ==> written.bytes == now.bytes + line + 1
            &&& sink_after(sink, steps.push(SinkStep::Rotated)).bytes == 0
            &&& sink_after(sink, steps.push(SinkStep::Numbered)).bytes == now.bytes
            &&& sink_after(sink, steps.push(SinkStep::Failed)).bytes == now.bytes
            &&& now.path == sink.path && now.fsync == sink.fsync
            &&& now.rotate_max_bytes == sink.rotate_max_bytes
            &&& now.rotate_keep == sink.rotate_keep
        }),
    decreases steps.len(),
{
    assert(steps.push(SinkStep::Written { line }).drop_last() =~= steps);
    assert(steps.push(SinkStep::Rotated).drop_last() =~= steps);
    assert(steps.push(SinkStep::Numbered).drop_last() =~= steps);
    assert(steps.push(SinkStep::Failed).drop_last() =~= steps);
    if steps.len() > 0 {
        a_sink_counts_what_its_file_holds(sink, steps.drop_last(), line);
    }
}

/// The number that a digit stands for.
pub open spec fn digit_value(c: char) -> int {
    if '0' <= c <= '9' {
        c as u32 - '0' as u32
    } else if 'a' <= c <= 'f' {
        c as u32 - 'a' as u32 + 10
    } else {
        -1
    }
}

proof fn lemma_digit(n: int)
    requires
        0 <= n < 16,
    ensures
        digit_value(hex_digit(n, 'a')) == n,
{
}

/// A digest is told by two digits for each byte, in order, with small letters:
/// the bytes can be read off again.
pub proof fn a_digest_can_be_read_off(bytes: Seq<u8>, i: int)
    requires
        0 <= i < bytes.len(),
    ensures
        hex_text(bytes).len() == 2 * bytes.len(),
        bytes[i] == 16 * digit_value(hex_text(bytes)[2 * i]) + digit_value(
            hex_text(bytes)[2 * i + 1],
        ),
        0 <= digit_value(hex_text(bytes)[2 * i]) < 16,
        0 <= digit_value(hex_text(bytes)[2 * i + 1]) < 16,
    decreases bytes.len(),
{
    let rest = bytes.drop_last();
    let last = bytes.last();
    lemma_digit(last as int / 16);
    lemma_digit(last as int % 16);
    if rest.len() > 0 {
        a_digest_can_be_read_off(
            rest,
            if i < rest.len() {
                i
            } else {
                0
            },
        );
    }
    assert(hex_byte(last, 'a').len() == 2);
    assert(hex_text(bytes) =~= hex_text(rest) + hex_byte(last, 'a'));
}

// --- gates ------------------------------------------------------------------

proof fn lemma_proceeds_noted(keep: KeepView, run: RunView)
    ensures
        ({
            let after = proceeds(keep, run);
            &&& after.0.cell == (CellView { verdict: after.0.cell.verdict, ..run.cell })
            &&& after.1 is Call ==> after.0.cell.verdict == run.cell.verdict
            &&& after.1 is Finish && (run.call is UpdateIssueFields || run.call is AddAttachment)
                ==> after.0.cell.verdict == Some(Verdict::Refused)
        }),
{
}

/// Where a tool waits for an issue, the record tells what came of it: that the
/// call was denied, or that it was served and goes on, or that what it gives was
/// refused; and the rule that decided. Nothing else is noted.
pub proof fn a_gate_is_recorded(trace: Trace, n: int, i: int)
    requires
        0 <= n < trace.inputs.len(),
        of_a_file(trace.keep),
        trace.after(n).0.stage == (StageView::Gate { index: i }),
        0 <= i < needs(trace.call).len(),
        trimmed(needs(trace.call)[i].0) == needs(trace.call)[i].0,
    ensures
        ({
            let (key, cap) = needs(trace.call)[i];
            let before = trace.after(n).0.cell;
            let after = trace.after(n + 1).0.cell;
            &&& after.suppressed == before.suppressed
            &&& after.suppressed_count == before.suppressed_count
            &&& after.scan == before.scan
            &&& !let_through(trace, n, key, cap) ==> after.verdict == Some(Verdict::Denied)
            &&& let_through(trace, n, key, cap) && trace.after(n + 1).1 is Call ==> after.verdict
                == Some(Verdict::Served)
            &&& let_through(trace, n, key, cap) && trace.after(n + 1).1 is Finish && i
                == needs(trace.call).len() - 1 ==> after.verdict == Some(Verdict::Refused)
            &&& key.len() > 0 ==> after.rule == Some(
                match trace.document(n) {
                    Some(issue) => decide(
                        trace.keep.policy,
                        meta_of(
                            issue,
                            trace.after(n).0.caller,
                            trace.keep.policy.global.public_projects,
                        ),
                        trace.inputs[n].1,
                        Operation::Access,
                    ).rule_name(),
                    None => "unavailable"@,
                },
            )
        }),
{
    lemma_needs(trace.call);
    a_run_keeps_its_call(trace, n);
    lemma_passed(trace, i, n);
    leave_is_all_that_a_tool_waits_for(trace, n, i);
    let keep = trace.keep;
    let run = trace.after(n).0;
    let (event, now) = trace.inputs[n];
    assert(trace.after(n + 1) == resumed(keep, run, event, now));
    let idle = RunView { stage: StageView::Done, ..run };
    let key = needs(trace.call)[i].0;
    let entry = gate_entry(keep, idle, i, trace.document(n), now);
    let allowed = gate_passed(keep, idle, i, trace.document(n), now);
    assert(allowed == let_through(trace, n, key, needs(trace.call)[i].1));
    let noted = gate_noted(idle, entry, allowed);
    reveal_with_fuel(crate::guard::distinct_keys, 2);
    assert(seq![key].drop_last() =~= Seq::<Seq<char>>::empty());
    assert(seq![key].last() == key);
    if key.len() > 0 {
        assert(trimmed(seq![key][0]) == key);
        let wanted = crate::guard::fetch_list(seq![key]);
        assert(wanted =~= seq![key]);
        assert(wanted[0] == key);
        assert(wanted.contains(key));
        assert(wanted.index_of(key) == 0);
        assert(entry is Some);
    }
    if allowed {
        lemma_proceeds_noted(keep, noted);
        if i < needs(trace.call).len() - 1 {
            let next = needs(trace.call)[i + 1].0;
            assert(seq![next].drop_last() =~= Seq::<Seq<char>>::empty());
            assert(seq![next].last() == next);
        }
    }
}

// --- searches ---------------------------------------------------------------

/// An issue of a page is left out, and has a key.
pub open spec fn left_out(trace: Trace, j: int, issue: JsonView) -> bool {
    &&& !may_then(trace, j, issue, Capability::Summary)
    &&& issue.text_at("key"@) is Some
    &&& issue.text_at("key"@)->0.len() > 0
}

/// The places of the issues that are left out of a page, in order.
pub open spec fn places_left_out(
    trace: Trace,
    j: int,
    issues: Seq<JsonView>,
    gone: Seq<int>,
) -> bool {
    &&& forall|i: int, k: int| 0 <= i < k < gone.len() ==> #[trigger] gone[i] < #[trigger] gone[k]
    &&& forall|i: int|
        0 <= i < gone.len() ==> 0 <= #[trigger] gone[i] < issues.len() && left_out(
            trace,
            j,
            issues[gone[i]],
        )
    &&& forall|p: int|
        0 <= p < issues.len() && left_out(trace, j, #[trigger] issues[p]) ==> gone.contains(p)
}

proof fn lemma_places_left_out(trace: Trace, j: int, issues: Seq<JsonView>) -> (gone: Seq<int>)
    ensures
        places_left_out(trace, j, issues, gone),
        gone.len() <= issues.len(),
        ({
            let dropped = dropped_list(
                trace.keep.policy,
                issues,
                trace.after(j).0.caller,
                trace.inputs[j].1,
            );
            &&& dropped.len() == gone.len()
            &&& forall|i: int|
                0 <= i < gone.len() ==> issues[#[trigger] gone[i]].text_at("key"@) == Some(
                    dropped[i],
                )
        }),
    decreases issues.len(),
{
    let policy = trace.keep.policy;
    let caller = trace.after(j).0.caller;
    let now = trace.inputs[j].1;
    if issues.len() == 0 {
        Seq::empty()
    } else {
        let rest = issues.drop_last();
        let before = lemma_places_left_out(trace, j, rest);
        let last = issues.last();
        let dropped = dropped_list(policy, issues, caller, now);
        assert(served_view(policy, last, caller, now) is None == !may_then(
            trace,
            j,
            last,
            Capability::Summary,
        ));
        let gone = if left_out(trace, j, last) {
            before.push(issues.len() - 1)
        } else {
            before
        };
        assert forall|i: int| 0 <= i < gone.len() implies 0 <= #[trigger] gone[i] < issues.len()
            && left_out(trace, j, issues[gone[i]]) && issues[gone[i]].text_at("key"@) == Some(
            dropped[i],
        ) by {
            if i < before.len() {
                assert(before[i] == gone[i]);
                assert(rest[before[i]] == issues[gone[i]]);
            }
        }
        assert forall|p: int|
            0 <= p < issues.len() && left_out(
                trace,
                j,
                #[trigger] issues[p],
            ) implies gone.contains(p) by {
            if p < rest.len() {
                assert(rest[p] == issues[p]);
                let x = choose|x: int| 0 <= x < before.len() && before[x] == p;
                assert(gone[x] == p);
            } else {
                assert(gone[before.len() as int] == p);
            }
        }
        gone
    }
}

/// An issue has its fields.
pub open spec fn has_fields(issue: JsonView) -> bool {
    issue.get("fields"@) matches Some(JsonView::Object(_))
}

/// An issue that is served mentions another in its fields.
pub open spec fn some_view_mentions(
    views: Seq<JsonView>,
    custom: Seq<Seq<char>>,
    key: Seq<char>,
) -> bool {
    exists|i: int|
        0 <= i < views.len() && has_fields(views[i]) && issue_mentions(#[trigger] views[i], custom, key)
}

/// A search is recorded as it went: how many issues the page had, how many of
/// them were left out and which, and then the keys on whose account a reference
/// was taken out of an issue that is served.
#[verifier::opaque]
pub open spec fn search_recorded(
    trace: Trace,
    n: int,
    j: int,
    page: JsonView,
    views: Seq<JsonView>,
    gone: Seq<int>,
) -> bool {
    let cell = trace.after(n).0.cell;
    let issues = issues_of(page);
    let custom = trace.keep.policy.global.link_custom_fields;
    &&& places_left_out(trace, j, issues, gone)
    &&& cell.verdict == Some(Verdict::Filtered)
    &&& cell.rule is None
    &&& issues.len() <= u32::MAX ==> {
        &&& match cell.scan {
            Some((scanned, dropped)) => scanned == issues.len() && dropped == gone.len(),
            None => false,
        }
        &&& cell.suppressed_count is Some && cell.suppressed_count->0 == gone.len()
    }
    &&& cell.suppressed.len() >= gone.len()
    &&& forall|i: int|
        0 <= i < gone.len() ==> issues[#[trigger] gone[i]].text_at("key"@) == Some(
            cell.suppressed[i],
        )
    &&& forall|x: int|
        gone.len() <= x < cell.suppressed.len() ==> some_view_mentions(
            views,
            custom,
            #[trigger] cell.suppressed[x],
        )
    &&& forall|k: Seq<char>|
        some_view_mentions(views, custom, k) && !may_be_told(trace, n, k)
            ==> #[trigger] cell.suppressed.contains(k)
}

proof fn lemma_search_recorded(
    trace: Trace,
    n: int,
    j: int,
    scan: ScanView,
    extra: Set<Seq<char>>,
) -> (gone: Seq<int>)
    requires
        scanned_in_run(trace, n, j, scan),
        trace.after(n).0.cell == search_noted(
            blank_cell(),
            window_of(trace.keep.policy, scan, extra),
        ),
        forall|k: Seq<char>| #[trigger]
            admits(scan.disclosable.union(extra), k) ==> shown_visible(trace, n, k),
    ensures
        search_recorded(trace, n, j, trace.document(j)->0, scan.visible, gone),
{
    reveal(search_recorded);
    let page = trace.document(j)->0;
    let issues = issues_of(page);
    assert(issues == crate::search::found(page));
    let custom = trace.keep.policy.global.link_custom_fields;
    let gone = lemma_places_left_out(trace, j, issues);
    let cell = trace.after(n).0.cell;
    let all = scan.disclosable.union(extra);
    let views = scan.visible;
    let lost = Set::new(|k: Seq<char>| some_scrubbed_key(views, custom, all, k));
    lemma_some_finite(views, custom);
    let told = Set::new(|k: Seq<char>| mentioned_by_some(views, custom, k));
    assert forall|k: Seq<char>| #[trigger] lost.contains(k) implies told.contains(k) by {
        let i = choose|i: int|
            0 <= i < views.len() && scrubbed_key(#[trigger] views[i], custom, all, k);
        lemma_mentions(views[i], custom, k);
    }
    assert(lost.subset_of(told));
    lemma_sorted_set(lost);
    let tail = sorted(lost);
    let none = Seq::<Seq<char>>::empty();
    assert(none + scan.dropped + tail =~= scan.dropped + tail);
    assert(cell.suppressed =~= scan.dropped + tail);
    assert forall|x: int| gone.len() <= x < cell.suppressed.len() implies some_view_mentions(
        views,
        custom,
        #[trigger] cell.suppressed[x],
    ) by {
        let k = cell.suppressed[x];
        assert(k == tail[x - gone.len()]);
        assert(tail.to_set().contains(k));
        let i = choose|i: int|
            0 <= i < views.len() && scrubbed_key(#[trigger] views[i], custom, all, k);
        lemma_mentions(views[i], custom, k);
    }
    assert forall|k: Seq<char>|
        some_view_mentions(views, custom, k) && !may_be_told(
            trace,
            n,
            k,
        ) implies #[trigger] cell.suppressed.contains(k) by {
        let i = choose|i: int|
            0 <= i < views.len() && has_fields(views[i]) && issue_mentions(#[trigger] views[i], custom, k);
        lemma_mentions(views[i], custom, k);
        if admits(all, k) {
            lemma_may_be_told(trace, n, k);
        }
        assert(scrubbed_key(views[i], custom, all, k));
        assert(lost.contains(k));
        assert(tail.to_set().contains(k));
        let y = choose|y: int| 0 <= y < tail.len() && tail[y] == k;
        assert(cell.suppressed[scan.dropped.len() + y] == k);
    }
    gone
}

/// Whatever the site answers, a search that is answered is recorded as it went,
/// by the page and the issues that the answer is made of.
pub proof fn a_search_is_recorded(trace: Trace, n: int)
    requires
        0 <= n <= trace.inputs.len(),
        of_a_file(trace.keep),
        trace.call is IssuesSearch || trace.call is SearchFilter,
        plain_fields(trace.keep.policy.global.link_custom_fields),
        trace.after(n).1 matches StepView::Finish(OutcomeView::Success(_)),
    ensures
        exists|j: int, to: int, page: JsonView, at: Seq<int>, views: Seq<JsonView>, gone: Seq<int>|
            #[trigger] search_kept(
                trace,
                n,
                j,
                to,
                page,
                at,
                views,
                trace.after(n).1->Finish_0->Success_0,
            ) && #[trigger] search_recorded(trace, n, j, page, views, gone),
{
    search_shows_only_visible_issues(trace, n);
    let result = trace.after(n).1->Finish_0->Success_0;
    let (j, scan, extra) = choose|j: int, scan: ScanView, extra: Set<Seq<char>>|
        {
            let window = #[trigger] window_of(trace.keep.policy, scan, extra);
            &&& #[trigger] scanned_in_run(trace, n, j, scan)
            &&& disclosed_from(trace, n, j + 1, scan.candidates, extra)
            &&& result == search_result(window)
            &&& trace.after(n).0.cell == search_noted(blank_cell(), window)
            &&& forall|i: int|
                0 <= i < window.issues.len() ==> names_only_visible(
                    trace,
                    n,
                    #[trigger] window.issues[i],
                )
            &&& forall|k: Seq<char>| #[trigger]
                admits(scan.disclosable.union(extra), k) ==> shown_visible(trace, n, k)
        };
    lemma_search_kept(trace, n, j, scan, extra);
    let (to, at) = choose|to: int, at: Seq<int>| #[trigger]
        search_kept(
            trace,
            n,
            j,
            to,
            trace.document(j)->0,
            at,
            scan.visible,
            search_result(window_of(trace.keep.policy, scan, extra)),
        );
    let gone = lemma_search_recorded(trace, n, j, scan, extra);
    assert(search_kept(trace, n, j, to, trace.document(j)->0, at, scan.visible, result));
}

// --- issue details ----------------------------------------------------------

/// Issue details are recorded as they are answered: the keys that the answer
/// lists as restricted and how many they are, and then `more` keys; and that
/// something was served, if anything was.
pub open spec fn details_recorded(cell: CellView, result: JsonView, more: Seq<Seq<char>>) -> bool {
    let issues = result.items_at("issues"@);
    let restricted = result.items_at("restricted"@);
    &&& issues is Some && restricted is Some
    &&& cell.verdict == if issues->0.len() > 0 {
        Some(Verdict::Served)
    } else {
        None
    }
    &&& cell.rule is Some <==> issues->0.len() > 0
    &&& cell.scan is None
    &&& cell.suppressed_count is Some <==> restricted->0.len() > 0
    &&& cell.suppressed_count is Some ==> cell.suppressed_count->0 == restricted->0.len()
    &&& cell.suppressed.len() == restricted->0.len() + more.len()
    &&& forall|i: int|
        0 <= i < restricted->0.len() ==> restricted->0[i] == JsonView::Text(
            #[trigger] cell.suppressed[i],
        )
    &&& forall|x: int|
        0 <= x < more.len() ==> cell.suppressed[restricted->0.len() + x] == #[trigger] more[x]
}

/// What is noted while issue details are under way.
spec fn tidy(cell: CellView, info: InfoView) -> bool {
    &&& cell.suppressed.len() == 0
    &&& cell.suppressed_count is None
    &&& cell.scan is None
    &&& cell.verdict == if info.issues.len() > 0 {
        Some(Verdict::Served)
    } else {
        None
    }
    &&& cell.rule is Some <==> info.issues.len() > 0
    &&& info.issues.len() + info.restricted.len() <= info.next <= info.keys.len() <= 25
}

/// Issue details go on, or are over, and nothing more has been taken out.
spec fn goes_on_noted(after: (RunView, StepView), more: Seq<Seq<char>>) -> bool {
    match after.0.stage {
        StageView::Full { info, .. } => tidy(after.0.cell, info) && info.scrubbed == more
            && info.next < info.keys.len() && after.1 is Call,
        StageView::Done => (after.1 matches StepView::Finish(OutcomeView::Success(_)))
            && details_recorded(after.0.cell, after.1->Finish_0->Success_0, more),
        _ => false,
    }
}

proof fn lemma_ended_noted(run: RunView, info: InfoView)
    requires
        tidy(run.cell, info),
    ensures
        goes_on_noted(info_ended(run, info), info.scrubbed),
{
    let after = info_ended(run, info);
    let result = after.1->Finish_0->Success_0;
    assert(result == crate::visibility::details_result(info));
    lemma_details_members(info);
    let restricted = result.items_at("restricted"@)->0;
    assert(restricted.len() == info.restricted.len());
    let none = run.cell.suppressed;
    assert(none + info.restricted + info.scrubbed =~= info.restricted + info.scrubbed);
    assert(after.0.cell.suppressed =~= info.restricted + info.scrubbed);
}

proof fn lemma_goes_on_noted(keep: KeepView, run: RunView, info: InfoView)
    requires
        tidy(run.cell, info),
    ensures
        goes_on_noted(info_goes_on(keep, run, info), info.scrubbed),
    decreases info.keys.len() - info.next,
{
    if info.next >= info.keys.len() {
        lemma_ended_noted(run, info);
    } else {
        let skipped = InfoView {
            next: info.next + 1,
            restricted: info.restricted.push(info.keys[info.next]),
            ..info
        };
        lemma_goes_on_noted(keep, run, skipped);
        if let Some((access, body)) = info.entries[info.next] {
            if let Some(summary) = projected(access, body) {
                lemma_goes_on_noted(
                    keep,
                    RunView { cell: served_noted(run.cell, access), ..run },
                    InfoView { next: info.next + 1, issues: info.issues.push(summary), ..info },
                );
            }
        }
    }
}

/// What is noted so far of a call for issue details.
spec fn noted_so_far(trace: Trace, n: int) -> bool {
    let after = trace.after(n);
    &&& after.0.call == trace.call
    &&& after.0.stage is Done || after.1 is Call
    &&& match after.0.stage {
        StageView::Identity => after.0.cell == blank_cell(),
        StageView::Keys { keys, .. } => after.0.cell == blank_cell() && keys.len() <= 25,
        StageView::Full { info, .. } => tidy(after.0.cell, info) && info.next < info.keys.len(),
        StageView::Linked { pending: PendingView::Issue { info, .. }, .. } => tidy(
            after.0.cell,
            info,
        ) && info.next < info.keys.len(),
        StageView::Done => (after.1 matches StepView::Finish(OutcomeView::Success(_)))
            ==> exists|more: Seq<Seq<char>>| #[trigger]
            details_recorded(after.0.cell, after.1->Finish_0->Success_0, more),
        _ => false,
    }
}

/// All that an issue names is assessed, and what is taken out of it joins what
/// is noted.
pub open spec fn with_more(
    keep: KeepView,
    info: InfoView,
    body: JsonView,
    disclosable: Set<Seq<char>>,
) -> InfoView {
    let custom = keep.policy.global.link_custom_fields;
    InfoView {
        next: info.next + 1,
        issues: info.issues.push(scrubbed(body, custom, disclosable)),
        scrubbed: info.scrubbed + sorted(
            Set::new(|k: Seq<char>| scrubbed_key(body, custom, disclosable, k)),
        ),
        ..info
    }
}

proof fn lemma_linked_noted(
    keep: KeepView,
    run: RunView,
    named: Set<Seq<char>>,
    replies: Seq<Option<JsonView>>,
    info: InfoView,
    access: AccessView,
    body: JsonView,
    now: int,
)
    requires
        tidy(run.cell, info),
        info.next < info.keys.len(),
        replies.len() >= fetch_list(sorted(named)).len(),
    ensures
        goes_on_noted(
            linked_fetched(
                keep,
                run,
                named,
                replies,
                PendingView::Issue { info, access, body },
                now,
            ),
            with_more(
                keep,
                info,
                body,
                disclosed_keys(keep.policy, named, replies, run.caller, now),
            ).scrubbed,
        ),
{
    let disclosable = disclosed_keys(keep.policy, named, replies, run.caller, now);
    let next = with_more(keep, info, body, disclosable);
    let noted = RunView { cell: served_noted(run.cell, access), ..run };
    lemma_goes_on_noted(keep, noted, next);
}

proof fn lemma_fetched_noted(
    keep: KeepView,
    run: RunView,
    keys: Seq<Seq<char>>,
    replies: Seq<Option<JsonView>>,
    now: int,
)
    requires
        run.cell == blank_cell(),
        keys.len() <= 25,
    ensures
        ({
            let after = info_fetched(keep, run, keys, replies, now);
            ||| after.1 is Call && after.0 == RunView {
                stage: StageView::Keys { keys, replies },
                ..run
            }
            ||| goes_on_noted(after, Seq::empty())
        }),
{
    if replies.len() >= fetch_list(keys).len() {
        let info = InfoView {
            keys,
            entries: Seq::new(
                keys.len(),
                |i: int| assessment_of(keep.policy, keys, replies, run.caller, now, keys[i]),
            ),
            next: 0,
            issues: Seq::empty(),
            restricted: Seq::empty(),
            scrubbed: Seq::empty(),
        };
        lemma_goes_on_noted(keep, run, info);
    }
}

proof fn lemma_noted(trace: Trace, n: int)
    requires
        trace.call is IssueInfo,
        of_a_file(trace.keep),
        0 <= n <= trace.inputs.len(),
    ensures
        noted_so_far(trace, n),
    decreases n,
{
    let keep = trace.keep;
    let p = trace.call->IssueInfo_0;
    let keys = cleaned(texts(p.keys@));
    a_run_keeps_its_call(trace, n);
    if n == 0 {
        let run = fresh(trace.call, trace.creds);
        if keys.len() <= 25 {
            lemma_fetched_noted(keep, run, keys, Seq::empty(), trace.start);
        }
    } else {
        lemma_noted(trace, n - 1);
        let before = trace.after(n - 1).0;
        let idle = RunView { stage: StageView::Done, ..before };
        let (event, now) = trace.inputs[n - 1];
        match before.stage {
            StageView::Identity => {
                let known = RunView {
                    caller: resolved(keep.policy, account_id_of(event.document())),
                    ..idle
                };
                if keys.len() <= 25 {
                    lemma_fetched_noted(keep, known, keys, Seq::empty(), now);
                }
            },
            StageView::Keys { keys: k, replies } => {
                lemma_fetched_noted(keep, idle, k, replies.push(trace.document(n - 1)), now);
            },
            StageView::Full { info, access, body } => {
                let full = ungated_issue(
                    access,
                    match event.document() {
                        Ok(v) => v,
                        Err(_) => body,
                    },
                );
                let named = issue_keys(keep.policy, info.keys[info.next], full);
                if fetch_list(sorted(named)).len() == 0 {
                    lemma_linked_noted(keep, idle, named, Seq::empty(), info, access, full, now);
                }
            },
            StageView::Linked {
                named,
                replies,
                pending: PendingView::Issue { info, access, body },
            } => {
                let all = replies.push(trace.document(n - 1));
                if all.len() >= fetch_list(sorted(named)).len() {
                    lemma_linked_noted(keep, idle, named, all, info, access, body, now);
                }
            },
            _ => {},
        }
    }
}

/// Whatever the site answers, issue details that are answered are recorded as
/// they are: with the keys that the answer lists as restricted, and how many.
pub proof fn details_are_recorded(trace: Trace, n: int)
    requires
        0 <= n <= trace.inputs.len(),
        of_a_file(trace.keep),
        trace.call is IssueInfo,
        trace.after(n).1 matches StepView::Finish(OutcomeView::Success(_)),
    ensures
        exists|more: Seq<Seq<char>>| #[trigger]
            details_recorded(
                trace.after(n).0.cell,
                trace.after(n).1->Finish_0->Success_0,
                more,
            ),
{
    lemma_noted(trace, n);
}

/// A key is noted as taken out, or will be.
spec fn key_held(after: (RunView, StepView), key: Seq<char>) -> bool {
    match after.0.stage {
        StageView::Full { info, .. } => info.scrubbed.contains(key),
        StageView::Linked { pending: PendingView::Issue { info, .. }, .. } => {
            info.scrubbed.contains(key)
        },
        StageView::Done => (after.1 matches StepView::Finish(OutcomeView::Success(_)))
            ==> after.0.cell.suppressed.contains(key),
        _ => false,
    }
}

proof fn lemma_goes_on_held(after: (RunView, StepView), more: Seq<Seq<char>>, key: Seq<char>)
    requires
        goes_on_noted(after, more),
        more.contains(key),
    ensures
        key_held(after, key),
{
    if after.0.stage is Done {
        let restricted = after.1->Finish_0->Success_0.items_at("restricted"@)->0;
        let x = choose|x: int| 0 <= x < more.len() && more[x] == key;
        assert(after.0.cell.suppressed[restricted.len() + x] == key);
    }
}

proof fn lemma_key_held(trace: Trace, n: int, key: Seq<char>)
    requires
        trace.call is IssueInfo,
        of_a_file(trace.keep),
        0 <= n < trace.inputs.len(),
        key_held(trace.after(n), key),
    ensures
        key_held(trace.after(n + 1), key),
{
    lemma_noted(trace, n);
    let keep = trace.keep;
    let before = trace.after(n).0;
    let idle = RunView { stage: StageView::Done, ..before };
    let (event, now) = trace.inputs[n];
    match before.stage {
        StageView::Full { info, access, body } => {
            let full = ungated_issue(
                access,
                match event.document() {
                    Ok(v) => v,
                    Err(_) => body,
                },
            );
            let named = issue_keys(keep.policy, info.keys[info.next], full);
            if fetch_list(sorted(named)).len() == 0 {
                lemma_linked_noted(keep, idle, named, Seq::empty(), info, access, full, now);
                lemma_more_held(
                    keep,
                    info,
                    full,
                    disclosed_keys(keep.policy, named, Seq::empty(), idle.caller, now),
                    key,
                );
                lemma_goes_on_held(
                    trace.after(n + 1),
                    with_more(
                        keep,
                        info,
                        full,
                        disclosed_keys(keep.policy, named, Seq::empty(), idle.caller, now),
                    ).scrubbed,
                    key,
                );
            }
        },
        StageView::Linked { named, replies, pending: PendingView::Issue { info, access, body } } => {
            let all = replies.push(trace.document(n));
            if all.len() >= fetch_list(sorted(named)).len() {
                let disclosable = disclosed_keys(keep.policy, named, all, idle.caller, now);
                lemma_linked_noted(keep, idle, named, all, info, access, body, now);
                lemma_more_held(keep, info, body, disclosable, key);
                lemma_goes_on_held(
                    trace.after(n + 1),
                    with_more(keep, info, body, disclosable).scrubbed,
                    key,
                );
            }
        },
        _ => {},
    }
}

proof fn lemma_more_held(
    keep: KeepView,
    info: InfoView,
    body: JsonView,
    disclosable: Set<Seq<char>>,
    key: Seq<char>,
)
    ensures
        info.scrubbed.contains(key) || (has_fields(body) && issue_mentions(
            body,
            keep.policy.global.link_custom_fields,
            key,
        ) && !admits(disclosable, key)) ==> with_more(
            keep,
            info,
            body,
            disclosable,
        ).scrubbed.contains(key),
{
    let custom = keep.policy.global.link_custom_fields;
    let all = with_more(keep, info, body, disclosable).scrubbed;
    if info.scrubbed.contains(key) {
        let x = choose|x: int| 0 <= x < info.scrubbed.len() && info.scrubbed[x] == key;
        assert(all[x] == key);
    } else if has_fields(body) && issue_mentions(body, custom, key) && !admits(disclosable, key) {
        let lost = Set::new(|k: Seq<char>| scrubbed_key(body, custom, disclosable, k));
        let told = Set::new(|k: Seq<char>| issue_mentions(body, custom, k));
        lemma_mentions_finite(body, custom);
        assert forall|k: Seq<char>| #[trigger] lost.contains(k) implies told.contains(k) by {
            lemma_mentions(body, custom, k);
        }
        assert(lost.subset_of(told));
        lemma_sorted_set(lost);
        lemma_mentions(body, custom, key);
        assert(lost.contains(key));
        assert(sorted(lost).to_set().contains(key));
        let y = choose|y: int| 0 <= y < sorted(lost).len() && sorted(lost)[y] == key;
        assert(all[info.scrubbed.len() + y] == key);
    }
}

/// Whatever the site answers, a key that an issue mentions is recorded once the
/// issue is served without it: where all that the issue mentions has been
/// assessed, and the run has not shown that key to be visible.
pub proof fn what_details_leave_out_is_recorded(trace: Trace, m: int, n: int, key: Seq<char>)
    requires
        0 <= m < n <= trace.inputs.len(),
        of_a_file(trace.keep),
        trace.call is IssueInfo,
        trace.after(m).0.stage is Linked,
        !(trace.after(m + 1).0.stage is Linked),
        trace.after(m).0.stage->Linked_pending is Issue,
        has_fields(trace.after(m).0.stage->Linked_pending->Issue_body),
        issue_mentions(
            trace.after(m).0.stage->Linked_pending->Issue_body,
            trace.keep.policy.global.link_custom_fields,
            key,
        ),
        !may_be_told(trace, m + 1, key),
        trace.after(n).1 matches StepView::Finish(OutcomeView::Success(_)),
    ensures
        trace.after(n).0.cell.suppressed.contains(key),
{
    lemma_noted(trace, m);
    lemma_noted(trace, n);
    let keep = trace.keep;
    let before = trace.after(m).0;
    let idle = RunView { stage: StageView::Done, ..before };
    let now = trace.inputs[m].1;
    if let StageView::Linked {
        named,
        replies,
        pending: PendingView::Issue { info, access, body },
    } = before.stage {
        let all = replies.push(trace.document(m));
        let disclosable = disclosed_keys(keep.policy, named, all, idle.caller, now);
        assert(all.len() >= fetch_list(sorted(named)).len());
        if admits(disclosable, key) {
            lemma_details_disclosed(trace, m + 1, named, replies, info, access, body, key);
            lemma_may_be_told(trace, m + 1, key);
        }
        lemma_linked_noted(keep, idle, named, all, info, access, body, now);
        lemma_more_held(keep, info, body, disclosable, key);
        lemma_goes_on_held(
            trace.after(m + 1),
            with_more(keep, info, body, disclosable).scrubbed,
            key,
        );
    }
    lemma_held_on(trace, m + 1, n, key);
}

proof fn lemma_held_on(trace: Trace, m: int, n: int, key: Seq<char>)
    requires
        trace.call is IssueInfo,
        of_a_file(trace.keep),
        0 <= m <= n <= trace.inputs.len(),
        key_held(trace.after(m), key),
    ensures
        key_held(trace.after(n), key),
    decreases n - m,
{
    if m < n {
        lemma_held_on(trace, m, n - 1, key);
        lemma_key_held(trace, n - 1, key);
    }
}

// --- refusals ---------------------------------------------------------------

/// A call that is refused before the site is asked is recorded as that: where the
/// policy does not let an issue be filed, and where there are too many keys.
pub proof fn a_refused_call_is_recorded(trace: Trace)
    requires
        trace.inputs.len() > 0,
    ensures
        trace.call is CreateIssue && trace.after(0).1 is Finish ==> trace.after(0).0.cell
            == (CellView { verdict: Some(Verdict::Refused), ..blank_cell() }),
        trace.call is CreateIssue && trace.after(0).1 is Call ==> trace.after(0).0.cell
            == blank_cell(),
        trace.call is IssueInfo && details_keys(trace.call).len() > 25 ==> {
            let n: int = if asks_who(trace.keep.policy) {
                1
            } else {
                0
            };
            &&& trace.after(n).1 == StepView::Finish(
                OutcomeView::Failure("at most 25 issue keys per call"@),
            )
            &&& trace.after(n).0.cell == (CellView {
                verdict: Some(Verdict::Refused),
                ..blank_cell()
            })
        },
{
    reveal_with_fuel(Trace::after, 2);
    assert(asks_who(trace.keep.policy) == crate::policy::asks_identity(trace.keep.policy));
}

/// A download that is over the limit, or whose size is not told under one, is
/// refused, with the size where that is told, and is recorded as refused.
pub proof fn a_download_over_the_limit_is_refused(trace: Trace, n: int, issue: JsonView)
    requires
        0 <= n < trace.inputs.len(),
        of_a_file(trace.keep),
        trace.call is DownloadAttachment,
        trace.after(n).0.stage is Main,
        trace.inputs[n].0.document() == Ok::<JsonView, ErrorView>(issue),
        exists|i: int|
            0 <= i < attachments_told(issue).len() && #[trigger] is_attachment(
                attachments_told(issue)[i],
                trace.call->DownloadAttachment_0.attachment_id@,
            ),
        forall|i: int|
            0 <= i < attachments_told(issue).len() && is_attachment(
                #[trigger] attachments_told(issue)[i],
                trace.call->DownloadAttachment_0.attachment_id@,
            ) ==> !size_allowed(trace.keep, attachments_told(issue)[i]),
    ensures
        trace.after(n + 1).0.cell.verdict == Some(Verdict::Refused),
        trace.after(n + 1).1 is Finish && trace.after(n + 1).1->Finish_0 is Failure,
        exists|i: int|
            0 <= i < attachments_told(issue).len() && trace.after(n + 1).1 == StepView::Finish(
                OutcomeView::Failure(over_the_limit(#[trigger] attachments_told(issue)[i])),
            ),
{
    a_run_keeps_its_call(trace, n);
    let items = attachments_told(issue);
    let id = trace.call->DownloadAttachment_0.attachment_id@;
    lemma_attachment_with(items, id);
    let meta = crate::flow::attachment_with(items, id)->0;
    let i = choose|i: int| 0 <= i < items.len() && items[i] == meta;
    assert(items[i] == meta);
    assert(!size_allowed(trace.keep, items[i]));
}

/// The metadata tells a size that the policy allows, or the policy allows any.
pub open spec fn size_allowed(keep: KeepView, meta: JsonView) -> bool {
    keep.policy.global.max_attachment_bytes == 0 || (meta.get("size"@) matches Some(
        JsonView::Unsigned(size),
    ) && size <= keep.policy.global.max_attachment_bytes)
}

/// What is said of an attachment over the limit.
pub open spec fn over_the_limit(meta: JsonView) -> Seq<char> {
    match meta.get("size"@) {
        Some(JsonView::Unsigned(size)) => "attachment exceeds max_attachment_bytes ("@ + numeral(
            size,
        ) + " bytes)"@,
        _ => "attachment exceeds max_attachment_bytes (size unknown)"@,
    }
}

// --- the rule behind issue details ------------------------------------------

/// Where the last of the keys of a call for details is that of an issue that may
/// be read, the record names the rule that lets it be.
pub proof fn the_last_issue_names_the_rule(trace: Trace, n: int)
    requires
        0 <= n < trace.inputs.len(),
        of_a_file(trace.keep),
        trace.call is IssueInfo,
        trace.after(n).0.stage is Linked,
        !(trace.after(n + 1).0.stage is Linked),
        trace.after(n).0.stage->Linked_pending is Issue,
        trace.after(n).0.stage->Linked_pending->Issue_info.next + 1
            == trace.after(n).0.stage->Linked_pending->Issue_info.keys.len(),
    ensures
        trace.after(n + 1).0.cell.rule == Some(
            trace.after(n).0.stage->Linked_pending->Issue_access.rule_name(),
        ),
        trace.after(n + 1).0.cell.verdict == Some(Verdict::Served),
{
    lemma_noted(trace, n);
    reveal_with_fuel(info_goes_on, 2);
    let run = trace.after(n).0;
    let (event, now) = trace.inputs[n];
    assert(trace.after(n + 1) == resumed(trace.keep, run, event, now));
}

/// What issue details record as taken out of an issue, the issue mentions: where
/// all that it mentions has been assessed, nothing else joins what was recorded
/// of the issues before it.
pub proof fn only_what_is_mentioned_is_recorded(
    keep: KeepView,
    info: InfoView,
    body: JsonView,
    disclosable: Set<Seq<char>>,
    x: int,
)
    requires
        info.scrubbed.len() <= x < with_more(keep, info, body, disclosable).scrubbed.len(),
    ensures
        issue_mentions(
            body,
            keep.policy.global.link_custom_fields,
            with_more(keep, info, body, disclosable).scrubbed[x],
        ),
{
    let custom = keep.policy.global.link_custom_fields;
    let lost = Set::new(|k: Seq<char>| scrubbed_key(body, custom, disclosable, k));
    let told = Set::new(|k: Seq<char>| issue_mentions(body, custom, k));
    lemma_mentions_finite(body, custom);
    assert forall|k: Seq<char>| #[trigger] lost.contains(k) implies told.contains(k) by {
        lemma_mentions(body, custom, k);
    }
    assert(lost.subset_of(told));
    lemma_sorted_set(lost);
    let key = with_more(keep, info, body, disclosable).scrubbed[x];
    assert(key == sorted(lost)[x - info.scrubbed.len()]);
    assert(sorted(lost).to_set().contains(key));
}

} // verus!
