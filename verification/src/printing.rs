//! What the program prints of itself: its manual page, its settings in the log,
//! and documents as text.

use vstd::prelude::*;
use vstd::string::*;

use crate::config::{cli_text, quoted, Cli, Transport};
use crate::flow::OutcomeView;
use crate::json::{decimal_number, json_pretty, written, JsonView};
use crate::manual::{
    environment, hyphens_escaped, page, synopsis, upper_case, usages, variables, ManualOption,
};
use crate::text::numeral;

verus! {

// --- the manual page --------------------------------------------------------

/// Hyphens are escaped one by one, where they stand, and nothing else changes.
pub proof fn hyphens_are_escaped_where_they_stand(a: Seq<char>, b: Seq<char>, c: char)
    ensures
        hyphens_escaped(a + b) == hyphens_escaped(a) + hyphens_escaped(b),
        c != '-' ==> hyphens_escaped(seq![c]) == seq![c],
        hyphens_escaped(seq!['-']) == seq!['\\', '-'],
        hyphens_escaped(Seq::empty()).len() == 0,
    decreases b.len(),
{
    assert(seq![c].drop_last() =~= Seq::<char>::empty());
    assert(seq!['-'].drop_last() =~= Seq::<char>::empty());
    assert(hyphens_escaped(seq![c].drop_last()) =~= Seq::<char>::empty());
    assert(Seq::<char>::empty().push(c) =~= seq![c]);
    assert(Seq::<char>::empty().push('\\').push('-') =~= seq!['\\', '-']);
    if b.len() == 0 {
        assert(a + b =~= a);
        assert(hyphens_escaped(a) + hyphens_escaped(b) =~= hyphens_escaped(a));
    } else {
        hyphens_are_escaped_where_they_stand(a, b.drop_last(), c);
        assert((a + b).drop_last() =~= a + b.drop_last());
        assert((a + b).last() == b.last());
        assert(hyphens_escaped(a + b) =~= hyphens_escaped(a) + hyphens_escaped(b));
    }
}

/// How an option is used, on a line of the manual page: in brackets where it may
/// be left out, and with what its value is called where it takes one.
pub open spec fn usage_line(option: ManualOption) -> Seq<char> {
    let flag = "\\fB\\-\\-"@ + hyphens_escaped(option.long@) + "\\fR"@;
    let value = " <"@ + (match option.value_name {
        Some(name) => name@,
        None => upper_case(option.id@),
    }) + ">"@;
    if option.required && option.takes_value {
        flag + value + "\n"@
    } else if option.required {
        flag + "\n"@
    } else if option.takes_value {
        "["@ + (flag + value) + "]\n"@
    } else {
        "["@ + flag + "]\n"@
    }
}

/// The options have a line each in the synopsis, in their order, but for those
/// that every program has.
pub proof fn every_option_has_a_line(
    before: Seq<ManualOption>,
    option: ManualOption,
    after: Seq<ManualOption>,
)
    ensures
        usages(before + seq![option] + after) == usages(before) + usages(seq![option]) + usages(
            after,
        ),
        option.id@ == "help"@ || option.id@ == "version"@ ==> usages(seq![option]).len() == 0,
        option.id@ != "help"@ && option.id@ != "version"@ ==> usages(seq![option]) == usage_line(
            option,
        ),
    decreases after.len(),
{
    assert(seq![option].drop_last() =~= Seq::<ManualOption>::empty());
    assert(usages(seq![option].drop_last()) =~= Seq::<char>::empty());
    assert(Seq::<char>::empty() + option.usage(option.metavar()) =~= option.usage(
        option.metavar(),
    ));
    let all = before + seq![option] + after;
    if after.len() == 0 {
        assert(all =~= before.push(option));
        assert(all.drop_last() =~= before);
        assert(usages(all) =~= usages(before) + usages(seq![option]) + usages(after));
    } else {
        every_option_has_a_line(before, option, after.drop_last());
        assert(all.drop_last() =~= before + seq![option] + after.drop_last());
        assert(all.last() == after.last());
        assert(usages(all) =~= usages(before) + usages(seq![option]) + usages(after));
    }
}

/// Every variable that stands in for an option has its entry, in the order of the
/// options.
pub proof fn every_variable_has_an_entry(
    before: Seq<ManualOption>,
    option: ManualOption,
    after: Seq<ManualOption>,
)
    ensures
        variables(before + seq![option] + after) == variables(before) + variables(seq![option])
            + variables(after),
        match option.env {
            Some(name) => variables(seq![option]) == ".TP\n.B "@ + name@
                + "\nFallback for \\fB\\-\\-"@ + hyphens_escaped(option.long@) + "\\fR.\n"@,
            None => variables(seq![option]).len() == 0,
        },
    decreases after.len(),
{
    assert(seq![option].drop_last() =~= Seq::<ManualOption>::empty());
    assert(variables(seq![option].drop_last()) =~= Seq::<char>::empty());
    if let Some(name) = option.env {
        reveal_strlit("\n");
        reveal_strlit("Fallback for \\fB\\-\\-");
        reveal_strlit("\nFallback for \\fB\\-\\-");
        assert("\n"@ + "Fallback for \\fB\\-\\-"@ =~= "\nFallback for \\fB\\-\\-"@);
        assert(variables(seq![option]) =~= ".TP\n.B "@ + name@ + ("\n"@
            + "Fallback for \\fB\\-\\-"@) + hyphens_escaped(option.long@) + "\\fR.\n"@);
    }
    let all = before + seq![option] + after;
    if after.len() == 0 {
        assert(all =~= before.push(option));
        assert(all.drop_last() =~= before);
        assert(variables(all) =~= variables(before) + variables(seq![option]) + variables(after));
    } else {
        every_variable_has_an_entry(before, option, after.drop_last());
        assert(all.drop_last() =~= before + seq![option] + after.drop_last());
        assert(all.last() == after.last());
        assert(variables(all) =~= variables(before) + variables(seq![option]) + variables(after));
    }
}

/// `part` stands in `text` behind `from` characters.
pub open spec fn stands_at(text: Seq<char>, from: int, part: Seq<char>) -> bool {
    0 <= from <= from + part.len() <= text.len() && text.subrange(from, from + part.len()) == part
}

/// The manual page has its sections one behind the other: what it is given as
/// the name, the usage of the options, what it is given as the description and as
/// the list of options, and the variables.
pub proof fn the_page_has_its_sections_in_order(
    version: Seq<char>,
    name: Seq<char>,
    description: Seq<char>,
    listing: Seq<char>,
    options: Seq<ManualOption>,
)
    ensures
        ({
            let text = page(version, name, description, listing, options);
            let title = ".TH jirakeep 1 \"\" \"jirakeep "@ + version
                + "\" \"General Commands Manual\"\n"@;
            let usage = title.len() + name.len();
            let what = usage + synopsis(options).len();
            let list = what + description.len();
            let ends = list + listing.len() + crate::manual::EXIT_STATUS@.len();
            &&& stands_at(text, 0, title)
            &&& stands_at(text, title.len() as int, name)
            &&& stands_at(text, usage as int, synopsis(options))
            &&& stands_at(text, what as int, description)
            &&& stands_at(text, list as int, listing)
            &&& stands_at(text, ends as int, environment(options))
        }),
        ({
            let head = ".SH SYNOPSIS\n\\fBjirakeep\\fR\n"@;
            stands_at(synopsis(options), 0, head) && stands_at(
                synopsis(options),
                head.len() as int,
                usages(options),
            )
        }),
        environment(options).len() >= variables(options).len() && stands_at(
            environment(options),
            environment(options).len() - variables(options).len(),
            variables(options),
        ),
{
    let text = page(version, name, description, listing, options);
    let title = ".TH jirakeep 1 \"\" \"jirakeep "@ + version
        + "\" \"General Commands Manual\"\n"@;
    let usage = title.len() + name.len();
    let what = usage + synopsis(options).len();
    let list = what + description.len();
    let ends = list + listing.len() + crate::manual::EXIT_STATUS@.len();
    assert(text.subrange(0, title.len() as int) =~= title);
    assert(text.subrange(title.len() as int, usage as int) =~= name);
    assert(text.subrange(usage as int, what as int) =~= synopsis(options));
    assert(text.subrange(what as int, list as int) =~= description);
    assert(text.subrange(list as int, (list + listing.len()) as int) =~= listing);
    assert(text.subrange(ends as int, (ends + environment(options).len()) as int)
        =~= environment(options));
    let head = ".SH SYNOPSIS\n\\fBjirakeep\\fR\n"@;
    assert(synopsis(options).subrange(0, head.len() as int) =~= head);
    assert(synopsis(options).subrange(
        head.len() as int,
        (head.len() + usages(options).len()) as int,
    ) =~= usages(options));
    let env = environment(options);
    assert(env.subrange(env.len() - variables(options).len(), env.len() as int) =~= variables(
        options,
    ));
}

// --- the settings in the log ------------------------------------------------

/// `value` is told in `text` behind a label.
pub open spec fn tells_of(text: Seq<char>, label: Seq<char>, value: Seq<char>) -> bool {
    exists|from: int| #[trigger] stands_at(text, from, label + value)
}

/// The log tells every setting by its name: what it is where that may be known,
/// and of a secret only whether there is one.
pub proof fn the_log_tells_every_setting(cli: Cli)
    ensures
        tells_of(cli_text(cli), "jira_server: "@, quoted(cli.jira_server@)),
        tells_of(
            cli_text(cli),
            ", transport: "@,
            if cli.transport == Transport::Http {
                "Http"@
            } else {
                "Stdio"@
            },
        ),
        tells_of(cli_text(cli), ", host: "@, quoted(cli.host@)),
        tells_of(cli_text(cli), ", port: "@, numeral(cli.port as nat)),
        tells_of(cli_text(cli), ", api_key_header: "@, quoted(cli.api_key_header@)),
        tells_of(cli_text(cli), ", api_key: "@, told_secret(cli.api_key)),
        tells_of(cli_text(cli), ", api_key_file: "@, told_path(cli.api_key_file)),
        tells_of(cli_text(cli), ", email: "@, told_secret(cli.email)),
        tells_of(cli_text(cli), ", email_file: "@, told_path(cli.email_file)),
        tells_of(
            cli_text(cli),
            ", read_only: "@,
            if cli.read_only {
                "true"@
            } else {
                "false"@
            },
        ),
        tells_of(cli_text(cli), ", policy: "@, told_path(cli.policy)),
{
    let text = cli_text(cli);
    reveal_strlit("Cli { jira_server: ");
    reveal_strlit("jira_server: ");
    reveal_strlit("Cli { ");
    assert("Cli { jira_server: "@ =~= "Cli { "@ + "jira_server: "@);
    let p0 = "Cli { "@ + "jira_server: "@ + quoted(cli.jira_server@);
    let p1 = p0 + ", transport: "@ + match cli.transport {
        Transport::Http => "Http"@,
        Transport::Stdio => "Stdio"@,
    };
    let p2 = p1 + ", host: "@ + quoted(cli.host@);
    let p3 = p2 + ", port: "@ + numeral(cli.port as nat);
    let p4 = p3 + ", api_key_header: "@ + quoted(cli.api_key_header@);
    let p5 = p4 + ", api_key: "@ + told_secret(cli.api_key);
    let p6 = p5 + ", api_key_file: "@ + told_path(cli.api_key_file);
    let p7 = p6 + ", email: "@ + told_secret(cli.email);
    let p8 = p7 + ", email_file: "@ + told_path(cli.email_file);
    let read_only = if cli.read_only {
        "true"@
    } else {
        "false"@
    };
    let p9 = p8 + ", read_only: "@ + read_only;
    let p10 = p9 + ", policy: "@ + told_path(cli.policy);
    assert(text == p10 + " }"@);
    assert(text.take(p10.len() as int) =~= p10);
    lemma_told(text, p9, ", policy: "@, told_path(cli.policy));
    lemma_told(text, p8, ", read_only: "@, read_only);
    lemma_told(text, p7, ", email_file: "@, told_path(cli.email_file));
    lemma_told(text, p6, ", email: "@, told_secret(cli.email));
    lemma_told(text, p5, ", api_key_file: "@, told_path(cli.api_key_file));
    lemma_told(text, p4, ", api_key: "@, told_secret(cli.api_key));
    lemma_told(text, p3, ", api_key_header: "@, quoted(cli.api_key_header@));
    lemma_told(text, p2, ", port: "@, numeral(cli.port as nat));
    lemma_told(text, p1, ", host: "@, quoted(cli.host@));
    lemma_told(
        text,
        p0,
        ", transport: "@,
        match cli.transport {
            Transport::Http => "Http"@,
            Transport::Stdio => "Stdio"@,
        },
    );
    lemma_told(text, "Cli { "@, "jira_server: "@, quoted(cli.jira_server@));
}

/// `text` begins with `head`.
spec fn headed(text: Seq<char>, head: Seq<char>) -> bool {
    head.len() <= text.len() && text.take(head.len() as int) == head
}

proof fn lemma_told(text: Seq<char>, head: Seq<char>, label: Seq<char>, value: Seq<char>)
    requires
        headed(text, head + label + value),
    ensures
        headed(text, head),
        tells_of(text, label, value),
{
    let whole = head + label + value;
    let part = label + value;
    let from = head.len() as int;
    assert(text.take(from) =~= whole.take(from));
    assert(whole.take(from) =~= head);
    assert(text.subrange(from, from + part.len()) =~= text.take(whole.len() as int).subrange(
        from,
        from + part.len(),
    ));
    assert(whole.subrange(from, from + part.len()) =~= part);
    assert(stands_at(text, from, part));
}

/// What is told of a secret.
pub open spec fn told_secret(secret: Option<String>) -> Seq<char> {
    if secret is Some {
        "Some(\"<redacted>\")"@
    } else {
        "None"@
    }
}

/// What is told of the path of a file.
pub open spec fn told_path(path: Option<String>) -> Seq<char> {
    match path {
        Some(p) => "Some("@ + quoted(p@) + ")"@,
        None => "None"@,
    }
}

// --- documents --------------------------------------------------------------

/// A document is written as what it is: each text, flag and number, each item of
/// a list at its place and each member of an object under its name. A decimal
/// number that none can be made of is written as its text.
pub proof fn a_document_is_written_as_it_is(document: JsonView, i: int, name: Seq<char>)
    ensures
        document is Null || document is Bool || document is Unsigned || document is Text
            ==> written(document) == document,
        document matches JsonView::Negative(n) ==> n < 0 ==> written(document) == document,
        document matches JsonView::Decimal(text) ==> written(document) == (
        match decimal_number(text) {
            Some(number) => number,
            None => JsonView::Text(text),
        }),
        document matches JsonView::Array(items) ==> (written(document) matches JsonView::Array(out)
            && out.len() == items.len() && (0 <= i < items.len() ==> out[i] == written(items[i]))),
        document matches JsonView::Object(members) ==> members.dom().finite() ==> (written(
            document,
        ) matches JsonView::Object(out) && out.dom() == members.dom() && (members.dom().contains(
            name,
        ) ==> out[name] == written(members[name]))),
{
    if let JsonView::Object(members) = document {
        if let JsonView::Object(out) = written(document) {
            assert(out.dom() =~= members.dom());
        }
    }
}

/// The client is told a result as a document, and an error or a prompt as its
/// text.
pub proof fn the_client_is_told_the_outcome(document: JsonView, text: Seq<char>, more: JsonView)
    ensures
        OutcomeView::Success(document).content() == json_pretty(written(document)),
        OutcomeView::Failure(text).content() == text,
        (OutcomeView::Prompt { text, comments: more }).content() == text,
{
}

} // verus!
