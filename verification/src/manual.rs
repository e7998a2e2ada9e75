//! The manual page.

use vstd::prelude::*;
use vstd::string::*;

use crate::text::{chars_of, concat, concat3, same_text};

verus! {

/// Section on the exit status.
pub const EXIT_STATUS: &'static str = ".SH EXIT STATUS\n.TP\n.B 0\nClean shutdown.\n.TP\n.B 1\nStartup or runtime failure: an unreadable policy, a key/email\nmisconfiguration, a Jira client or transport error.\n.TP\n.B 2\nCommand\\-line usage error.\n";

/// Section on files.
pub const FILES: &'static str = ".SH FILES\n.TP\n.I /etc/jirakeep/policy.toml\nWorked example guard policy as installed by distribution packages; the\nsource tree and release archives ship it as\n.IR examples/policy.toml .\nThe server reads a policy only when one is named with\n.B \\-\\-policy\nor\n.BR JIRAKEEP_POLICY ;\nwithout one the built\\-in allow\\-all default policy applies.\n";

/// Section with examples.
pub const EXAMPLES: &'static str = ".SH EXAMPLES\nServe a local MCP client over stdio:\n.PP\n.RS 4\n.nf\njirakeep \\-\\-transport stdio \\e\n    \\-\\-jira\\-server https://example.atlassian.net \\e\n    \\-\\-email user@example.com \\e\n    \\-\\-api\\-key\\-file ~/.config/jirakeep/api\\-token \\e\n    \\-\\-policy /etc/jirakeep/policy.toml\n.fi\n.RE\n.PP\nListen on HTTP (default, 127.0.0.1:8000), each client presenting its own\ntoken in the API key header (email still required once issue tools call\nJira with Basic auth — use server\\-held mode for a full credential pair):\n.PP\n.RS 4\n.nf\njirakeep \\-\\-jira\\-server https://example.atlassian.net \\e\n    \\-\\-policy /etc/jirakeep/policy.toml\n.fi\n.RE\n";

/// An option of the command line, as the manual page tells of it.
#[derive(Debug)]
pub struct ManualOption {
    pub id: String,
    /// The long form, without the hyphens in front.
    pub long: String,
    /// The variable that stands in where the option is not given.
    pub env: Option<String>,
    pub takes_value: bool,
    /// What the value is called; where nothing is, the id in upper case.
    pub value_name: Option<String>,
    pub required: bool,
}

/// A text with its hyphens escaped.
pub open spec fn hyphens_escaped(s: Seq<char>) -> Seq<char>
    decreases s.len(),
{
    if s.len() == 0 {
        Seq::empty()
    } else if s.last() == '-' {
        hyphens_escaped(s.drop_last()).push('\\').push('-')
    } else {
        hyphens_escaped(s.drop_last()).push(s.last())
    }
}

/// A text with its hyphens escaped.
fn escape_hyphens(s: &str) -> (res: String)
    ensures
        res@ == hyphens_escaped(s@),
{
    let chars = chars_of(s);
    let mut out = String::new();
    let mut i: usize = 0;
    assert(chars@.take(0) =~= Seq::empty());
    while i < chars.len()
        invariant
            i <= chars.len(),
            chars@ == s@,
            out@ == hyphens_escaped(s@.take(i as int)),
        decreases chars.len() - i,
    {
        proof {
            assert(s@.take(i + 1).drop_last() =~= s@.take(i as int));
        }
        if chars[i] == '-' {
            out.push('\\');
        }
        out.push(chars[i]);
        i += 1;
    }
    assert(s@.take(s@.len() as int) =~= s@);
    out
}

/// A text in upper case.
pub uninterp spec fn upper_case(s: Seq<char>) -> Seq<char>;

/// `str::to_uppercase`: the text in upper case, by the Unicode mapping of the
/// standard library, which is a function of the text alone.
#[verifier::external_body]
fn to_upper(s: &str) -> (res: String)
    ensures
        res@ == upper_case(s@),
{
    s.to_uppercase()
}

impl ManualOption {
    /// What the value is called.
    pub open spec fn metavar(self) -> Seq<char> {
        match self.value_name {
            Some(name) => name@,
            None => upper_case(self.id@),
        }
    }

    /// The option in the synopsis, given what its value is called.
    pub open spec fn usage(self, metavar: Seq<char>) -> Seq<char> {
        let flag = "\\fB\\-\\-"@ + hyphens_escaped(self.long@) + "\\fR"@;
        let piece = if self.takes_value {
            flag + (" <"@ + metavar + ">"@)
        } else {
            flag
        };
        if self.required {
            piece + "\n"@
        } else {
            "["@ + piece + "]\n"@
        }
    }

    /// The option is one that every program has.
    pub open spec fn is_common(self) -> bool {
        self.id@ == "help"@ || self.id@ == "version"@
    }

    /// The option in the synopsis, given what its value is called.
    pub fn usage_text(&self, metavar: &str) -> (res: String)
        ensures
            res@ == self.usage(metavar@),
    {
        let flag = concat3("\\fB\\-\\-", escape_hyphens(self.long.as_str()).as_str(), "\\fR");
        let piece = if self.takes_value {
            concat(flag.as_str(), concat3(" <", metavar, ">").as_str())
        } else {
            flag
        };
        if self.required {
            concat(piece.as_str(), "\n")
        } else {
            concat3("[", piece.as_str(), "]\n")
        }
    }

    /// What the value is called.
    fn value_text(&self) -> (res: String)
        ensures
            res@ == self.metavar(),
    {
        match &self.value_name {
            Some(name) => name.clone(),
            None => to_upper(self.id.as_str()),
        }
    }
}

/// The options in the synopsis.
pub open spec fn usages(options: Seq<ManualOption>) -> Seq<char>
    decreases options.len(),
{
    if options.len() == 0 {
        Seq::empty()
    } else {
        let earlier = usages(options.drop_last());
        if options.last().is_common() {
            earlier
        } else {
            earlier + options.last().usage(options.last().metavar())
        }
    }
}

/// The synopsis.
pub open spec fn synopsis(options: Seq<ManualOption>) -> Seq<char> {
    ".SH SYNOPSIS\n\\fBjirakeep\\fR\n"@ + usages(options)
        + "[\\fB\\-h\\fR|\\fB\\-\\-help\\fR]\n[\\fB\\-V\\fR|\\fB\\-\\-version\\fR]\n"@
}

/// The synopsis.
pub fn render_synopsis(options: &Vec<ManualOption>) -> (res: String)
    ensures
        res@ == synopsis(options@),
{
    let mut out = String::new();
    let mut i: usize = 0;
    assert(usages(options@.take(0)) =~= out@);
    while i < options.len()
        invariant
            i <= options.len(),
            out@ == usages(options@.take(i as int)),
        decreases options.len() - i,
    {
        let option = &options[i];
        proof {
            assert(options@.take(i + 1).drop_last() =~= options@.take(i as int));
            assert(options@.take(i + 1).last() == options@[i as int]);
        }
        if !same_text(option.id.as_str(), "help") && !same_text(option.id.as_str(), "version") {
            let name = option.value_text();
            out = concat(out.as_str(), option.usage_text(name.as_str()).as_str());
        }
        i += 1;
    }
    assert(options@.take(options@.len() as int) =~= options@);
    concat3(
        ".SH SYNOPSIS\n\\fBjirakeep\\fR\n",
        out.as_str(),
        "[\\fB\\-h\\fR|\\fB\\-\\-help\\fR]\n[\\fB\\-V\\fR|\\fB\\-\\-version\\fR]\n",
    )
}

/// A variable and the option that it stands in for.
pub open spec fn variable(env: Seq<char>, long: Seq<char>) -> Seq<char> {
    (".TP\n.B "@ + env + "\n"@) + ("Fallback for \\fB\\-\\-"@ + hyphens_escaped(long) + "\\fR.\n"@)
}

/// The variables of the options.
pub open spec fn variables(options: Seq<ManualOption>) -> Seq<char>
    decreases options.len(),
{
    if options.len() == 0 {
        Seq::empty()
    } else {
        let earlier = variables(options.drop_last());
        match options.last().env {
            Some(env) => earlier + variable(env@, options.last().long@),
            None => earlier,
        }
    }
}

/// The section on the environment.
pub open spec fn environment(options: Seq<ManualOption>) -> Seq<char> {
    ".SH ENVIRONMENT\nEach variable is the fallback for one option; a command\\-line argument\nalways wins over the environment, and the built\\-in default applies when\nneither is given.\n"@
        + variables(options)
}

/// The section on the environment.
pub fn render_environment(options: &Vec<ManualOption>) -> (res: String)
    ensures
        res@ == environment(options@),
{
    let mut out = String::new();
    let mut i: usize = 0;
    assert(variables(options@.take(0)) =~= out@);
    while i < options.len()
        invariant
            i <= options.len(),
            out@ == variables(options@.take(i as int)),
        decreases options.len() - i,
    {
        let option = &options[i];
        proof {
            assert(options@.take(i + 1).drop_last() =~= options@.take(i as int));
            assert(options@.take(i + 1).last() == options@[i as int]);
        }
        if let Some(env) = &option.env {
            let entry = concat(
                concat3(".TP\n.B ", env.as_str(), "\n").as_str(),
                concat3(
                    "Fallback for \\fB\\-\\-",
                    escape_hyphens(option.long.as_str()).as_str(),
                    "\\fR.\n",
                ).as_str(),
            );
            out = concat(out.as_str(), entry.as_str());
        }
        i += 1;
    }
    assert(options@.take(options@.len() as int) =~= options@);
    concat(
        ".SH ENVIRONMENT\nEach variable is the fallback for one option; a command\\-line argument\nalways wins over the environment, and the built\\-in default applies when\nneither is given.\n",
        out.as_str(),
    )
}

/// The whole page, around the sections that tell the name, describe the
/// program and list its options.
pub open spec fn page(
    version: Seq<char>,
    name: Seq<char>,
    description: Seq<char>,
    listing: Seq<char>,
    options: Seq<ManualOption>,
) -> Seq<char> {
    (".TH jirakeep 1 \"\" \"jirakeep "@ + version + "\" \"General Commands Manual\"\n"@) + name
        + synopsis(options) + description + listing + EXIT_STATUS@ + environment(options) + FILES@
        + EXAMPLES@
}

/// The whole page, around the sections that tell the name, describe the
/// program and list its options.
pub fn render_man(
    version: &str,
    name: &str,
    description: &str,
    listing: &str,
    options: &Vec<ManualOption>,
) -> (res: String)
    ensures
        res@ == page(version@, name@, description@, listing@, options@),
{
    let title = concat3(
        ".TH jirakeep 1 \"\" \"jirakeep ",
        version,
        "\" \"General Commands Manual\"\n",
    );
    let head = concat3(title.as_str(), name, render_synopsis(options).as_str());
    let body = concat3(head.as_str(), description, listing);
    let ways = concat3(body.as_str(), EXIT_STATUS, render_environment(options).as_str());
    concat3(ways.as_str(), FILES, EXAMPLES)
}

} // verus!
