//! The operator's audit stream: what is recorded of a tool call, and how its
//! file is kept.
//!
//! A record carries verdicts and suppressed issue keys. Tokens, emails and free
//! text of issues have no place in its type.

use toml::de::DeValue;
use vstd::prelude::*;
use vstd::string::*;

use crate::client::pairs;
use crate::keyset::texts;
use crate::meta::{copy_text, copy_texts, optional_text, optional_texts};
use crate::table::{
    entry, flag_in, number_in, optional_content, read_flag, read_text, read_u32, read_u64,
    read_word, text_in, toml_parse, word_in, Table, TomlView,
};
use crate::text::{
    concat, concat3, decimal, hex_byte, numeral, push_hex_lower, same_text,
};

verus! {

/// The version of the record format.
pub const SCHEMA_VERSION: u32 = 1;

// --- configuration ----------------------------------------------------------

/// What happens to tool calls while the audit stream cannot be written.
#[derive(Debug, Clone, Copy, PartialEq, Eq, Structural)]
pub enum FailMode {
    /// They go on.
    Open,
    /// The writing ones are refused.
    ClosedWritesDenials,
    /// All are refused.
    ClosedAll,
}

impl FailMode {
    /// The mode that applies: the configured one, or by transport.
    pub open spec fn chosen(configured: Option<FailMode>, transport_http: bool) -> FailMode {
        match configured {
            Some(mode) => mode,
            None => if transport_http {
                FailMode::ClosedAll
            } else {
                FailMode::Open
            },
        }
    }

    /// A tool call is refused while the stream cannot be written.
    pub open spec fn refusal(self, writes: bool) -> bool {
        match self {
            FailMode::Open => false,
            FailMode::ClosedAll => true,
            FailMode::ClosedWritesDenials => writes,
        }
    }

    /// The mode that applies: the configured one, or by transport.
    pub fn resolve(configured: Option<FailMode>, transport_http: bool) -> (res: FailMode)
        ensures
            res == FailMode::chosen(configured, transport_http),
    {
        match configured {
            Some(mode) => mode,
            None => if transport_http {
                FailMode::ClosedAll
            } else {
                FailMode::Open
            },
        }
    }

    /// Whether a tool call is refused while the stream cannot be written.
    pub fn refuses(self, writes: bool) -> (res: bool)
        ensures
            res == self.refusal(writes),
    {
        match self {
            FailMode::Open => false,
            FailMode::ClosedAll => true,
            FailMode::ClosedWritesDenials => writes,
        }
    }

    /// The mode that a word of the configuration names.
    pub fn from_word(word: &str) -> (res: Option<FailMode>)
        ensures
            res == fail_mode_named(word@),
    {
        if same_text(word, "open") {
            Some(FailMode::Open)
        } else if same_text(word, "closed_writes_denials") {
            Some(FailMode::ClosedWritesDenials)
        } else if same_text(word, "closed_all") {
            Some(FailMode::ClosedAll)
        } else {
            None
        }
    }
}

/// The mode that a word of the configuration names.
pub open spec fn fail_mode_named(word: Seq<char>) -> Option<FailMode> {
    if word == "open"@ {
        Some(FailMode::Open)
    } else if word == "closed_writes_denials"@ {
        Some(FailMode::ClosedWritesDenials)
    } else if word == "closed_all"@ {
        Some(FailMode::ClosedAll)
    } else {
        None
    }
}

/// How the audit stream is kept.
#[derive(Debug)]
pub struct AuditConfig {
    pub path: String,
    pub fsync: bool,
    pub fail_mode: Option<FailMode>,
    /// Size at which the file is rotated (0 = never).
    pub rotate_max_bytes: u64,
    /// Number of rotated files that are kept.
    pub rotate_keep: u32,
    /// Whether suppressed keys are recorded, and not only their number.
    pub suppressed_ids: bool,
}

/// What an [`AuditConfig`] means.
#[verifier::ext_equal]
pub struct AuditConfigView {
    pub path: Seq<char>,
    pub fsync: bool,
    pub fail_mode: Option<FailMode>,
    pub rotate_max_bytes: int,
    pub rotate_keep: int,
    pub suppressed_ids: bool,
}

impl View for AuditConfig {
    type V = AuditConfigView;

    open spec fn view(&self) -> AuditConfigView {
        AuditConfigView {
            path: self.path@,
            fsync: self.fsync,
            fail_mode: self.fail_mode,
            rotate_max_bytes: self.rotate_max_bytes as int,
            rotate_keep: self.rotate_keep as int,
            suppressed_ids: self.suppressed_ids,
        }
    }
}

/// Why a configuration is refused.
#[derive(Debug, Clone, Copy, PartialEq, Eq, Structural)]
pub enum AuditConfigError {
    /// Not TOML, an unknown key, or a value of another type.
    InvalidToml,
    /// Rotation that keeps nothing.
    NothingKept,
}

impl AuditConfigError {
    /// The text that tells the operator.
    pub open spec fn text(self) -> Seq<char> {
        match self {
            AuditConfigError::InvalidToml => "invalid audit configuration TOML"@,
            AuditConfigError::NothingKept => {
                "rotate_keep must be >= 1 when rotation is enabled"@
            },
        }
    }

    /// The text that tells the operator.
    pub fn message(self) -> (res: String)
        ensures
            res@ == self.text(),
    {
        match self {
            AuditConfigError::InvalidToml => "invalid audit configuration TOML".to_owned(),
            AuditConfigError::NothingKept => {
                "rotate_keep must be >= 1 when rotation is enabled".to_owned()
            },
        }
    }
}

/// The keys of the configuration.
pub open spec fn audit_key(k: Seq<char>) -> bool {
    ||| k == "path"@
    ||| k == "fsync"@
    ||| k == "fail_mode"@
    ||| k == "rotate_max_bytes"@
    ||| k == "rotate_keep"@
    ||| k == "suppressed_ids"@
}

/// A table holds no other key.
pub open spec fn only_audit_keys(t: Map<Seq<char>, TomlView>) -> bool {
    forall|k: Seq<char>| #[trigger] t.dom().contains(k) ==> audit_key(k)
}

/// The fail mode that an entry names: none where there is no entry, `None`
/// where it names no mode.
pub open spec fn fail_mode_in(value: Option<TomlView>) -> Option<Option<FailMode>> {
    match value {
        None => Some(None),
        Some(v) => match word_in(v) {
            Some(word) => match fail_mode_named(word) {
                Some(mode) => Some(Some(mode)),
                None => None,
            },
            None => None,
        },
    }
}

/// The configuration that a TOML document describes; `None` where it lacks the
/// path, or holds an unknown key or a value of another type.
pub open spec fn audit_config_in(t: Map<Seq<char>, TomlView>) -> Option<AuditConfigView> {
    let path = match entry(t, "path"@) {
        Some(v) => text_in(v),
        None => None,
    };
    let fsync = flag_in(entry(t, "fsync"@), false);
    let mode = fail_mode_in(entry(t, "fail_mode"@));
    let bytes = number_in(entry(t, "rotate_max_bytes"@), 67108864, u64::MAX as int);
    let keep = number_in(entry(t, "rotate_keep"@), 8, u32::MAX as int);
    let ids = flag_in(entry(t, "suppressed_ids"@), true);
    if {
        &&& only_audit_keys(t)
        &&& path is Some
        &&& fsync is Some
        &&& mode is Some
        &&& bytes is Some
        &&& keep is Some
        &&& ids is Some
    } {
        Some(
            AuditConfigView {
                path: path->0,
                fsync: fsync->0,
                fail_mode: mode->0,
                rotate_max_bytes: bytes->0,
                rotate_keep: keep->0,
                suppressed_ids: ids->0,
            },
        )
    } else {
        None
    }
}

/// The configuration that a TOML document describes, or why it is refused.
pub open spec fn audit_accepted(doc: Map<Seq<char>, TomlView>) -> Result<
    AuditConfigView,
    AuditConfigError,
> {
    match audit_config_in(doc) {
        None => Err(AuditConfigError::InvalidToml),
        Some(config) => if config.rotate_max_bytes > 0 && config.rotate_keep == 0 {
            Err(AuditConfigError::NothingKept)
        } else {
            Ok(config)
        },
    }
}

/// What the outcome of reading a configuration means.
pub open spec fn audit_outcome(outcome: Result<AuditConfig, AuditConfigError>) -> Result<
    AuditConfigView,
    AuditConfigError,
> {
    match outcome {
        Ok(config) => Ok(config@),
        Err(e) => Err(e),
    }
}

fn read_fail_mode(value: Option<DeValue<'_>>) -> (res: Option<Option<FailMode>>)
    ensures
        res == fail_mode_in(optional_content(value)),
{
    match value {
        None => Some(None),
        Some(v) => match read_word(v) {
            Some(word) => match FailMode::from_word(word.as_str()) {
                Some(mode) => Some(Some(mode)),
                None => None,
            },
            None => None,
        },
    }
}

fn default_rotate_max() -> (res: u64)
    ensures
        res == 67108864,
{
    64 * 1024 * 1024
}

fn default_rotate_keep() -> (res: u32)
    ensures
        res == 8,
{
    8
}

fn read_config(table: Table<'_>) -> (res: Option<AuditConfig>)
    ensures
        match res {
            Some(c) => audit_config_in(table@) == Some(c@),
            None => audit_config_in(table@) is None,
        },
{
    let ghost all = table@;
    let mut table = table;
    let path = match table.take("path") {
        Some(v) => read_text(v),
        None => None,
    };
    let fsync = read_flag(table.take("fsync"), false);
    let mode = read_fail_mode(table.take("fail_mode"));
    let bytes = read_u64(table.take("rotate_max_bytes"), default_rotate_max());
    let keep = read_u32(table.take("rotate_keep"), default_rotate_keep());
    let ids = read_flag(table.take("suppressed_ids"), true);
    proof {
        reveal_strlit("path");
        reveal_strlit("fsync");
        reveal_strlit("fail_mode");
        reveal_strlit("rotate_max_bytes");
        reveal_strlit("rotate_keep");
        reveal_strlit("suppressed_ids");
        assert("path"@.len() == 4);
        assert("fsync"@.len() == 5);
        assert("fail_mode"@.len() == 9);
        assert("rotate_max_bytes"@.len() == 16);
        assert("rotate_keep"@.len() == 11);
        assert("suppressed_ids"@.len() == 14);
        if table@ == Map::<Seq<char>, TomlView>::empty() {
            assert forall|k: Seq<char>| #[trigger] all.dom().contains(k) implies audit_key(k) by {
                assert(!table@.dom().contains(k));
            }
        } else if only_audit_keys(all) {
            assert(table@ =~= Map::<Seq<char>, TomlView>::empty());
        }
        assert(only_audit_keys(all) == (table@ == Map::<Seq<char>, TomlView>::empty()));
    }
    if !table.is_empty() {
        return None;
    }
    match (path, fsync, mode, bytes, keep, ids) {
        (
            Some(path),
            Some(fsync),
            Some(fail_mode),
            Some(rotate_max_bytes),
            Some(rotate_keep),
            Some(suppressed_ids),
        ) => Some(
            AuditConfig {
                path,
                fsync,
                fail_mode,
                rotate_max_bytes,
                rotate_keep,
                suppressed_ids,
            },
        ),
        _ => None,
    }
}

impl AuditConfig {
    /// The configuration that a TOML table describes, checked.
    pub fn from_table(table: Table<'_>) -> (res: Result<AuditConfig, AuditConfigError>)
        ensures
            audit_outcome(res) == audit_accepted(table@),
    {
        match read_config(table) {
            None => Err(AuditConfigError::InvalidToml),
            Some(config) => if config.rotate_max_bytes > 0 && config.rotate_keep == 0 {
                Err(AuditConfigError::NothingKept)
            } else {
                Ok(config)
            },
        }
    }

    /// Reads and checks a configuration.
    pub fn from_toml_str(text: &str) -> (res: Result<AuditConfig, AuditConfigError>)
        ensures
            audit_outcome(res) == match toml_parse(text@) {
                None => Err(AuditConfigError::InvalidToml),
                Some(doc) => audit_accepted(doc),
            },
    {
        match Table::parse(text) {
            None => Err(AuditConfigError::InvalidToml),
            Some(table) => AuditConfig::from_table(table),
        }
    }
}

// --- the digest of the policy -----------------------------------------------

/// The SHA-256 digest of some bytes.
pub uninterp spec fn sha256(bytes: Seq<u8>) -> Seq<u8>;

/// `sha2::Sha256::digest`. The digest is named by [`sha256`]; it is 32 bytes
/// long.
#[verifier::external_body]
fn sha256_digest(bytes: &Vec<u8>) -> (res: Vec<u8>)
    ensures
        res@ == sha256(bytes@),
        res@.len() == 32,
{
    <sha2::Sha256 as sha2::Digest>::digest(bytes).to_vec()
}

/// Bytes in hexadecimal, with small letters.
pub open spec fn hex_text(bytes: Seq<u8>) -> Seq<char>
    decreases bytes.len(),
{
    if bytes.len() == 0 {
        Seq::empty()
    } else {
        hex_text(bytes.drop_last()) + hex_byte(bytes.last(), 'a')
    }
}

/// The text of a SHA-256 digest.
pub fn digest_text(digest: &Vec<u8>) -> (res: String)
    ensures
        res@ == "sha256:"@ + hex_text(digest@),
{
    let mut out = "sha256:".to_owned();
    let mut i: usize = 0;
    proof {
        assert(digest@.take(0) =~= Seq::empty());
        assert("sha256:"@ + Seq::<char>::empty() =~= "sha256:"@);
    }
    while i < digest.len()
        invariant
            i <= digest.len(),
            out@ == "sha256:"@ + hex_text(digest@.take(i as int)),
        decreases digest.len() - i,
    {
        let ghost held = hex_text(digest@.take(i as int));
        push_hex_lower(&mut out, digest[i]);
        proof {
            assert(digest@.take(i + 1).drop_last() =~= digest@.take(i as int));
            assert(digest@.take(i + 1).last() == digest@[i as int]);
            assert("sha256:"@ + held + hex_byte(digest@[i as int], 'a') =~= "sha256:"@ + (held
                + hex_byte(digest@[i as int], 'a')));
        }
        i += 1;
    }
    assert(digest@.take(digest@.len() as int) =~= digest@);
    out
}

/// The digest of a policy file, as it stands in the records.
pub fn policy_hash_of(bytes: &Vec<u8>) -> (res: String)
    ensures
        res@ == "sha256:"@ + hex_text(sha256(bytes@)),
{
    digest_text(&sha256_digest(bytes))
}

// --- verdicts ---------------------------------------------------------------

/// What the guard made of a call.
#[derive(Debug, Clone, Copy, PartialEq, Eq, Structural)]
pub enum Verdict {
    Served,
    Denied,
    Refused,
    Filtered,
}

impl Verdict {
    /// The word for it in a record.
    pub open spec fn word(self) -> Seq<char> {
        match self {
            Verdict::Served => "served"@,
            Verdict::Denied => "denied"@,
            Verdict::Refused => "refused"@,
            Verdict::Filtered => "filtered"@,
        }
    }

    /// The word for it in a record.
    pub fn as_str(self) -> (res: &'static str)
        ensures
            res@ == self.word(),
    {
        match self {
            Verdict::Served => "served",
            Verdict::Denied => "denied",
            Verdict::Refused => "refused",
            Verdict::Filtered => "filtered",
        }
    }
}

/// What a call gathers for its record.
#[derive(Debug)]
pub struct AuditCell {
    verdict: Option<Verdict>,
    rule: Option<String>,
    suppressed: Vec<String>,
    suppressed_count: Option<u64>,
    scan: Option<(u64, u64)>,
}

/// What an [`AuditCell`] means.
#[verifier::ext_equal]
pub struct CellView {
    pub verdict: Option<Verdict>,
    pub rule: Option<Seq<char>>,
    pub suppressed: Seq<Seq<char>>,
    pub suppressed_count: Option<u64>,
    /// Issues scanned and issues dropped by a search.
    pub scan: Option<(u64, u64)>,
}

impl View for AuditCell {
    type V = CellView;

    closed spec fn view(&self) -> CellView {
        CellView {
            verdict: self.verdict,
            rule: optional_text(self.rule),
            suppressed: texts(self.suppressed@),
            suppressed_count: self.suppressed_count,
            scan: self.scan,
        }
    }
}

/// Nothing noted.
pub open spec fn blank_cell() -> CellView {
    CellView {
        verdict: None,
        rule: None,
        suppressed: Seq::empty(),
        suppressed_count: None,
        scan: None,
    }
}

impl Default for AuditCell {
    fn default() -> (res: Self)
        ensures
            res@ == blank_cell(),
    {
        let res = AuditCell {
            verdict: None,
            rule: None,
            suppressed: Vec::new(),
            suppressed_count: None,
            scan: None,
        };
        assert(res@ =~= blank_cell());
        res
    }
}

impl AuditCell {
    pub fn note_verdict(&mut self, v: Verdict)
        ensures
            final(self)@ == (CellView { verdict: Some(v), ..old(self)@ }),
    {
        self.verdict = Some(v);
    }

    pub fn note_verdict_rule(&mut self, v: Verdict, rule: &str)
        ensures
            final(self)@ == (CellView { verdict: Some(v), rule: Some(rule@), ..old(self)@ }),
    {
        self.note_verdict(v);
        self.rule = Some(rule.to_owned());
    }

    /// Notes more suppressed keys.
    pub fn note_suppressed(&mut self, keys: &Vec<String>)
        ensures
            final(self)@ == (CellView {
                suppressed: old(self)@.suppressed + texts(keys@),
                ..old(self)@
            }),
    {
        let ghost start = texts(self.suppressed@);
        let mut i: usize = 0;
        assert(start + texts(keys@).take(0) =~= start);
        while i < keys.len()
            invariant
                i <= keys.len(),
                start == old(self)@.suppressed,
                self@ == (CellView {
                    suppressed: start + texts(keys@).take(i as int),
                    ..old(self)@
                }),
            decreases keys.len() - i,
        {
            let ghost held = self@.suppressed;
            assert(held =~= texts(self.suppressed@));
            self.suppressed.push(keys[i].clone());
            proof {
                assert(texts(self.suppressed@) =~= held.push(keys@[i as int]@));
                assert(texts(keys@).take(i + 1) =~= texts(keys@).take(i as int).push(
                    keys@[i as int]@,
                ));
                assert(texts(self.suppressed@) =~= start + texts(keys@).take(i + 1));
            }
            i += 1;
        }
        assert(texts(keys@).take(keys@.len() as int) =~= texts(keys@));
    }

    pub fn note_suppressed_count(&mut self, n: u64)
        ensures
            final(self)@ == (CellView { suppressed_count: Some(n), ..old(self)@ }),
    {
        self.suppressed_count = Some(n);
    }

    /// Notes how many issues a search scanned and dropped.
    pub fn note_scan(&mut self, scanned: u64, dropped: u64)
        ensures
            final(self)@ == (CellView { scan: Some((scanned, dropped)), ..old(self)@ }),
    {
        self.scan = Some((scanned, dropped));
    }

    /// The verdict, the rule, the suppressed keys and their number.
    pub fn snapshot(&self) -> (res: (
        Option<Verdict>,
        Option<String>,
        Vec<String>,
        Option<u64>,
    ))
        ensures
            res.0 == self@.verdict,
            optional_text(res.1) == self@.rule,
            texts(res.2@) == self@.suppressed,
            res.3 == self@.suppressed_count,
    {
        (
            self.verdict,
            copy_text(&self.rule),
            copy_texts(&self.suppressed),
            self.suppressed_count,
        )
    }

    /// The issues that a search scanned and dropped.
    pub fn scan(&self) -> (res: Option<(u64, u64)>)
        ensures
            res == self@.scan,
    {
        self.scan
    }
}

// --- records ----------------------------------------------------------------

/// A record of the audit stream.
#[derive(Debug)]
pub struct AuditEvent {
    pub v: u32,
    pub seq: u64,
    pub ts: String,
    pub kind: String,
    pub tool: Option<String>,
    pub verdict: Option<String>,
    pub rule: Option<String>,
    pub suppressed_keys: Option<Vec<String>>,
    pub suppressed_count: Option<u64>,
    pub scanned: Option<u64>,
    pub dropped: Option<u64>,
    pub policy_hash: Option<String>,
    pub transport: Option<String>,
    pub client_name: Option<String>,
    pub client_version: Option<String>,
    pub protocol_version: Option<String>,
    pub duration_ms: Option<u64>,
    pub error: Option<String>,
}

/// What an [`AuditEvent`] means.
#[verifier::ext_equal]
pub struct EventView {
    pub v: u32,
    pub seq: u64,
    pub ts: Seq<char>,
    pub kind: Seq<char>,
    pub tool: Option<Seq<char>>,
    pub verdict: Option<Seq<char>>,
    pub rule: Option<Seq<char>>,
    pub suppressed_keys: Option<Seq<Seq<char>>>,
    pub suppressed_count: Option<u64>,
    pub scanned: Option<u64>,
    pub dropped: Option<u64>,
    pub policy_hash: Option<Seq<char>>,
    pub transport: Option<Seq<char>>,
    pub client_name: Option<Seq<char>>,
    pub client_version: Option<Seq<char>>,
    pub protocol_version: Option<Seq<char>>,
    pub duration_ms: Option<u64>,
    pub error: Option<Seq<char>>,
}

impl View for AuditEvent {
    type V = EventView;

    open spec fn view(&self) -> EventView {
        EventView {
            v: self.v,
            seq: self.seq,
            ts: self.ts@,
            kind: self.kind@,
            tool: optional_text(self.tool),
            verdict: optional_text(self.verdict),
            rule: optional_text(self.rule),
            suppressed_keys: optional_texts(self.suppressed_keys),
            suppressed_count: self.suppressed_count,
            scanned: self.scanned,
            dropped: self.dropped,
            policy_hash: optional_text(self.policy_hash),
            transport: optional_text(self.transport),
            client_name: optional_text(self.client_name),
            client_version: optional_text(self.client_version),
            protocol_version: optional_text(self.protocol_version),
            duration_ms: self.duration_ms,
            error: optional_text(self.error),
        }
    }
}

/// What is recorded under: the settings of the stream.
#[derive(Debug)]
pub struct AuditState {
    pub fail_mode: FailMode,
    pub policy_hash: Option<String>,
    pub suppressed_ids: bool,
    pub transport: String,
    pub stdio_session_id: String,
}

/// The number of suppressed keys in a record: as noted, or that of the noted
/// keys, where there are any.
pub open spec fn recorded_count(cell: CellView) -> Option<u64> {
    match cell.suppressed_count {
        Some(n) => Some(n),
        None => if cell.suppressed.len() > 0 {
            Some(cell.suppressed.len() as u64)
        } else {
            None
        },
    }
}

/// A record before it is numbered.
pub open spec fn blank_event(state: AuditState, kind: Seq<char>) -> EventView {
    EventView {
        v: SCHEMA_VERSION,
        seq: 0,
        ts: Seq::empty(),
        kind,
        tool: None,
        verdict: None,
        rule: None,
        suppressed_keys: None,
        suppressed_count: None,
        scanned: None,
        dropped: None,
        policy_hash: optional_text(state.policy_hash),
        transport: Some(state.transport@),
        client_name: None,
        client_version: None,
        protocol_version: None,
        duration_ms: None,
        error: None,
    }
}

/// The record of a tool call.
pub open spec fn tool_record(
    state: AuditState,
    tool: Seq<char>,
    cell: CellView,
    duration_ms: u64,
    error: Option<Seq<char>>,
) -> EventView {
    EventView {
        tool: Some(tool),
        verdict: match cell.verdict {
            Some(v) => Some(v.word()),
            None => None,
        },
        rule: cell.rule,
        suppressed_keys: if state.suppressed_ids && cell.suppressed.len() > 0 {
            Some(cell.suppressed)
        } else {
            None
        },
        suppressed_count: recorded_count(cell),
        scanned: match cell.scan {
            Some((scanned, _)) => Some(scanned),
            None => None,
        },
        dropped: match cell.scan {
            Some((_, dropped)) => Some(dropped),
            None => None,
        },
        duration_ms: Some(duration_ms),
        error,
        ..blank_event(state, "tool_call"@)
    }
}

impl AuditState {
    /// The settings of a stream that starts at `started`.
    pub fn new(
        fail_mode: FailMode,
        policy_hash: Option<String>,
        suppressed_ids: bool,
        transport: &str,
        started: u64,
    ) -> (res: AuditState)
        ensures
            res.fail_mode == fail_mode,
            res.policy_hash == policy_hash,
            res.suppressed_ids == suppressed_ids,
            res.transport@ == transport@,
            res.stdio_session_id@ == "stdio-"@ + numeral(started as nat),
    {
        AuditState {
            fail_mode,
            policy_hash,
            suppressed_ids,
            transport: transport.to_owned(),
            stdio_session_id: concat("stdio-", timestamp(started).as_str()),
        }
    }

    fn blank(&self, kind: &str) -> (res: AuditEvent)
        ensures
            res@ == blank_event(*self, kind@),
    {
        AuditEvent {
            v: SCHEMA_VERSION,
            seq: 0,
            ts: String::new(),
            kind: kind.to_owned(),
            tool: None,
            verdict: None,
            rule: None,
            suppressed_keys: None,
            suppressed_count: None,
            scanned: None,
            dropped: None,
            policy_hash: copy_text(&self.policy_hash),
            transport: Some(self.transport.clone()),
            client_name: None,
            client_version: None,
            protocol_version: None,
            duration_ms: None,
            error: None,
        }
    }

    /// The record of a tool call.
    pub fn record_tool(
        &self,
        tool: &str,
        cell: &AuditCell,
        duration_ms: u64,
        error: Option<String>,
    ) -> (res: AuditEvent)
        ensures
            res@ == tool_record(*self, tool@, cell@, duration_ms, optional_text(error)),
    {
        let (verdict, rule, suppressed, count) = cell.snapshot();
        let mut event = self.blank("tool_call");
        event.tool = Some(tool.to_owned());
        event.verdict = match verdict {
            Some(v) => Some(v.as_str().to_owned()),
            None => None,
        };
        event.rule = rule;
        let some_keys = !suppressed.is_empty();
        event.suppressed_count = match count {
            Some(n) => Some(n),
            None => if some_keys {
                Some(suppressed.len() as u64)
            } else {
                None
            },
        };
        if self.suppressed_ids && some_keys {
            event.suppressed_keys = Some(suppressed);
        }
        if let Some((scanned, dropped)) = cell.scan() {
            event.scanned = Some(scanned);
            event.dropped = Some(dropped);
        }
        event.duration_ms = Some(duration_ms);
        event.error = error;
        assert(texts(suppressed@).len() == suppressed@.len());
        event
    }

    /// The record of a handshake.
    pub fn record_initialize(
        &self,
        client_name: Option<String>,
        client_version: Option<String>,
        protocol_version: Option<String>,
    ) -> (res: AuditEvent)
        ensures
            res@ == (EventView {
                client_name: optional_text(client_name),
                client_version: optional_text(client_version),
                protocol_version: optional_text(protocol_version),
                ..blank_event(*self, "initialize"@)
            }),
    {
        let mut event = self.blank("initialize");
        event.client_name = client_name;
        event.client_version = client_version;
        event.protocol_version = protocol_version;
        event
    }
}

/// A time in a record: the seconds of the Unix epoch.
pub fn timestamp(seconds: u64) -> (res: String)
    ensures
        res@ == numeral(seconds as nat),
{
    decimal(seconds)
}

// --- the file ---------------------------------------------------------------

/// Where the file of the stream stands.
#[derive(Debug)]
pub struct AuditSink {
    pub path: String,
    pub fsync: bool,
    pub rotate_max_bytes: u64,
    pub rotate_keep: u32,
    /// Bytes in the file.
    pub bytes: u64,
    /// Number of the last record.
    pub seq: u64,
    /// Whether the last record could not be written.
    pub failing: bool,
}

/// A rotated file.
pub open spec fn rotated_path(path: Seq<char>, n: int) -> Seq<char> {
    path + "."@ + numeral(n as nat)
}

/// The renames of a rotation, in order: each rotated file moves one number up,
/// the highest first, and at last the file itself becomes number one.
pub open spec fn rotation(path: Seq<char>, keep: int) -> Seq<(Seq<char>, Seq<char>)> {
    let moves = if keep > 1 {
        keep - 1
    } else {
        0
    };
    Seq::new(
        (moves + 1) as nat,
        |i: int|
            if i < moves {
                (rotated_path(path, keep - 1 - i), rotated_path(path, keep - i))
            } else {
                (path, rotated_path(path, 1))
            },
    )
}

/// What happens to a sink.
pub enum SinkStep {
    /// A record is numbered, whether or not it can be written.
    Numbered,
    /// The file has been rotated.
    Rotated,
    /// A line of that length has been written.
    Written { line: u64 },
    /// A record could not be written.
    Failed,
}

/// A sink after a step.
pub open spec fn stepped(sink: AuditSink, step: SinkStep) -> AuditSink {
    match step {
        SinkStep::Numbered => AuditSink { seq: (sink.seq + 1) as u64, ..sink },
        SinkStep::Rotated => AuditSink { bytes: 0, ..sink },
        SinkStep::Written { line } => AuditSink {
            bytes: ((sink.bytes + line + 1) % (u64::MAX + 1)) as u64,
            failing: false,
            ..sink
        },
        SinkStep::Failed => AuditSink { failing: true, ..sink },
    }
}

/// A sink after some steps.
pub open spec fn sink_after(sink: AuditSink, steps: Seq<SinkStep>) -> AuditSink
    decreases steps.len(),
{
    if steps.len() == 0 {
        sink
    } else {
        stepped(sink_after(sink, steps.drop_last()), steps.last())
    }
}

/// The number of records among some steps.
pub open spec fn records_in(steps: Seq<SinkStep>) -> int
    decreases steps.len(),
{
    if steps.len() == 0 {
        0
    } else if steps.last() is Numbered {
        records_in(steps.drop_last()) + 1
    } else {
        records_in(steps.drop_last())
    }
}

/// A record as it is written: with the next number and the version of the
/// form, and dated where it has no date.
pub open spec fn numbered(sink: AuditSink, event: EventView, seconds: u64) -> EventView {
    EventView {
        v: SCHEMA_VERSION,
        seq: (sink.seq + 1) as u64,
        ts: if event.ts.len() == 0 {
            numeral(seconds as nat)
        } else {
            event.ts
        },
        ..event
    }
}

impl AuditSink {
    /// The sink of a file that holds `bytes` bytes.
    pub fn open(config: AuditConfig, bytes: u64) -> (res: AuditSink)
        ensures
            res.path == config.path,
            res.fsync == config.fsync,
            res.rotate_max_bytes == config.rotate_max_bytes,
            res.rotate_keep == config.rotate_keep,
            res.bytes == bytes,
            res.seq == 0,
            !res.failing,
    {
        AuditSink {
            path: config.path,
            fsync: config.fsync,
            rotate_max_bytes: config.rotate_max_bytes,
            rotate_keep: config.rotate_keep,
            bytes,
            seq: 0,
            failing: false,
        }
    }

    /// Numbers a record, and dates it where it has no date.
    pub fn record(&mut self, event: AuditEvent, seconds: u64) -> (res: AuditEvent)
        requires
            old(self).seq < u64::MAX,
        ensures
            res@ == numbered(*old(self), event@, seconds),
            *final(self) == stepped(*old(self), SinkStep::Numbered),
    {
        self.seq += 1;
        let mut event = event;
        event.seq = self.seq;
        if event.ts.as_str().unicode_len() == 0 {
            event.ts = timestamp(seconds);
        }
        event.v = SCHEMA_VERSION;
        event
    }

    /// Whether the file has to be rotated before a line of that length is
    /// written to it.
    pub fn needs_rotation(&self, line: u64) -> (res: bool)
        ensures
            res == (self.rotate_max_bytes > 0 && self.bytes + line + 1 > self.rotate_max_bytes),
    {
        self.rotate_max_bytes > 0 && self.bytes as u128 + line as u128 + 1
            > self.rotate_max_bytes as u128
    }

    /// The renames of a rotation, in order.
    pub fn rotate(&self) -> (res: Vec<(String, String)>)
        ensures
            pairs(res@) == rotation(self.path@, self.rotate_keep as int),
    {
        let ghost path = self.path@;
        let keep = self.rotate_keep;
        let mut plan: Vec<(String, String)> = Vec::new();
        let mut n: u32 = keep;
        while n > 1
            invariant
                path == self.path@,
                keep == self.rotate_keep,
                n <= keep,
                keep > 0 ==> n >= 1,
                plan@.len() == keep - n,
                forall|i: int|
                    0 <= i < plan@.len() ==> (#[trigger] plan@[i]).0@ == rotated_path(
                        path,
                        keep - 1 - i,
                    ) && plan@[i].1@ == rotated_path(path, keep - i),
            decreases n,
        {
            let from = concat3(self.path.as_str(), ".", decimal((n - 1) as u64).as_str());
            let to = concat3(self.path.as_str(), ".", decimal(n as u64).as_str());
            plan.push((from, to));
            n -= 1;
        }
        let first = concat3(self.path.as_str(), ".", decimal(1).as_str());
        plan.push((self.path.clone(), first));
        assert(pairs(plan@) =~= rotation(path, keep as int));
        plan
    }

    /// The file has been rotated.
    pub fn rotated(&mut self)
        ensures
            *final(self) == stepped(*old(self), SinkStep::Rotated),
    {
        self.bytes = 0;
    }

    /// A line of that length has been written.
    pub fn written(&mut self, line: u64)
        ensures
            *final(self) == stepped(*old(self), SinkStep::Written { line }),
    {
        self.bytes = self.bytes.wrapping_add(line).wrapping_add(1);
        self.failing = false;
    }

    /// A record could not be written.
    pub fn mark_failing(&mut self)
        ensures
            *final(self) == stepped(*old(self), SinkStep::Failed),
    {
        self.failing = true;
    }

    /// Whether records can currently not be written.
    pub fn is_failing(&self) -> (res: bool)
        ensures
            res == self.failing,
    {
        self.failing
    }
}

// --- laws -------------------------------------------------------------------

/// A rotation loses at most the oldest file: every rename but the first goes
/// to the name that the one before it has just vacated, and the first goes to
/// the highest number.
pub proof fn rotation_loses_only_the_oldest(path: Seq<char>, keep: int, i: int)
    requires
        keep >= 1,
        0 <= i < rotation(path, keep).len(),
    ensures
        rotation(path, keep).len() == keep,
        i > 0 ==> rotation(path, keep)[i].1 == rotation(path, keep)[i - 1].0,
        i == 0 ==> rotation(path, keep)[i].1 == rotated_path(path, keep),
        rotation(path, keep).last().0 == path,
{
}

proof fn lemma_sink_number(sink: AuditSink, steps: Seq<SinkStep>)
    requires
        sink.seq + records_in(steps) <= u64::MAX,
    ensures
        sink_after(sink, steps).seq == sink.seq + records_in(steps),
        0 <= records_in(steps),
    decreases steps.len(),
{
    if steps.len() > 0 {
        lemma_records_grow(steps.drop_last());
        lemma_sink_number(sink, steps.drop_last());
    }
}

proof fn lemma_records_grow(steps: Seq<SinkStep>)
    ensures
        0 <= records_in(steps),
    decreases steps.len(),
{
    if steps.len() > 0 {
        lemma_records_grow(steps.drop_last());
    }
}

/// From a fresh sink on, the n-th record has the number n, whatever was
/// rotated, written or failed in between: numbers start at one and leave no
/// gap, and a record that could not be written keeps its number. All else in a
/// record stays as it was given, but for the version and a missing date.
pub proof fn the_nth_record_has_the_number_n(
    sink: AuditSink,
    steps: Seq<SinkStep>,
    event: EventView,
    seconds: u64,
)
    requires
        sink.seq == 0,
        records_in(steps) < u64::MAX,
    ensures
        ({
            let record = numbered(sink_after(sink, steps), event, seconds);
            &&& record.seq == records_in(steps) + 1
            &&& record.v == SCHEMA_VERSION
            &&& record == EventView { v: record.v, seq: record.seq, ts: record.ts, ..event }
            &&& record.ts == if event.ts.len() == 0 {
                numeral(seconds as nat)
            } else {
                event.ts
            }
        }),
{
    lemma_sink_number(sink, steps);
}

/// A sink is failing exactly if its last record could not be written, and a
/// line that is written ends that.
pub proof fn a_written_line_ends_the_failure(sink: AuditSink, steps: Seq<SinkStep>)
    requires
        steps.len() > 0,
    ensures
        steps.last() is Written ==> !sink_after(sink, steps).failing,
        steps.last() is Failed ==> sink_after(sink, steps).failing,
        !(steps.last() is Written || steps.last() is Failed) ==> sink_after(sink, steps).failing
            == sink_after(sink, steps.drop_last()).failing,
{
}

/// While the stream cannot be written, a writing tool is refused wherever any
/// other is, and only `open` lets it through.
pub proof fn writes_are_refused_first(mode: FailMode)
    ensures
        mode.refusal(false) ==> mode.refusal(true),
        !mode.refusal(true) <==> mode == FailMode::Open,
{
}

/// With key recording switched off, no issue key stands in a record; what is
/// recorded of suppression is a number.
pub proof fn no_keys_where_switched_off(
    state: AuditState,
    tool: Seq<char>,
    cell: CellView,
    duration_ms: u64,
    error: Option<Seq<char>>,
)
    requires
        !state.suppressed_ids,
    ensures
        tool_record(state, tool, cell, duration_ms, error).suppressed_keys is None,
{
}

} // verus!
