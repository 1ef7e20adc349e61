//! Sessions: what was reviewed is recorded, one JSON object to a line, so that a
//! later run can leave it out.
use vstd::prelude::*;
use vstd::utf8::{encode_utf8, encode_utf8_decode_utf8};

use crate::error::AgentError;
use crate::json::{
    ascending_keys, has_repeated_member, insert_keeps_order, insert_member, inserted_member_is_found, is_plain_scalar,
    json_parsed, json_text, lookup, no_members, number_view, one_line_object, opt_text_view,
    ordered_scalars_are_settled, parse_json, repeats_member, set_members_are_found, write_json, Json, JsonView,
};
use crate::letters::alphanumeric;
use crate::numeral::{hex, hex_char, hex_digit, hex_length, hex_of};
use crate::text::{
    chars_of, find, is_white, lemma_find_from, lines, occurs_at, opt_view, same, text_lines,
    text_trim, trim, views, without_cr,
};

verus! {

/// A record of a session.
pub enum SessionRecord {
    /// The session has begun.
    Start {
        session_id: String,
        model: String,
        domain: String,
        timestamp: u64,
        pr_url: Option<String>,
    },
    /// A file was reviewed.
    FileDone { path: String, fingerprint: String, finding_count: usize, timestamp: u64 },
    /// A file was left out.
    FileSkipped { path: String, reason: String, timestamp: u64 },
    /// The session has ended.
    End {
        session_id: String,
        total_files: usize,
        reviewed_files: usize,
        total_findings: usize,
        timestamp: u64,
    },
}

/// A session that is under way.
pub struct Session {
    pub id: String,
    pub reviewed_count: usize,
    pub total_findings: usize,
}

/// The session has gone on by one reviewed file with so many findings.
pub open spec fn goes_on(before: Session, after: Session, finding_count: nat) -> bool {
    &&& after.id == before.id
    &&& after.reviewed_count == before.reviewed_count + 1
    &&& after.total_findings == before.total_findings + finding_count
}

/// A session counts every file that it reviewed and all findings, whatever comes first.
pub proof fn sessions_count_every_file(a: Session, b: Session, c: Session, m: nat, n: nat)
    requires
        goes_on(a, b, m),
        goes_on(b, c, n),
    ensures
        c.id == a.id,
        c.reviewed_count == a.reviewed_count + 2,
        c.total_findings == a.total_findings + m + n,
{
}

impl Session {
    /// Begins a session. The record is the first of its file.
    pub fn new(id: String, model: &str, domain: &str, pr_url: Option<&str>, timestamp: u64) -> (r: (
        Self,
        SessionRecord,
    ))
        ensures
            r.0.id == id,
            r.0.reviewed_count == 0,
            r.0.total_findings == 0,
            r.1 matches SessionRecord::Start {
                session_id,
                model: m,
                domain: d,
                timestamp: t,
                pr_url: u,
            } && session_id == id && m@ == model@ && d@ == domain@ && t == timestamp && opt_view(u)
                == match pr_url {
                Some(x) => Some(x@),
                None => None,
            },
    {
        let url = match pr_url {
            Some(x) => Some(x.to_owned()),
            None => None,
        };
        let record = SessionRecord::Start {
            session_id: id.clone(),
            model: model.to_owned(),
            domain: domain.to_owned(),
            timestamp,
            pr_url: url,
        };
        (Session { id, reviewed_count: 0, total_findings: 0 }, record)
    }

    /// The name of the session.
    pub fn id(&self) -> (r: &str)
        ensures
            r@ == self.id@,
    {
        self.id.as_str()
    }

    /// Records that a file was reviewed.
    pub fn record_file_done(
        &mut self,
        path: &str,
        fingerprint: &str,
        finding_count: usize,
        timestamp: u64,
    ) -> (r: SessionRecord)
        requires
            old(self).reviewed_count < usize::MAX,
            old(self).total_findings + finding_count <= usize::MAX,
        ensures
            goes_on(*old(self), *final(self), finding_count as nat),
            final(self).id == old(self).id,
            final(self).reviewed_count == old(self).reviewed_count + 1,
            final(self).total_findings == old(self).total_findings + finding_count,
            r matches SessionRecord::FileDone {
                path: p,
                fingerprint: f,
                finding_count: n,
                timestamp: t,
            } && p@ == path@ && f@ == fingerprint@ && n == finding_count && t == timestamp,
    {
        self.reviewed_count = self.reviewed_count + 1;
        self.total_findings = self.total_findings + finding_count;
        SessionRecord::FileDone {
            path: path.to_owned(),
            fingerprint: fingerprint.to_owned(),
            finding_count,
            timestamp,
        }
    }

    /// Records that a file was left out.
    pub fn record_file_skipped(&self, path: &str, reason: &str, timestamp: u64) -> (r:
        SessionRecord)
        ensures
            r matches SessionRecord::FileSkipped { path: p, reason: w, timestamp: t } && p@ == path@
                && w@ == reason@ && t == timestamp,
    {
        SessionRecord::FileSkipped { path: path.to_owned(), reason: reason.to_owned(), timestamp }
    }

    /// Ends the session. The record is the last of its file.
    pub fn finalize(self, total_files: usize, timestamp: u64) -> (r: SessionRecord)
        ensures
            r matches SessionRecord::End {
                session_id,
                total_files: n,
                reviewed_files,
                total_findings,
                timestamp: t,
            } && session_id == self.id && n == total_files && reviewed_files == self.reviewed_count
                && total_findings == self.total_findings && t == timestamp,
    {
        SessionRecord::End {
            session_id: self.id,
            total_files,
            reviewed_files: self.reviewed_count,
            total_findings: self.total_findings,
            timestamp,
        }
    }
}

// ---------------------------------------------------------------------------
// Names and fingerprints

/// The hexadecimal digits of a number, without leading zeros.
pub open spec fn hex_number(n: nat) -> Seq<char>
    decreases n,
{
    if n < 16 {
        seq![hex_digit(n as int)]
    } else {
        hex_number(n / 16).push(hex_digit((n % 16) as int))
    }
}

fn hex_number_of(n: u128) -> (r: String)
    ensures
        r@ == hex_number(n as nat),
    decreases n,
{
    let c: char = hex_char((n % 16) as u8);
    let mut s = if n < 16 {
        String::new()
    } else {
        hex_number_of(n / 16)
    };
    let ghost head = s@;
    s.push(c);
    proof {
        if n < 16 {
            assert(head.push(c) =~= seq![hex_digit(n as int)]);
        }
    }
    s
}

/// The name of a session that begins at the given time, in nanoseconds.
pub fn generate_session_id(nanos: u128) -> (r: String)
    ensures
        r@ == "rev-"@ + hex_number(nanos as nat),
{
    let mut id = "rev-".to_owned();
    id.push_str(hex_number_of(nanos).as_str());
    id
}

/// The SHA-256 digest of data.
pub uninterp spec fn sha256(data: Seq<u8>) -> Seq<u8>;

/// `sha2::Sha256::digest`: the 32 bytes of the digest are a function of the
/// data, which is named here.
#[verifier::external_body]
fn sha256_of(data: &[u8]) -> (r: Vec<u8>)
    ensures
        r@ == sha256(data@),
        r@.len() == 32,
{
    <sha2::Sha256 as sha2::Digest>::digest(data).to_vec()
}

/// What the fingerprint of a file is taken of: how it is reviewed, its path and
/// the hash of its diff, with a null character between them.
pub open spec fn fingerprint_text(mode: Seq<char>, path: Seq<char>, diff_hash: Seq<char>) -> Seq<
    char,
> {
    mode.push('\0') + path.push('\0') + diff_hash
}

/// The fingerprint of a file, by which a later run knows it again.
pub fn file_fingerprint(mode: &str, path: &str, diff_hash: &str) -> (r: String)
    ensures
        r@ == hex(sha256(encode_utf8(fingerprint_text(mode@, path@, diff_hash@)))),
        r@.len() == 64,
{
    let mut text = mode.to_owned();
    text.push('\0');
    text.push_str(path);
    text.push('\0');
    text.push_str(diff_hash);
    assert(text@ =~= fingerprint_text(mode@, path@, diff_hash@));
    let digest = sha256_of(text.as_str().as_bytes());
    proof {
        hex_length(digest@);
    }
    hex_of(&digest)
}

/// Files whose modes and paths hold no null character have the same data to
/// digest only where mode, path and hash are the same.
pub proof fn fingerprints_tell_files_apart(
    mode1: Seq<char>,
    path1: Seq<char>,
    hash1: Seq<char>,
    mode2: Seq<char>,
    path2: Seq<char>,
    hash2: Seq<char>,
)
    requires
        !mode1.contains('\0'),
        !path1.contains('\0'),
        !mode2.contains('\0'),
        !path2.contains('\0'),
        encode_utf8(fingerprint_text(mode1, path1, hash1)) == encode_utf8(
            fingerprint_text(mode2, path2, hash2),
        ),
    ensures
        mode1 == mode2,
        path1 == path2,
        hash1 == hash2,
{
    let a = fingerprint_text(mode1, path1, hash1);
    let b = fingerprint_text(mode2, path2, hash2);
    encode_utf8_decode_utf8(a);
    encode_utf8_decode_utf8(b);
    assert(a == b);
    lemma_first_null(mode1, path1.push('\0') + hash1, mode2, path2.push('\0') + hash2);
    assert(a =~= mode1.push('\0') + (path1.push('\0') + hash1));
    assert(b =~= mode2.push('\0') + (path2.push('\0') + hash2));
    lemma_first_null(path1, hash1, path2, hash2);
}

proof fn lemma_first_null(front1: Seq<char>, rest1: Seq<char>, front2: Seq<char>, rest2: Seq<char>)
    requires
        !front1.contains('\0'),
        !front2.contains('\0'),
    ensures
        front1.push('\0') + rest1 == front2.push('\0') + rest2 ==> front1 == front2 && rest1
            == rest2,
{
    let a = front1.push('\0') + rest1;
    let b = front2.push('\0') + rest2;
    if a == b {
        assert(a.len() == front1.len() + 1 + rest1.len());
        assert(b.len() == front2.len() + 1 + rest2.len());
        if front1.len() < front2.len() {
            assert(a[front1.len() as int] == '\0');
            assert(b[front1.len() as int] == front2[front1.len() as int]);
            assert(front2.contains('\0'));
        }
        if front2.len() < front1.len() {
            assert(b[front2.len() as int] == '\0');
            assert(a[front2.len() as int] == front1[front2.len() as int]);
            assert(front1.contains('\0'));
        }
        assert forall|i: int| 0 <= i < front1.len() implies front1[i] == front2[i] by {
            assert(a[i] == front1[i] && b[i] == front2[i]);
        }
        assert(front1 =~= front2);
        assert(rest1.len() == rest2.len());
        assert forall|i: int| 0 <= i < rest1.len() implies rest1[i] == rest2[i] by {
            assert(a[i + front1.len() + 1] == rest1[i] && b[i + front1.len() + 1] == rest2[i]);
        }
        assert(rest1 =~= rest2);
    }
}

// ---------------------------------------------------------------------------
// Records as lines

/// A record as a JSON object.
pub open spec fn record_view(r: SessionRecord) -> JsonView {
    match r {
        SessionRecord::Start { session_id, model, domain, timestamp, pr_url } => no_members().with(
            "type"@,
            JsonView::Text("session_start"@),
        ).with("session_id"@, JsonView::Text(session_id@)).with(
            "model"@,
            JsonView::Text(model@),
        ).with("domain"@, JsonView::Text(domain@)).with(
            "timestamp"@,
            number_view(timestamp as nat),
        ).with("pr_url"@, opt_text_view(opt_view(pr_url))),
        SessionRecord::FileDone { path, fingerprint, finding_count, timestamp } => done_view(
            path@,
            fingerprint@,
            finding_count as nat,
            timestamp as nat,
        ),
        SessionRecord::FileSkipped { path, reason, timestamp } => no_members().with(
            "type"@,
            JsonView::Text("file_skipped"@),
        ).with("path"@, JsonView::Text(path@)).with("reason"@, JsonView::Text(reason@)).with(
            "timestamp"@,
            number_view(timestamp as nat),
        ),
        SessionRecord::End {
            session_id,
            total_files,
            reviewed_files,
            total_findings,
            timestamp,
        } => no_members().with("type"@, JsonView::Text("session_end"@)).with(
            "session_id"@,
            JsonView::Text(session_id@),
        ).with("total_files"@, number_view(total_files as nat)).with(
            "reviewed_files"@,
            number_view(reviewed_files as nat),
        ).with("total_findings"@, number_view(total_findings as nat)).with(
            "timestamp"@,
            number_view(timestamp as nat),
        ),
    }
}

pub open spec fn done_view(
    path: Seq<char>,
    fingerprint: Seq<char>,
    finding_count: nat,
    timestamp: nat,
) -> JsonView {
    no_members().with("type"@, JsonView::Text("file_done"@)).with("path"@, JsonView::Text(path)).with(
        "fingerprint"@,
        JsonView::Text(fingerprint),
    ).with("finding_count"@, number_view(finding_count)).with(
        "timestamp"@,
        number_view(timestamp),
    )
}

/// A record as a JSON object.
pub fn record_json(record: &SessionRecord) -> (r: Json)
    ensures
        r@ == record_view(*record),
{
    match record {
        SessionRecord::Start { session_id, model, domain, timestamp, pr_url } => {
            Json::object().with("type", Json::text("session_start")).with(
                "session_id",
                Json::text(session_id.as_str()),
            ).with("model", Json::text(model.as_str())).with(
                "domain",
                Json::text(domain.as_str()),
            ).with("timestamp", Json::number(*timestamp)).with("pr_url", Json::opt_text(pr_url))
        },
        SessionRecord::FileDone { path, fingerprint, finding_count, timestamp } => {
            Json::object().with("type", Json::text("file_done")).with(
                "path",
                Json::text(path.as_str()),
            ).with("fingerprint", Json::text(fingerprint.as_str())).with(
                "finding_count",
                Json::number(*finding_count as u64),
            ).with("timestamp", Json::number(*timestamp))
        },
        SessionRecord::FileSkipped { path, reason, timestamp } => {
            Json::object().with("type", Json::text("file_skipped")).with(
                "path",
                Json::text(path.as_str()),
            ).with("reason", Json::text(reason.as_str())).with(
                "timestamp",
                Json::number(*timestamp),
            )
        },
        SessionRecord::End {
            session_id,
            total_files,
            reviewed_files,
            total_findings,
            timestamp,
        } => {
            Json::object().with("type", Json::text("session_end")).with(
                "session_id",
                Json::text(session_id.as_str()),
            ).with("total_files", Json::number(*total_files as u64)).with(
                "reviewed_files",
                Json::number(*reviewed_files as u64),
            ).with("total_findings", Json::number(*total_findings as u64)).with(
                "timestamp",
                Json::number(*timestamp),
            )
        },
    }
}

/// A key that does not begin with a dollar sign.
spec fn plain_key(key: Seq<char>) -> bool {
    key.len() > 0 ==> key[0] != '$'
}

/// An object of plain scalars with its keys in order.
spec fn tidy(v: JsonView) -> bool {
    v matches JsonView::Object(members) && ascending_keys(members) && forall|i: int|
        0 <= i < members.len() ==> is_plain_scalar((#[trigger] members[i]).1) && plain_key(
            members[i].0,
        )
}

proof fn lemma_tidy_with(v: JsonView, key: Seq<char>, value: JsonView)
    requires
        tidy(v),
        is_plain_scalar(value),
        plain_key(key),
    ensures
        tidy(v.with(key, value)),
{
    let members = v->Object_0;
    insert_keeps_order(members, key, value);
    let out = insert_member(members, key, value);
    assert forall|i: int| 0 <= i < out.len() implies is_plain_scalar((#[trigger] out[i]).1)
        && plain_key(out[i].0) by {
        if out[i] != (key, value) {
            let k = choose|k: int| 0 <= k < members.len() && members[k] == out[i];
            assert(is_plain_scalar(members[k].1) && plain_key(members[k].0));
        }
    }
}

/// A record is written as it is.
proof fn lemma_record_is_tidy(r: SessionRecord)
    ensures
        tidy(record_view(r)),
{
    assert forall|v: JsonView, key: Seq<char>, value: JsonView|
        tidy(v) && is_plain_scalar(value) && plain_key(key) implies tidy(
        #[trigger] v.with(key, value),
    ) by {
        lemma_tidy_with(v, key, value);
    }
    reveal_strlit("type");
    reveal_strlit("session_id");
    reveal_strlit("model");
    reveal_strlit("domain");
    reveal_strlit("timestamp");
    reveal_strlit("pr_url");
    reveal_strlit("path");
    reveal_strlit("fingerprint");
    reveal_strlit("finding_count");
    reveal_strlit("reason");
    reveal_strlit("total_files");
    reveal_strlit("reviewed_files");
    reveal_strlit("total_findings");
    assert(tidy(no_members()));
}

/// The members of a record of a reviewed file.
pub open spec fn done_names() -> Seq<Seq<char>> {
    seq!["type"@, "path"@, "fingerprint"@, "finding_count"@, "timestamp"@]
}

/// A text on one line that is read as the record.
pub open spec fn is_record_line(line: Seq<char>, r: SessionRecord) -> bool {
    one_line_object(line) && json_parsed(line) == Some(record_view(r)) && !repeats_member(
        line,
        1,
        done_names(),
    )
}

/// Writes a record as the line that stands for it in the file of the session.
pub fn record_line(record: &SessionRecord) -> (r: Result<String, AgentError>)
    ensures
        match r {
            Ok(line) => is_record_line(line@, *record) && json_text(record_view(*record)) == Some(
                line@,
            ),
            Err(e) => e is Serde && json_text(record_view(*record)) is None,
        },
{
    proof {
        lemma_record_is_tidy(*record);
        ordered_scalars_are_settled(record_view(*record)->Object_0);
    }
    match write_json(record_json(record)) {
        Ok(line) => Ok(line),
        Err(e) => Err(AgentError::Serde(e)),
    }
}

// ---------------------------------------------------------------------------
// Resuming

/// A file that an earlier session has reviewed.
pub struct CompletedFile {
    pub path: String,
    pub fingerprint: String,
}

/// What an earlier session has reviewed.
pub struct ResumeState {
    pub session_id: String,
    pub completed_files: Vec<CompletedFile>,
}

/// Path and fingerprint of each file.
pub open spec fn completed_views(files: Seq<CompletedFile>) -> Seq<(Seq<char>, Seq<char>)> {
    files.map_values(|f: CompletedFile| (f.path@, f.fingerprint@))
}

impl ResumeState {
    /// Whether a file with the fingerprint was reviewed.
    pub fn is_completed(&self, fingerprint: &str) -> (r: bool)
        ensures
            r == exists|i: int|
                0 <= i < self.completed_files@.len() && (#[trigger] self.completed_files@[i]).fingerprint@
                    == fingerprint@,
    {
        let mut i: usize = 0;
        while i < self.completed_files.len()
            invariant
                i <= self.completed_files@.len(),
                forall|j: int|
                    0 <= j < i ==> (#[trigger] self.completed_files@[j]).fingerprint@ != fingerprint@,
            decreases self.completed_files@.len() - i,
        {
            if same(self.completed_files[i].fingerprint.as_str(), fingerprint) {
                assert(self.completed_files@[i as int].fingerprint@ == fingerprint@);
                return true;
            }
            i += 1;
        }
        false
    }
}

/// A name that a session can have: letters, numbers, `-` and `_` alone.
pub open spec fn valid_session_id(id: Seq<char>) -> bool {
    forall|i: int|
        0 <= i < id.len() ==> alphanumeric(#[trigger] id[i]) || id[i] == '-' || id[i] == '_'
}

/// Tests whether a session can have the name, so that it can be part of a path.
pub fn check_session_id(session_id: &str) -> (r: Result<(), AgentError>)
    ensures
        match r {
            Ok(()) => valid_session_id(session_id@),
            Err(e) => !valid_session_id(session_id@) && (e matches AgentError::Config(m) && m@
                == "Invalid session ID '"@ + session_id@
                + "': must be alphanumeric, dash, or underscore only"@),
        },
{
    let v = chars_of(session_id);
    let mut i: usize = 0;
    while i < v.len()
        invariant
            i <= v@.len(),
            v@ == session_id@,
            forall|j: int|
                0 <= j < i ==> alphanumeric(#[trigger] session_id@[j]) || session_id@[j] == '-'
                    || session_id@[j] == '_',
        decreases v@.len() - i,
    {
        let c: char = v[i];
        if !(c.is_alphanumeric() || c == '-' || c == '_') {
            let mut m = "Invalid session ID '".to_owned();
            m.push_str(session_id);
            m.push_str("': must be alphanumeric, dash, or underscore only");
            return Err(AgentError::Config(m));
        }
        i += 1;
    }
    Ok(())
}

/// The name of a session leads to a file of its own: it holds nothing that parts
/// a path or leads out of a directory.
pub proof fn session_names_hold_no_path(session_id: Seq<char>)
    requires
        valid_session_id(session_id),
    ensures
        !session_id.contains('/'),
        !session_id.contains('\\'),
        !session_id.contains('.'),
        !session_id.contains('\0'),
{
    assert forall|i: int| 0 <= i < session_id.len() implies #[trigger] session_id[i] != '/'
        && session_id[i] != '\\' && session_id[i] != '.' && session_id[i] != '\0' by {
        assert(alphanumeric(session_id[i]) || session_id[i] == '-' || session_id[i] == '_');
    }
}

/// The name that a session is given is one that it can be resumed by.
pub proof fn generated_names_are_valid(nanos: nat)
    ensures
        valid_session_id("rev-"@ + hex_number(nanos)),
{
    reveal_strlit("rev-");
    lemma_hex_is_alphanumeric(nanos);
    let id = "rev-"@ + hex_number(nanos);
    assert forall|i: int| 0 <= i < id.len() implies alphanumeric(#[trigger] id[i]) || id[i] == '-'
        || id[i] == '_' by {
        if i >= 4 {
            assert(id[i] == hex_number(nanos)[i - 4]);
        }
    }
}

proof fn lemma_hex_is_alphanumeric(n: nat)
    ensures
        forall|i: int|
            0 <= i < hex_number(n).len() ==> alphanumeric(#[trigger] hex_number(n)[i]),
    decreases n,
{
    let d = (n % 16) as int;
    assert(alphanumeric(hex_digit(d))) by {
        if d < 10 {
            assert('0' <= hex_digit(d) <= '9');
        }
    }
    if n >= 16 {
        let front = hex_number(n / 16);
        lemma_hex_is_alphanumeric(n / 16);
        assert forall|i: int| 0 <= i < hex_number(n).len() implies alphanumeric(
            #[trigger] hex_number(n)[i],
        ) by {
            if i < front.len() {
                assert(hex_number(n)[i] == front[i]);
            }
        }
    } else {
        assert(hex_number(n) =~= seq![hex_digit(d)]);
    }
}

/// A number that fits a `usize`.
pub open spec fn is_count(n: Option<u64>) -> bool {
    n matches Some(k) && k <= usize::MAX
}

/// Path and fingerprint of the file that a JSON value records as reviewed: an
/// object with its type and the four fields, or a list of these in their order.
pub open spec fn completed_of(v: JsonView) -> Option<(Seq<char>, Seq<char>)> {
    match v {
        JsonView::Array(items) => if items.len() == 5 && items[0].as_str() == Some("file_done"@)
            && items[1].as_str() is Some && items[2].as_str() is Some && is_count(
            items[3].as_u64(),
        ) && items[4].as_u64() is Some {
            Some((items[1].as_str().unwrap(), items[2].as_str().unwrap()))
        } else {
            None
        },
        _ => if v.text_at("type"@) == Some("file_done"@) && v.text_at("path"@) is Some && v.text_at(
            "fingerprint"@,
        ) is Some && is_count(v.number_at("finding_count"@)) && v.number_at("timestamp"@) is Some {
            Some((v.text_at("path"@).unwrap(), v.text_at("fingerprint"@).unwrap()))
        } else {
            None
        },
    }
}

/// The file that a line records as reviewed. A line in which one of the members of
/// such a record stands twice is none.
pub open spec fn completed_line(line: Seq<char>) -> Option<(Seq<char>, Seq<char>)> {
    let text = trim(line);
    if text.len() == 0 || repeats_member(text, 1, done_names()) {
        None
    } else {
        match json_parsed(text) {
            Some(v) => completed_of(v),
            None => None,
        }
    }
}

/// The files that lines record as reviewed, in their order.
pub open spec fn completed_lines(all: Seq<Seq<char>>) -> Seq<(Seq<char>, Seq<char>)>
    decreases all.len(),
{
    if all.len() == 0 {
        Seq::empty()
    } else {
        let front = completed_lines(all.drop_last());
        match completed_line(all.last()) {
            Some(f) => front.push(f),
            None => front,
        }
    }
}

fn count_fits(n: Option<u64>) -> (r: bool)
    ensures
        r == is_count(n),
{
    match n {
        Some(k) => k <= usize::MAX as u64,
        None => false,
    }
}

/// The file that a JSON value records as reviewed.
pub fn read_completed(v: &Json) -> (r: Option<CompletedFile>)
    ensures
        match r {
            Some(f) => completed_of(v@) == Some((f.path@, f.fingerprint@)),
            None => completed_of(v@) is None,
        },
{
    match v {
        Json::Array(items) => {
            proof {
                crate::json::lemma_array_view(*items);
            }
            if items.len() != 5 {
                return None;
            }
            let done = match items[0].as_str() {
                Some(t) => same(t.as_str(), "file_done"),
                None => false,
            };
            if !done || !count_fits(items[3].as_u64()) || items[4].as_u64().is_none() {
                return None;
            }
            match (items[1].as_str(), items[2].as_str()) {
                (Some(p), Some(f)) => Some(
                    CompletedFile { path: p.clone(), fingerprint: f.clone() },
                ),
                _ => None,
            }
        },
        _ => {
            let done = match v.text_at("type") {
                Some(t) => same(t.as_str(), "file_done"),
                None => false,
            };
            if !done || !count_fits(v.number_at("finding_count")) || v.number_at(
                "timestamp",
            ).is_none() {
                return None;
            }
            match (v.text_at("path"), v.text_at("fingerprint")) {
                (Some(p), Some(f)) => Some(
                    CompletedFile { path: p.clone(), fingerprint: f.clone() },
                ),
                _ => None,
            }
        },
    }
}

/// What a session has reviewed, from the content of its file. Lines that are no
/// record of a reviewed file are passed over.
pub fn load_resume_state(session_id: &str, content: &str) -> (r: Result<ResumeState, AgentError>)
    ensures
        match r {
            Ok(s) => {
                &&& valid_session_id(session_id@)
                &&& s.session_id@ == session_id@
                &&& completed_views(s.completed_files@) == completed_lines(lines(content@))
            },
            Err(e) => !valid_session_id(session_id@) && (e matches AgentError::Config(m) && m@
                == "Invalid session ID '"@ + session_id@
                + "': must be alphanumeric, dash, or underscore only"@),
        },
{
    match check_session_id(session_id) {
        Ok(()) => {},
        Err(e) => {
            return Err(e);
        },
    }
    let mut known: Vec<String> = Vec::new();
    known.push("type".to_owned());
    known.push("path".to_owned());
    known.push("fingerprint".to_owned());
    known.push("finding_count".to_owned());
    known.push("timestamp".to_owned());
    assert(views(known@) =~= done_names());
    let all = text_lines(content);
    let ghost v = views(all@);
    let mut files: Vec<CompletedFile> = Vec::new();
    let mut i: usize = 0;
    assert(completed_views(files@) =~= completed_lines(v.take(0)));
    while i < all.len()
        invariant
            i <= all@.len(),
            v == views(all@),
            views(known@) == done_names(),
            completed_views(files@) == completed_lines(v.take(i as int)),
        decreases all@.len() - i,
    {
        assert(v.take(i + 1).drop_last() =~= v.take(i as int));
        assert(v.take(i + 1).last() == all@[i as int]@);
        let text = text_trim(all[i].as_str());
        if !text.as_str().is_empty() && !has_repeated_member(text.as_str(), 1, &known) {
            match parse_json(text.as_str()) {
                Some(json) => match read_completed(&json) {
                    Some(f) => {
                        assert(completed_views(files@.push(f)) =~= completed_views(files@).push(
                            (f.path@, f.fingerprint@),
                        ));
                        files.push(f);
                    },
                    None => {},
                },
                None => {},
            }
        }
        i += 1;
    }
    assert(v.take(i as int) =~= v);
    Ok(ResumeState { session_id: session_id.to_owned(), completed_files: files })
}

// ---------------------------------------------------------------------------
// What is read back of what was recorded

/// The file of a session: each line with a line feed behind it.
pub open spec fn session_text(all: Seq<Seq<char>>) -> Seq<char>
    decreases all.len(),
{
    if all.len() == 0 {
        Seq::empty()
    } else {
        all[0].push('\n') + session_text(all.subrange(1, all.len() as int))
    }
}

/// Path and fingerprint of the files that records say were reviewed.
pub open spec fn done_files(records: Seq<SessionRecord>) -> Seq<(Seq<char>, Seq<char>)>
    decreases records.len(),
{
    if records.len() == 0 {
        Seq::empty()
    } else {
        let front = done_files(records.drop_last());
        match records.last() {
            SessionRecord::FileDone { path, fingerprint, .. } => front.push(
                (path@, fingerprint@),
            ),
            _ => front,
        }
    }
}

proof fn lemma_first_line(line: Seq<char>, rest: Seq<char>)
    requires
        !line.contains('\n'),
        !line.contains('\r'),
    ensures
        lines(line.push('\n') + rest) == seq![line] + lines(rest),
{
    let s = line.push('\n') + rest;
    let n = line.len() as int;
    let lf = seq!['\n'];
    lemma_find_from(s, lf, 0);
    assert(s.subrange(n, n + 1) =~= lf);
    assert(occurs_at(s, lf, n));
    match find(s, lf) {
        Some(i) => {
            if i < n {
                assert(s.subrange(i, i + 1)[0] == s[i]);
                assert(line[i] == '\n');
                assert(line.contains('\n'));
            }
        },
        None => {},
    }
    assert(find(s, lf) == Some(n));
    assert(s.subrange(0, n) =~= line);
    assert(s.subrange(n + 1, s.len() as int) =~= rest);
    if line.len() > 0 {
        assert(line.contains(line.last()));
    }
    assert(without_cr(line) == line);
}

proof fn lemma_lines_read_back(all: Seq<Seq<char>>)
    requires
        forall|i: int| 0 <= i < all.len() ==> one_line_object(#[trigger] all[i]),
    ensures
        lines(session_text(all)) == all,
    decreases all.len(),
{
    if all.len() == 0 {
        assert(lines(session_text(all)) =~= all);
    } else {
        let rest = all.subrange(1, all.len() as int);
        assert forall|i: int| 0 <= i < rest.len() implies one_line_object(#[trigger] rest[i]) by {
            assert(rest[i] == all[i + 1]);
        }
        lemma_lines_read_back(rest);
        lemma_first_line(all[0], session_text(rest));
        assert(seq![all[0]] + rest =~= all);
    }
}

proof fn lemma_braces_are_kept(s: Seq<char>)
    requires
        one_line_object(s),
    ensures
        trim(s) == s,
{
    assert(!is_white('{') && !is_white('}'));
}

/// What a record of a reviewed file is read as.
proof fn lemma_done_is_read(path: Seq<char>, fingerprint: Seq<char>, count: nat, timestamp: nat)
    requires
        count <= usize::MAX,
        timestamp <= u64::MAX,
    ensures
        completed_of(done_view(path, fingerprint, count, timestamp)) == Some((path, fingerprint)),
{
    reveal_strlit("type");
    reveal_strlit("path");
    reveal_strlit("fingerprint");
    reveal_strlit("finding_count");
    reveal_strlit("timestamp");
    assert("finding_count"@[4] == 'i' && "fingerprint"@[4] == 'e');
    assert("type"@[0] == 't' && "type"@.len() == 4 && "timestamp"@.len() == 9);
    assert forall|m: Seq<(Seq<char>, JsonView)>, key: Seq<char>, value: JsonView, other: Seq<char>|
        #[trigger] lookup(insert_member(m, key, value), other) == if other == key {
            Some(value)
        } else {
            lookup(m, other)
        } by {
        inserted_member_is_found(m, key, value, other);
    }
}

/// A record of anything else is not read as a reviewed file.
proof fn lemma_other_is_not_read(r: SessionRecord)
    requires
        !(r is FileDone),
    ensures
        completed_of(record_view(r)) is None,
{
    reveal_strlit("type");
    reveal_strlit("path");
    reveal_strlit("reason");
    reveal_strlit("model");
    reveal_strlit("domain");
    reveal_strlit("pr_url");
    reveal_strlit("session_id");
    reveal_strlit("timestamp");
    reveal_strlit("total_files");
    reveal_strlit("reviewed_files");
    reveal_strlit("total_findings");
    reveal_strlit("file_done");
    reveal_strlit("file_skipped");
    reveal_strlit("session_start");
    reveal_strlit("session_end");
    assert("type"@[0] == 't' && "path"@[0] == 'p');
    assert("type"@.len() == 4 && "reason"@.len() == 6 && "model"@.len() == 5 && "domain"@.len() == 6
        && "pr_url"@.len() == 6 && "session_id"@.len() == 10 && "timestamp"@.len() == 9
        && "total_files"@.len() == 11 && "reviewed_files"@.len() == 14 && "total_findings"@.len()
        == 14);
    assert("file_done"@[0] == 'f' && "session_start"@[0] == 's' && "session_end"@[0] == 's');
    assert("file_done"@.len() == 9 && "file_skipped"@.len() == 12);
    assert forall|m: Seq<(Seq<char>, JsonView)>, key: Seq<char>, value: JsonView, other: Seq<char>|
        #[trigger] lookup(insert_member(m, key, value), other) == if other == key {
            Some(value)
        } else {
            lookup(m, other)
        } by {
        inserted_member_is_found(m, key, value, other);
    }
    let kind = match r {
        SessionRecord::Start { .. } => "session_start"@,
        SessionRecord::FileSkipped { .. } => "file_skipped"@,
        _ => "session_end"@,
    };
    assert(record_view(r).get("type"@) == Some(JsonView::Text(kind)));
}

/// What a session records is what is read back of its file: the reviewed files,
/// with their fingerprints, in their order, and nothing else.
pub proof fn resume_reads_what_was_recorded(records: Seq<SessionRecord>, written: Seq<Seq<char>>)
    requires
        written.len() == records.len(),
        forall|i: int|
            0 <= i < records.len() ==> is_record_line(#[trigger] written[i], records[i]),
    ensures
        completed_lines(lines(session_text(written))) == done_files(records),
{
    lemma_lines_read_back(written);
    lemma_completed_lines(records, written);
}

proof fn lemma_completed_lines(records: Seq<SessionRecord>, written: Seq<Seq<char>>)
    requires
        written.len() == records.len(),
        forall|i: int|
            0 <= i < records.len() ==> is_record_line(#[trigger] written[i], records[i]),
    ensures
        completed_lines(written) == done_files(records),
    decreases records.len(),
{
    if records.len() > 0 {
        let n = records.len() - 1;
        assert forall|i: int| 0 <= i < n implies is_record_line(
            #[trigger] written.drop_last()[i],
            records.drop_last()[i],
        ) by {
            assert(written.drop_last()[i] == written[i] && records.drop_last()[i] == records[i]);
        }
        lemma_completed_lines(records.drop_last(), written.drop_last());
        assert(is_record_line(written[n], records[n]));
        lemma_braces_are_kept(written[n]);
        match records[n] {
            SessionRecord::FileDone { path, fingerprint, finding_count, timestamp } => {
                lemma_done_is_read(
                    path@,
                    fingerprint@,
                    finding_count as nat,
                    timestamp as nat,
                );
            },
            _ => {
                lemma_other_is_not_read(records[n]);
            },
        }
    }
}

/// The files that records say were reviewed are those of each record, in their order: a
/// record of a reviewed file brings that file, whatever else it tells, and any other
/// record brings none.
pub proof fn records_are_read_one_by_one(
    a: Seq<SessionRecord>,
    b: Seq<SessionRecord>,
    path: String,
    fingerprint: String,
    finding_count: usize,
    timestamp: u64,
    other: SessionRecord,
)
    requires
        !(other is FileDone),
    ensures
        done_files(a + b) == done_files(a) + done_files(b),
        done_files(
            seq![SessionRecord::FileDone { path, fingerprint, finding_count, timestamp }],
        ) == seq![(path@, fingerprint@)],
        done_files(seq![other]) == Seq::<(Seq<char>, Seq<char>)>::empty(),
        done_files(Seq::empty()) == Seq::<(Seq<char>, Seq<char>)>::empty(),
    decreases b.len(),
{
    reveal_with_fuel(done_files, 2);
    let done = SessionRecord::FileDone { path, fingerprint, finding_count, timestamp };
    assert(seq![done].drop_last() =~= Seq::<SessionRecord>::empty());
    assert(seq![other].drop_last() =~= Seq::<SessionRecord>::empty());
    assert(done_files(seq![done]) =~= seq![(path@, fingerprint@)]);
    if b.len() == 0 {
        assert(a + b =~= a);
        assert(done_files(a) + done_files(b) =~= done_files(a));
    } else {
        records_are_read_one_by_one(
            a,
            b.drop_last(),
            path,
            fingerprint,
            finding_count,
            timestamp,
            other,
        );
        assert((a + b).drop_last() =~= a + b.drop_last());
        assert(done_files(a + b) =~= done_files(a) + done_files(b));
    }
}

/// A record tells what it is, and everything that it holds under a name of its own.
pub proof fn records_tell_what_they_hold(r: SessionRecord)
    ensures
        ({
            let v = record_view(r);
            match r {
                SessionRecord::Start { session_id, model, domain, timestamp, pr_url } => {
                    &&& v.text_at("type"@) == Some("session_start"@)
                    &&& v.text_at("session_id"@) == Some(session_id@)
                    &&& v.text_at("model"@) == Some(model@)
                    &&& v.text_at("domain"@) == Some(domain@)
                    &&& v.number_at("timestamp"@) == Some(timestamp)
                    &&& v.text_at("pr_url"@) == opt_view(pr_url)
                },
                SessionRecord::FileDone { path, fingerprint, finding_count, timestamp } => {
                    &&& v.text_at("type"@) == Some("file_done"@)
                    &&& v.text_at("path"@) == Some(path@)
                    &&& v.text_at("fingerprint"@) == Some(fingerprint@)
                    &&& v.number_at("finding_count"@) == Some(finding_count as u64)
                    &&& v.number_at("timestamp"@) == Some(timestamp)
                },
                SessionRecord::FileSkipped { path, reason, timestamp } => {
                    &&& v.text_at("type"@) == Some("file_skipped"@)
                    &&& v.text_at("path"@) == Some(path@)
                    &&& v.text_at("reason"@) == Some(reason@)
                    &&& v.number_at("timestamp"@) == Some(timestamp)
                },
                SessionRecord::End {
                    session_id,
                    total_files,
                    reviewed_files,
                    total_findings,
                    timestamp,
                } => {
                    &&& v.text_at("type"@) == Some("session_end"@)
                    &&& v.text_at("session_id"@) == Some(session_id@)
                    &&& v.number_at("total_files"@) == Some(total_files as u64)
                    &&& v.number_at("reviewed_files"@) == Some(reviewed_files as u64)
                    &&& v.number_at("total_findings"@) == Some(total_findings as u64)
                    &&& v.number_at("timestamp"@) == Some(timestamp)
                },
            }
        }),
{
    assert forall|v: JsonView, key: Seq<char>, value: JsonView, other: Seq<char>|
        v is Object implies #[trigger] v.with(key, value).get(other) == if other == key {
        Some(value)
    } else {
        v.get(other)
    } by {
        set_members_are_found(v, key, value, other);
    }
    reveal_strlit("type");
    reveal_strlit("session_id");
    reveal_strlit("model");
    reveal_strlit("domain");
    reveal_strlit("timestamp");
    reveal_strlit("pr_url");
    reveal_strlit("path");
    reveal_strlit("fingerprint");
    reveal_strlit("finding_count");
    reveal_strlit("reason");
    reveal_strlit("total_files");
    reveal_strlit("reviewed_files");
    reveal_strlit("total_findings");
    assert("type"@.len() == 4 && "type"@[0] == 't' && "path"@.len() == 4 && "path"@[0] == 'p');
    assert("session_id"@.len() == 10 && "model"@.len() == 5 && "timestamp"@.len() == 9);
    assert("domain"@.len() == 6 && "domain"@[0] == 'd' && "pr_url"@.len() == 6 && "pr_url"@[0]
        == 'p');
    assert("fingerprint"@.len() == 11 && "finding_count"@.len() == 13 && "reason"@.len() == 6);
    assert("total_files"@.len() == 11 && "reviewed_files"@.len() == 14 && "reviewed_files"@[0]
        == 'r');
    assert("total_findings"@.len() == 14 && "total_findings"@[0] == 't');
}

/// What is resumed does not depend on how the findings were counted or when: any record
/// of a reviewed file with a path and a fingerprint is read as that file.
pub proof fn reviewed_files_are_known_again(
    path: Seq<char>,
    fingerprint: Seq<char>,
    finding_count: nat,
    timestamp: nat,
)
    requires
        finding_count <= usize::MAX,
        timestamp <= u64::MAX,
    ensures
        completed_of(done_view(path, fingerprint, finding_count, timestamp)) == Some(
            (path, fingerprint),
        ),
{
    lemma_done_is_read(path, fingerprint, finding_count, timestamp);
}

} // verus!
