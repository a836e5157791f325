//! Shared data model: instance identifiers, server kinds, specs,
//! live-state rows and log lines.

use vstd::prelude::*;

verus! {

/// Holds when `r` is the short display prefix of `id`: the longest prefix
/// of `id` that contains no `'-'`, cut at the first `'-'` if there is one.
pub open spec fn short_of(id: Seq<char>, r: Seq<char>) -> bool {
    &&& r.len() <= id.len()
    &&& r == id.subrange(0, r.len() as int)
    &&& forall|j: int| 0 <= j < r.len() ==> id[j] != '-'
    &&& (r.len() == id.len() || id[r.len() as int] == '-')
}

/// A lowercase hexadecimal digit.
pub open spec fn is_lower_hex(c: char) -> bool {
    ('0' <= c && c <= '9') || ('a' <= c && c <= 'f')
}

/// The shape of a hyphenated UUID string: 36 characters, `'-'` at
/// positions 8, 13, 18 and 23, lowercase hex digits everywhere else.
pub open spec fn is_hyphenated_uuid(s: Seq<char>) -> bool {
    &&& s.len() == 36
    &&& forall|i: int|
        0 <= i < 36 ==> (if i == 8 || i == 13 || i == 18 || i == 23 {
            s[i] == '-'
        } else {
            is_lower_hex(#[trigger] s[i])
        })
}

/// Relies on `uuid::Uuid::new_v4` and its `Display` impl: a fresh random
/// UUID rendered in the lowercase hyphenated form (8-4-4-4-12 hex digits).
#[verifier::external_body]
fn fresh_uuid_string() -> (r: String)
    ensures
        is_hyphenated_uuid(r@),
{
    uuid::Uuid::new_v4().to_string()
}

/// Relies on `chrono::Utc::now` and `DateTime::timestamp_millis`: the
/// current wall-clock time in milliseconds since the Unix epoch. Nothing
/// can be promised of the value.
#[verifier::external_body]
pub(crate) fn now_ms() -> i64 {
    chrono::Utc::now().timestamp_millis()
}

/// Opaque unique identifier of a declared server instance.
pub struct ServerId {
    id: String,
}

impl View for ServerId {
    type V = Seq<char>;

    closed spec fn view(&self) -> Seq<char> {
        self.id@
    }
}

impl ServerId {
    /// A fresh identifier with enough entropy that its 8-character short
    /// prefix is effectively unique within any live set.
    pub fn new() -> (r: ServerId)
        ensures
            is_hyphenated_uuid(r@),
    {
        ServerId { id: fresh_uuid_string() }
    }

    /// Wraps an existing identifier string.
    pub fn from_string(id: String) -> (r: ServerId)
        ensures
            r@ == id@,
    {
        ServerId { id }
    }

    /// The short display prefix: everything before the first `'-'`,
    /// or the whole identifier if it contains none.
    pub fn short(&self) -> (r: String)
        ensures
            short_of(self@, r@),
    {
        let s = self.id.as_str();
        let n = s.unicode_len();
        let mut i: usize = 0;
        while i < n && s.get_char(i) != '-'
            invariant
                i <= n,
                n == s@.len(),
                s@ == self@,
                forall|j: int| 0 <= j < i ==> self@[j] != '-',
            decreases n - i,
        {
            i = i + 1;
        }
        let prefix = s.substring_char(0, i);
        prefix.to_owned()
    }

    /// The full identifier as a string.
    pub fn to_text(&self) -> (r: String)
        ensures
            r@ == self@,
    {
        self.id.clone()
    }

    /// Value-preserving copy.
    pub fn duplicate(&self) -> (r: ServerId)
        ensures
            r == *self,
    {
        ServerId { id: self.id.clone() }
    }

    /// Whether two identifiers denote the same instance.
    pub fn same_as(&self, other: &ServerId) -> (r: bool)
        ensures
            r == (self@ == other@),
    {
        self.id == other.id
    }
}

/// The protocol an instance serves.
#[derive(Clone, Copy, PartialEq, Eq, Structural, Debug)]
pub enum ServerType {
    Http,
    Webdav,
    S3,
    Ftp,
    Sftp,
}

/// The display name of each server type.
pub open spec fn spec_display_name(t: ServerType) -> Seq<char> {
    match t {
        ServerType::Http => "HTTP"@,
        ServerType::Webdav => "WebDAV"@,
        ServerType::S3 => "S3"@,
        ServerType::Ftp => "FTP"@,
        ServerType::Sftp => "SFTP"@,
    }
}

/// ASCII lowercasing of a single character; everything outside `'A'..='Z'`
/// is left alone.
pub open spec fn lower_char(c: char) -> char {
    if c == 'A' {
        'a'
    } else if c == 'B' {
        'b'
    } else if c == 'C' {
        'c'
    } else if c == 'D' {
        'd'
    } else if c == 'E' {
        'e'
    } else if c == 'F' {
        'f'
    } else if c == 'G' {
        'g'
    } else if c == 'H' {
        'h'
    } else if c == 'I' {
        'i'
    } else if c == 'J' {
        'j'
    } else if c == 'K' {
        'k'
    } else if c == 'L' {
        'l'
    } else if c == 'M' {
        'm'
    } else if c == 'N' {
        'n'
    } else if c == 'O' {
        'o'
    } else if c == 'P' {
        'p'
    } else if c == 'Q' {
        'q'
    } else if c == 'R' {
        'r'
    } else if c == 'S' {
        's'
    } else if c == 'T' {
        't'
    } else if c == 'U' {
        'u'
    } else if c == 'V' {
        'v'
    } else if c == 'W' {
        'w'
    } else if c == 'X' {
        'x'
    } else if c == 'Y' {
        'y'
    } else if c == 'Z' {
        'z'
    } else {
        c
    }
}

/// ASCII lowercasing of a character sequence.
pub open spec fn lower_seq(s: Seq<char>) -> Seq<char> {
    Seq::new(s.len(), |i: int| lower_char(s[i]))
}

/// The server type a name denotes, compared ASCII-case-insensitively;
/// anything unrecognised falls back to HTTP.
pub open spec fn spec_from_name(s: Seq<char>) -> ServerType {
    if lower_seq(s) == "http"@ {
        ServerType::Http
    } else if lower_seq(s) == "webdav"@ {
        ServerType::Webdav
    } else if lower_seq(s) == "s3"@ {
        ServerType::S3
    } else if lower_seq(s) == "ftp"@ {
        ServerType::Ftp
    } else if lower_seq(s) == "sftp"@ {
        ServerType::Sftp
    } else {
        ServerType::Http
    }
}

/// ASCII lowercasing of a single character.
fn lower_char_exec(c: char) -> (r: char)
    ensures
        r == lower_char(c),
{
    match c {
        'A' => 'a',
        'B' => 'b',
        'C' => 'c',
        'D' => 'd',
        'E' => 'e',
        'F' => 'f',
        'G' => 'g',
        'H' => 'h',
        'I' => 'i',
        'J' => 'j',
        'K' => 'k',
        'L' => 'l',
        'M' => 'm',
        'N' => 'n',
        'O' => 'o',
        'P' => 'p',
        'Q' => 'q',
        'R' => 'r',
        'S' => 's',
        'T' => 't',
        'U' => 'u',
        'V' => 'v',
        'W' => 'w',
        'X' => 'x',
        'Y' => 'y',
        'Z' => 'z',
        _ => c,
    }
}

/// Whether `s`, lowered ASCII-case-insensitively, equals `t`.
fn matches_lowered(s: &str, t: &str) -> (r: bool)
    ensures
        r == (lower_seq(s@) == t@),
{
    let ns = s.unicode_len();
    let nt = t.unicode_len();
    if ns != nt {
        proof {
            assert(lower_seq(s@).len() != t@.len());
        }
        return false;
    }
    let mut i: usize = 0;
    while i < ns
        invariant
            i <= ns,
            ns == s@.len(),
            ns == t@.len(),
            forall|j: int| 0 <= j < i ==> lower_char(s@[j]) == t@[j],
        decreases ns - i,
    {
        if lower_char_exec(s.get_char(i)) != t.get_char(i) {
            proof {
                assert(lower_seq(s@)[i as int] != t@[i as int]);
            }
            return false;
        }
        i = i + 1;
    }
    proof {
        assert(lower_seq(s@) =~= t@);
    }
    true
}

impl ServerType {
    /// Every server type, in declaration order.
    pub fn all() -> (r: Vec<ServerType>)
        ensures
            r@ == seq![
                ServerType::Http,
                ServerType::Webdav,
                ServerType::S3,
                ServerType::Ftp,
                ServerType::Sftp,
            ],
    {
        let mut v: Vec<ServerType> = Vec::new();
        v.push(ServerType::Http);
        v.push(ServerType::Webdav);
        v.push(ServerType::S3);
        v.push(ServerType::Ftp);
        v.push(ServerType::Sftp);
        proof {
            assert(v@ =~= seq![
                ServerType::Http,
                ServerType::Webdav,
                ServerType::S3,
                ServerType::Ftp,
                ServerType::Sftp,
            ]);
        }
        v
    }

    /// The display name of this server type.
    pub fn display_name(&self) -> (r: String)
        ensures
            r@ == spec_display_name(*self),
    {
        match self {
            ServerType::Http => "HTTP".to_owned(),
            ServerType::Webdav => "WebDAV".to_owned(),
            ServerType::S3 => "S3".to_owned(),
            ServerType::Ftp => "FTP".to_owned(),
            ServerType::Sftp => "SFTP".to_owned(),
        }
    }

    /// Parses a name back into a server type, ASCII-case-insensitively;
    /// anything unrecognised falls back to HTTP.
    pub fn from_name(s: &str) -> (r: ServerType)
        ensures
            r == spec_from_name(s@),
    {
        if matches_lowered(s, "http") {
            ServerType::Http
        } else if matches_lowered(s, "webdav") {
            ServerType::Webdav
        } else if matches_lowered(s, "s3") {
            ServerType::S3
        } else if matches_lowered(s, "ftp") {
            ServerType::Ftp
        } else if matches_lowered(s, "sftp") {
            ServerType::Sftp
        } else {
            ServerType::Http
        }
    }
}

/// Whether two strings hold the same characters.
pub fn str_eq(a: &str, b: &str) -> (r: bool)
    ensures
        r == (a@ == b@),
{
    let na = a.unicode_len();
    let nb = b.unicode_len();
    if na != nb {
        return false;
    }
    let mut i: usize = 0;
    while i < na
        invariant
            i <= na,
            na == a@.len(),
            na == b@.len(),
            forall|j: int| 0 <= j < i ==> a@[j] == b@[j],
        decreases na - i,
    {
        if a.get_char(i) != b.get_char(i) {
            return false;
        }
        i = i + 1;
    }
    proof {
        assert(a@ =~= b@);
    }
    true
}

/// Value-preserving copy of an optional string.
fn duplicate_opt_string(s: &Option<String>) -> (r: Option<String>)
    ensures
        r == *s,
{
    match s {
        Option::None => Option::None,
        Option::Some(v) => Option::Some(v.clone()),
    }
}

/// Immutable definition of a requested endpoint, owned by the manager once
/// accepted; changing a spec means remove-then-add a new one.
pub struct ServerSpec {
    pub id: ServerId,
    pub name: String,
    pub server_type: ServerType,
    pub root: String,
    pub read_only: bool,
    pub password: Option<String>,
    pub filen_email: String,
    pub filen_password: String,
    pub filen_2fa_code: Option<String>,
}

impl ServerSpec {
    /// Value-preserving copy.
    pub fn duplicate(&self) -> (r: ServerSpec)
        ensures
            r == *self,
    {
        ServerSpec {
            id: self.id.duplicate(),
            name: self.name.clone(),
            server_type: self.server_type,
            root: self.root.clone(),
            read_only: self.read_only,
            password: duplicate_opt_string(&self.password),
            filen_email: self.filen_email.clone(),
            filen_password: self.filen_password.clone(),
            filen_2fa_code: duplicate_opt_string(&self.filen_2fa_code),
        }
    }
}

/// The lifecycle stage of a live instance.
#[derive(Clone, Copy, PartialEq, Eq, Structural, Debug)]
pub enum ServerStatus {
    /// Initial: accepted, process not yet confirmed live.
    Starting,
    /// Process confirmed live and reachable on this local port.
    Running { port: u16 },
    /// The process exited abnormally or failed to start; retained until
    /// explicitly removed so the failure stays visible.
    Error,
}

/// One row of the live state table.
pub struct ServerState {
    pub spec: ServerSpec,
    pub logs_id: String,
    pub status: ServerStatus,
}

impl ServerState {
    /// Value-preserving copy.
    pub fn duplicate(&self) -> (r: ServerState)
        ensures
            r == *self,
    {
        ServerState {
            spec: self.spec.duplicate(),
            logs_id: self.logs_id.clone(),
            status: self.status,
        }
    }
}

/// What one log line carries.
pub enum LogLineContent {
    /// Manager-generated, e.g. "Starting server...".
    Event(String),
    /// A raw captured stdout/stderr line of the child process.
    ServerProcess(String),
}

/// One line of an instance's log stream; ordering within a stream is the
/// append order.
pub struct LogLine {
    /// Milliseconds since the Unix epoch at which the line was recorded.
    pub timestamp_ms: i64,
    pub content: LogLineContent,
}

/// Holds when a log line is a manager event carrying `msg`.
pub open spec fn is_event(line: LogLine, msg: Seq<char>) -> bool {
    match line.content {
        LogLineContent::Event(s) => s@ == msg,
        LogLineContent::ServerProcess(_) => false,
    }
}

/// Holds when a log line is a captured process-output line carrying `msg`.
pub open spec fn is_process_output(line: LogLine, msg: Seq<char>) -> bool {
    match line.content {
        LogLineContent::Event(_) => false,
        LogLineContent::ServerProcess(s) => s@ == msg,
    }
}

impl LogLine {
    /// Value-preserving copy.
    pub fn duplicate(&self) -> (r: LogLine)
        ensures
            r == *self,
    {
        LogLine {
            timestamp_ms: self.timestamp_ms,
            content: match &self.content {
                LogLineContent::Event(s) => LogLineContent::Event(s.clone()),
                LogLineContent::ServerProcess(s) => LogLineContent::ServerProcess(s.clone()),
            },
        }
    }
}

} // verus!
