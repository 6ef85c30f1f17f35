//! Choosing where an archive is restored to, and reading the upload form.
use vstd::prelude::*;
use crate::backup::runner::{archive_parts, is_plain_name, join_path};
use crate::error::{AppError, bad_request, is_bad_request};
use crate::handlers::connections::{is_mongodb_uri, mongodb_uri, opt_str};
use crate::ids::{parse_id, uuid_parsed};
use crate::storage::connections::{ConnectionStore, ConnectionValue, connection_index};
use crate::text::{find_first, lemma_find_from, str_eq, str_find, substring, to_chars, trim, trimmed};

verus! {

broadcast use vstd::string::group_string_axioms;

/// A restore of an archive that is already on the server.
#[derive(Debug)]
pub struct ServerFileRestore {
    pub filename: String,
    pub target_connection_id: Option<u128>,
    pub target_uri: Option<String>,
    pub target_database: Option<String>,
    pub drop_existing: bool,
}

/// What a client asks the restore target to be, and where that leads: the saved
/// connection's string; else the given string, trimmed, if it has the MongoDB scheme;
/// else an error text.
pub open spec fn target_uri_choice(conns: Seq<ConnectionValue>, connection_id: Option<u128>, explicit_uri: Option<Seq<char>>) -> Result<Seq<char>, Seq<char>> {
    match connection_id {
        Some(id) => match connection_index(conns, id, 0) {
            Some(i) => Ok(conns[i].uri),
            None => Err("unknown target_connection_id"@),
        },
        None => match explicit_uri {
            Some(u) => if is_mongodb_uri(trimmed(u)) {
                Ok(trimmed(u))
            } else {
                Err("target_uri must start with mongodb:// or mongodb+srv://"@)
            },
            None => Err("must provide target_connection_id or target_uri"@),
        },
    }
}

/// The value of an optional string slice.
pub open spec fn opt_slice(o: Option<&str>) -> Option<Seq<char>> {
    match o {
        Some(s) => Some(s@),
        None => None,
    }
}

/// The connection string to restore into. Refused with a `BadRequest` whose text says why.
pub fn resolve_target_uri(connections: &ConnectionStore, connection_id: Option<u128>, explicit_uri: Option<&str>) -> (r: Result<String, AppError>)
    ensures
        match target_uri_choice(connections@, connection_id, opt_slice(explicit_uri)) {
            Ok(u) => r matches Ok(x) && x@ == u,
            Err(m) => r matches Err(e) && is_bad_request(e, m),
        },
{
    if let Some(id) = connection_id {
        return match connections.get(id) {
            Some(c) => Ok(c.uri),
            None => Err(bad_request("unknown target_connection_id")),
        };
    }
    if let Some(uri) = explicit_uri {
        let trimmed_uri = trim(uri);
        if !mongodb_uri(trimmed_uri.as_str()) {
            return Err(bad_request("target_uri must start with mongodb:// or mongodb+srv://"));
        }
        return Ok(trimmed_uri);
    }
    Err(bad_request("must provide target_connection_id or target_uri"))
}

/// The first position at or after `k` of a `/` or `?` in `s`, or its length.
pub open spec fn host_end(s: Seq<char>, k: int) -> int
    decreases s.len() - k,
{
    if k < 0 || k >= s.len() {
        s.len() as int
    } else if s[k] == '/' || s[k] == '?' {
        k
    } else {
        host_end(s, k + 1)
    }
}

/// The host part of a connection string: after the scheme's `://` and the first `@`
/// (where they occur), up to the first `/` or `?`; `None` if that is empty.
pub open spec fn uri_host(uri: Seq<char>) -> Option<Seq<char>> {
    let after_scheme = match find_first(uri, "://"@) {
        Some(i) => uri.subrange(i + "://"@.len(), uri.len() as int),
        None => uri,
    };
    let after_auth = match find_first(after_scheme, "@"@) {
        Some(i) => after_scheme.subrange(i + "@"@.len(), after_scheme.len() as int),
        None => after_scheme,
    };
    let host = after_auth.subrange(0, host_end(after_auth, 0));
    if host.len() == 0 {
        None
    } else {
        Some(host)
    }
}

/// The text after the first `p` in `s`, or all of `s`.
fn after_or_all(s: &str, p: &str) -> (r: String)
    ensures
        r@ == (match find_first(s@, p@) {
            Some(i) => s@.subrange(i + p@.len(), s@.len() as int),
            None => s@,
        }),
{
    proof {
        lemma_find_from(s@, p@, 0);
    }
    let n = s.unicode_len();
    match str_find(s, p) {
        Some(i) => substring(s, i + p.unicode_len(), n),
        None => s.to_owned(),
    }
}

/// The host part of a connection string.
pub fn host_from_uri(uri: &str) -> (r: Option<String>)
    ensures
        opt_str(r) == uri_host(uri@),
{
    let after_scheme = after_or_all(uri, "://");
    let after_auth = after_or_all(after_scheme.as_str(), "@");
    let v = to_chars(after_auth.as_str());
    let mut k: usize = 0;
    while k < v.len() && v[k] != '/' && v[k] != '?'
        invariant
            v@ == after_auth@,
            k <= v@.len(),
            host_end(v@, 0) == host_end(v@, k as int),
        decreases v@.len() - k,
    {
        k = k + 1;
    }
    if k == 0 {
        None
    } else {
        Some(substring(after_auth.as_str(), 0, k))
    }
}

/// The last component of the path `p` (`std::path::Path::file_name`), as text.
pub uninterp spec fn path_file_name(p: Seq<char>) -> Option<Seq<char>>;

/// The last component of a path (`std::path::Path::file_name`), `None` where the path
/// ends in `..` or has no components. The result is named by `path_file_name`; the
/// rules of `Path` components (repeated and trailing separators, `.` components) are
/// not restated, but for a path that joins a directory with a plain name, that name is
/// the last component.
#[verifier::external_body]
fn file_name_of(path: &str) -> (r: Option<String>)
    ensures
        opt_str(r) == path_file_name(path@),
        forall|dir: Seq<char>, name: Seq<char>|
            is_plain_name(name) && path@ == #[trigger] join_path(dir, name) ==> opt_str(r) == Some(name),
{
    match std::path::Path::new(path).file_name() {
        Some(n) => n.to_str().map(str::to_owned),
        None => None,
    }
}

/// The database that an archive name tells: the middle of its three `__`-separated parts.
pub open spec fn archive_name_db(name: Seq<char>) -> Option<Seq<char>> {
    match archive_parts(name) {
        Some((a, b, c)) => Some(b),
        None => None,
    }
}

/// The database that an archive's file name tells.
pub fn archive_db_from_name(name: &str) -> (r: Option<String>)
    ensures
        opt_str(r) == archive_name_db(name@),
{
    match crate::backup::runner::split_archive_name(name) {
        Some((_, db, _)) => Some(db),
        None => None,
    }
}

/// The database that the archive at `archive_path` tells by its file name.
pub fn archive_source_db(archive_path: &str) -> (r: Option<String>)
    ensures
        opt_str(r) == (match path_file_name(archive_path@) {
            Some(n) => archive_name_db(n),
            None => None,
        }),
        forall|dir: Seq<char>, name: Seq<char>|
            is_plain_name(name) && archive_path@ == #[trigger] join_path(dir, name) ==> path_file_name(archive_path@) == Some(name),
{
    match file_name_of(archive_path) {
        Some(name) => archive_db_from_name(name.as_str()),
        None => None,
    }
}

/// How a restore's target connection is shown: the saved connection's label, or
/// `(deleted connection)`; else the host of the given string, or `(custom uri)`; else
/// `(unknown target)`.
pub open spec fn target_label(conns: Seq<ConnectionValue>, connection_id: Option<u128>, explicit_uri: Option<Seq<char>>) -> Seq<char> {
    match connection_id {
        Some(id) => match connection_index(conns, id, 0) {
            Some(i) => conns[i].label,
            None => "(deleted connection)"@,
        },
        None => match explicit_uri {
            Some(u) => match uri_host(u) {
                Some(h) => h,
                None => "(custom uri)"@,
            },
            None => "(unknown target)"@,
        },
    }
}

/// How a restore's target database is shown: the given one if not empty, else the one
/// the archive's name tells, else `(as in archive)`.
pub open spec fn target_db_label(target_database: Option<Seq<char>>, source_db: Option<Seq<char>>) -> Seq<char> {
    match target_database {
        Some(db) if db.len() > 0 => db,
        _ => match source_db {
            Some(d) => d,
            None => "(as in archive)"@,
        },
    }
}

/// The labels under which a restore's job is shown: the target connection and database.
pub fn describe_target(
    connections: &ConnectionStore,
    connection_id: Option<u128>,
    explicit_uri: Option<&str>,
    target_database: Option<&str>,
    archive_path: &str,
) -> (r: (String, String))
    ensures
        r.0@ == target_label(connections@, connection_id, opt_slice(explicit_uri)),
        r.1@ == target_db_label(opt_slice(target_database), match path_file_name(archive_path@) {
            Some(n) => archive_name_db(n),
            None => None,
        }),
        forall|dir: Seq<char>, name: Seq<char>|
            is_plain_name(name) && archive_path@ == #[trigger] join_path(dir, name) ==> r.1@ == target_db_label(
                opt_slice(target_database),
                archive_name_db(name),
            ),
{
    let conn_label = match connection_id {
        Some(id) => match connections.get(id) {
            Some(c) => c.label,
            None => "(deleted connection)".to_owned(),
        },
        None => match explicit_uri {
            Some(uri) => match host_from_uri(uri) {
                Some(h) => h,
                None => "(custom uri)".to_owned(),
            },
            None => "(unknown target)".to_owned(),
        },
    };
    let db_label = match target_database {
        Some(db) if !db.is_empty() => db.to_owned(),
        _ => match archive_source_db(archive_path) {
            Some(d) => d,
            None => "(as in archive)".to_owned(),
        },
    };
    (conn_label, db_label)
}

/// The longest a text field of the upload form may be, in bytes.
pub const MAX_TEXT_FIELD: usize = 4096;

/// A text field that has grown to `len` bytes is refused past `MAX_TEXT_FIELD`.
pub fn check_text_field_size(len: usize) -> (r: Result<(), AppError>)
    ensures
        len > MAX_TEXT_FIELD ==> (r matches Err(e) && is_bad_request(e, "text field too large"@)),
        len <= MAX_TEXT_FIELD ==> r is Ok,
{
    if len > MAX_TEXT_FIELD {
        Err(bad_request("text field too large"))
    } else {
        Ok(())
    }
}

/// How a field of the upload form is read.
#[derive(Clone, Copy, Debug, PartialEq, Eq, Structural)]
pub enum FieldRole {
    /// The archive itself.
    File,
    /// A short text setting.
    Text,
    /// Anything else, read and dropped.
    Ignored,
}

/// The role of the field named `name`.
pub open spec fn role_of(name: Seq<char>) -> FieldRole {
    if name == "file"@ {
        FieldRole::File
    } else if name == "target_connection_id"@ || name == "target_uri"@ || name == "target_database"@ || name == "drop_existing"@ {
        FieldRole::Text
    } else {
        FieldRole::Ignored
    }
}

/// The role of the upload form's field named `name`.
pub fn field_role(name: &str) -> (r: FieldRole)
    ensures
        r == role_of(name@),
{
    if str_eq(name, "file") {
        FieldRole::File
    } else if str_eq(name, "target_connection_id") || str_eq(name, "target_uri") || str_eq(name, "target_database") || str_eq(name, "drop_existing") {
        FieldRole::Text
    } else {
        FieldRole::Ignored
    }
}

/// `value` turns a flag on: `1`, `true`, `on` or `yes`.
pub open spec fn is_truthy(value: Seq<char>) -> bool {
    value == "1"@ || value == "true"@ || value == "on"@ || value == "yes"@
}

/// Whether `value` turns a flag on.
pub fn truthy(value: &str) -> (b: bool)
    ensures
        b == is_truthy(value@),
{
    str_eq(value, "1") || str_eq(value, "true") || str_eq(value, "on") || str_eq(value, "yes")
}

/// The settings read so far from an upload form.
#[derive(Debug)]
pub struct UploadForm {
    /// Where the uploaded archive was stored.
    pub file: Option<String>,
    pub target_connection_id: Option<u128>,
    pub target_uri: Option<String>,
    pub target_database: Option<String>,
    pub drop_existing: bool,
}

/// The value of an `UploadForm`.
pub struct UploadFormValue {
    pub file: Option<Seq<char>>,
    pub target_connection_id: Option<u128>,
    pub target_uri: Option<Seq<char>>,
    pub target_database: Option<Seq<char>>,
    pub drop_existing: bool,
}

impl View for UploadForm {
    type V = UploadFormValue;

    open spec fn view(&self) -> UploadFormValue {
        UploadFormValue {
            file: opt_str(self.file),
            target_connection_id: self.target_connection_id,
            target_uri: opt_str(self.target_uri),
            target_database: opt_str(self.target_database),
            drop_existing: self.drop_existing,
        }
    }
}

/// The form after the text field `name` with the (trimmed) value `v`: an empty value
/// leaves a setting as it was; a connection id that does not parse is refused.
pub open spec fn form_after(f: UploadFormValue, name: Seq<char>, v: Seq<char>) -> Result<UploadFormValue, Seq<char>> {
    if name == "target_connection_id"@ {
        if v.len() == 0 {
            Ok(f)
        } else {
            match uuid_parsed(v) {
                Some(id) => Ok(UploadFormValue { target_connection_id: Some(id), ..f }),
                None => Err("invalid target_connection_id"@),
            }
        }
    } else if name == "target_uri"@ {
        if v.len() == 0 {
            Ok(f)
        } else {
            Ok(UploadFormValue { target_uri: Some(v), ..f })
        }
    } else if name == "target_database"@ {
        if v.len() == 0 {
            Ok(f)
        } else {
            Ok(UploadFormValue { target_database: Some(v), ..f })
        }
    } else if name == "drop_existing"@ {
        Ok(UploadFormValue { drop_existing: is_truthy(v), ..f })
    } else {
        Ok(f)
    }
}

impl UploadForm {
    /// Nothing read yet: no file, no target, no dropping.
    pub fn new() -> (f: Self)
        ensures
            f@ == (UploadFormValue {
                file: None,
                target_connection_id: None,
                target_uri: None,
                target_database: None,
                drop_existing: false,
            }),
    {
        UploadForm { file: None, target_connection_id: None, target_uri: None, target_database: None, drop_existing: false }
    }

    /// Records where the uploaded archive was stored.
    pub fn set_file(&mut self, path: String)
        ensures
            final(self)@ == (UploadFormValue { file: Some(path@), ..old(self)@ }),
    {
        self.file = Some(path);
    }

    /// Applies the text field `name` whose raw text is `raw` (it is trimmed first).
    /// Refused with a `BadRequest` for a connection id that does not parse, leaving the
    /// form as it was.
    pub fn apply_text_field(&mut self, name: &str, raw: &str) -> (r: Result<(), AppError>)
        ensures
            match form_after(old(self)@, name@, trimmed(raw@)) {
                Ok(f) => r is Ok && final(self)@ == f,
                Err(m) => r matches Err(e) && is_bad_request(e, m) && final(self)@ == old(self)@,
            },
    {
        let value = trim(raw);
        let empty = value.as_str().is_empty();
        if str_eq(name, "target_connection_id") {
            if !empty {
                match parse_id(value.as_str()) {
                    Some(id) => self.target_connection_id = Some(id),
                    None => return Err(bad_request("invalid target_connection_id")),
                }
            }
        } else if str_eq(name, "target_uri") {
            if !empty {
                self.target_uri = Some(value);
            }
        } else if str_eq(name, "target_database") {
            if !empty {
                self.target_database = Some(value);
            }
        } else if str_eq(name, "drop_existing") {
            self.drop_existing = truthy(value.as_str());
        }
        Ok(())
    }

    /// The stored archive; refused with a `BadRequest` if the form had no file.
    pub fn archive(&self) -> (r: Result<String, AppError>)
        ensures
            match self@.file {
                Some(p) => r matches Ok(x) && x@ == p,
                None => r matches Err(e) && is_bad_request(e, "missing file field"@),
            },
    {
        match &self.file {
            Some(p) => Ok(p.clone()),
            None => Err(bad_request("missing file field")),
        }
    }
}

} // verus!
