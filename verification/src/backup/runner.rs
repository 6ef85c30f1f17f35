//! Archive names, the dump and restore tool invocations, and retention.
use vstd::prelude::*;
use crate::clock::{Timestamp, compact_stamp_parsed, compact_stamp_text, format_time, is_compact_stamp_shape, parse_time, utc_now, STAMP_FORMAT, YEAR_10000_SECS};
use crate::error::{AppError, bad_request, is_bad_request};
use crate::ids::{id_text, parse_id, uuid_parsed, uuid_text};
use crate::backup::jobs::{ProgressUpdate, ProgressUpdateView};
use vstd::utf8::{decode_utf8, encode_utf8, is_char_boundary};
use vstd::string::StringSliceAdditionalSpecFns;
use crate::text::{int_text, find_first, str_find, trim, trimmed, lex_le, lemma_lex_total, lemma_lex_trans, str_eq, str_lex_le, concat, contains, find_from, lemma_find_from, lemma_find_skip, occurs_at, split_from, ends_with, is_ascii_alphanumeric, char_is_ascii_alphanumeric, split_all, split_str, str_contains, str_ends_with, string_push, string_values, substring, to_chars, usize_text};

verus! {

broadcast use vstd::string::group_string_axioms;

/// The ending of every archive file name.
pub const ARCHIVE_EXT: &'static str = ".archive.gz";

/// How many lines of the dump tool's error output are kept.
pub const MAX_STDERR_TAIL: usize = 200;

/// How many bytes of an output line are kept as a job's last log line.
pub const MAX_LOG_LINE: usize = 240;

/// The ending of every archive file name, `.archive.gz`.
pub open spec fn archive_ext() -> Seq<char> {
    seq!['.', 'a', 'r', 'c', 'h', 'i', 'v', 'e', '.', 'g', 'z']
}

/// The separator between the parts of an archive name, `__`.
pub open spec fn name_sep() -> Seq<char> {
    seq!['_', '_']
}

/// `c` as it stands in a file name: ASCII letters, digits, `-` and `_` stay, anything
/// else becomes `_`.
pub open spec fn sanitized_char(c: char) -> char {
    if is_ascii_alphanumeric(c) || c == '-' || c == '_' {
        c
    } else {
        '_'
    }
}

/// `s` with every character made safe for a file name.
pub open spec fn sanitized(s: Seq<char>) -> Seq<char> {
    s.map_values(|c: char| sanitized_char(c))
}

/// The archive name of a dump of `database` from the connection `id`, stamped `stamp`:
/// `{id}__{database made safe}__{stamp}.archive.gz`.
pub open spec fn archive_name(id: u128, database: Seq<char>, stamp: Seq<char>) -> Seq<char> {
    uuid_text(id) + name_sep() + sanitized(database) + name_sep() + stamp + archive_ext()
}

/// `name` without the archive ending, if it has it.
pub open spec fn archive_stem(name: Seq<char>) -> Seq<char> {
    if ends_with(name, archive_ext()) {
        name.subrange(0, name.len() - archive_ext().len())
    } else {
        name
    }
}

/// The three `__`-separated parts of an archive name's stem, if there are exactly three.
pub open spec fn archive_parts(name: Seq<char>) -> Option<(Seq<char>, Seq<char>, Seq<char>)> {
    let parts = split_all(archive_stem(name), name_sep());
    if parts.len() == 3 {
        Some((parts[0], parts[1], parts[2]))
    } else {
        None
    }
}

/// What `parse_filename` reads from a name: the connection id, the database and the
/// time, from the three parts of the name (none of them if there are not three).
pub open spec fn parsed_archive_name(name: Seq<char>) -> (Option<u128>, Option<Seq<char>>, Option<(i64, u32)>) {
    match archive_parts(name) {
        Some((a, b, c)) => (uuid_parsed(a), Some(b), compact_stamp_parsed(c)),
        None => (None, None, None),
    }
}

/// Why a file name is refused: empty, or holding `/`, `\` or `..` (it could leave the
/// backup directory), or not ending in `.archive.gz`.
pub open spec fn filename_problem(name: Seq<char>) -> Option<Seq<char>> {
    if name.len() == 0 || contains(name, seq!['/']) || contains(name, seq!['\\']) || contains(name, seq!['.', '.']) {
        Some("invalid filename"@)
    } else if !ends_with(name, archive_ext()) {
        Some("not an archive filename"@)
    } else {
        None
    }
}

/// The path of the entry `name` in the directory `dir` (as `Path::join` gives it for a
/// name without separators).
pub open spec fn join_path(dir: Seq<char>, name: Seq<char>) -> Seq<char> {
    if dir.len() == 0 {
        name
    } else if dir.last() == '/' {
        dir + name
    } else {
        dir + seq!['/'] + name
    }
}

/// `p` is an absolute path: it starts at the root.
pub open spec fn is_absolute(p: Seq<char>) -> bool {
    p.len() > 0 && p[0] == '/'
}

/// `s` holds no path separator `/`.
pub open spec fn no_slash(s: Seq<char>) -> bool {
    forall|i: int| 0 <= i < s.len() ==> s[i] != '/'
}

/// `name` can name an entry of a directory: it is not empty, holds no `/`, and is not
/// `.` or `..`.
pub open spec fn is_plain_name(name: Seq<char>) -> bool {
    name.len() > 0 && no_slash(name) && name != seq!['.'] && name != seq!['.', '.']
}

/// A file name that `resolve` accepts is a plain name.
pub proof fn lemma_accepted_name_is_plain(name: Seq<char>)
    requires
        filename_problem(name) is None,
    ensures
        is_plain_name(name),
{
    lemma_no_slash(name);
    assert(name.len() >= archive_ext().len());
    assert(name.subrange(name.len() - 11, name.len() as int) == archive_ext());
    assert(name.last() == 'z') by {
        assert(name.subrange(name.len() - 11, name.len() as int)[10] == name[name.len() - 1]);
    }
}

/// `p` is the path of an entry directly inside the directory `dir`, so that `dir` is its
/// parent: `dir` joined with a non-empty name that holds no separator.
pub open spec fn is_entry_of(p: Seq<char>, dir: Seq<char>) -> bool {
    exists|name: Seq<char>| name.len() > 0 && no_slash(name) && p == #[trigger] join_path(dir, name)
}

/// Joining an absolute directory with a name gives an absolute path.
pub proof fn lemma_join_absolute(dir: Seq<char>, name: Seq<char>)
    requires
        is_absolute(dir),
    ensures
        is_absolute(join_path(dir, name)),
{
    if dir.last() == '/' {
        assert((dir + name)[0] == dir[0]);
    } else {
        assert((dir + seq!['/'] + name)[0] == dir[0]);
    }
}

/// A string in which `/` does not occur holds no `/`.
proof fn lemma_no_slash(s: Seq<char>)
    requires
        !contains(s, seq!['/']),
    ensures
        no_slash(s),
{
    lemma_find_from(s, seq!['/'], 0);
    assert forall|i: int| 0 <= i < s.len() implies s[i] != '/' by {
        if s[i] == '/' {
            assert(s.subrange(i, i + 1) =~= seq!['/']);
            assert(occurs_at(s, seq!['/'], i));
        }
    }
}

/// An archive name holds no `/` where its stamp holds none.
proof fn lemma_archive_name_no_slash(id: u128, database: Seq<char>, stamp: Seq<char>)
    requires
        no_slash(stamp),
    ensures
        no_slash(archive_name(id, database, stamp)),
        archive_name(id, database, stamp).len() > 0,
{
    let u = uuid_text(id);
    let d = sanitized(database);
    let name = archive_name(id, database, stamp);
    assert forall|i: int| 0 <= i < 36 implies u[i] != '/' by {
        if !(i == 8 || i == 13 || i == 18 || i == 23) {
            let n = crate::ids::hex_nibble(id, crate::ids::digit_position(i));
            assert(0 <= n < 16);
            assert(crate::ids::hex_char(n) != '/');
        }
    }
    assert forall|i: int| 0 <= i < d.len() implies d[i] != '/' by {
        assert(d[i] == sanitized_char(database[i]));
    }
    let ext = archive_ext();
    assert(no_slash(ext));
    let sep = name_sep();
    assert(no_slash(sep));
    assert forall|i: int| 0 <= i < name.len() implies name[i] != '/' by {
        let a = u + sep;
        let b = a + d;
        let c = b + sep;
        let e = c + stamp;
        assert(name == e + ext);
        if i >= e.len() {
            assert(name[i] == ext[i - e.len()]);
        } else if i >= c.len() {
            assert(name[i] == stamp[i - c.len()]);
        } else if i >= b.len() {
            assert(name[i] == sep[i - b.len()]);
        } else if i >= a.len() {
            assert(name[i] == d[i - a.len()]);
        } else if i >= 36 {
            assert(name[i] == sep[i - 36]);
        } else {
            assert(name[i] == u[i]);
        }
    }
}

/// The arguments of the dump tool for one database into one gzipped archive.
pub open spec fn dump_args(uri: Seq<char>, database: Seq<char>, path: Seq<char>) -> Seq<Seq<char>> {
    seq!["--uri="@ + uri, "--db="@ + database, "--archive="@ + path, "--gzip"@]
}

/// The arguments of the restore tool for one gzipped archive, dropping existing
/// collections first if asked, and restoring only `target`'s namespaces if given.
pub open spec fn restore_args(uri: Seq<char>, path: Seq<char>, target: Option<Seq<char>>, drop_existing: bool) -> Seq<Seq<char>> {
    let base = seq!["--uri="@ + uri, "--archive="@ + path, "--gzip"@];
    let with_drop = if drop_existing { base.push("--drop"@) } else { base };
    match target {
        Some(db) => with_drop.push("--nsInclude="@ + db + ".*"@),
        None => with_drop,
    }
}

/// The restore tool is told to drop existing collections exactly when that is asked for,
/// whatever the target database; and it is limited to a database's namespaces exactly
/// when a target database is given.
pub proof fn lemma_restore_args_drop_only_when_asked(uri: Seq<char>, path: Seq<char>, target: Option<Seq<char>>, drop_existing: bool)
    ensures
        restore_args(uri, path, target, drop_existing).contains("--drop"@) <==> drop_existing,
        forall|db: Seq<char>| #[trigger] restore_args(uri, path, target, drop_existing).contains("--nsInclude="@ + db + ".*"@) <==> target == Some(db),
{
    reveal_strlit("--drop");
    reveal_strlit("--uri=");
    reveal_strlit("--archive=");
    reveal_strlit("--gzip");
    reveal_strlit("--nsInclude=");
    reveal_strlit(".*");
    let args = restore_args(uri, path, target, drop_existing);
    let drop = "--drop"@;
    assert(("--uri="@ + uri)[2] == 'u');
    assert(("--archive="@ + path)[2] == 'a');
    assert("--gzip"@[2] == 'g');
    assert(drop[2] == 'd');
    assert(("--uri="@ + uri) != drop);
    assert(("--archive="@ + path) != drop);
    assert("--gzip"@ != drop);
    assert forall|d: Seq<char>| ("--nsInclude="@ + d + ".*"@) != drop by {
        assert(("--nsInclude="@ + d + ".*"@)[2] == 'n');
    }
    assert forall|d: Seq<char>| ("--nsInclude="@ + d + ".*"@) != ("--uri="@ + uri) && ("--nsInclude="@ + d + ".*"@) != ("--archive="@ + path)
        && ("--nsInclude="@ + d + ".*"@) != "--gzip"@ && ("--nsInclude="@ + d + ".*"@) != drop by {
        assert(("--nsInclude="@ + d + ".*"@)[2] == 'n');
    }
    let base = seq!["--uri="@ + uri, "--archive="@ + path, "--gzip"@];
    let with_drop = if drop_existing { base.push(drop) } else { base };
    if drop_existing {
        assert(with_drop[3] == drop);
        match target {
            Some(db) => assert(args[3] == drop),
            None => assert(args[3] == drop),
        }
    } else {
        if args.contains(drop) {
            let k = choose|k: int| 0 <= k < args.len() && args[k] == drop;
            assert(k < 4);
        }
    }
    assert forall|db: Seq<char>| #[trigger] args.contains("--nsInclude="@ + db + ".*"@) <==> target == Some(db) by {
        let a = "--nsInclude="@ + db + ".*"@;
        if args.contains(a) {
            let k = choose|k: int| 0 <= k < args.len() && args[k] == a;
            assert(k == with_drop.len());
            let t = target.unwrap();
            assert(a == "--nsInclude="@ + t + ".*"@);
            assert(a.subrange(12, a.len() - 2) =~= db);
            assert(a.subrange(12, a.len() - 2) =~= t);
        }
        if target == Some(db) {
            assert(args[with_drop.len() as int] == a);
        }
    }
}

/// `name` is an archive file name.
pub fn is_archive_name(name: &str) -> (b: bool)
    ensures
        b == ends_with(name@, archive_ext()),
{
    proof {
        reveal_strlit(".archive.gz");
    }
    assert(ARCHIVE_EXT@ =~= archive_ext());
    str_ends_with(name, ARCHIVE_EXT)
}

/// `s` with every character that is not an ASCII letter, digit, `-` or `_` replaced by `_`.
pub fn sanitize(s: &str) -> (r: String)
    ensures
        r@ == sanitized(s@),
{
    let v = to_chars(s);
    let mut r = String::new();
    let mut i: usize = 0;
    while i < v.len()
        invariant
            v@ == s@,
            i <= v@.len(),
            r@ == sanitized(s@).take(i as int),
        decreases v@.len() - i,
    {
        let c = v[i];
        let d = if char_is_ascii_alphanumeric(c) || c == '-' || c == '_' {
            c
        } else {
            '_'
        };
        string_push(&mut r, d);
        i = i + 1;
        assert(r@ =~= sanitized(s@).take(i as int));
    }
    assert(sanitized(s@).take(i as int) =~= sanitized(s@));
    r
}

/// The archive name of a dump of `database` from the connection `connection_id`,
/// stamped `stamp`.
pub fn archive_filename(connection_id: u128, database: &str, stamp: &str) -> (r: String)
    ensures
        r@ == archive_name(connection_id, database@, stamp@),
{
    proof {
        reveal_strlit("__");
        reveal_strlit(".archive.gz");
    }
    let mut r = id_text(connection_id);
    r.append("__");
    let safe = sanitize(database);
    r.append(safe.as_str());
    r.append("__");
    r.append(stamp);
    r.append(ARCHIVE_EXT);
    assert(r@ =~= archive_name(connection_id, database@, stamp@));
    r
}

/// The three `__`-separated parts of the name `name` without its archive ending, if
/// there are exactly three.
pub fn split_archive_name(name: &str) -> (r: Option<(String, String, String)>)
    ensures
        match archive_parts(name@) {
            Some((a, b, c)) => r matches Some((x, y, z)) && x@ == a && y@ == b && z@ == c,
            None => r is None,
        },
{
    proof {
        reveal_strlit("__");
    }
    let stem = if is_archive_name(name) {
        substring(name, 0, name.unicode_len() - 11)
    } else {
        name.to_owned()
    };
    assert(stem@ == archive_stem(name@));
    assert("__"@ =~= name_sep());
    let mut parts = split_str(stem.as_str(), "__");
    if parts.len() != 3 {
        return None;
    }
    assert(string_values(parts@)[0] == parts@[0]@);
    assert(string_values(parts@)[1] == parts@[1]@);
    assert(string_values(parts@)[2] == parts@[2]@);
    let c = parts.pop().unwrap();
    let b = parts.pop().unwrap();
    let a = parts.pop().unwrap();
    Some((a, b, c))
}

/// Reads the connection id, database and time from an archive name
/// `{id}__{database}__{YYYYMMDDTHHMMSSZ}.archive.gz`; each is `None` where it cannot be
/// read, all three where the name does not have three parts.
pub fn parse_filename(name: &str) -> (r: (Option<u128>, Option<String>, Option<Timestamp>))
    ensures
        r.0 == parsed_archive_name(name@).0,
        opt_view(r.1) == parsed_archive_name(name@).1,
        r.2 == (match parsed_archive_name(name@).2 {
            Some((s, n)) => Some(Timestamp { secs: s, nanos: n }),
            None => None,
        }),
        archive_parts(name@) matches Some((a, b, c)) ==> forall|id: u128| a == #[trigger] uuid_text(id) ==> r.0 == Some(id),
        archive_parts(name@) matches Some((a, b, c)) ==> forall|secs: int|
            0 <= secs < YEAR_10000_SECS && c == #[trigger] compact_stamp_text(secs) ==> r.2 == Some(Timestamp { secs: secs as i64, nanos: 0 }),
{
    match split_archive_name(name) {
        Some((a, b, c)) => {
            let id = parse_id(a.as_str());
            let ts = match parse_time(c.as_str(), STAMP_FORMAT) {
                Some((s, n)) => Some(Timestamp { secs: s, nanos: n }),
                None => None,
            };
            (id, Some(b), ts)
        },
        None => (None, None, None),
    }
}

/// The value of an optional string.
pub open spec fn opt_view(o: Option<String>) -> Option<Seq<char>> {
    match o {
        Some(s) => Some(s@),
        None => None,
    }
}

/// The path of the entry `name` in the directory `dir`.
pub fn join(dir: &str, name: &str) -> (r: String)
    ensures
        r@ == join_path(dir@, name@),
{
    proof {
        reveal_strlit("/");
    }
    let d = to_chars(dir);
    if d.len() == 0 {
        return name.to_owned();
    }
    let mut r = dir.to_owned();
    if d[d.len() - 1] != '/' {
        r.append("/");
    }
    r.append(name);
    assert(r@ =~= join_path(dir@, name@));
    r
}

/// The file names that `resolve` refuses, and why.
pub fn check_filename(filename: &str) -> (r: Result<(), AppError>)
    ensures
        match filename_problem(filename@) {
            Some(m) => r matches Err(e) && is_bad_request(e, m),
            None => r is Ok,
        },
{
    proof {
        reveal_strlit("/");
        reveal_strlit("\\");
        reveal_strlit("..");
    }
    assert("/"@ =~= seq!['/']);
    assert("\\"@ =~= seq!['\\']);
    assert(".."@ =~= seq!['.', '.']);
    if filename.is_empty() || str_contains(filename, "/") || str_contains(filename, "\\") || str_contains(filename, "..") {
        return Err(bad_request("invalid filename"));
    }
    if !is_archive_name(filename) {
        return Err(bad_request("not an archive filename"));
    }
    Ok(())
}

/// Every argument of a tool invocation.
pub open spec fn arg_values(v: Seq<String>) -> Seq<Seq<char>> {
    v.map_values(|s: String| s@)
}

/// An archive found in the backup directory, with what its name tells.
#[derive(Debug)]
pub struct BackupFile {
    pub filename: String,
    pub connection_id: Option<u128>,
    pub database: Option<String>,
    pub created_at: Option<Timestamp>,
    pub size_bytes: u64,
}

/// The value of a `BackupFile`.
pub struct BackupFileValue {
    pub filename: Seq<char>,
    pub connection_id: Option<u128>,
    pub database: Option<Seq<char>>,
    pub created_at: Option<Timestamp>,
    pub size_bytes: u64,
}

impl View for BackupFile {
    type V = BackupFileValue;

    open spec fn view(&self) -> BackupFileValue {
        BackupFileValue {
            filename: self.filename@,
            connection_id: self.connection_id,
            database: opt_view(self.database),
            created_at: self.created_at,
            size_bytes: self.size_bytes,
        }
    }
}

impl Clone for BackupFile {
    fn clone(&self) -> (r: Self)
        ensures
            r@ == self@,
    {
        BackupFile {
            filename: self.filename.clone(),
            connection_id: self.connection_id,
            database: match &self.database {
                Some(d) => Some(d.clone()),
                None => None,
            },
            created_at: self.created_at,
            size_bytes: self.size_bytes,
        }
    }
}

/// The values of a sequence of archives.
pub open spec fn backup_values(v: Seq<BackupFile>) -> Seq<BackupFileValue> {
    v.map_values(|b: BackupFile| b@)
}

/// `v` is ordered newest first: by file name, descending (the stamp in the name makes
/// later archives of one database sort later).
pub open spec fn newest_first(v: Seq<BackupFileValue>) -> bool {
    forall|i: int, j: int| 0 <= i < j < v.len() ==> lex_le(#[trigger] v[j].filename, #[trigger] v[i].filename)
}

/// The archive `b` is of the database `database` of the connection `connection_id`.
pub open spec fn is_backup_of(b: BackupFileValue, connection_id: u128, database: Seq<char>) -> bool {
    b.connection_id == Some(connection_id) && b.database == Some(database)
}

/// The archives of `v` that are of `database` of `connection_id`, in order.
pub open spec fn backups_of(v: Seq<BackupFileValue>, connection_id: u128, database: Seq<char>) -> Seq<BackupFileValue>
    decreases v.len(),
{
    if v.len() == 0 {
        v
    } else if is_backup_of(v.last(), connection_id, database) {
        backups_of(v.drop_last(), connection_id, database).push(v.last())
    } else {
        backups_of(v.drop_last(), connection_id, database)
    }
}

/// The archives of a connection's database that pruning looks at are exactly the listed
/// archives whose name carries that connection id and that database: archives of other
/// connections or other databases are never among them.
pub proof fn lemma_backups_of_selects(v: Seq<BackupFileValue>, connection_id: u128, database: Seq<char>)
    ensures
        forall|x: BackupFileValue|
            #[trigger] backups_of(v, connection_id, database).contains(x) <==> (v.contains(x) && x.connection_id == Some(connection_id)
                && x.database == Some(database)),
    decreases v.len(),
{
    if v.len() > 0 {
        let d = v.drop_last();
        lemma_backups_of_selects(d, connection_id, database);
        let w = backups_of(d, connection_id, database);
        assert forall|x: BackupFileValue|
            #[trigger] backups_of(v, connection_id, database).contains(x) <==> (v.contains(x) && x.connection_id == Some(connection_id)
                && x.database == Some(database)) by {
            let t = backups_of(v, connection_id, database);
            if t.contains(x) {
                let k = choose|k: int| 0 <= k < t.len() && t[k] == x;
                if k < w.len() {
                    assert(t[k] == w[k]);
                    assert(w.contains(x));
                    let j = choose|j: int| 0 <= j < d.len() && d[j] == x;
                    assert(v[j] == x);
                } else {
                    assert(x == v.last());
                    assert(v[v.len() - 1] == x);
                }
            }
            if v.contains(x) && x.connection_id == Some(connection_id) && x.database == Some(database) {
                let j = choose|j: int| 0 <= j < v.len() && v[j] == x;
                if j < d.len() {
                    assert(d[j] == x);
                    assert(w.contains(x));
                    let k = choose|k: int| 0 <= k < w.len() && w[k] == x;
                    if is_backup_of(v.last(), connection_id, database) {
                        assert(t[k] == x);
                    }
                } else {
                    assert(t[w.len() as int] == x);
                }
            }
        }
    }
}

/// The archive entry for the file `name` of `size_bytes` bytes, with the connection,
/// database and time that its name tells.
pub fn backup_file_entry(name: &str, size_bytes: u64) -> (b: BackupFile)
    ensures
        b@.filename == name@,
        b@.size_bytes == size_bytes,
        b@.connection_id == parsed_archive_name(name@).0,
        b@.database == parsed_archive_name(name@).1,
        b@.created_at == (match parsed_archive_name(name@).2 {
            Some((s, n)) => Some(Timestamp { secs: s, nanos: n }),
            None => None,
        }),
        archive_parts(name@) matches Some((x, y, z)) ==> forall|id: u128| x == #[trigger] uuid_text(id) ==> b@.connection_id == Some(id),
{
    let (connection_id, database, created_at) = parse_filename(name);
    BackupFile { filename: name.to_owned(), connection_id, database, created_at, size_bytes }
}

/// The archives of `files`, newest first.
pub fn sort_newest_first(files: &Vec<BackupFile>) -> (r: Vec<BackupFile>)
    ensures
        newest_first(backup_values(r@)),
        backup_values(r@).to_multiset() == backup_values(files@).to_multiset(),
{
    broadcast use vstd::seq_lib::group_to_multiset_ensures;

    let mut r: Vec<BackupFile> = Vec::new();
    let mut i: usize = 0;
    while i < files.len()
        invariant
            i <= files@.len(),
            newest_first(backup_values(r@)),
            backup_values(r@).to_multiset() == backup_values(files@).take(i as int).to_multiset(),
        decreases files@.len() - i,
    {
        let x = files[i].clone();
        let mut k: usize = 0;
        while k < r.len() && !str_lex_le(r[k].filename.as_str(), x.filename.as_str())
            invariant
                k <= r@.len(),
                forall|m: int| 0 <= m < k ==> !lex_le(#[trigger] backup_values(r@)[m].filename, x@.filename),
            decreases r@.len() - k,
        {
            k = k + 1;
        }
        let ghost before = backup_values(r@);
        r.insert(k, x);
        proof {
            let after = backup_values(r@);
            assert(after =~= before.insert(k as int, x@));
            assert forall|a: int, b: int| 0 <= a < b < after.len() implies lex_le(#[trigger] after[b].filename, #[trigger] after[a].filename) by {
                if a < k && b == k {
                    lemma_lex_total(before[a].filename, x@.filename);
                } else if a < k && b > k {
                    assert(after[b] == before[b - 1]);
                    lemma_lex_total(before[a].filename, x@.filename);
                    if b - 1 > k {
                        lemma_lex_trans(before[b - 1].filename, before[k as int].filename, x@.filename);
                    }
                    lemma_lex_trans(before[b - 1].filename, x@.filename, before[a].filename);
                } else if a == k && b > k {
                    assert(after[b] == before[b - 1]);
                    if b - 1 > k {
                        lemma_lex_trans(before[b - 1].filename, before[k as int].filename, x@.filename);
                    }
                } else if a > k {
                    assert(after[a] == before[a - 1] && after[b] == before[b - 1]);
                } else {
                    assert(after[a] == before[a] && after[b] == before[b]);
                }
            }
            vstd::seq_lib::to_multiset_insert(before, k as int, x@);
            assert(backup_values(files@).take(i + 1) =~= backup_values(files@).take(i as int).push(x@));
            vstd::seq_lib::to_multiset_build(backup_values(files@).take(i as int), x@);
        }
        i = i + 1;
    }
    assert(backup_values(files@).take(i as int) =~= backup_values(files@));
    r
}

/// The file names of `v`.
pub open spec fn filenames(v: Seq<BackupFileValue>) -> Seq<Seq<char>> {
    v.map_values(|b: BackupFileValue| b.filename)
}

/// The archives to delete so that only the newest `retention` archives of `database` of
/// `connection_id` stay: those archives (whose names carry the database made safe)
/// ordered newest first, past the first `retention`. The ordering is returned with them.
pub fn prune_candidates(files: &Vec<BackupFile>, connection_id: u128, database: &str, retention: u32) -> (r: (Vec<BackupFile>, Vec<String>))
    ensures
        newest_first(backup_values(r.0@)),
        backup_values(r.0@).to_multiset() == backups_of(backup_values(files@), connection_id, sanitized(database@)).to_multiset(),
        string_values(r.1@) == (if retention < r.0@.len() {
            filenames(backup_values(r.0@).skip(retention as int))
        } else {
            Seq::<Seq<char>>::empty()
        }),
        forall|k: int| 0 <= k < r.0@.len() ==> {
            let b = #[trigger] r.0@[k]@;
            &&& b.connection_id == Some(connection_id)
            &&& b.database == Some(sanitized(database@))
            &&& backup_values(files@).contains(b)
        },
{
    let safe_db = sanitize(database);
    let mut matching: Vec<BackupFile> = Vec::new();
    let mut i: usize = 0;
    while i < files.len()
        invariant
            i <= files@.len(),
            safe_db@ == sanitized(database@),
            backup_values(matching@) == backups_of(backup_values(files@).take(i as int), connection_id, safe_db@),
        decreases files@.len() - i,
    {
        let b = &files[i];
        assert(backup_values(files@).take(i + 1).drop_last() =~= backup_values(files@).take(i as int));
        assert(backup_values(files@).take(i + 1).last() == b@);
        let same_db = match &b.database {
            Some(d) => str_eq(d.as_str(), safe_db.as_str()),
            None => false,
        };
        if b.connection_id == Some(connection_id) && same_db {
            let c = b.clone();
            let ghost before = backup_values(matching@);
            matching.push(c);
            assert(backup_values(matching@) =~= before.push(c@));
        }
        i = i + 1;
    }
    assert(backup_values(files@).take(i as int) =~= backup_values(files@));
    let ordered = sort_newest_first(&matching);
    let mut doomed: Vec<String> = Vec::new();
    let start: usize = if (retention as usize) < ordered.len() {
        retention as usize
    } else {
        ordered.len()
    };
    let mut k: usize = start;
    assert(string_values(doomed@) =~= filenames(backup_values(ordered@).subrange(start as int, k as int)));
    while k < ordered.len()
        invariant
            start <= k <= ordered@.len(),
            string_values(doomed@) == filenames(backup_values(ordered@).subrange(start as int, k as int)),
        decreases ordered@.len() - k,
    {
        let ghost before = string_values(doomed@);
        let name = ordered[k].filename.clone();
        assert(name@ == backup_values(ordered@)[k as int].filename);
        doomed.push(name);
        assert(string_values(doomed@) =~= before.push(name@));
        assert(backup_values(ordered@).subrange(start as int, k + 1) =~= backup_values(ordered@).subrange(start as int, k as int).push(backup_values(ordered@)[k as int]));
        k = k + 1;
        assert(string_values(doomed@) =~= filenames(backup_values(ordered@).subrange(start as int, k as int)));
    }
    proof {
        if retention < ordered@.len() {
            assert(backup_values(ordered@).subrange(retention as int, k as int) =~= backup_values(ordered@).skip(retention as int));
        } else {
            assert(string_values(doomed@) =~= Seq::<Seq<char>>::empty());
        }
        let all = backup_values(files@);
        let ov = backup_values(ordered@);
        let sel = backups_of(all, connection_id, safe_db@);
        lemma_backups_of_selects(all, connection_id, safe_db@);
        assert forall|k: int| 0 <= k < ordered@.len() implies {
            let b = #[trigger] ordered@[k]@;
            &&& b.connection_id == Some(connection_id)
            &&& b.database == Some(sanitized(database@))
            &&& all.contains(b)
        } by {
            let b = ordered@[k]@;
            assert(ov[k] == b);
            assert(ov.contains(b));
            vstd::seq_lib::to_multiset_contains(ov, b);
            vstd::seq_lib::to_multiset_contains(sel, b);
            assert(sel.contains(b));
        }
    }
    (ordered, doomed)
}

/// Pruning deletes only archives older than every one it keeps: in a newest-first
/// ordering, each name past the first `retention` sorts at or before each name among them.
pub proof fn lemma_prune_keeps_newest(ordered: Seq<BackupFileValue>, retention: int)
    requires
        newest_first(ordered),
        0 <= retention <= ordered.len(),
    ensures
        forall|d: int, k: int| 0 <= k < retention <= d < ordered.len() ==> lex_le(#[trigger] ordered[d].filename, #[trigger] ordered[k].filename),
{
}

/// An archive that a dump of `database` from the connection `id` wrote, read back by
/// `backup_file_entry`, is one of the archives that pruning keeps or deletes for that
/// connection and database. This holds where the archive name reads back as its parts
/// (see `lemma_archive_name_round_trip`).
pub proof fn lemma_dumped_archive_is_pruned_with(id: u128, database: Seq<char>, stamp: Seq<char>, b: BackupFileValue)
    requires
        !contains(sanitized(database), name_sep()),
        sanitized(database).len() > 0 ==> sanitized(database).last() != '_',
        is_compact_stamp_shape(stamp),
        b.filename == archive_name(id, database, stamp),
        b.database == parsed_archive_name(b.filename).1,
        archive_parts(b.filename) matches Some((x, y, z)) ==> forall|k: u128| x == #[trigger] uuid_text(k) ==> b.connection_id == Some(k),
    ensures
        is_backup_of(b, id, sanitized(database)),
{
    lemma_archive_name_round_trip(id, database, stamp);
    assert(archive_parts(b.filename) == Some((uuid_text(id), sanitized(database), stamp)));
}

/// A collection-level progress line of the dump tool's error output.
#[derive(Debug)]
pub enum ParsedLine {
    /// `writing {db.collection} to ...`
    Writing(String),
    /// `done dumping {db.collection} (...)`
    Done,
}

/// The value of a `ParsedLine`.
pub enum ParsedLineView {
    Writing(Seq<char>),
    Done,
}

/// The collection named by a `writing {name} to ...` line: the text between the first
/// `writing ` and the next ` to `, trimmed, if it holds a `.`.
pub open spec fn writing_name(line: Seq<char>) -> Option<Seq<char>> {
    match find_first(line, "writing "@) {
        Some(idx) => {
            let rest = line.subrange(idx + "writing "@.len(), line.len() as int);
            match find_first(rest, " to "@) {
                Some(j) => {
                    let name = trimmed(rest.subrange(0, j));
                    if contains(name, "."@) {
                        Some(name)
                    } else {
                        None
                    }
                },
                None => None,
            }
        },
        None => None,
    }
}

/// A `done dumping {name} (...)` line names a collection: the text after the first
/// `done dumping ` up to ` (` (or the end), trimmed, holds a `.`. The summary line for a
/// whole database (`done dumping mydb (5 collections)`) holds none.
pub open spec fn done_collection(line: Seq<char>) -> bool {
    match find_first(line, "done dumping "@) {
        Some(idx) => {
            let rest = line.subrange(idx + "done dumping "@.len(), line.len() as int);
            let name = trimmed(
                match find_first(rest, " ("@) {
                    Some(j) => rest.subrange(0, j),
                    None => rest,
                },
            );
            contains(name, "."@)
        },
        None => false,
    }
}

/// What a line of the dump tool's error output says of the progress.
pub open spec fn parsed_line(line: Seq<char>) -> Option<ParsedLineView> {
    match writing_name(line) {
        Some(n) => Some(ParsedLineView::Writing(n)),
        None => if done_collection(line) {
            Some(ParsedLineView::Done)
        } else {
            None
        },
    }
}

/// The text after the first `p` in `line`, if `p` occurs.
fn after_first(line: &str, p: &str) -> (r: Option<String>)
    ensures
        match find_first(line@, p@) {
            Some(i) => r matches Some(t) && t@ == line@.subrange(i + p@.len(), line@.len() as int),
            None => r is None,
        },
{
    proof {
        lemma_find_from(line@, p@, 0);
    }
    match str_find(line, p) {
        Some(i) => {
            let n = line.unicode_len();
            let m = p.unicode_len();
            Some(substring(line, i + m, n))
        },
        None => None,
    }
}

/// The text before the first `p` in `s`, if `p` occurs.
fn before_first(s: &str, p: &str) -> (r: Option<String>)
    ensures
        match find_first(s@, p@) {
            Some(i) => r matches Some(t) && t@ == s@.subrange(0, i),
            None => r is None,
        },
{
    proof {
        lemma_find_from(s@, p@, 0);
    }
    match str_find(s, p) {
        Some(i) => Some(substring(s, 0, i)),
        None => None,
    }
}

/// Reads a collection-level progress marker from a line of the dump tool's error output.
pub fn parse_line(line: &str) -> (r: Option<ParsedLine>)
    ensures
        match parsed_line(line@) {
            Some(ParsedLineView::Writing(n)) => r matches Some(ParsedLine::Writing(m)) && m@ == n,
            Some(ParsedLineView::Done) => r matches Some(ParsedLine::Done),
            None => r is None,
        },
{
    if let Some(rest) = after_first(line, "writing ") {
        if let Some(name) = before_first(rest.as_str(), " to ") {
            let t = trim(name.as_str());
            if str_contains(t.as_str(), ".") {
                return Some(ParsedLine::Writing(t));
            }
        }
    }
    if let Some(rest) = after_first(line, "done dumping ") {
        let name = match before_first(rest.as_str(), " (") {
            Some(n) => trim(n.as_str()),
            None => trim(rest.as_str()),
        };
        if str_contains(name.as_str(), ".") {
            return Some(ParsedLine::Done);
        }
    }
    None
}

/// The last `MAX_LOG_LINE` bytes of `line` (all of it if it is shorter).
pub open spec fn log_tail(line: Seq<char>) -> Seq<char> {
    let b = encode_utf8(line);
    if b.len() > MAX_LOG_LINE {
        decode_utf8(b.subrange(b.len() - MAX_LOG_LINE, b.len() as int))
    } else {
        line
    }
}

/// The last `MAX_LOG_LINE` bytes of `line` start on a character boundary (else taking
/// them would panic).
pub open spec fn log_tail_cuttable(line: Seq<char>) -> bool {
    let b = encode_utf8(line);
    b.len() <= MAX_LOG_LINE || is_char_boundary(b, b.len() - MAX_LOG_LINE)
}

/// What a line of the dump tool's output changes in the job's progress: the collection
/// being written, one more collection done, or only the last log line for lines that
/// mention dumping or an error; nothing for other lines.
pub open spec fn progress_for(line: Seq<char>) -> Option<ProgressUpdateView> {
    match parsed_line(line) {
        Some(ParsedLineView::Writing(n)) => Some(ProgressUpdateView::Writing { collection: n, log: log_tail(line) }),
        Some(ParsedLineView::Done) => Some(ProgressUpdateView::Done { log: log_tail(line) }),
        None => if contains(line, "dumping"@) || contains(line, "error"@) || contains(line, "Failed"@) {
            Some(ProgressUpdateView::Log { log: log_tail(line) })
        } else {
            None
        },
    }
}

/// The last `MAX_LOG_LINE` bytes of `line`.
fn tail_of_line(line: &str) -> (r: String)
    requires
        log_tail_cuttable(line@),
    ensures
        r@ == log_tail(line@),
{
    let n = line.as_bytes().len();
    assert(line.spec_bytes() == encode_utf8(line@));
    assert(n == encode_utf8(line@).len());
    if n > MAX_LOG_LINE {
        let (_, tail) = line.split_at(n - MAX_LOG_LINE);
        proof {
            vstd::utf8::encode_utf8_decode_utf8(tail@);
            assert(tail.spec_bytes() == encode_utf8(tail@));
        }
        tail.to_owned()
    } else {
        line.to_owned()
    }
}

/// The progress change that a line of the dump tool's output makes, if any.
pub fn progress_for_line(line: &str) -> (r: Option<ProgressUpdate>)
    requires
        log_tail_cuttable(line@),
    ensures
        match progress_for(line@) {
            Some(u) => r matches Some(x) && x@ == u,
            None => r is None,
        },
{
    let log = tail_of_line(line);
    match parse_line(line) {
        Some(ParsedLine::Writing(name)) => Some(ProgressUpdate::Writing { collection: name, log }),
        Some(ParsedLine::Done) => Some(ProgressUpdate::Done { log }),
        None => {
            if str_contains(line, "dumping") || str_contains(line, "error") || str_contains(line, "Failed") {
                Some(ProgressUpdate::Log { log })
            } else {
                None
            }
        },
    }
}

/// The pieces of `parts` with `sep` between each two.
pub open spec fn joined(parts: Seq<Seq<char>>, sep: Seq<char>) -> Seq<char>
    decreases parts.len(),
{
    if parts.len() == 0 {
        Seq::empty()
    } else if parts.len() == 1 {
        parts[0]
    } else {
        joined(parts.drop_last(), sep) + sep + parts.last()
    }
}

/// The lines kept after pushing `line` to the kept lines `kept`: the oldest goes when
/// `MAX_STDERR_TAIL` are kept already.
pub open spec fn tail_after(kept: Seq<Seq<char>>, line: Seq<char>) -> Seq<Seq<char>> {
    if kept.len() >= MAX_STDERR_TAIL {
        kept.drop_first().push(line)
    } else {
        kept.push(line)
    }
}

/// The last `MAX_STDERR_TAIL` of `lines`.
pub open spec fn last_lines(lines: Seq<Seq<char>>) -> Seq<Seq<char>> {
    if lines.len() > MAX_STDERR_TAIL {
        lines.skip(lines.len() - MAX_STDERR_TAIL)
    } else {
        lines
    }
}

/// The last lines of the dump tool's error output.
#[derive(Debug)]
pub struct StderrTail {
    lines: Vec<String>,
}

impl View for StderrTail {
    type V = Seq<Seq<char>>;

    closed spec fn view(&self) -> Seq<Seq<char>> {
        string_values(self.lines@)
    }
}

impl StderrTail {
    /// At most `MAX_STDERR_TAIL` lines are kept.
    #[verifier::type_invariant]
    spec fn bounded(self) -> bool {
        self.lines@.len() <= MAX_STDERR_TAIL
    }

    /// No lines yet.
    pub fn new() -> (t: Self)
        ensures
            t@ == Seq::<Seq<char>>::empty(),
    {
        let t = StderrTail { lines: Vec::new() };
        assert(t@ =~= Seq::<Seq<char>>::empty());
        t
    }

    /// Keeps `line`, dropping the oldest line when `MAX_STDERR_TAIL` are kept.
    pub fn push(&mut self, line: String)
        ensures
            final(self)@ == tail_after(old(self)@, line@),
            final(self)@.len() <= MAX_STDERR_TAIL,
    {
        proof {
            use_type_invariant(&*self);
        }
        let ghost before = self@;
        let mut lines: Vec<String> = Vec::new();
        std::mem::swap(&mut lines, &mut self.lines);
        if lines.len() == MAX_STDERR_TAIL {
            lines.remove(0);
            assert(string_values(lines@) =~= before.drop_first());
        }
        let ghost mid = string_values(lines@);
        lines.push(line);
        assert(string_values(lines@) =~= mid.push(line@));
        self.lines = lines;
    }

    /// The last ten kept lines, joined by ` | `.
    pub fn summary(&self) -> (s: String)
        ensures
            s@ == joined(
                if self@.len() > 10 {
                    self@.skip(self@.len() - 10)
                } else {
                    self@
                },
                " | "@,
            ),
    {
        let n = self.lines.len();
        let start: usize = if n > 10 {
            n - 10
        } else {
            0
        };
        let ghost parts = if self@.len() > 10 {
            self@.skip(self@.len() - 10)
        } else {
            self@
        };
        assert(parts =~= self@.subrange(start as int, n as int));
        let mut s = String::new();
        let mut i = start;
        while i < n
            invariant
                start <= i <= n == self.lines@.len(),
                parts == self@.subrange(start as int, n as int),
                s@ == joined(self@.subrange(start as int, i as int), " | "@),
            decreases n - i,
        {
            let ghost prev = self@.subrange(start as int, i as int);
            let ghost next = self@.subrange(start as int, i + 1);
            assert(next.drop_last() =~= prev);
            assert(next.last() == self.lines@[i as int]@);
            if i > start {
                s.append(" | ");
            } else {
                assert(prev.len() == 0);
                assert(s@ =~= Seq::<char>::empty());
            }
            s.append(self.lines[i].as_str());
            i = i + 1;
        }
        s
    }
}

/// Pushing lines one by one keeps exactly the last `MAX_STDERR_TAIL` of them.
pub proof fn lemma_tail_keeps_last_lines(lines: Seq<Seq<char>>, line: Seq<char>)
    ensures
        tail_after(last_lines(lines), line) == last_lines(lines.push(line)),
{
    let kept = last_lines(lines);
    let all = lines.push(line);
    if lines.len() >= MAX_STDERR_TAIL {
        assert(kept.drop_first().push(line) =~= all.skip(all.len() - MAX_STDERR_TAIL));
    } else {
        assert(kept.push(line) =~= all);
    }
}

/// How an exit code prints with `{:?}`: `Some(3)`, or `None` where a signal ended the
/// process.
pub open spec fn exit_code_text(code: Option<i32>) -> Seq<char> {
    match code {
        Some(c) => "Some("@ + int_text(c as int) + ")"@,
        None => "None"@,
    }
}

/// An exit code printed as `{:?}` prints it (std's `Debug` for `Option<i32>`).
fn debug_exit_code(code: Option<i32>) -> (s: String)
    ensures
        s@ == exit_code_text(code),
{
    match code {
        None => "None".to_owned(),
        Some(c) => {
            let mut s = "Some(".to_owned();
            let magnitude: usize = if c < 0 {
                proof {
                    reveal_strlit("-");
                }
                s.append("-");
                (-(c as i64)) as usize
            } else {
                c as usize
            };
            let digits = usize_text(magnitude);
            s.append(digits.as_str());
            s.append(")");
            s
        },
    }
}

/// The message of a failed dump: its exit code and the last lines of its error output.
pub fn dump_failure_message(code: Option<i32>, tail: &StderrTail) -> (m: String)
    ensures
        m@ == "mongodump failed (exit "@ + exit_code_text(code) + "): "@ + joined(
            if tail@.len() > 10 {
                tail@.skip(tail@.len() - 10)
            } else {
                tail@
            },
            " | "@,
        ),
{
    let mut m = "mongodump failed (exit ".to_owned();
    let c = debug_exit_code(code);
    m.append(c.as_str());
    m.append("): ");
    let summary = tail.summary();
    m.append(summary.as_str());
    m
}

/// The message of a failed restore: its exit code and its error output, trimmed.
pub fn restore_failure_message(code: Option<i32>, stderr: &str) -> (m: String)
    ensures
        m@ == "mongorestore failed (exit "@ + exit_code_text(code) + "): "@ + trimmed(stderr@),
{
    let mut m = "mongorestore failed (exit ".to_owned();
    let c = debug_exit_code(code);
    m.append(c.as_str());
    m.append("): ");
    let t = trim(stderr);
    m.append(t.as_str());
    m
}

/// What a finished restore reports to its job: `restored from` and the archive's name
/// (or `upload`), or the error's text.
pub fn restore_outcome(result: &Result<(), AppError>, source: &str) -> (r: Result<String, String>)
    ensures
        match *result {
            Ok(()) => r matches Ok(m) && m@ == "restored from "@ + source@,
            Err(e) => r matches Err(m) && m@ == crate::error::error_text(e),
        },
{
    match result {
        Ok(()) => Ok(concat("restored from ", source)),
        Err(e) => Err(e.describe()),
    }
}

/// Where archives live, and the plans for the tools that write and read them.
#[derive(Debug)]
pub struct BackupRunner {
    backup_dir: String,
}

impl BackupRunner {
    /// The backup directory is an absolute path.
    #[verifier::type_invariant]
    spec fn absolute_dir(self) -> bool {
        is_absolute(self.backup_dir@)
    }
}

/// What a dump will write and how the tool is called.
#[derive(Debug)]
pub struct DumpPlan {
    /// The archive's file name.
    pub filename: String,
    /// The archive's path in the backup directory.
    pub path: String,
    /// The arguments of the dump tool.
    pub args: Vec<String>,
}

impl BackupRunner {
    /// A runner for the absolute directory `backup_dir`.
    pub fn new(backup_dir: String) -> (r: Self)
        requires
            is_absolute(backup_dir@),
        ensures
            r.dir() == backup_dir@,
    {
        BackupRunner { backup_dir }
    }

    /// The backup directory.
    pub closed spec fn dir(&self) -> Seq<char> {
        self.backup_dir@
    }

    /// The backup directory.
    pub fn backup_dir(&self) -> (r: &str)
        ensures
            r@ == self.dir(),
            is_absolute(r@),
    {
        proof {
            use_type_invariant(self);
        }
        self.backup_dir.as_str()
    }

    /// The absolute path of the archive `filename` inside the backup directory. Refused with a
    /// `BadRequest` for a name that could leave the directory (empty, or holding `/`,
    /// `\` or `..`) or that is not an archive name.
    pub fn resolve(&self, filename: &str) -> (r: Result<String, AppError>)
        ensures
            match filename_problem(filename@) {
                Some(m) => r matches Err(e) && is_bad_request(e, m),
                None => {
                    &&& r matches Ok(p)
                    &&& p@ == join_path(self.dir(), filename@)
                    &&& is_absolute(p@)
                    &&& is_entry_of(p@, self.dir())
                },
            },
    {
        proof {
            use_type_invariant(self);
            lemma_join_absolute(self.dir(), filename@);
            if filename_problem(filename@) is None {
                lemma_no_slash(filename@);
                assert(is_entry_of(join_path(self.dir(), filename@), self.dir()));
            }
        }
        match check_filename(filename) {
            Err(e) => Err(e),
            Ok(()) => Ok(join(self.backup_dir.as_str(), filename)),
        }
    }

    /// The plan of a dump of `database` at `uri` from the connection `connection_id`,
    /// stamped `stamp`, into an absolute path in the backup directory.
    pub fn dump_plan_at(&self, uri: &str, database: &str, connection_id: u128, stamp: &str) -> (p: DumpPlan)
        ensures
            p.filename@ == archive_name(connection_id, database@, stamp@),
            p.path@ == join_path(self.dir(), p.filename@),
            is_absolute(p.path@),
            no_slash(stamp@) ==> is_entry_of(p.path@, self.dir()),
            arg_values(p.args@) == dump_args(uri@, database@, p.path@),
    {
        proof {
            use_type_invariant(self);
            lemma_join_absolute(self.dir(), archive_name(connection_id, database@, stamp@));
            if no_slash(stamp@) {
                lemma_archive_name_no_slash(connection_id, database@, stamp@);
                assert(is_entry_of(join_path(self.dir(), archive_name(connection_id, database@, stamp@)), self.dir()));
            }
        }
        let filename = archive_filename(connection_id, database, stamp);
        let path = join(self.backup_dir.as_str(), filename.as_str());
        let mut args: Vec<String> = Vec::new();
        args.push(concat("--uri=", uri));
        args.push(concat("--db=", database));
        args.push(concat("--archive=", path.as_str()));
        args.push("--gzip".to_owned());
        assert(arg_values(args@) =~= dump_args(uri@, database@, path@));
        DumpPlan { filename, path, args }
    }

    /// The plan of a dump of `database` at `uri` from the connection `connection_id`,
    /// stamped with the current time, into an absolute path in the backup directory.
    pub fn dump_plan(&self, uri: &str, database: &str, connection_id: u128) -> (p: DumpPlan)
        ensures
            exists|secs: int|
                0 <= secs && p.filename@ == archive_name(connection_id, database@, #[trigger] compact_stamp_text(secs))
                    && (secs < YEAR_10000_SECS ==> is_compact_stamp_shape(compact_stamp_text(secs))),
            p.path@ == join_path(self.dir(), p.filename@),
            is_absolute(p.path@),
            is_entry_of(p.path@, self.dir()),
            arg_values(p.args@) == dump_args(uri@, database@, p.path@),
    {
        let now = utc_now();
        let stamp = format_time(now.secs, STAMP_FORMAT);
        proof {
            assert(stamp@ == compact_stamp_text(now.secs as int));
        }
        self.dump_plan_at(uri, database, connection_id, stamp.as_str())
    }

    /// The arguments of the restore tool for the archive at `archive_path`.
    pub fn restore_args(&self, uri: &str, archive_path: &str, target_database: Option<&str>, drop_existing: bool) -> (r: Vec<String>)
        ensures
            arg_values(r@) == restore_args(uri@, archive_path@, match target_database {
                Some(d) => Some(d@),
                None => None,
            }, drop_existing),
            arg_values(r@).contains("--drop"@) <==> drop_existing,
    {
        proof {
            lemma_restore_args_drop_only_when_asked(uri@, archive_path@, match target_database {
                Some(d) => Some(d@),
                None => None,
            }, drop_existing);
        }
        let mut args: Vec<String> = Vec::new();
        args.push(concat("--uri=", uri));
        args.push(concat("--archive=", archive_path));
        args.push("--gzip".to_owned());
        if drop_existing {
            args.push("--drop".to_owned());
        }
        if let Some(db) = target_database {
            let mut a = concat("--nsInclude=", db);
            a.append(".*");
            args.push(a);
        }
        assert(arg_values(args@) =~= restore_args(uri@, archive_path@, match target_database {
            Some(d) => Some(d@),
            None => None,
        }, drop_existing));
        args
    }
}


proof fn lemma_no_sep_at(s: Seq<char>, j: int)
    requires
        0 <= j,
        j + 2 <= s.len(),
        s[j] != '_' || s[j + 1] != '_',
    ensures
        !occurs_at(s, name_sep(), j),
{
    if occurs_at(s, name_sep(), j) {
        assert(s.subrange(j, j + 2)[0] == s[j]);
        assert(s.subrange(j, j + 2)[1] == s[j + 1]);
    }
}

proof fn lemma_sep_at(s: Seq<char>, j: int)
    requires
        0 <= j,
        j + 2 <= s.len(),
        s[j] == '_' && s[j + 1] == '_',
    ensures
        occurs_at(s, name_sep(), j),
{
    assert(s.subrange(j, j + 2) =~= name_sep());
}

proof fn lemma_uuid_text_has_no_underscore(id: u128, i: int)
    requires
        0 <= i < 36,
    ensures
        uuid_text(id)[i] != '_',
{
    if !(i == 8 || i == 13 || i == 18 || i == 23) {
        let n = crate::ids::hex_nibble(id, crate::ids::digit_position(i));
        assert(0 <= n < 16);
        assert(crate::ids::hex_char(n) != '_');
    }
}

/// An archive name reads back as the parts it was made of: the connection id's text, the
/// database made safe, and the stamp. This holds where the safe database name holds no
/// `__` and does not end in `_` (else the `__` separators cannot be told apart), and the
/// stamp has the shape `YYYYMMDDTHHMMSSZ`.
#[verifier::rlimit(60)]
pub proof fn lemma_archive_name_round_trip(id: u128, database: Seq<char>, stamp: Seq<char>)
    requires
        !contains(sanitized(database), name_sep()),
        sanitized(database).len() > 0 ==> sanitized(database).last() != '_',
        is_compact_stamp_shape(stamp),
    ensures
        archive_parts(archive_name(id, database, stamp)) == Some((uuid_text(id), sanitized(database), stamp)),
{
    let u = uuid_text(id);
    let d = sanitized(database);
    let sep = name_sep();
    let stem = u + sep + d + sep + stamp;
    let name = archive_name(id, database, stamp);
    assert(name =~= stem + archive_ext());
    assert(name.subrange(name.len() - archive_ext().len(), name.len() as int) =~= archive_ext());
    assert(archive_stem(name) =~= stem);
    let n = d.len() as int;
    // the first separator follows the id
    assert forall|j: int| 0 <= j < 36 implies !occurs_at(stem, sep, j) by {
        lemma_uuid_text_has_no_underscore(id, j);
        assert(stem[j] == u[j]);
        if j + 2 <= stem.len() {
            lemma_no_sep_at(stem, j);
        }
    }
    lemma_find_skip(stem, sep, 0, 36);
    lemma_sep_at(stem, 36);
    assert(find_from(stem, sep, 0) == Some(36int));
    // the second follows the database
    lemma_find_from(d, sep, 0);
    assert forall|j: int| 38 <= j < 38 + n implies !occurs_at(stem, sep, j) by {
        assert(stem[j] == d[j - 38]);
        if j + 1 < 38 + n {
            assert(stem[j + 1] == d[j + 1 - 38]);
            if d[j - 38] == '_' && d[j + 1 - 38] == '_' {
                lemma_sep_at(d, j - 38);
            }
        } else {
            assert(d.last() == d[j - 38]);
        }
        lemma_no_sep_at(stem, j);
    }
    lemma_find_skip(stem, sep, 38, 38 + n);
    lemma_sep_at(stem, 38 + n);
    assert(find_from(stem, sep, 38) == Some(38 + n));
    // and no separator stands in the stamp
    assert forall|j: int| 40 + n <= j implies !occurs_at(stem, sep, j) by {
        if j + 2 <= stem.len() {
            assert(stem[j] == stamp[j - 40 - n]);
            assert(stamp[j - 40 - n] != '_') by {
                let k = j - 40 - n;
                if k != 8 && k != 15 {
                    assert(crate::clock::is_digit(stamp[k]));
                }
            }
            lemma_no_sep_at(stem, j);
        }
    }
    lemma_find_from(stem, sep, 40 + n);
    assert(find_from(stem, sep, 40 + n) is None) by {
        if let Some(k) = find_from(stem, sep, 40 + n) {
            assert(occurs_at(stem, sep, k));
        }
    }
    assert(split_from(stem, sep, 40 + n) == seq![stem.subrange(40 + n, stem.len() as int)]);
    assert(split_from(stem, sep, 38) == seq![stem.subrange(38, 38 + n)] + split_from(stem, sep, 40 + n));
    assert(split_from(stem, sep, 0) == seq![stem.subrange(0, 36)] + split_from(stem, sep, 38));
    assert(stem.subrange(0, 36) =~= u);
    assert(stem.subrange(38, 38 + n) =~= d);
    assert(stem.subrange(40 + n, stem.len() as int) =~= stamp);
    let parts = split_all(stem, sep);
    assert(parts =~= seq![u, d, stamp]);
}

} // verus!
