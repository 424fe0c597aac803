//! The commit log: commits visited breadth first along their parent links.
use vstd::prelude::*;
use vstd::string::StringExecFns;
use chrono::{Datelike, FixedOffset, TimeZone, Utc};
use std::collections::VecDeque;
use crate::codec::ObjectKind;
use crate::files::{Entry, Files};
use crate::kvlm::{
    lines_of, parse_kvlm, read_kvlm, split_from, split_on, texts, Kvlm, KvlmError, KvlmModel,
};
use crate::number::{parse_i32, parse_i64, read_i32, read_i64};
use crate::objects::{hash_of, lemma_object_model, Commit, Object};
use crate::repository::Repository;
use crate::store::{load_model, ObjectError};
use crate::text::{chars_of, text_of};

verus! {

/// Why the log stopped.
#[derive(Clone, Copy, Debug, PartialEq, Eq)]
pub enum LogError {
    /// A commit or one of its parents could not be loaded.
    Store(ObjectError),
    /// A hash in the history names an object that is no commit.
    NotACommit,
    /// The payload of a commit could not be read.
    Payload(KvlmError),
}

/// The date line of a log entry.
pub enum DateLine {
    /// The author header has no date.
    Absent,
    /// The date cannot be read or shown.
    Unknown,
    /// The date as text.
    At(String),
}

/// The date line of a log entry, as a value.
pub enum DateModel {
    Absent,
    Unknown,
    At(Seq<char>),
}

/// One commit of the log.
pub struct LogEntry {
    pub hash: String,
    pub merge: Option<(String, String)>,
    pub author: Option<String>,
    pub date: DateLine,
    pub message: String,
}

/// One commit of the log, as a value.
pub struct LogEntryModel {
    pub hash: Seq<char>,
    pub merge: Option<(Seq<char>, Seq<char>)>,
    pub author: Option<Seq<char>>,
    pub date: DateModel,
    pub message: Seq<char>,
}

impl View for DateLine {
    type V = DateModel;

    open spec fn view(&self) -> DateModel {
        match self {
            DateLine::Absent => DateModel::Absent,
            DateLine::Unknown => DateModel::Unknown,
            DateLine::At(s) => DateModel::At(s@),
        }
    }
}

impl View for LogEntry {
    type V = LogEntryModel;

    open spec fn view(&self) -> LogEntryModel {
        LogEntryModel {
            hash: self.hash@,
            merge: match self.merge {
                Some((a, b)) => Some((a@, b@)),
                None => None,
            },
            author: match self.author {
                Some(a) => Some(a@),
                None => None,
            },
            date: self.date@,
            message: self.message@,
        }
    }
}

/// The text of a moment: week day, day of the month, month, year, time of
/// day and offset from UTC, for a number of seconds since 1970 and an
/// offset in seconds; none when either is out of range.
pub uninterp spec fn date_text(timestamp: int, offset: int) -> Option<Seq<char>>;

/// Formats a moment with `chrono`: `FixedOffset::east_opt` makes the offset,
/// `TimeZone::timestamp_opt` the moment, and the parts are written as the
/// types of `chrono` display them. There is no result when `chrono` refuses
/// the offset or the number of seconds.
#[verifier::external_body]
pub(crate) fn format_date(timestamp: i64, offset: i32) -> (r: Option<String>)
    ensures
        match r {
            Some(s) => date_text(timestamp as int, offset as int) == Some(s@),
            None => date_text(timestamp as int, offset as int) is None,
        },
{
    let zone = FixedOffset::east_opt(offset)?;
    let date = Utc.timestamp_opt(timestamp, 0).single()?.with_timezone(&zone);
    Some(
        format!(
            "{}, {} {} {} {} {}",
            date.weekday(),
            date.day(),
            date.format("%b"),
            date.year(),
            date.time(),
            date.timezone()
        ),
    )
}

/// The name in an author header: its first two pieces between spaces, or
/// the whole header when it has fewer.
pub open spec fn author_name(author: Seq<char>) -> Seq<char> {
    let pieces = split_from(author, ' ', 0);
    if pieces.len() >= 2 {
        pieces[0] + seq![' '] + pieces[1]
    } else {
        author
    }
}

/// The date in an author header: its third piece is the number of seconds
/// since 1970 and its fourth the offset in hours and minutes, read as one
/// number and taken thirty-six times as seconds.
pub open spec fn author_date(author: Seq<char>) -> DateModel {
    let pieces = split_from(author, ' ', 0);
    if pieces.len() > 3 {
        let offset = 36 * match parse_i32(pieces[3]) {
            Some(o) => o,
            None => 0,
        };
        match parse_i64(pieces[2]) {
            None => DateModel::Unknown,
            Some(seconds) => if -0x8000_0000 <= offset <= 0x7fff_ffff {
                match date_text(seconds, offset) {
                    Some(text) => DateModel::At(text),
                    None => DateModel::Unknown,
                }
            } else {
                DateModel::Unknown
            },
        }
    } else {
        DateModel::Absent
    }
}

/// The log entry of a commit with the given hash and payload content.
pub open spec fn entry_of(hash: Seq<char>, k: KvlmModel) -> LogEntryModel {
    LogEntryModel {
        hash,
        merge: if k.parents.len() > 1 {
            Some((k.parents[0], k.parents[1]))
        } else {
            None
        },
        author: if k.headers.contains_key("author"@) {
            Some(author_name(k.headers["author"@]))
        } else {
            None
        },
        date: if k.headers.contains_key("author"@) {
            author_date(k.headers["author"@])
        } else {
            DateModel::Unknown
        },
        message: if k.headers.contains_key("message"@) {
            k.headers["message"@]
        } else {
            Seq::empty()
        },
    }
}

/// The text of a log entry.
pub open spec fn rendered(e: LogEntryModel) -> Seq<char> {
    "commit "@ + e.hash + seq!['\n'] + match e.merge {
        Some((a, b)) => "Merge: "@ + a + " -> "@ + b + seq!['\n'],
        None => Seq::empty(),
    } + match e.author {
        Some(a) => "Author: "@ + a + seq!['\n'],
        None => Seq::empty(),
    } + match e.date {
        DateModel::Absent => Seq::empty(),
        DateModel::Unknown => "Date: unknown\n"@,
        DateModel::At(d) => "Date: "@ + d + seq!['\n'],
    } + seq!['\n'] + "    "@ + e.message + seq!['\n', '\n']
}

/// The payloads of the commits that a list of hashes names, loaded in
/// order; the first hash that names no commit decides the error.
pub open spec fn parent_commits(
    files: Map<Seq<char>, Entry>,
    gitdir: Seq<char>,
    depth: nat,
    parents: Seq<Seq<char>>,
) -> Result<Seq<Seq<u8>>, LogError>
    decreases parents.len(),
{
    if parents.len() == 0 {
        Ok(Seq::empty())
    } else {
        match commit_at(files, gitdir, depth, parents[0]) {
            Err(e) => Err(e),
            Ok(payload) => match parent_commits(files, gitdir, depth, parents.skip(1)) {
                Err(e) => Err(e),
                Ok(rest) => Ok(seq![payload] + rest),
            },
        }
    }
}

/// The payload of the commit stored under a hash.
pub open spec fn commit_at(
    files: Map<Seq<char>, Entry>,
    gitdir: Seq<char>,
    depth: nat,
    sha: Seq<char>,
) -> Result<Seq<u8>, LogError> {
    match load_model(files, gitdir, sha, depth) {
        Err(e) => Err(LogError::Store(e)),
        Ok(o) => if o.kind == ObjectKind::Commit {
            Ok(o.data)
        } else {
            Err(LogError::NotACommit)
        },
    }
}

/// One step of the walk over the pending commits: the first is loaded
/// again under its own hash, its entry is made, and its parents are
/// loaded and put at the end. Nothing is left to do when none is pending.
pub open spec fn step(
    files: Map<Seq<char>, Entry>,
    gitdir: Seq<char>,
    depth: nat,
    pending: Seq<Seq<u8>>,
) -> Result<Option<(LogEntryModel, Seq<Seq<u8>>)>, LogError> {
    if pending.len() == 0 {
        Ok(None)
    } else {
        let hash = hash_of(ObjectKind::Commit, pending[0]);
        match commit_at(files, gitdir, depth, hash) {
            Err(e) => Err(e),
            Ok(payload) => match parse_kvlm(payload) {
                Err(e) => Err(LogError::Payload(e)),
                Ok(k) => match parent_commits(files, gitdir, depth, k.parents) {
                    Err(e) => Err(e),
                    Ok(parents) => Ok(Some((entry_of(hash, k), pending.skip(1) + parents))),
                },
            },
        }
    }
}

/// The entries of at most `limit` steps, and whether nothing was left
/// pending after them.
pub open spec fn walked(
    files: Map<Seq<char>, Entry>,
    gitdir: Seq<char>,
    depth: nat,
    pending: Seq<Seq<u8>>,
    limit: nat,
) -> Result<(Seq<LogEntryModel>, bool), LogError>
    decreases limit,
{
    if pending.len() == 0 {
        Ok((Seq::empty(), true))
    } else if limit == 0 {
        Ok((Seq::empty(), false))
    } else {
        match step(files, gitdir, depth, pending) {
            Err(e) => Err(e),
            Ok(None) => Ok((Seq::empty(), true)),
            Ok(Some((entry, next))) => match walked(files, gitdir, depth, next, (limit - 1) as nat) {
                Err(e) => Err(e),
                Ok((rest, complete)) => Ok((seq![entry] + rest, complete)),
            },
        }
    }
}

/// The payloads loaded so far, followed by those still to load.
pub open spec fn payloads_then(done: Seq<Seq<u8>>, rest: Result<Seq<Seq<u8>>, LogError>) -> Result<
    Seq<Seq<u8>>,
    LogError,
> {
    match rest {
        Err(e) => Err(e),
        Ok(r) => Ok(done + r),
    }
}

/// The entries made so far, followed by those still to make.
pub open spec fn entries_then(
    done: Seq<LogEntryModel>,
    rest: Result<(Seq<LogEntryModel>, bool), LogError>,
) -> Result<(Seq<LogEntryModel>, bool), LogError> {
    match rest {
        Err(e) => Err(e),
        Ok((r, complete)) => Ok((done + r, complete)),
    }
}

/// The payloads of a list of commits.
pub open spec fn payloads(commits: Seq<Commit>) -> Seq<Seq<u8>> {
    Seq::new(commits.len(), |i: int| commits[i]@)
}

/// The views of a list of entries.
pub open spec fn entry_models(entries: Seq<LogEntry>) -> Seq<LogEntryModel> {
    Seq::new(entries.len(), |i: int| entries[i]@)
}

/// Loads the commit stored under a hash.
pub fn load_commit(repository: &Repository, files: &Files, sha: &str) -> (r: Result<
    Commit,
    LogError,
>)
    ensures
        match r {
            Ok(c) => commit_at(files@, repository.gitdir(), files.journal().len(), sha@) == Ok::<
                Seq<u8>,
                LogError,
            >(c@),
            Err(e) => commit_at(files@, repository.gitdir(), files.journal().len(), sha@) == Err::<
                Seq<u8>,
                LogError,
            >(e),
        },
{
    match Object::load(repository, files, sha) {
        Err(e) => Err(LogError::Store(e)),
        Ok(o) => {
            proof {
                lemma_object_model(o);
            }
            match o {
                Object::Commit(c) => Ok(c),
                _ => Err(LogError::NotACommit),
            }
        },
    }
}

/// The name in an author header.
pub fn read_author_name(author: &str) -> (name: String)
    ensures
        name@ == author_name(author@),
{
    let pieces = split_on(&chars_of(author), ' ');
    if pieces.len() >= 2 {
        let mut name = text_of(&pieces[0]);
        name.push(' ');
        name.append(text_of(&pieces[1]).as_str());
        assert(name@ =~= lines_of(pieces@)[0] + seq![' '] + lines_of(pieces@)[1]);
        name
    } else {
        author.to_owned()
    }
}

/// The date in an author header.
pub fn read_author_date(author: &str) -> (date: DateLine)
    ensures
        date@ == author_date(author@),
{
    let pieces = split_on(&chars_of(author), ' ');
    if pieces.len() <= 3 {
        return DateLine::Absent;
    }
    assert(lines_of(pieces@)[2] == pieces@[2]@);
    assert(lines_of(pieces@)[3] == pieces@[3]@);
    let hours: i64 = match read_i32(text_of(&pieces[3]).as_str()) {
        Some(o) => o as i64,
        None => 0,
    };
    let offset: i64 = 36 * hours;
    let seconds = match read_i64(text_of(&pieces[2]).as_str()) {
        Some(s) => s,
        None => { return DateLine::Unknown; },
    };
    if offset < -0x8000_0000 || offset > 0x7fff_ffff {
        return DateLine::Unknown;
    }
    match format_date(seconds, offset as i32) {
        Some(text) => DateLine::At(text),
        None => DateLine::Unknown,
    }
}

/// Makes the log entry of a commit.
pub fn make_entry(hash: String, k: &Kvlm) -> (e: LogEntry)
    ensures
        e@ == entry_of(hash@, k@),
{
    let parents = k.parents();
    let merge = if parents.len() > 1 {
        assert(texts(parents@)[0] == parents@[0]@);
        assert(texts(parents@)[1] == parents@[1]@);
        Some((parents[0].clone(), parents[1].clone()))
    } else {
        None
    };
    let (author, date) = match k.get("author") {
        Some(a) => (Some(read_author_name(a.as_str())), read_author_date(a.as_str())),
        None => (None, DateLine::Unknown),
    };
    let message = match k.get("message") {
        Some(m) => m.clone(),
        None => String::new(),
    };
    LogEntry { hash, merge, author, date, message }
}

impl LogEntry {
    /// The text of the entry: the commit line, the merge line of a commit
    /// with several parents, the author and date lines, and the message.
    pub fn render(&self) -> (s: String)
        ensures
            s@ == rendered(self@),
    {
        let mut s = "commit ".to_owned();
        s.append(self.hash.as_str());
        s.push('\n');
        let ghost head = s@;
        match &self.merge {
            Some((a, b)) => {
                s.append("Merge: ");
                s.append(a.as_str());
                s.append(" -> ");
                s.append(b.as_str());
                s.push('\n');
                assert(s@ =~= head + ("Merge: "@ + a@ + " -> "@ + b@ + seq!['\n']));
            },
            None => {
                assert(s@ =~= head + Seq::<char>::empty());
            },
        }
        let ghost merged = s@;
        match &self.author {
            Some(a) => {
                s.append("Author: ");
                s.append(a.as_str());
                s.push('\n');
                assert(s@ =~= merged + ("Author: "@ + a@ + seq!['\n']));
            },
            None => {
                assert(s@ =~= merged + Seq::<char>::empty());
            },
        }
        let ghost authored = s@;
        match &self.date {
            DateLine::Absent => {
                assert(s@ =~= authored + Seq::<char>::empty());
            },
            DateLine::Unknown => {
                s.append("Date: unknown\n");
            },
            DateLine::At(d) => {
                s.append("Date: ");
                s.append(d.as_str());
                s.push('\n');
                assert(s@ =~= authored + ("Date: "@ + d@ + seq!['\n']));
            },
        }
        let ghost dated = s@;
        s.push('\n');
        s.append("    ");
        s.append(self.message.as_str());
        s.push('\n');
        s.push('\n');
        assert(s@ =~= dated + seq!['\n'] + "    "@ + self.message@ + seq!['\n', '\n']);
        s
    }
}

/// The commits still to visit.
pub struct LogWalk {
    queue: VecDeque<Commit>,
}

impl LogWalk {
    /// The payloads of the pending commits, the next one first.
    pub closed spec fn pending(&self) -> Seq<Seq<u8>> {
        payloads(self.queue@)
    }

    /// A walk that starts from one commit.
    pub fn start(commit: Commit) -> (w: LogWalk)
        ensures
            w.pending() == seq![commit@],
    {
        let mut queue: VecDeque<Commit> = VecDeque::new();
        queue.push_back(commit);
        let w = LogWalk { queue };
        assert(w.pending() =~= seq![commit@]);
        w
    }

    /// Whether no commit is pending.
    pub fn is_done(&self) -> (r: bool)
        ensures
            r == (self.pending().len() == 0),
    {
        self.queue.len() == 0
    }

    /// Visits the next pending commit: loads it again under its own hash,
    /// makes its entry, and puts its parents at the end of the pending
    /// commits. Where that fails, the pending commits stay as they were.
    pub fn next(&mut self, repository: &Repository, files: &Files) -> (r: Result<
        Option<LogEntry>,
        LogError,
    >)
        ensures
            match r {
                Ok(Some(entry)) => step(
                    files@,
                    repository.gitdir(),
                    files.journal().len(),
                    old(self).pending(),
                ) == Ok::<Option<(LogEntryModel, Seq<Seq<u8>>)>, LogError>(
                    Some((entry@, final(self).pending())),
                ),
                Ok(None) => old(self).pending().len() == 0 && final(self).pending() == old(
                    self,
                ).pending(),
                Err(e) => step(files@, repository.gitdir(), files.journal().len(), old(self).pending())
                    == Err::<Option<(LogEntryModel, Seq<Seq<u8>>)>, LogError>(e)
                    && final(self).pending() == old(self).pending(),
            },
    {
        if self.queue.len() == 0 {
            return Ok(None);
        }
        let ghost gitdir = repository.gitdir();
        let ghost depth = files.journal().len();
        let hash = self.queue[0].hash();
        assert(self.queue@[0]@ == self.pending()[0]);
        let commit = match load_commit(repository, files, hash.as_str()) {
            Ok(c) => c,
            Err(e) => { return Err(e); },
        };
        let k = match read_kvlm(commit.as_bytes().as_slice()) {
            Ok(k) => k,
            Err(e) => { return Err(LogError::Payload(e)); },
        };
        let parents = k.parents();
        let ghost names = texts(parents@);
        let ghost whole = step(files@, gitdir, depth, self.pending());
        let ghost made = entry_of(hash@, k@);
        let mut loaded: Vec<Commit> = Vec::new();
        let mut i: usize = 0;
        assert(names.skip(0) =~= names);
        assert(payloads(loaded@) =~= Seq::<Seq<u8>>::empty());
        while i < parents.len()
            invariant
                i <= parents.len(),
                names == texts(parents@),
                gitdir == repository.gitdir(),
                depth == files.journal().len(),
                self.pending() == old(self).pending(),
                whole == step(files@, gitdir, depth, old(self).pending()),
                whole == match parent_commits(files@, gitdir, depth, names) {
                    Err(e) => Err::<Option<(LogEntryModel, Seq<Seq<u8>>)>, LogError>(e),
                    Ok(found) => Ok(Some((made, old(self).pending().skip(1) + found))),
                },
                parent_commits(files@, gitdir, depth, names) == payloads_then(
                    payloads(loaded@),
                    parent_commits(files@, gitdir, depth, names.skip(i as int)),
                ),
            decreases parents.len() - i,
        {
            let ghost rest = names.skip(i as int);
            proof {
                assert(rest[0] == parents@[i as int]@);
                assert(rest.skip(1) =~= names.skip(i + 1));
            }
            let parent = match load_commit(repository, files, parents[i].as_str()) {
                Ok(c) => c,
                Err(e) => { return Err(e); },
            };
            let ghost before = payloads(loaded@);
            loaded.push(parent);
            proof {
                assert(payloads(loaded@) =~= before.push(parent@));
                let tail = parent_commits(files@, gitdir, depth, names.skip(i + 1));
                if tail is Ok {
                    assert(before + (seq![parent@] + tail.unwrap()) =~= payloads(loaded@)
                        + tail.unwrap());
                }
            }
            i = i + 1;
        }
        assert(payloads(loaded@) + Seq::<Seq<u8>>::empty() =~= payloads(loaded@));
        let entry = make_entry(hash, &k);
        let ghost old_pending = self.pending();
        self.queue.pop_front();
        assert(self.pending() =~= old_pending.skip(1));
        let mut j: usize = 0;
        let ghost added = payloads(loaded@);
        while j < loaded.len()
            invariant
                j <= loaded.len(),
                added == payloads(loaded@),
                self.pending() == old_pending.skip(1) + added.take(j as int),
            decreases loaded.len() - j,
        {
            let ghost queued = self.queue@;
            let copy = loaded[j].clone();
            self.queue.push_back(copy);
            j = j + 1;
            proof {
                assert(payloads(self.queue@) =~= payloads(queued).push(copy@));
                assert(added.take(j as int) =~= added.take(j - 1).push(added[j - 1]));
                assert(self.pending() =~= old_pending.skip(1) + added.take(j as int));
            }
        }
        assert(added.take(j as int) =~= added);
        Ok(Some(entry))
    }
}

/// What a bounded walk gives: the entries in the order of the visits, and
/// whether the walk came to its end.
pub struct LogReport {
    pub entries: Vec<LogEntry>,
    pub complete: bool,
}

/// The log from a commit on: the commits are visited breadth first along
/// their parent links, a commit as often as it is reached, for at most
/// `limit` visits.
pub fn display_log(commit: Commit, rep: &Repository, files: &Files, limit: usize) -> (r: Result<
    LogReport,
    LogError,
>)
    ensures
        match r {
            Ok(report) => walked(
                files@,
                rep.gitdir(),
                files.journal().len(),
                seq![commit@],
                limit as nat,
            ) == Ok::<(Seq<LogEntryModel>, bool), LogError>(
                (entry_models(report.entries@), report.complete),
            ),
            Err(e) => walked(files@, rep.gitdir(), files.journal().len(), seq![commit@], limit as nat)
                == Err::<(Seq<LogEntryModel>, bool), LogError>(e),
        },
{
    let ghost whole = walked(
        files@,
        rep.gitdir(),
        files.journal().len(),
        seq![commit@],
        limit as nat,
    );
    let mut walk = LogWalk::start(commit);
    let mut entries: Vec<LogEntry> = Vec::new();
    let mut left: usize = limit;
    proof {
        let rest = walked(files@, rep.gitdir(), files.journal().len(), walk.pending(), left as nat);
        assert(entry_models(entries@) =~= Seq::<LogEntryModel>::empty());
        if rest is Ok {
            assert(entry_models(entries@) + rest.unwrap().0 =~= rest.unwrap().0);
        }
    }
    while left > 0 && !walk.is_done()
        invariant
            whole == walked(
                files@,
                rep.gitdir(),
                files.journal().len(),
                seq![commit@],
                limit as nat,
            ),
            whole == entries_then(
                entry_models(entries@),
                walked(files@, rep.gitdir(), files.journal().len(), walk.pending(), left as nat),
            ),
        decreases left,
    {
        let ghost before = entry_models(entries@);
        let entry = match walk.next(rep, files) {
            Ok(Some(entry)) => entry,
            Ok(None) => {
                return Ok(LogReport { entries, complete: true });
            },
            Err(e) => { return Err(e); },
        };
        entries.push(entry);
        left = left - 1;
        proof {
            assert(entry_models(entries@) =~= before.push(entry@));
            let rest = walked(
                files@,
                rep.gitdir(),
                files.journal().len(),
                walk.pending(),
                left as nat,
            );
            if rest is Ok {
                assert(before + (seq![entry@] + rest.unwrap().0) =~= entry_models(entries@)
                    + rest.unwrap().0);
            }
        }
    }
    let complete = walk.is_done();
    assert(entry_models(entries@) + Seq::<LogEntryModel>::empty() =~= entry_models(entries@));
    Ok(LogReport { entries, complete })
}

} // verus!
