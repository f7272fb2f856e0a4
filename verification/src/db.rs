//! History entries, where they come from, and how they are printed.

use crate::format::{
    format_i64, int_text, lemma_int_text_parses, pad_left, padded_left, parse_i64, parsed_i64,
};
use vstd::prelude::*;
use vstd::string::{StrSliceExecFns, StringExecFns};

verus! {

/// One command in the history.
#[derive(Debug)]
pub struct HistoryEntry {
    pub id: i64,
    pub session: i64,
    pub exit_status: Option<i64>,
    pub start_time: i64,
    pub duration: Option<i64>,
    pub argv: String,
    pub host: String,
    pub dir: String,
}

impl Clone for HistoryEntry {
    fn clone(&self) -> (r: Self)
        ensures
            r == *self,
    {
        HistoryEntry {
            id: self.id,
            session: self.session,
            exit_status: self.exit_status,
            start_time: self.start_time,
            duration: self.duration,
            argv: self.argv.clone(),
            host: self.host.clone(),
            dir: self.dir.clone(),
        }
    }
}

/// What the shell tells about the history database and the caller.
#[derive(Debug)]
pub struct HistdbInfo {
    pub host: Option<String>,
    pub session: Option<i64>,
    pub file: Option<String>,
    pub widget: bool,
}

/// A text without the pair of single quotes around it, if it has one.
pub open spec fn unquoted(s: Seq<char>) -> Seq<char> {
    if s.len() >= 2 && s.first() == '\'' && s.last() == '\'' {
        s.subrange(1, s.len() - 1)
    } else {
        s
    }
}

/// Takes away a pair of single quotes around a text.
pub fn strip_quotes(s: String) -> (r: String)
    ensures
        r@ == unquoted(s@),
{
    let n = s.as_str().unicode_len();
    if n >= 2 && s.as_str().get_char(0) == '\'' && s.as_str().get_char(n - 1) == '\'' {
        s.as_str().substring_char(1, n - 1).to_owned()
    } else {
        s
    }
}

/// A text in an `Option`, seen as characters.
pub open spec fn opt_text(s: Option<String>) -> Option<Seq<char>> {
    match s {
        Some(t) => Some(t@),
        None => None,
    }
}

/// Whether `info` is what the values of the environment say.
pub open spec fn told(
    host: Option<Seq<char>>,
    session: Option<Seq<char>>,
    file: Option<Seq<char>>,
    widget: bool,
    info: HistdbInfo,
) -> bool {
    &&& opt_text(info.host) == (match host {
        Some(h) => Some(unquoted(h)),
        None => None,
    })
    &&& info.session == (match session {
        Some(t) => parsed_i64(t),
        None => None,
    })
    &&& opt_text(info.file) == file
    &&& info.widget == widget
}

impl HistdbInfo {
    /// Reads the values of `HISTDB_HOST`, `HISTDB_SESSION` and `HISTDB_FILE`, and whether
    /// `ZHIST_WIDGET` is set.
    pub fn from_env(
        host: Option<String>,
        session: Option<String>,
        file: Option<String>,
        widget: bool,
    ) -> (info: Self)
        ensures
            opt_text(info.host) == (match opt_text(host) {
                Some(h) => Some(unquoted(h)),
                None => None,
            }),
            info.session == (match opt_text(session) {
                Some(t) => parsed_i64(t),
                None => None,
            }),
            info.file == file,
            info.widget == widget,
            told(opt_text(host), opt_text(session), opt_text(file), widget, info),
    {
        let host = match host {
            Some(h) => Some(strip_quotes(h)),
            None => None,
        };
        let session = match session {
            Some(t) => parse_i64(t.as_str()),
            None => None,
        };
        HistdbInfo { host, session, file, widget }
    }
}

/// The file of the history database, when one was named or the home directory is known.
pub open spec fn database_file(file: Option<Seq<char>>, home: Option<Seq<char>>) -> Option<
    Seq<char>,
> {
    match (file, home) {
        (Some(file), _) => Some(file),
        (None, Some(home)) => Some(home + "/.histdb/zsh-history.db"@),
        (None, None) => None,
    }
}

/// The file of the history database: the one that was named, or the usual one under the home
/// directory. `None` where neither is known.
pub fn db_path(info: &HistdbInfo, home: Option<String>) -> (path: Option<String>)
    ensures
        opt_text(path) == (match (info.file, home) {
            (Some(file), _) => Some(file@),
            (None, Some(home)) => Some(home@ + "/.histdb/zsh-history.db"@),
            (None, None) => None,
        }),
        opt_text(path) == database_file(opt_text(info.file), opt_text(home)),
{
    match &info.file {
        Some(file) => Some(file.clone()),
        None => match home {
            Some(home) => Some(home.concat("/.histdb/zsh-history.db")),
            None => None,
        },
    }
}

/// The rows that are handed on, if any, and those kept back, once a row has come in.
pub open spec fn row_step(
    chunk: Seq<HistoryEntry>,
    batch_size: nat,
    row: HistoryEntry,
) -> (Option<Seq<HistoryEntry>>, Seq<HistoryEntry>) {
    let rows = chunk.push(row);
    if rows.len() >= batch_size {
        (Some(rows), seq![])
    } else {
        (None, rows)
    }
}

/// The chunks handed on and the rows kept back after all of `rows` have come in.
pub open spec fn streamed(rows: Seq<HistoryEntry>, batch_size: nat) -> (
    Seq<Seq<HistoryEntry>>,
    Seq<HistoryEntry>,
)
    decreases rows.len(),
{
    if rows.len() == 0 {
        (seq![], seq![])
    } else {
        let (chunks, kept) = streamed(rows.drop_last(), batch_size);
        match row_step(kept, batch_size, rows.last()) {
            (Some(chunk), rest) => (chunks.push(chunk), rest),
            (None, rest) => (chunks, rest),
        }
    }
}

/// The chunks handed on for all of `rows` when no more come: the rows kept back are the last.
pub open spec fn stream_chunks(rows: Seq<HistoryEntry>, batch_size: nat) -> Seq<Seq<HistoryEntry>> {
    let (chunks, kept) = streamed(rows, batch_size);
    if kept.len() > 0 {
        chunks.push(kept)
    } else {
        chunks
    }
}

/// Gathers rows into chunks of a given size.
pub struct RowStream {
    pub batch_size: usize,
    pub chunk: Vec<HistoryEntry>,
}

impl RowStream {
    pub fn new(batch_size: usize) -> (s: Self)
        ensures
            s.batch_size == batch_size,
            s.chunk@ == Seq::<HistoryEntry>::empty(),
    {
        RowStream { batch_size, chunk: Vec::new() }
    }

    /// Takes in a row; gives the chunk that is now full, if there is one.
    pub fn push(&mut self, row: HistoryEntry) -> (full: Option<Vec<HistoryEntry>>)
        ensures
            final(self).batch_size == old(self).batch_size,
            ({
                let (handed, kept) = row_step(
                    old(self).chunk@,
                    old(self).batch_size as nat,
                    row,
                );
                &&& final(self).chunk@ == kept
                &&& match full {
                    Some(v) => handed == Some(v@),
                    None => handed is None,
                }
            }),
    {
        self.chunk.push(row);
        if self.chunk.len() >= self.batch_size {
            let mut full: Vec<HistoryEntry> = Vec::new();
            std::mem::swap(&mut full, &mut self.chunk);
            Some(full)
        } else {
            None
        }
    }

    /// The rows left over when no more come, if there are any.
    pub fn finish(self) -> (last: Option<Vec<HistoryEntry>>)
        ensures
            match last {
                Some(v) => v == self.chunk && v@.len() > 0,
                None => self.chunk@.len() == 0,
            },
    {
        if self.chunk.len() > 0 {
            Some(self.chunk)
        } else {
            None
        }
    }
}

/// Streaming loses no row and changes no order: the chunks and then the rows kept back are all
/// the rows that came in. Every chunk is full, and fewer rows than a chunk are kept back.
pub proof fn lemma_streamed_is_complete(rows: Seq<HistoryEntry>, batch_size: nat)
    ensures
        ({
            let (chunks, kept) = streamed(rows, batch_size);
            let full: nat = if batch_size == 0 { 1 } else { batch_size };
            &&& chunks.flatten() + kept == rows
            &&& forall|i: int| 0 <= i < chunks.len() ==> #[trigger] chunks[i].len() == full
            &&& kept.len() < full
        }),
    decreases rows.len(),
{
    if rows.len() == 0 {
        assert(Seq::<Seq<HistoryEntry>>::empty().flatten() + Seq::<HistoryEntry>::empty() =~= rows);
    } else {
        lemma_streamed_is_complete(rows.drop_last(), batch_size);
        let (chunks, kept) = streamed(rows.drop_last(), batch_size);
        assert(rows =~= rows.drop_last().push(rows.last()));
        match row_step(kept, batch_size, rows.last()) {
            (Some(chunk), rest) => {
                chunks.lemma_flatten_push(chunk);
                assert(chunks.push(chunk).flatten() + rest =~= rows);
            },
            (None, rest) => {
                assert(chunks.flatten() + rest =~= rows);
            },
        }
    }
}

/// Rows can be taken in one by one: each step hands on what the stream with one row more hands on
/// beyond the chunks before, and keeps back what that keeps back.
pub proof fn lemma_streamed_step(rows: Seq<HistoryEntry>, batch_size: nat, row: HistoryEntry)
    ensures
        ({
            let (chunks, kept) = streamed(rows, batch_size);
            let (handed, rest) = row_step(kept, batch_size, row);
            streamed(rows.push(row), batch_size) == match handed {
                Some(chunk) => (chunks.push(chunk), rest),
                None => (chunks, rest),
            }
        }),
{
    assert(rows.push(row).drop_last() =~= rows);
}

/// All chunks of a stream together are its rows, in order. None is empty; all but the last are
/// full, and the last is not longer. Without a row there is no chunk.
pub proof fn lemma_stream_chunks(rows: Seq<HistoryEntry>, batch_size: nat)
    requires
        batch_size > 0,
    ensures
        ({
            let all = stream_chunks(rows, batch_size);
            &&& all.flatten() == rows
            &&& forall|i: int| 0 <= i < all.len() - 1 ==> #[trigger] all[i].len() == batch_size
            &&& all.len() > 0 ==> 1 <= all.last().len() <= batch_size
            &&& rows.len() == 0 <==> all.len() == 0
        }),
{
    lemma_streamed_is_complete(rows, batch_size);
    let (chunks, kept) = streamed(rows, batch_size);
    let all = stream_chunks(rows, batch_size);
    if kept.len() > 0 {
        chunks.lemma_flatten_push(kept);
        assert(chunks.push(kept).flatten() =~= rows);
    } else {
        assert(chunks.flatten() + kept =~= chunks.flatten());
        if chunks.len() > 0 {
            assert(all.last() == chunks[chunks.len() - 1]);
            assert(chunks =~= chunks.drop_last().push(chunks.last()));
            chunks.drop_last().lemma_flatten_push(chunks.last());
        }
    }
    if all.len() == 0 {
        assert(all =~= Seq::<Seq<HistoryEntry>>::empty());
    }
}

/// A number, or `-` where there is none.
pub open spec fn number_or_dash(n: Option<i64>) -> Seq<char> {
    match n {
        Some(v) => int_text(v as int),
        None => seq!['-'],
    }
}

/// Writes a number, or `-` where there is none.
pub fn format_opt(n: Option<i64>) -> (s: String)
    ensures
        s@ == number_or_dash(n),
{
    match n {
        Some(v) => format_i64(v),
        None => {
            let mut s = String::new();
            s.push('-');
            assert(s@ =~= seq!['-']);
            s
        },
    }
}

/// The line that lists an entry: id, start time and exit status in columns, then the host and
/// the directory where they are asked for, then the command.
pub open spec fn entry_line(entry: HistoryEntry, host: bool, dir: bool) -> Seq<char> {
    let gap = seq![' ', ' '];
    let columns = padded_left(int_text(entry.id as int), 6) + gap + padded_left(
        int_text(entry.start_time as int),
        10,
    ) + gap + padded_left(number_or_dash(entry.exit_status), 8);
    let with_host = if host { columns + gap + entry.host@ } else { columns };
    let with_dir = if dir { with_host + gap + entry.dir@ } else { with_host };
    with_dir + gap + entry.argv@
}

impl HistoryEntry {
    /// The line that lists this entry.
    pub fn line(&self, host: bool, dir: bool) -> (s: String)
        ensures
            s@ == entry_line(*self, host, dir),
    {
        proof {
            reveal_strlit("  ");
        }
        let gap = "  ";
        assert(gap@ =~= seq![' ', ' ']);
        let mut s = pad_left(format_i64(self.id).as_str(), 6);
        s.append(gap);
        s.append(pad_left(format_i64(self.start_time).as_str(), 10).as_str());
        s.append(gap);
        s.append(pad_left(format_opt(self.exit_status).as_str(), 8).as_str());
        if host {
            s.append(gap);
            s.append(self.host.as_str());
        }
        if dir {
            s.append(gap);
            s.append(self.dir.as_str());
        }
        s.append(gap);
        s.append(self.argv.as_str());
        s
    }
}

/// One pair of single quotes around a text is taken away; without the pair nothing is.
pub proof fn lemma_unquoting(s: Seq<char>)
    ensures
        unquoted(seq!['\''] + s + seq!['\'']) == s,
        s.len() < 2 || s[0] != '\'' || s[s.len() - 1] != '\'' ==> unquoted(s) == s,
{
    let q = seq!['\''] + s + seq!['\''];
    assert(q.subrange(1, q.len() - 1) =~= s);
}

/// The printed line of an entry: the id at the right of six places, the start time at the right of
/// ten and the exit status, or a dash, at the right of eight, with two spaces before each but the
/// first; then, each behind two spaces, the host and the directory where they are asked for, and the
/// command at the end.
pub proof fn lemma_line_columns(entry: HistoryEntry)
    ensures
        ({
            let gap = seq![' ', ' '];
            let id = padded_left(int_text(entry.id as int), 6);
            let start = padded_left(int_text(entry.start_time as int), 10);
            let status = padded_left(
                match entry.exit_status {
                    Some(n) => int_text(n as int),
                    None => seq!['-'],
                },
                8,
            );
            let columns = id + gap + start + gap + status;
            &&& entry_line(entry, false, false) == columns + gap + entry.argv@
            &&& entry_line(entry, true, false) == columns + gap + entry.host@ + gap + entry.argv@
            &&& entry_line(entry, false, true) == columns + gap + entry.dir@ + gap + entry.argv@
            &&& entry_line(entry, true, true) == columns + gap + entry.host@ + gap + entry.dir@ + gap
                + entry.argv@
        }),
{
}

/// An exit status is shown as a number, and a missing one as a dash.
pub proof fn lemma_missing_is_dash(n: i64)
    ensures
        number_or_dash(Some(n)) == int_text(n as int),
        number_or_dash(None).len() == 1,
        number_or_dash(None)[0] == '-',
{
}

/// The host is told with or without quotes around it, and a session is a number; the name of the
/// file is taken as it is, and what is not told is not known.
#[verifier::rlimit(60)]
pub proof fn lemma_told(
    host: Option<Seq<char>>,
    session: Option<Seq<char>>,
    file: Option<Seq<char>>,
    widget: bool,
    info: HistdbInfo,
)
    requires
        told(host, session, file, widget, info),
    ensures
        info.widget == widget,
        info.file is Some <==> file is Some,
        file is Some ==> info.file->0@ == file->0,
        info.host is Some <==> host is Some,
        host is Some && !host->0.contains('\'') ==> info.host->0@ == host->0,
        forall|name: Seq<char>| host == Some(#[trigger] (seq!['\''] + name + seq!['\'']))
            ==> info.host->0@ == name,
        session is None ==> info.session is None,
        forall|n: i64| session == Some(#[trigger] int_text(n as int)) ==> info.session == Some(n),
{
    if let Some(h) = host {
        if h.len() > 0 && h[0] == '\'' {
            assert(h.contains(h[0]));
        }
        assert forall|name: Seq<char>| host == Some(
            #[trigger] (seq!['\''] + name + seq!['\'']),
        ) implies info.host->0@ == name by {
            assert(h.subrange(1, h.len() - 1) =~= name);
        }
    }
    assert forall|n: i64| session == Some(#[trigger] int_text(n as int)) implies info.session == Some(
        n,
    ) by {
        lemma_int_text_parses(n);
    }
}

/// A file that was named is taken wherever the home directory is. Otherwise the file lies in the home
/// directory, and without one there is none.
pub proof fn lemma_database_file(file: Option<Seq<char>>, home: Option<Seq<char>>)
    ensures
        file is Some ==> database_file(file, home) == file,
        file is None && home is Some ==> ({
            let path = database_file(file, home)->0;
            let n = home->0.len() as int;
            &&& database_file(file, home) is Some
            &&& path.take(n) == home->0
            &&& path.skip(n) == "/.histdb/zsh-history.db"@
        }),
        file is None && home is None ==> database_file(file, home) is None,
{
    if let (None, Some(h)) = (file, home) {
        let path = database_file(file, home)->0;
        assert(path.take(h.len() as int) =~= h);
        assert(path.skip(h.len() as int) =~= "/.histdb/zsh-history.db"@);
    }
}

} // verus!
