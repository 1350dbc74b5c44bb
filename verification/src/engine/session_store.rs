//! Session persistence.
//!
//! Each session is an `<id>.jsonl` file in the store's directory: the first line is the
//! [`SessionMeta`] header, and every following line is one canonical [`Message`] appended as it
//! happens. The stored history is always the raw, uncompacted conversation, so that resuming replays
//! exactly what was said even if the in-context copy was compacted.

use super::records;
use super::types;
use super::types::{BlockView, ContentBlock, Message, MessageView, Role};
use crate::json;
use crate::json::{Json, JsonSpec, NumberSpec};
use crate::paths;
use crate::text;
use vstd::prelude::*;
use vstd::string::*;

verus! {

broadcast use crate::text::views_push;

/// Header describing a stored session.
#[derive(Debug, Clone, PartialEq)]
pub struct SessionMeta {
    pub id: String,
    pub provider: String,
    pub model: String,
    pub cwd: String,
    pub created_at: u64,
    pub title: String,
}

/// A picker-friendly view of a session: its header, last-activity time, and a preview of the most
/// recent user message.
#[derive(Debug, Clone)]
pub struct SessionSummary {
    pub meta: SessionMeta,
    /// Unix seconds of the session file's last modification (i.e. last activity).
    pub updated: u64,
    /// The last user message's text (on one line), for a "last action" preview.
    pub last_user: String,
    /// Total message count.
    pub messages: usize,
}

/// A file of the store's directory as it was read.
pub struct StoredFile {
    pub name: String,
    pub text: String,
    /// Unix seconds of its last modification, where that is known.
    pub modified: Option<u64>,
}

/// Why a session file could not be loaded.
#[derive(Debug, Clone, PartialEq)]
pub enum LoadError {
    Empty,
    /// A line is no JSON; the reader's message.
    Json(String),
    /// A line is JSON, but no header or message.
    Shape,
}

/// The mathematical value of a [`SessionMeta`].
pub struct MetaView {
    pub id: Seq<char>,
    pub provider: Seq<char>,
    pub model: Seq<char>,
    pub cwd: Seq<char>,
    pub created_at: u64,
    pub title: Seq<char>,
}

/// The mathematical value of a [`SessionSummary`].
pub struct SummaryView {
    pub meta: MetaView,
    pub updated: u64,
    pub last_user: Seq<char>,
    pub messages: nat,
}

/// The mathematical value of a [`StoredFile`].
pub struct FileView {
    pub name: Seq<char>,
    pub text: Seq<char>,
    pub modified: Option<u64>,
}

/// The mathematical value of a [`LoadError`].
pub enum LoadErrorView {
    Empty,
    Json(Seq<char>),
    Shape,
}

impl View for SessionMeta {
    type V = MetaView;

    open spec fn view(&self) -> MetaView {
        MetaView {
            id: self.id@,
            provider: self.provider@,
            model: self.model@,
            cwd: self.cwd@,
            created_at: self.created_at,
            title: self.title@,
        }
    }
}

impl View for SessionSummary {
    type V = SummaryView;

    open spec fn view(&self) -> SummaryView {
        SummaryView {
            meta: self.meta@,
            updated: self.updated,
            last_user: self.last_user@,
            messages: self.messages as nat,
        }
    }
}

impl View for StoredFile {
    type V = FileView;

    open spec fn view(&self) -> FileView {
        FileView { name: self.name@, text: self.text@, modified: self.modified }
    }
}

impl View for LoadError {
    type V = LoadErrorView;

    open spec fn view(&self) -> LoadErrorView {
        match self {
            LoadError::Empty => LoadErrorView::Empty,
            LoadError::Json(e) => LoadErrorView::Json(e@),
            LoadError::Shape => LoadErrorView::Shape,
        }
    }
}

impl LoadError {
    /// What went wrong, in words.
    pub fn to_text(&self) -> (r: String)
        ensures
            r@ == (match self@ {
                LoadErrorView::Empty => "empty session file"@,
                LoadErrorView::Json(e) => e,
                LoadErrorView::Shape => "not a session record"@,
            }),
    {
        match self {
            LoadError::Empty => "empty session file".to_string(),
            LoadError::Json(e) => e.clone(),
            LoadError::Shape => "not a session record".to_string(),
        }
    }
}

impl SessionMeta {
    /// The header again.
    pub fn copy(&self) -> (r: SessionMeta)
        ensures
            r@ == self@,
    {
        SessionMeta {
            id: self.id.clone(),
            provider: self.provider.clone(),
            model: self.model.clone(),
            cwd: self.cwd.clone(),
            created_at: self.created_at,
            title: self.title.clone(),
        }
    }
}

/// Append-only JSONL session storage under a directory.
pub struct SessionStore {
    dir: String,
}

impl View for SessionStore {
    type V = Seq<char>;

    /// The directory.
    closed spec fn view(&self) -> Seq<char> {
        self.dir@
    }
}

/// The id of a session that begins at the given millisecond.
pub open spec fn id_spec(ms: u64) -> Seq<char> {
    "s"@ + text::base36(ms as nat)
}

/// Sessions that begin at different milliseconds have different ids.
pub proof fn ids_of_different_moments_differ(a: u64, b: u64)
    requires
        a != b,
    ensures
        id_spec(a) != id_spec(b),
{
    text::lemma_base36_differs(a as nat, b as nat);
    reveal_strlit("s");
    assert(id_spec(a).subrange(1, id_spec(a).len() as int) =~= text::base36(a as nat));
    assert(id_spec(b).subrange(1, id_spec(b).len() as int) =~= text::base36(b as nat));
}

/// The whole seconds in a number of milliseconds.
pub open spec fn seconds_in(ms: u64) -> u64 {
    ms / 1000
}

/// A moment of the system's clock.
#[verifier::external_type_specification]
#[verifier::external_body]
pub struct ExSystemTime(std::time::SystemTime);

/// `std::time::SystemTime::now`. The clock decides the result, so nothing is said of it.
pub assume_specification[ std::time::SystemTime::now ]() -> std::time::SystemTime
;

/// `std::time::Duration::as_millis`. Of the clock's reading nothing is known, so nothing is said of
/// its milliseconds.
pub assume_specification[ std::time::Duration::as_millis ](d: &std::time::Duration) -> u128
;

/// `std::time::SystemTime::duration_since` the Unix epoch; none before it. The clock decides the
/// result, so nothing is said of it.
#[verifier::external_body]
fn since_epoch(moment: std::time::SystemTime) -> Option<std::time::Duration> {
    moment.duration_since(std::time::UNIX_EPOCH).ok()
}

/// The milliseconds since the Unix epoch by the system's clock; zero before the epoch.
fn unix_millis() -> u64 {
    match since_epoch(std::time::SystemTime::now()) {
        Some(d) => #[verifier::truncate]
        (d.as_millis() as u64),
        None => 0,
    }
}

/// The whole seconds in a number of milliseconds.
pub fn seconds_of(ms: u64) -> (r: u64)
    ensures
        r == seconds_in(ms),
{
    ms / 1000
}

/// Current unix seconds (for `created_at`): the whole seconds of what the clock shows.
pub fn now_unix() -> (r: u64)
    ensures
        exists|ms: u64| r == #[trigger] seconds_in(ms),
{
    seconds_of(unix_millis())
}

impl SessionStore {
    pub fn new(dir: &str) -> (r: SessionStore)
        ensures
            r@ == dir@,
    {
        SessionStore { dir: dir.to_string() }
    }

    /// The id of a session that begins at the given millisecond.
    pub fn id_at(ms: u64) -> (r: String)
        ensures
            r@ == id_spec(ms),
    {
        text::concat2("s", text::base36_of(ms).as_str())
    }

    /// A fresh session id derived from the wall clock (millis, base-36).
    pub fn new_id() -> (r: String)
        ensures
            exists|ms: u64| r@ == #[trigger] id_spec(ms),
    {
        Self::id_at(unix_millis())
    }

    /// The file of a session.
    pub fn path(&self, id: &str) -> (r: String)
        ensures
            r@ == paths::joined_path(self@, id@ + ".jsonl"@),
    {
        let name = text::concat2(id, ".jsonl");
        paths::join(self.dir.as_str(), name.as_str())
    }
}

// ---- headers --------------------------------------------------------------------------------

/// The JSON form of a header.
pub open spec fn meta_json(m: MetaView) -> JsonSpec {
    JsonSpec::Object(
        json::pairs6(
            "created_at"@,
            JsonSpec::Number(NumberSpec::PosInt(m.created_at)),
            "cwd"@,
            JsonSpec::Str(m.cwd),
            "id"@,
            JsonSpec::Str(m.id),
            "model"@,
            JsonSpec::Str(m.model),
            "provider"@,
            JsonSpec::Str(m.provider),
            "title"@,
            JsonSpec::Str(m.title),
        ),
    )
}

/// The header that a value holds.
pub open spec fn meta_in(j: JsonSpec) -> Option<MetaView> {
    let created_at = match json::slot(j, "created_at"@, 4) {
        Some(v) => json::u64_in(v),
        None => None,
    };
    match (
        records::text_slot(j, "id"@, 0),
        records::text_slot(j, "provider"@, 1),
        records::text_slot(j, "model"@, 2),
        records::text_slot(j, "cwd"@, 3),
        created_at,
        records::text_slot(j, "title"@, 5),
    ) {
        (
            Some(id),
            Some(provider),
            Some(model),
            Some(cwd),
            Some(created_at),
            Some(title),
        ) if json::is_record(j, 6) => Some(
            MetaView { id, provider, model, cwd, created_at, title },
        ),
        _ => None,
    }
}

proof fn lemma_meta_keys()
    ensures
        "created_at"@ != "cwd"@ && "created_at"@ != "id"@ && "created_at"@ != "model"@
            && "created_at"@ != "provider"@ && "created_at"@ != "title"@,
        "cwd"@ != "id"@ && "cwd"@ != "model"@ && "cwd"@ != "provider"@ && "cwd"@ != "title"@,
        "id"@ != "model"@ && "id"@ != "provider"@ && "id"@ != "title"@,
        "model"@ != "provider"@ && "model"@ != "title"@ && "provider"@ != "title"@,
        text::precedes("created_at"@, "cwd"@) && text::precedes("created_at"@, "id"@)
            && text::precedes("created_at"@, "model"@) && text::precedes(
            "created_at"@,
            "provider"@,
        ) && text::precedes("created_at"@, "title"@),
        text::precedes("cwd"@, "id"@) && text::precedes("cwd"@, "model"@) && text::precedes(
            "cwd"@,
            "provider"@,
        ) && text::precedes("cwd"@, "title"@),
        text::precedes("id"@, "model"@) && text::precedes("id"@, "provider"@) && text::precedes(
            "id"@,
            "title"@,
        ),
        text::precedes("model"@, "provider"@) && text::precedes("model"@, "title"@)
            && text::precedes("provider"@, "title"@),
{
    reveal_strlit("created_at");
    reveal_strlit("cwd");
    reveal_strlit("id");
    reveal_strlit("model");
    reveal_strlit("provider");
    reveal_strlit("title");
    reveal_with_fuel(text::precedes_from, 3);
    assert("created_at"@[0] == 'c' && "created_at"@[1] == 'r');
    assert("cwd"@[0] == 'c' && "cwd"@[1] == 'w');
    assert("id"@[0] == 'i' && "model"@[0] == 'm' && "provider"@[0] == 'p' && "title"@[0] == 't');
}

/// The JSON form of a header reads back as that header.
pub proof fn a_header_reads_back(m: MetaView)
    ensures
        meta_in(meta_json(m)) == Some(m),
        json::canonical(meta_json(m), json::MAX_DEPTH as nat),
{
    lemma_meta_keys();
    reveal_with_fuel(json::member_from, 7);
    let ms = meta_json(m)->Object_0;
    let d = (json::MAX_DEPTH - 1) as nat;
    assert(ms.len() == 6);
    assert(ms[0].0 == "created_at"@ && ms[1].0 == "cwd"@ && ms[2].0 == "id"@);
    assert(ms[3].0 == "model"@ && ms[4].0 == "provider"@ && ms[5].0 == "title"@);
    assert(json::canonical(ms[0].1, d) && json::canonical(ms[1].1, d) && json::canonical(
        ms[2].1,
        d,
    ));
    assert(json::canonical(ms[3].1, d) && json::canonical(ms[4].1, d) && json::canonical(
        ms[5].1,
        d,
    ));
}

fn meta_to_json(m: &SessionMeta) -> (r: Json)
    ensures
        r.model() == meta_json(m@),
{
    let mut members = json::members();
    json::put(&mut members, "created_at", json::uint(m.created_at));
    json::put(&mut members, "cwd", json::string(m.cwd.as_str()));
    json::put(&mut members, "id", json::string(m.id.as_str()));
    json::put(&mut members, "model", json::string(m.model.as_str()));
    json::put(&mut members, "provider", json::string(m.provider.as_str()));
    json::put(&mut members, "title", json::string(m.title.as_str()));
    json::object(members)
}

fn meta_from_json(j: &Json) -> (r: Option<SessionMeta>)
    ensures
        match r {
            Some(m) => meta_in(j.model()) == Some(m@),
            None => meta_in(j.model()) is None,
        },
{
    if !j.is_record(6) {
        return None;
    }
    let id = records::text_at(j, "id", 0)?;
    let provider = records::text_at(j, "provider", 1)?;
    let model = records::text_at(j, "model", 2)?;
    let cwd = records::text_at(j, "cwd", 3)?;
    let created_at = j.slot("created_at", 4)?.as_u64()?;
    let title = records::text_at(j, "title", 5)?;
    Some(SessionMeta { id, provider, model, cwd, created_at, title })
}

// ---- lines ----------------------------------------------------------------------------------

/// The header that a line holds.
pub open spec fn line_meta(line: Seq<char>) -> Result<MetaView, LoadErrorView> {
    match json::json_parsed(line) {
        Err(e) => Err(LoadErrorView::Json(e)),
        Ok(j) => match meta_in(j) {
            Some(m) => Ok(m),
            None => Err(LoadErrorView::Shape),
        },
    }
}

/// The message that a line holds.
pub open spec fn line_message(line: Seq<char>) -> Result<MessageView, LoadErrorView> {
    match json::json_parsed(line) {
        Err(e) => Err(LoadErrorView::Json(e)),
        Ok(j) => match records::message_in(j) {
            Some(m) => Ok(m),
            None => Err(LoadErrorView::Shape),
        },
    }
}

pub open spec fn is_blank(line: Seq<char>) -> bool {
    text::trimmed(line).len() == 0
}

/// The messages that the lines before the `n`th hold, the header and blank lines left out. A line
/// that holds none is the error.
pub open spec fn messages_to(lines: Seq<Seq<char>>, n: int) -> Result<
    Seq<MessageView>,
    LoadErrorView,
>
    decreases n,
{
    if n <= 1 {
        Ok(seq![])
    } else {
        match messages_to(lines, n - 1) {
            Err(e) => Err(e),
            Ok(before) => if is_blank(lines[n - 1]) {
                Ok(before)
            } else {
                match line_message(lines[n - 1]) {
                    Ok(m) => Ok(before.push(m)),
                    Err(e) => Err(e),
                }
            },
        }
    }
}

/// What a session file holds.
pub open spec fn loaded(file: Seq<char>) -> Result<(MetaView, Seq<MessageView>), LoadErrorView> {
    let lines = text::lines_of(file);
    if lines.len() == 0 {
        Err(LoadErrorView::Empty)
    } else {
        match line_meta(lines[0]) {
            Err(e) => Err(e),
            Ok(meta) => match messages_to(lines, lines.len() as int) {
                Err(e) => Err(e),
                Ok(messages) => Ok((meta, messages)),
            },
        }
    }
}

/// The file consists of whole lines.
pub open spec fn whole(file: Seq<char>) -> bool {
    file.len() > 0 && file.last() == '\n'
}

/// The file's text with an entry of one line appended reads as before with one more message.
pub open spec fn extends(file: Seq<char>, entry: Seq<char>, m: MessageView) -> bool {
    whole(file) && loaded(file) is Ok ==> {
        &&& whole(file + entry)
        &&& loaded(file + entry) == Ok::<(MetaView, Seq<MessageView>), LoadErrorView>(
            (loaded(file)->Ok_0.0, loaded(file)->Ok_0.1.push(m)),
        )
    }
}

/// The line of a header, with its line end.
pub open spec fn header_entry(meta: MetaView) -> Seq<char> {
    json::json_printed(meta_json(meta)) + "\n"@
}

/// The line of a message, with its line end.
pub open spec fn message_entry(m: MessageView) -> Seq<char> {
    json::json_printed(records::message_json(m)) + "\n"@
}

/// The file of a session: the header and each message on a line of its own.
pub open spec fn file_of(meta: MetaView, messages: Seq<MessageView>) -> Seq<char>
    decreases messages.len(),
{
    if messages.len() == 0 {
        header_entry(meta)
    } else {
        file_of(meta, messages.drop_last()) + message_entry(messages.last())
    }
}

proof fn lemma_messages_prefix(lines: Seq<Seq<char>>, line: Seq<char>, n: int)
    requires
        n <= lines.len(),
    ensures
        messages_to(lines.push(line), n) == messages_to(lines, n),
    decreases n,
{
    if n > 1 {
        lemma_messages_prefix(lines, line, n - 1);
        assert(lines.push(line)[n - 1] == lines[n - 1]);
    }
}

proof fn lemma_braced_is_no_blank(line: Seq<char>)
    requires
        json::braced(line),
    ensures
        !is_blank(line),
{
    assert(!text::is_ws('{') && !text::is_ws('}'));
    assert(text::trimmed_start(line) == line);
    assert(text::trimmed_end(line) == line);
}

/// A line that holds a message extends any session file by that message.
pub proof fn an_appended_message_is_read_last(file: Seq<char>, line: Seq<char>, m: MessageView)
    requires
        json::one_line(line),
        json::braced(line),
        line_message(line) == Ok::<MessageView, LoadErrorView>(m),
    ensures
        extends(file, line + "\n"@, m),
{
    reveal_strlit("\n");
    assert("\n"@ =~= seq!['\n']);
    if whole(file) && loaded(file) is Ok {
        text::appended_line_is_last(file, line);
        assert(file + (line + seq!['\n']) =~= file + line + seq!['\n']);
        let lines = text::lines_of(file);
        lemma_messages_prefix(lines, line, lines.len() as int);
        lemma_braced_is_no_blank(line);
        assert(lines.push(line)[0] == lines[0]);
    }
}

/// A file of one header line reads as a session without messages.
pub proof fn a_new_session_is_empty(line: Seq<char>, meta: MetaView)
    requires
        json::one_line(line),
        line_meta(line) == Ok::<MetaView, LoadErrorView>(meta),
    ensures
        whole(line + "\n"@),
        loaded(line + "\n"@) == Ok::<(MetaView, Seq<MessageView>), LoadErrorView>((meta, seq![])),
{
    reveal_strlit("\n");
    assert("\n"@ =~= seq!['\n']);
    text::appended_line_is_last(seq![], line);
    assert(Seq::<char>::empty() + line + seq!['\n'] =~= line + seq!['\n']);
    assert(text::lines_of(Seq::<char>::empty()) =~= seq![]);
    assert(text::lines_of(line + "\n"@) =~= seq![line]);
}

fn message_of_line(line: &str) -> (r: Result<Message, LoadError>)
    ensures
        match r {
            Ok(m) => line_message(line@) == Ok::<MessageView, LoadErrorView>(m@),
            Err(e) => line_message(line@) == Err::<MessageView, LoadErrorView>(e@),
        },
{
    match json::parse(line) {
        Err(e) => Err(LoadError::Json(e)),
        Ok(j) => match records::message_from_json(&j) {
            Some(m) => Ok(m),
            None => Err(LoadError::Shape),
        },
    }
}

fn meta_of_line(line: &str) -> (r: Result<SessionMeta, LoadError>)
    ensures
        match r {
            Ok(m) => line_meta(line@) == Ok::<MetaView, LoadErrorView>(m@),
            Err(e) => line_meta(line@) == Err::<MetaView, LoadErrorView>(e@),
        },
{
    match json::parse(line) {
        Err(e) => Err(LoadError::Json(e)),
        Ok(j) => match meta_from_json(&j) {
            Some(m) => Ok(m),
            None => Err(LoadError::Shape),
        },
    }
}

proof fn lemma_bad_line(lines: Seq<Seq<char>>, at: int, n: int, e: LoadErrorView)
    requires
        messages_to(lines, at) == Err::<Seq<MessageView>, LoadErrorView>(e),
        at <= n,
        at >= 1,
    ensures
        messages_to(lines, n) == Err::<Seq<MessageView>, LoadErrorView>(e),
    decreases n,
{
    if at < n {
        lemma_bad_line(lines, at, n - 1, e);
    }
}

impl SessionStore {
    /// What a session file starts with: its header. Such a file reads as a session without messages.
    pub fn create(meta: &SessionMeta) -> (r: String)
        ensures
            r@ == header_entry(meta@),
            whole(r@),
            loaded(r@) == Ok::<(MetaView, Seq<MessageView>), LoadErrorView>((meta@, seq![])),
    {
        let j = meta_to_json(meta);
        let mut line = json::print(&j);
        proof {
            a_header_reads_back(meta@);
            a_new_session_is_empty(line@, meta@);
        }
        line.append("\n");
        line
    }

    /// What is appended to a session file for a message. A message whose tool inputs are in the form
    /// that the JSON reader gives is read back as it was, after all that the file held before.
    pub fn append(msg: &Message) -> (r: String)
        ensures
            r@ == message_entry(msg@),
            records::storable(msg@) ==> forall|file: Seq<char>| #[trigger] extends(file, r@, msg@),
    {
        let j = records::message_to_json(msg);
        let mut line = json::print(&j);
        proof {
            if records::storable(msg@) {
                records::a_message_reads_back(msg@);
                assert forall|file: Seq<char>| #[trigger] extends(file, line@ + "\n"@, msg@) by {
                    an_appended_message_is_read_last(file, line@, msg@);
                }
            }
        }
        line.append("\n");
        line
    }

    /// A session's header and messages, from its file's text.
    pub fn load(file: &str) -> (r: Result<(SessionMeta, Vec<Message>), LoadError>)
        ensures
            match r {
                Ok((meta, messages)) => loaded(file@) == Ok::<
                    (MetaView, Seq<MessageView>),
                    LoadErrorView,
                >((meta@, text::views(messages@))),
                Err(e) => loaded(file@) == Err::<(MetaView, Seq<MessageView>), LoadErrorView>(e@),
            },
    {
        let lines = text::lines(file);
        let ghost all = text::views(lines@);
        if lines.len() == 0 {
            return Err(LoadError::Empty);
        }
        assert(all[0] == lines@[0]@);
        let meta = match meta_of_line(lines[0]) {
            Ok(m) => m,
            Err(e) => return Err(e),
        };
        let mut messages: Vec<Message> = Vec::new();
        assert(text::views(messages@) =~= seq![]);
        let mut i: usize = 1;
        while i < lines.len()
            invariant
                1 <= i <= lines@.len(),
                all == text::views(lines@),
                all == text::lines_of(file@),
                line_meta(all[0]) == Ok::<MetaView, LoadErrorView>(meta@),
                messages_to(all, i as int) == Ok::<Seq<MessageView>, LoadErrorView>(
                    text::views(messages@),
                ),
            decreases lines@.len() - i,
        {
            assert(all[i as int] == lines@[i as int]@);
            if text::trim(lines[i]).unicode_len() > 0 {
                match message_of_line(lines[i]) {
                    Ok(m) => messages.push(m),
                    Err(e) => {
                        proof {
                            lemma_bad_line(all, i + 1, all.len() as int, e@);
                        }
                        return Err(e);
                    },
                }
            }
            i += 1;
        }
        Ok((meta, messages))
    }

    /// The text of a session's file. It reads back as the same session where each message's tool inputs
    /// are in the form that the JSON reader gives.
    pub fn file_text(meta: &SessionMeta, messages: &Vec<Message>) -> (r: String)
        ensures
            r@ == file_of(meta@, text::views(messages@)),
            (forall|i: int|
                0 <= i < messages@.len() ==> records::storable((#[trigger] messages@[i])@)) ==> loaded(
                r@,
            ) == Ok::<(MetaView, Seq<MessageView>), LoadErrorView>((meta@, text::views(messages@))),
    {
        let mut out = Self::create(meta);
        let ghost all = text::views(messages@);
        let ghost good = forall|i: int|
            0 <= i < messages@.len() ==> records::storable((#[trigger] messages@[i])@);
        assert(all.take(0) =~= seq![]);
        let mut i: usize = 0;
        while i < messages.len()
            invariant
                0 <= i <= messages@.len(),
                all == text::views(messages@),
                good == (forall|i: int|
                    0 <= i < messages@.len() ==> records::storable((#[trigger] messages@[i])@)),
                out@ == file_of(meta@, all.take(i as int)),
                good ==> whole(out@) && loaded(out@) == Ok::<
                    (MetaView, Seq<MessageView>),
                    LoadErrorView,
                >((meta@, all.take(i as int))),
            decreases messages@.len() - i,
        {
            let entry = Self::append(&messages[i]);
            proof {
                let next = all.take(i + 1);
                assert(next.drop_last() =~= all.take(i as int));
                assert(next.last() == messages@[i as int]@);
                assert(next =~= all.take(i as int).push(messages@[i as int]@));
                if good {
                    assert(records::storable(messages@[i as int]@));
                    assert(extends(out@, entry@, messages@[i as int]@));
                }
            }
            out.append(entry.as_str());
            i += 1;
        }
        assert(all.take(i as int) =~= all);
        out
    }
}

// ---- renaming and branching -----------------------------------------------------------------

/// A header with another title.
pub open spec fn renamed(meta: MetaView, title: Seq<char>) -> MetaView {
    MetaView { title, ..meta }
}

/// The file holds a copy of a session under the given id, begun at `now`.
pub open spec fn is_fork_at(
    session: (MetaView, Seq<MessageView>),
    id: Seq<char>,
    file: Seq<char>,
    now: u64,
) -> bool {
    file == file_of(forked(session.0, id, now), session.1)
}

/// The id is one that some moment gives, and the file holds a copy of the session under it, begun at
/// some moment.
pub open spec fn is_fork(
    session: (MetaView, Seq<MessageView>),
    id: Seq<char>,
    file: Seq<char>,
) -> bool {
    &&& exists|ms: u64| id == #[trigger] id_spec(ms)
    &&& exists|now: u64| #[trigger] is_fork_at(session, id, file, now)
}

/// The header of a session's copy.
pub open spec fn forked(meta: MetaView, id: Seq<char>, now: u64) -> MetaView {
    MetaView {
        id,
        created_at: now,
        title: if meta.title.len() == 0 {
            "fork"@
        } else {
            meta.title + " (fork)"@
        },
        ..meta
    }
}

impl SessionStore {
    /// The file's text with another title in the header and all messages as they were.
    pub fn rename(file: &str, title: &str) -> (r: Result<String, LoadError>)
        ensures
            match (loaded(file@), r) {
                (Ok((meta, messages)), Ok(out)) => {
                    &&& out@ == file_of(renamed(meta, title@), messages)
                    &&& (forall|i: int|
                        0 <= i < messages.len() ==> records::storable(#[trigger] messages[i]))
                        ==> loaded(out@) == Ok::<(MetaView, Seq<MessageView>), LoadErrorView>(
                        (renamed(meta, title@), messages),
                    )
                },
                (Err(a), Err(b)) => a == b@,
                _ => false,
            },
    {
        match Self::load(file) {
            Err(e) => Err(e),
            Ok((meta, messages)) => {
                let mut meta = meta;
                meta.title = title.to_string();
                let out = Self::file_text(&meta, &messages);
                proof {
                    lemma_storable_views(messages@);
                }
                Ok(out)
            },
        }
    }
}

proof fn lemma_storable_views(messages: Seq<Message>)
    ensures
        (forall|i: int|
            0 <= i < text::views(messages).len() ==> records::storable(
                #[trigger] text::views(messages)[i],
            )) ==> (forall|i: int|
            0 <= i < messages.len() ==> records::storable((#[trigger] messages[i])@)),
{
    if forall|i: int|
        0 <= i < text::views(messages).len() ==> records::storable(
            #[trigger] text::views(messages)[i],
        ) {
        assert forall|i: int| 0 <= i < messages.len() implies records::storable(
            (#[trigger] messages[i])@,
        ) by {
            assert(text::views(messages)[i] == messages[i]@);
        }
    }
}

impl SessionStore {
    /// The file of a copy of the session under the given id, begun at `now`.
    pub fn fork_as(file: &str, id: &str, now: u64) -> (r: Result<String, LoadError>)
        ensures
            match (loaded(file@), r) {
                (Ok((meta, messages)), Ok(out)) => {
                    &&& out@ == file_of(forked(meta, id@, now), messages)
                    &&& (forall|i: int|
                        0 <= i < messages.len() ==> records::storable(#[trigger] messages[i]))
                        ==> loaded(out@) == Ok::<(MetaView, Seq<MessageView>), LoadErrorView>(
                        (forked(meta, id@, now), messages),
                    )
                },
                (Err(a), Err(b)) => a == b@,
                _ => false,
            },
    {
        match Self::load(file) {
            Err(e) => Err(e),
            Ok((meta, messages)) => {
                let title = if meta.title.as_str().unicode_len() == 0 {
                    "fork".to_string()
                } else {
                    text::concat2(meta.title.as_str(), " (fork)")
                };
                let copy = SessionMeta {
                    id: id.to_string(),
                    provider: meta.provider,
                    model: meta.model,
                    cwd: meta.cwd,
                    created_at: now,
                    title,
                };
                let out = Self::file_text(&copy, &messages);
                proof {
                    lemma_storable_views(messages@);
                }
                Ok(out)
            },
        }
    }
}

impl SessionStore {
    /// Copies a session into a fresh one, which begins now. Gives the new id and the copy's file.
    pub fn fork(file: &str) -> (r: Result<(String, String), LoadError>)
        ensures
            match r {
                Ok((id, out)) => loaded(file@) is Ok && is_fork(loaded(file@)->Ok_0, id@, out@),
                Err(e) => loaded(file@) == Err::<(MetaView, Seq<MessageView>), LoadErrorView>(e@),
            },
    {
        let id = Self::new_id();
        let now = now_unix();
        match Self::fork_as(file, id.as_str(), now) {
            Ok(out) => {
                assert(is_fork_at(loaded(file@)->Ok_0, id@, out@, now));
                Ok((id, out))
            },
            Err(e) => Err(e),
        }
    }
}

// ---- listing --------------------------------------------------------------------------------

/// An order of `keys`' positions: each once, higher keys first, equal keys as they stood.
pub open spec fn is_newest_first(order: Seq<int>, keys: Seq<u64>) -> bool {
    &&& order.len() == keys.len()
    &&& forall|i: int| 0 <= i < order.len() ==> 0 <= #[trigger] order[i] < keys.len()
    &&& forall|i: int, j: int|
        0 <= i < j < order.len() ==> {
            let a = #[trigger] order[i];
            let b = #[trigger] order[j];
            keys[a] > keys[b] || (keys[a] == keys[b] && a < b)
        }
}

/// The positions of `keys`, higher keys first, equal keys as they stood.
fn newest_first(keys: &Vec<u64>) -> (r: Vec<usize>)
    ensures
        is_newest_first(r@.map_values(|i: usize| i as int), keys@),
{
    let mut order: Vec<usize> = Vec::new();
    let mut n: usize = 0;
    while n < keys.len()
        invariant
            0 <= n <= keys@.len(),
            order@.len() == n,
            forall|i: int| 0 <= i < n ==> (#[trigger] order@[i]) < n,
            forall|i: int, j: int|
                0 <= i < j < n ==> {
                    let a = (#[trigger] order@[i]) as int;
                    let b = (#[trigger] order@[j]) as int;
                    keys@[a] > keys@[b] || (keys@[a] == keys@[b] && a < b)
                },
        decreases keys@.len() - n,
    {
        let mut at: usize = 0;
        while at < order.len() && keys[order[at]] >= keys[n]
            invariant
                0 <= at <= order@.len(),
                order@.len() == n < keys@.len(),
                forall|i: int| 0 <= i < n ==> (#[trigger] order@[i]) < n,
                forall|i: int| 0 <= i < at ==> keys@[(#[trigger] order@[i]) as int] >= keys@[n as int],
            decreases order@.len() - at,
        {
            at += 1;
        }
        let ghost before = order@;
        order.insert(at, n);
        proof {
            let after = order@;
            assert forall|i: int, j: int| 0 <= i < j < n + 1 implies {
                let a = (#[trigger] after[i]) as int;
                let b = (#[trigger] after[j]) as int;
                keys@[a] > keys@[b] || (keys@[a] == keys@[b] && a < b)
            } by {
                let x = if i < at {
                    before[i]
                } else {
                    before[i - 1]
                };
                if j == at {
                    assert(after[i] == before[i]);
                } else if i == at {
                    assert(after[j] == before[j - 1]);
                    if j - 1 > at {
                        let first = before[at as int] as int;
                        let other = before[j - 1] as int;
                        assert(keys@[first] > keys@[other] || keys@[first] == keys@[other]);
                    }
                } else if i < at && j > at {
                    assert(after[i] == before[i] && after[j] == before[j - 1]);
                } else if j < at {
                    assert(after[i] == before[i] && after[j] == before[j]);
                } else {
                    assert(after[i] == before[i - 1] && after[j] == before[j - 1]);
                }
            }
        }
        n += 1;
    }
    let ghost o = order@.map_values(|i: usize| i as int);
    proof {
        assert forall|i: int| 0 <= i < o.len() implies 0 <= #[trigger] o[i] < keys@.len() by {
            assert(o[i] == order@[i]);
        }
        assert forall|i: int, j: int| 0 <= i < j < o.len() implies {
            let a = #[trigger] o[i];
            let b = #[trigger] o[j];
            keys@[a] > keys@[b] || (keys@[a] == keys@[b] && a < b)
        } by {
            assert(o[i] == order@[i] && o[j] == order@[j]);
        }
    }
    order
}

/// The headers of the session files among the first `n`: those with the extension `jsonl` whose
/// first line is a header.
pub open spec fn headers_to(files: Seq<FileView>, n: int) -> Seq<MetaView>
    decreases n,
{
    if n <= 0 {
        seq![]
    } else {
        let before = headers_to(files, n - 1);
        match header_of(files[n - 1]) {
            Some(meta) => before.push(meta),
            None => before,
        }
    }
}

/// The header of a session file.
pub open spec fn header_of(file: FileView) -> Option<MetaView> {
    let lines = text::lines_of(file.text);
    if paths::stem_of(file.name, "jsonl"@) is Some && lines.len() > 0 {
        match line_meta(lines[0]) {
            Ok(meta) => Some(meta),
            Err(_) => None,
        }
    } else {
        None
    }
}

/// The creation times of headers.
pub open spec fn created(metas: Seq<MetaView>) -> Seq<u64> {
    metas.map_values(|m: MetaView| m.created_at)
}

/// The headers in the order `list` gives them: newest first.
pub open spec fn is_listing(listed: Seq<MetaView>, metas: Seq<MetaView>) -> bool {
    exists|order: Seq<int>|
        #[trigger] is_newest_first(order, created(metas)) && listed == order.map_values(
            |i: int| metas[i],
        )
}

fn header_in(file: &StoredFile) -> (r: Option<SessionMeta>)
    ensures
        match r {
            Some(m) => header_of(file@) == Some(m@),
            None => header_of(file@) is None,
        },
{
    match paths::stem(file.name.as_str(), "jsonl") {
        None => None,
        Some(_) => {
            let lines = text::lines(file.text.as_str());
            if lines.len() == 0 {
                return None;
            }
            assert(text::views(lines@)[0] == lines@[0]@);
            match meta_of_line(lines[0]) {
                Ok(m) => Some(m),
                Err(_) => None,
            }
        },
    }
}

// ---- summaries ------------------------------------------------------------------------------

/// The texts of the text blocks among the first `n`.
pub open spec fn texts_to(blocks: Seq<BlockView>, n: int) -> Seq<Seq<char>>
    decreases n,
{
    if n <= 0 {
        seq![]
    } else {
        let before = texts_to(blocks, n - 1);
        match blocks[n - 1] {
            BlockView::Text { text } => before.push(text),
            _ => before,
        }
    }
}

/// A user message's text on one line.
pub open spec fn preview(m: MessageView) -> Seq<char> {
    let text = text::joined(texts_to(m.content, m.content.len() as int), " "@);
    text::joined(text::words_of(text), " "@)
}

/// The message is one of the user that says something.
pub open spec fn speaks(m: MessageView) -> bool {
    m.role == Role::User && text::trimmed(
        text::joined(texts_to(m.content, m.content.len() as int), " "@),
    ).len() > 0
}

/// How many messages the lines before the `n`th hold, and the last preview of the user among them.
/// Lines that hold no message are passed over.
pub open spec fn scanned(lines: Seq<Seq<char>>, n: int) -> (nat, Seq<char>)
    decreases n,
{
    if n <= 1 {
        (0, seq![])
    } else {
        let (count, last) = scanned(lines, n - 1);
        if is_blank(lines[n - 1]) {
            (count, last)
        } else {
            match line_message(lines[n - 1]) {
                Err(_) => (count, last),
                Ok(m) => (
                    count + 1,
                    if speaks(m) {
                        preview(m)
                    } else {
                        last
                    },
                ),
            }
        }
    }
}

/// The summary of a session file. Where its time of modification is not known, the session counts as
/// last active when it was created.
pub open spec fn summary_of(file: FileView) -> Option<SummaryView> {
    let lines = text::lines_of(file.text);
    let (messages, last_user) = scanned(lines, lines.len() as int);
    match header_of(file) {
        None => None,
        Some(meta) => Some(
            SummaryView {
                meta,
                updated: match file.modified {
                    Some(t) => t,
                    None => meta.created_at,
                },
                last_user,
                messages,
            },
        ),
    }
}

/// The summaries of the session files among the first `n`.
pub open spec fn summaries_to(files: Seq<FileView>, n: int) -> Seq<SummaryView>
    decreases n,
{
    if n <= 0 {
        seq![]
    } else {
        let before = summaries_to(files, n - 1);
        match summary_of(files[n - 1]) {
            Some(s) => before.push(s),
            None => before,
        }
    }
}

/// The times of last activity.
pub open spec fn activity(summaries: Seq<SummaryView>) -> Seq<u64> {
    summaries.map_values(|s: SummaryView| s.updated)
}

/// The summaries in the order `list_summaries` gives them: the most recently active first.
pub open spec fn is_summary_listing(listed: Seq<SummaryView>, summaries: Seq<SummaryView>) -> bool {
    exists|order: Seq<int>|
        #[trigger] is_newest_first(order, activity(summaries)) && listed == order.map_values(
            |i: int| summaries[i],
        )
}

fn user_text(m: &Message) -> (r: String)
    ensures
        r@ == text::joined(texts_to(m@.content, m@.content.len() as int), " "@),
{
    let mut parts: Vec<&str> = Vec::new();
    let ghost blocks = text::views(m.content@);
    assert(text::views(parts@) =~= seq![]);
    let mut i: usize = 0;
    while i < m.content.len()
        invariant
            0 <= i <= m.content@.len(),
            blocks == text::views(m.content@),
            text::views(parts@) == texts_to(blocks, i as int),
        decreases m.content@.len() - i,
    {
        assert(blocks[i as int] == m.content@[i as int]@);
        if let ContentBlock::Text { text } = &m.content[i] {
            parts.push(text.as_str());
        }
        i += 1;
    }
    text::join_strs(&parts, " ")
}

fn summarize(file: &StoredFile) -> (r: Option<SessionSummary>)
    ensures
        match r {
            Some(s) => summary_of(file@) == Some(s@),
            None => summary_of(file@) is None,
        },
{
    let meta = match header_in(file) {
        Some(m) => m,
        None => return None,
    };
    let lines = text::lines(file.text.as_str());
    let ghost all = text::views(lines@);
    let mut last_user = String::new();
    assert(last_user@ =~= seq![]);
    let mut messages: usize = 0;
    let mut i: usize = 1;
    while i < lines.len()
        invariant
            1 <= i,
            i <= lines@.len() || lines@.len() == 0,
            all == text::views(lines@),
            messages < i,
            scanned(all, i as int) == (messages as nat, last_user@),
        decreases lines@.len() - i,
    {
        assert(all[i as int] == lines@[i as int]@);
        if text::trim(lines[i]).unicode_len() > 0 {
            if let Ok(m) = message_of_line(lines[i]) {
                messages += 1;
                if m.role == Role::User {
                    let said = user_text(&m);
                    if text::trim(said.as_str()).unicode_len() > 0 {
                        let words = text::words(said.as_str());
                        last_user = text::join_strs(&words, " ");
                    }
                }
            }
        }
        i += 1;
    }
    let updated = match file.modified {
        Some(t) => t,
        None => meta.created_at,
    };
    Some(SessionSummary { meta, updated, last_user, messages })
}

impl SessionSummary {
    /// The summary again.
    pub fn copy(&self) -> (r: SessionSummary)
        ensures
            r@ == self@,
    {
        SessionSummary {
            meta: self.meta.copy(),
            updated: self.updated,
            last_user: self.last_user.clone(),
            messages: self.messages,
        }
    }
}

impl SessionStore {
    /// Headers of all stored sessions, newest first.
    pub fn list(files: &Vec<StoredFile>) -> (r: Vec<SessionMeta>)
        ensures
            is_listing(
                text::views(r@),
                headers_to(text::views(files@), files@.len() as int),
            ),
    {
        let ghost all = text::views(files@);
        let mut metas: Vec<SessionMeta> = Vec::new();
        let mut keys: Vec<u64> = Vec::new();
        assert(text::views(metas@) =~= seq![]);
        assert(keys@ =~= created(text::views(metas@)));
        let mut i: usize = 0;
        while i < files.len()
            invariant
                0 <= i <= files@.len(),
                all == text::views(files@),
                text::views(metas@) == headers_to(all, i as int),
                keys@ == created(text::views(metas@)),
            decreases files@.len() - i,
        {
            assert(all[i as int] == files@[i as int]@);
            if let Some(m) = header_in(&files[i]) {
                let ghost before = text::views(metas@);
                keys.push(m.created_at);
                metas.push(m);
                assert(created(before.push(m@)) =~= created(before).push(m.created_at));
            }
            i += 1;
        }
        let order = newest_first(&keys);
        let ghost o = order@.map_values(|i: usize| i as int);
        let ghost found = text::views(metas@);
        let mut out: Vec<SessionMeta> = Vec::new();
        let mut k: usize = 0;
        while k < order.len()
            invariant
                0 <= k <= order@.len(),
                o == order@.map_values(|i: usize| i as int),
                is_newest_first(o, keys@),
                keys@.len() == metas@.len(),
                found == text::views(metas@),
                out@.len() == k,
                forall|i: int| 0 <= i < k ==> (#[trigger] out@[i])@ == found[o[i]],
            decreases order@.len() - k,
        {
            assert(o[k as int] == order@[k as int]);
            out.push(metas[order[k]].copy());
            k += 1;
        }
        assert(text::views(out@) =~= o.map_values(|i: int| found[i]));
        out
    }

    /// The id of the most recent session, if any.
    pub fn latest(files: &Vec<StoredFile>) -> (r: Option<String>)
        ensures
            exists|listed: Seq<MetaView>| #[trigger]
                is_listing(listed, headers_to(text::views(files@), files@.len() as int))
                    && text::opt_view(r) == (if listed.len() > 0 {
                    Some(listed[0].id)
                } else {
                    None
                }),
    {
        let listed = Self::list(files);
        let ghost views = text::views(listed@);
        assert(is_listing(views, headers_to(text::views(files@), files@.len() as int)));
        if listed.len() > 0 {
            assert(views[0] == listed@[0]@);
            Some(listed[0].id.clone())
        } else {
            None
        }
    }

    /// Rich session summaries for the picker: header + last-activity time + last-user preview,
    /// sorted by most-recently-active first.
    pub fn list_summaries(files: &Vec<StoredFile>) -> (r: Vec<SessionSummary>)
        ensures
            is_summary_listing(
                text::views(r@),
                summaries_to(text::views(files@), files@.len() as int),
            ),
    {
        let ghost all = text::views(files@);
        let mut summaries: Vec<SessionSummary> = Vec::new();
        let mut keys: Vec<u64> = Vec::new();
        assert(text::views(summaries@) =~= seq![]);
        assert(keys@ =~= activity(text::views(summaries@)));
        let mut i: usize = 0;
        while i < files.len()
            invariant
                0 <= i <= files@.len(),
                all == text::views(files@),
                text::views(summaries@) == summaries_to(all, i as int),
                keys@ == activity(text::views(summaries@)),
            decreases files@.len() - i,
        {
            assert(all[i as int] == files@[i as int]@);
            if let Some(s) = summarize(&files[i]) {
                let ghost before = text::views(summaries@);
                keys.push(s.updated);
                summaries.push(s);
                assert(activity(before.push(s@)) =~= activity(before).push(s.updated));
            }
            i += 1;
        }
        let order = newest_first(&keys);
        let ghost o = order@.map_values(|i: usize| i as int);
        let ghost found = text::views(summaries@);
        let mut out: Vec<SessionSummary> = Vec::new();
        let mut k: usize = 0;
        while k < order.len()
            invariant
                0 <= k <= order@.len(),
                o == order@.map_values(|i: usize| i as int),
                is_newest_first(o, keys@),
                keys@.len() == summaries@.len(),
                found == text::views(summaries@),
                out@.len() == k,
                forall|i: int| 0 <= i < k ==> (#[trigger] out@[i])@ == found[o[i]],
            decreases order@.len() - k,
        {
            assert(o[k as int] == order@[k as int]);
            out.push(summaries[order[k]].copy());
            k += 1;
        }
        assert(text::views(out@) =~= o.map_values(|i: int| found[i]));
        out
    }
}

/// The listing order is one and only: two orders of the same keys are the same.
pub proof fn the_listing_order_is_unique(a: Seq<int>, b: Seq<int>, keys: Seq<u64>)
    requires
        is_newest_first(a, keys),
        is_newest_first(b, keys),
    ensures
        a == b,
{
    lemma_order_is_unique(a, b, keys, 0);
    assert(a =~= b);
}

proof fn lemma_order_is_unique(a: Seq<int>, b: Seq<int>, keys: Seq<u64>, n: int)
    requires
        is_newest_first(a, keys),
        is_newest_first(b, keys),
        0 <= n <= a.len(),
        forall|i: int| 0 <= i < n ==> a[i] == b[i],
    ensures
        forall|i: int| 0 <= i < a.len() ==> a[i] == b[i],
    decreases a.len() - n,
{
    if n < a.len() {
        lemma_covers(a, keys, b[n]);
        lemma_covers(b, keys, a[n]);
        let i = choose|i: int| 0 <= i < a.len() && a[i] == b[n];
        let j = choose|j: int| 0 <= j < b.len() && b[j] == a[n];
        if i < n {
            assert(b[i] == b[n]);
        }
        if j < n {
            assert(a[j] == a[n]);
        }
        assert(a[n] == b[n]);
        lemma_order_is_unique(a, b, keys, n + 1);
    }
}

/// An order of all positions holds each of them.
proof fn lemma_covers(order: Seq<int>, keys: Seq<u64>, x: int)
    requires
        is_newest_first(order, keys),
        0 <= x < keys.len(),
    ensures
        exists|i: int| 0 <= i < order.len() && order[i] == x,
{
    assert forall|i: int, j: int| 0 <= i < order.len() && 0 <= j < order.len() && i != j implies
        order[i] != order[j] by {
        if i < j {
            assert(order[i] != order[j]);
        } else {
            assert(order[j] != order[i]);
        }
    }
    assert(order.no_duplicates());
    let all = Set::new(|i: int| 0 <= i < keys.len());
    vstd::set_lib::lemma_int_range(0, keys.len() as int);
    assert(all =~= vstd::set_lib::set_int_range(0, keys.len() as int));
    order.unique_seq_to_set();
    assert(order.to_set().subset_of(all)) by {
        assert forall|y: int| order.to_set().contains(y) implies all.contains(y) by {
            let k = choose|k: int| 0 <= k < order.len() && order[k] == y;
            assert(0 <= order[k] < keys.len());
        }
    }
    vstd::set_lib::lemma_subset_equality(order.to_set(), all);
    assert(order.to_set().contains(x));
    assert(order.contains(x));
}

/// The header of a session's file is its first line, whatever messages follow.
pub proof fn the_first_line_is_the_header(
    stem: Seq<char>,
    lines: Seq<Seq<char>>,
    modified: Option<u64>,
)
    requires
        paths::stem_of(stem + ".jsonl"@, "jsonl"@) is Some,
        lines.len() > 0,
        lines.last().len() > 0,
        forall|i: int, k: int|
            0 <= i < lines.len() && 0 <= k < lines[i].len() ==> #[trigger] lines[i][k] != '\n',
        forall|i: int|
            0 <= i < lines.len() && (#[trigger] lines[i]).len() > 0 ==> lines[i].last() != '\r',
    ensures
        ({
            let file = FileView {
                name: stem + ".jsonl"@,
                text: text::joined(lines, "\n"@),
                modified,
            };
            match line_meta(lines[0]) {
                Ok(meta) => header_of(file) == Some(meta),
                Err(_) => header_of(file) is None,
            }
        }),
{
    text::joined_lines_read_again(lines);
}

/// Sessions are ordered by when they were last used.
pub proof fn the_last_use_orders_sessions(summaries: Seq<SummaryView>, i: int)
    requires
        0 <= i < summaries.len(),
    ensures
        activity(summaries).len() == summaries.len(),
        activity(summaries)[i] == summaries[i].updated,
{
}

} // verus!
