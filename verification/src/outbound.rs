//! What is sent to Slack.

use vstd::prelude::*;

use crate::channel::ReplyPayload;
use crate::chunk;
use crate::error;
use crate::error::{ApiCall, SlackError};
use crate::json;
use crate::markdown;
use crate::markdown::{SLACK_DEFAULT_CHUNK_SIZE, SLACK_MAX_MESSAGE_LEN};
use crate::state::{AccountState, AccountStateMap};
use crate::text;

verus! {

/// What stands in a message before the first text of a stream arrives.
pub const PLACEHOLDER: &'static str = "\u{2026}";

// ---------------------------------------------------------------------------
// Requests and answers
// ---------------------------------------------------------------------------

/// A message to post.
#[derive(Debug)]
pub struct PostMessage {
    pub channel: String,
    pub text: String,
    pub thread_ts: Option<String>,
}

/// What a [`PostMessage`] says.
pub struct PostModel {
    pub channel: Seq<char>,
    pub text: Seq<char>,
    pub thread_ts: Option<Seq<char>>,
}

impl View for PostMessage {
    type V = PostModel;

    open spec fn view(&self) -> PostModel {
        PostModel {
            channel: self.channel@,
            text: self.text@,
            thread_ts: text::opt_view(self.thread_ts),
        }
    }
}

impl PostModel {
    /// The body of the request that posts the message.
    pub open spec fn body(self) -> Seq<char> {
        let texts = seq![("channel"@, self.channel), ("text"@, self.text)];
        json::object_text(
            match self.thread_ts {
                Some(ts) => texts.push(("thread_ts"@, ts)),
                None => texts,
            },
            seq![("mrkdwn"@, true), ("unfurl_links"@, false), ("unfurl_media"@, false)],
        )
    }
}

impl PostMessage {
    /// The body of the request that posts the message.
    pub fn body(&self) -> (r: String)
        ensures
            r@ == self@.body(),
    {
        let mut texts: Vec<(String, String)> = Vec::new();
        texts.push(("channel".to_owned(), self.channel.clone()));
        texts.push(("text".to_owned(), self.text.clone()));
        if let Some(ts) = &self.thread_ts {
            texts.push(("thread_ts".to_owned(), ts.clone()));
        }
        let mut flags: Vec<(String, bool)> = Vec::new();
        flags.push(("mrkdwn".to_owned(), true));
        flags.push(("unfurl_links".to_owned(), false));
        flags.push(("unfurl_media".to_owned(), false));
        proof {
            let base = seq![("channel"@, self@.channel), ("text"@, self@.text)];
            assert(texts.deep_view() =~= match self@.thread_ts {
                Some(ts) => base.push(("thread_ts"@, ts)),
                None => base,
            });
            assert(flags.deep_view() =~= seq![
                ("mrkdwn"@, true),
                ("unfurl_links"@, false),
                ("unfurl_media"@, false),
            ]);
        }
        json::object_to_string(texts, flags)
    }
}

/// A new text for a message that was posted.
#[derive(Debug)]
pub struct UpdateMessage {
    pub channel: String,
    pub ts: String,
    pub text: String,
}

/// What an [`UpdateMessage`] says.
pub struct UpdateModel {
    pub channel: Seq<char>,
    pub ts: Seq<char>,
    pub text: Seq<char>,
}

impl View for UpdateMessage {
    type V = UpdateModel;

    open spec fn view(&self) -> UpdateModel {
        UpdateModel { channel: self.channel@, ts: self.ts@, text: self.text@ }
    }
}

impl UpdateModel {
    /// The body of the request that updates the message.
    pub open spec fn body(self) -> Seq<char> {
        json::object_text(
            seq![("channel"@, self.channel), ("ts"@, self.ts), ("text"@, self.text)],
            seq![("mrkdwn"@, true)],
        )
    }
}

impl UpdateMessage {
    /// The body of the request that updates the message.
    pub fn body(&self) -> (r: String)
        ensures
            r@ == self@.body(),
    {
        let mut texts: Vec<(String, String)> = Vec::new();
        texts.push(("channel".to_owned(), self.channel.clone()));
        texts.push(("ts".to_owned(), self.ts.clone()));
        texts.push(("text".to_owned(), self.text.clone()));
        let mut flags: Vec<(String, bool)> = Vec::new();
        flags.push(("mrkdwn".to_owned(), true));
        proof {
            assert(texts.deep_view() =~= seq![
                ("channel"@, self.channel@),
                ("ts"@, self.ts@),
                ("text"@, self.text@),
            ]);
            assert(flags.deep_view() =~= seq![("mrkdwn"@, true)]);
        }
        json::object_to_string(texts, flags)
    }
}

/// Slack's answer to a posted message.
#[derive(Debug)]
pub struct SlackPostMessageResponse {
    pub ok: bool,
    pub error: Option<String>,
    pub ts: Option<String>,
}

/// Slack's answer where nothing but success is asked.
#[derive(Debug)]
pub struct SlackBasicResponse {
    pub ok: bool,
    pub error: Option<String>,
}

/// The error that a refused call comes to.
pub open spec fn is_api_error(e: SlackError, call: ApiCall, error: Option<String>) -> bool {
    e matches SlackError::Api { call: c, reason } && c == call && reason@ == error::reason_view(
        error,
    )
}

/// What Slack's answer to a posted message comes to: the message's timestamp,
/// if Slack gave one.
pub fn posted(response: SlackPostMessageResponse) -> (r: Result<Option<String>, SlackError>)
    ensures
        match r {
            Ok(ts) => response.ok && ts == response.ts,
            Err(e) => !response.ok && is_api_error(e, ApiCall::PostMessage, response.error),
        },
{
    match error::check_response(ApiCall::PostMessage, response.ok, response.error) {
        Ok(_) => Ok(response.ts),
        Err(e) => Err(e),
    }
}

/// What Slack's answer to an update comes to.
pub fn updated(response: SlackBasicResponse) -> (r: Result<(), SlackError>)
    ensures
        match r {
            Ok(_) => response.ok,
            Err(e) => !response.ok && is_api_error(e, ApiCall::UpdateMessage, response.error),
        },
{
    error::check_response(ApiCall::UpdateMessage, response.ok, response.error)
}

// ---------------------------------------------------------------------------
// Texts
// ---------------------------------------------------------------------------

/// Whether a Markdown text can be sent in messages of `max_len` bytes.
pub open spec fn sendable(md: Seq<char>, max_len: nat) -> bool {
    chunk::chunkable(markdown::mrkdwn(md), max_len)
}

/// A Markdown text as messages of `max_len` bytes.
pub open spec fn rendered(md: Seq<char>, max_len: nat) -> Seq<Seq<char>> {
    chunk::chunks(markdown::mrkdwn(md), max_len)
}

/// A Markdown text as messages of at most `max_len` bytes.
pub fn render(md: &str, max_len: usize) -> (r: Result<Vec<String>, SlackError>)
    ensures
        match r {
            Ok(chunks) => {
                &&& sendable(md@, max_len as nat)
                &&& chunks@.map_values(|c: String| c@) == rendered(md@, max_len as nat)
                &&& chunks@.len() >= 1
            },
            Err(e) => !sendable(md@, max_len as nat) && e is CutInsideCharacter,
        },
{
    let mrkdwn = markdown::markdown_to_mrkdwn(md);
    if chunk::can_chunk(mrkdwn.as_str(), max_len) {
        let chunks = chunk::chunk_message(mrkdwn.as_str(), max_len);
        proof {
            chunk::law_chunks_at_least_one(mrkdwn@, max_len as nat);
            assert(chunks@.map_values(|c: String| c@).len() == chunks@.len());
        }
        Ok(chunks)
    } else {
        Err(SlackError::CutInsideCharacter)
    }
}

/// The chunk size that counts for an account.
pub open spec fn effective_chunk_size(chunk_size: usize) -> nat {
    if chunk_size < SLACK_DEFAULT_CHUNK_SIZE {
        SLACK_DEFAULT_CHUNK_SIZE as nat
    } else {
        chunk_size as nat
    }
}

/// The messages to post, in this order, and the token to post them with.
pub struct TextPlan {
    pub token: String,
    pub posts: Vec<PostMessage>,
}

/// The messages that a text is posted as.
pub open spec fn posts_for(
    md: Seq<char>,
    chunk_size: usize,
    to: Seq<char>,
    reply_to: Option<Seq<char>>,
) -> Seq<PostModel> {
    rendered(md, effective_chunk_size(chunk_size)).map_values(
        |c: Seq<char>| PostModel { channel: to, text: c, thread_ts: reply_to },
    )
}

/// The text of an answer with a file: the text and the file's address, each on
/// a line.
pub open spec fn media_text(payload: ReplyPayload) -> Seq<char> {
    match payload.media {
        Some(media) => if payload.text@.len() == 0 {
            media.url@
        } else {
            payload.text@ + "\n"@ + media.url@
        },
        None => payload.text@,
    }
}

/// The text of a location: its title, if it has one, and a link to a map, each
/// on a line.
pub open spec fn location_text(
    latitude: Seq<char>,
    longitude: Seq<char>,
    title: Option<Seq<char>>,
) -> Seq<char> {
    let link = "https://maps.google.com/?q="@ + latitude + ","@ + longitude;
    match title {
        Some(place) => place + "\n"@ + link,
        None => link,
    }
}

// ---------------------------------------------------------------------------
// Sending
// ---------------------------------------------------------------------------

/// What is sent from the running accounts.
pub struct SlackOutbound<'a, L, S, C> {
    accounts: &'a AccountStateMap<L, S, C>,
}

/// Whether sending from an account failed for want of the account.
pub open spec fn is_unknown_account(e: SlackError, account_id: Seq<char>) -> bool {
    e matches SlackError::UnknownAccount(id) && id@ == account_id
}

/// What sending `md` from an account comes to.
pub open spec fn is_text_plan<L, S, C>(
    accounts: Map<Seq<char>, AccountState<L, S, C>>,
    account_id: Seq<char>,
    to: Seq<char>,
    md: Seq<char>,
    reply_to: Option<Seq<char>>,
    r: Result<TextPlan, SlackError>,
) -> bool {
    let config = accounts[account_id].config;
    let size = effective_chunk_size(config.chunk_size);
    match r {
        Ok(plan) => {
            &&& accounts.contains_key(account_id)
            &&& sendable(md, size)
            &&& plan.token@ == config.bot_token@
            &&& plan.posts@.map_values(|p: PostMessage| p@) == posts_for(
                md,
                config.chunk_size,
                to,
                reply_to,
            )
        },
        Err(e) => {
            ||| !accounts.contains_key(account_id) && is_unknown_account(e, account_id)
            ||| accounts.contains_key(account_id) && !sendable(md, size) && e is CutInsideCharacter
        },
    }
}

/// The characters of a borrowed text that may be missing.
pub open spec fn opt_str(s: Option<&str>) -> Option<Seq<char>> {
    match s {
        Some(t) => Some(t@),
        None => None,
    }
}

impl<'a, L, S, C> SlackOutbound<'a, L, S, C> {
    /// The running accounts.
    pub closed spec fn accounts_view(&self) -> Map<Seq<char>, AccountState<L, S, C>> {
        self.accounts@
    }

    /// Sends from these accounts.
    #[must_use]
    pub fn new(accounts: &'a AccountStateMap<L, S, C>) -> (r: Self)
        ensures
            r.accounts_view() == accounts@,
    {
        SlackOutbound { accounts }
    }

    /// The bot token, the chunk size and the pause between edits of an account.
    pub fn account_snapshot(&self, account_id: &str) -> (r: Result<
        (String, usize, u64),
        SlackError,
    >)
        ensures
            match r {
                Ok((token, chunk_size, throttle_ms)) => {
                    let config = self.accounts_view()[account_id@].config;
                    &&& self.accounts_view().contains_key(account_id@)
                    &&& token@ == config.bot_token@
                    &&& chunk_size == config.chunk_size
                    &&& throttle_ms == config.edit_throttle_ms
                },
                Err(e) => !self.accounts_view().contains_key(account_id@) && is_unknown_account(
                    e,
                    account_id@,
                ),
            },
    {
        match self.accounts.get(account_id) {
            Some(state) => Ok(
                (
                    state.config.bot_token.expose().to_owned(),
                    state.config.chunk_size,
                    state.config.edit_throttle_ms,
                ),
            ),
            None => Err(SlackError::UnknownAccount(account_id.to_owned())),
        }
    }

    /// Sends a Markdown text to a channel, in a thread or not.
    pub fn send_text(
        &self,
        account_id: &str,
        to: &str,
        text: &str,
        reply_to: Option<&str>,
    ) -> (r: Result<TextPlan, SlackError>)
        ensures
            is_text_plan(self.accounts_view(), account_id@, to@, text@, opt_str(reply_to), r),
    {
        let (token, chunk_size, _) = match self.account_snapshot(account_id) {
            Ok(snapshot) => snapshot,
            Err(e) => {
                return Err(e);
            },
        };
        let size = if chunk_size < SLACK_DEFAULT_CHUNK_SIZE {
            SLACK_DEFAULT_CHUNK_SIZE
        } else {
            chunk_size
        };
        let chunks = match render(text, size) {
            Ok(chunks) => chunks,
            Err(e) => {
                return Err(e);
            },
        };
        let n: usize = chunks.len();
        let mut posts: Vec<PostMessage> = Vec::new();
        let mut i: usize = 0;
        while i < n
            invariant
                n == chunks@.len(),
                i <= n,
                posts@.len() == i,
                forall|j: int|
                    0 <= j < i ==> (#[trigger] posts@[j])@ == (PostModel {
                        channel: to@,
                        text: chunks@[j]@,
                        thread_ts: opt_str(reply_to),
                    }),
            decreases n - i,
        {
            let thread_ts = match reply_to {
                Some(ts) => Some(ts.to_owned()),
                None => None,
            };
            posts.push(
                PostMessage { channel: to.to_owned(), text: chunks[i].clone(), thread_ts },
            );
            i = i + 1;
        }
        proof {
            let views = chunks@.map_values(|c: String| c@);
            let want = posts_for(text@, chunk_size, to@, opt_str(reply_to));
            assert(want.len() == views.len());
            assert forall|j: int| 0 <= j < n implies (#[trigger] posts@[j])@ == want[j] by {
                assert(views[j] == chunks@[j]@);
            }
            assert(posts@.map_values(|p: PostMessage| p@) =~= want);
        }
        Ok(TextPlan { token, posts })
    }

    /// Sends an answer that may carry a file.
    pub fn send_media(
        &self,
        account_id: &str,
        to: &str,
        payload: &ReplyPayload,
        reply_to: Option<&str>,
    ) -> (r: Result<TextPlan, SlackError>)
        ensures
            is_text_plan(
                self.accounts_view(),
                account_id@,
                to@,
                media_text(*payload),
                opt_str(reply_to),
                r,
            ),
    {
        let body = match &payload.media {
            Some(media) => {
                if payload.text.as_str().is_empty() {
                    media.url.clone()
                } else {
                    let head = text::joined(payload.text.as_str(), "\n");
                    text::joined(head.as_str(), media.url.as_str())
                }
            },
            None => payload.text.clone(),
        };
        self.send_text(account_id, to, body.as_str(), reply_to)
    }

    /// Slack has no typing signal for bots: the account only has to be there.
    pub fn send_typing(&self, account_id: &str, _to: &str) -> (r: Result<(), SlackError>)
        ensures
            match r {
                Ok(_) => self.accounts_view().contains_key(account_id@),
                Err(e) => !self.accounts_view().contains_key(account_id@) && is_unknown_account(
                    e,
                    account_id@,
                ),
            },
    {
        match self.account_snapshot(account_id) {
            Ok(_) => Ok(()),
            Err(e) => Err(e),
        }
    }

    /// Sends a location. The coordinates are given as they are to be read.
    pub fn send_location(
        &self,
        account_id: &str,
        to: &str,
        latitude: &str,
        longitude: &str,
        title: Option<&str>,
        reply_to: Option<&str>,
    ) -> (r: Result<TextPlan, SlackError>)
        ensures
            is_text_plan(
                self.accounts_view(),
                account_id@,
                to@,
                location_text(latitude@, longitude@, opt_str(title)),
                opt_str(reply_to),
                r,
            ),
    {
        let query = text::joined("https://maps.google.com/?q=", latitude);
        let comma = text::joined(query.as_str(), ",");
        let link = text::joined(comma.as_str(), longitude);
        let body = match title {
            Some(place) => {
                let head = text::joined(place, "\n");
                text::joined(head.as_str(), link.as_str())
            },
            None => link,
        };
        self.send_text(account_id, to, body.as_str(), reply_to)
    }

    /// Begins to send a stream: with a placeholder to post, outside any thread.
    pub fn send_stream(&self, account_id: &str, to: &str) -> (r: Result<StreamStart, SlackError>)
        ensures
            match r {
                Ok(start) => {
                    let config = self.accounts_view()[account_id@].config;
                    &&& self.accounts_view().contains_key(account_id@)
                    &&& start.token@ == config.bot_token@
                    &&& start.placeholder@ == (PostModel {
                        channel: to@,
                        text: PLACEHOLDER@,
                        thread_ts: None,
                    })
                    &&& start.throttle_ms == config.edit_throttle_ms
                },
                Err(e) => !self.accounts_view().contains_key(account_id@) && is_unknown_account(
                    e,
                    account_id@,
                ),
            },
    {
        match self.account_snapshot(account_id) {
            Ok((token, _, throttle_ms)) => Ok(
                StreamStart {
                    token,
                    placeholder: PostMessage {
                        channel: to.to_owned(),
                        text: PLACEHOLDER.to_owned(),
                        thread_ts: None,
                    },
                    throttle_ms,
                },
            ),
            Err(e) => Err(e),
        }
    }
}

// ---------------------------------------------------------------------------
// Streams
// ---------------------------------------------------------------------------

/// What arrives of a stream.
#[derive(Debug)]
pub enum StreamEvent {
    /// More text.
    Delta(String),
    /// The end.
    Done,
    /// The end, for this reason.
    Error(String),
}

/// How a stream begins.
pub struct StreamStart {
    /// The token to send with.
    pub token: String,
    /// The message to post, and then to update.
    pub placeholder: PostMessage,
    /// How many milliseconds pass between two edits at least.
    pub throttle_ms: u64,
}

impl StreamStart {
    /// The stream to feed, once the placeholder was posted: `ts` is its
    /// timestamp, if Slack gave one.
    pub fn placed(&self, ts: Option<String>) -> (r: Result<SlackStream, SlackError>)
        ensures
            match r {
                Ok(stream) => ts is Some && stream@ == (StreamModel {
                    channel: self.placeholder@.channel,
                    ts: ts->0@,
                    full: Seq::empty(),
                    throttle_ms: self.throttle_ms,
                    ended: false,
                }),
                Err(e) => ts is None && e is MissingTs,
            },
    {
        match ts {
            Some(ts) => Ok(
                SlackStream {
                    channel: self.placeholder.channel.clone(),
                    ts,
                    full: String::new(),
                    throttle_ms: self.throttle_ms,
                    ended: false,
                },
            ),
            None => Err(SlackError::MissingTs),
        }
    }
}

/// A text that is shown, in one message, while it arrives.
#[derive(Debug)]
pub struct SlackStream {
    /// The channel that the message is in.
    pub channel: String,
    /// The timestamp of the message.
    pub ts: String,
    /// All the text that has arrived.
    pub full: String,
    /// How many milliseconds pass between two edits at least.
    pub throttle_ms: u64,
    /// Whether the end has arrived.
    pub ended: bool,
}

/// What a [`SlackStream`] says.
pub struct StreamModel {
    pub channel: Seq<char>,
    pub ts: Seq<char>,
    pub full: Seq<char>,
    pub throttle_ms: u64,
    pub ended: bool,
}

impl View for SlackStream {
    type V = StreamModel;

    open spec fn view(&self) -> StreamModel {
        StreamModel {
            channel: self.channel@,
            ts: self.ts@,
            full: self.full@,
            throttle_ms: self.throttle_ms,
            ended: self.ended,
        }
    }
}

/// What is done once something has arrived.
#[derive(Debug)]
pub enum StreamStep {
    /// Wait for more.
    Wait,
    /// Show a text, and wait for more.
    Update(UpdateMessage),
    /// Show all there is; nothing more counts.
    Finish,
}

/// What a stream ends in, in this order.
#[derive(Debug)]
pub struct StreamEnd {
    /// What the message that was shown all along ends up with.
    pub update: UpdateMessage,
    /// What does not fit into it, in messages of its thread.
    pub extras: Vec<PostMessage>,
}

impl StreamModel {
    /// The stream once `event` has arrived. What arrives after the end does not
    /// count.
    pub open spec fn fed(self, event: StreamEvent) -> StreamModel {
        if self.ended {
            self
        } else {
            match event {
                StreamEvent::Delta(d) => StreamModel { full: self.full + d@, ..self },
                StreamEvent::Done => StreamModel { ended: true, ..self },
                StreamEvent::Error(e) => StreamModel {
                    full: if self.full.len() == 0 {
                        e@
                    } else {
                        self.full
                    },
                    ended: true,
                    ..self
                },
            }
        }
    }

    /// The stream once these events have arrived, one after another.
    pub open spec fn fed_all(self, events: Seq<StreamEvent>) -> StreamModel
        decreases events.len(),
    {
        if events.len() == 0 {
            self
        } else {
            self.fed_all(events.drop_last()).fed(events.last())
        }
    }

    /// Whether what has arrived can be sent.
    pub open spec fn is_sendable(self) -> bool {
        sendable(self.full, SLACK_MAX_MESSAGE_LEN as nat)
    }

    /// What has arrived as messages.
    pub open spec fn messages(self) -> Seq<Seq<char>> {
        rendered(self.full, SLACK_MAX_MESSAGE_LEN as nat)
    }

    /// The update by which the stream's message shows the first of what has
    /// arrived.
    pub open spec fn update(self) -> UpdateModel {
        UpdateModel { channel: self.channel, ts: self.ts, text: self.messages()[0] }
    }

    /// What does not fit into the stream's message, as posts to its thread.
    pub open spec fn extras(self) -> Seq<PostModel> {
        self.messages().skip(1).map_values(
            |c: Seq<char>| PostModel { channel: self.channel, text: c, thread_ts: Some(self.ts) },
        )
    }
}

impl SlackStream {
    fn update_with(&self, text: String) -> (r: UpdateMessage)
        ensures
            r@ == (UpdateModel { channel: self@.channel, ts: self@.ts, text: text@ }),
    {
        UpdateMessage { channel: self.channel.clone(), ts: self.ts.clone(), text }
    }

    /// Takes in what has arrived, `elapsed_ms` milliseconds after the last
    /// edit. The message that is updated stays the same.
    pub fn on_event(&mut self, event: StreamEvent, elapsed_ms: u128) -> (r: Result<
        StreamStep,
        SlackError,
    >)
        ensures
            final(self)@ == old(self)@.fed(event),
            match r {
                Ok(StreamStep::Wait) => {
                    &&& !old(self).ended && event is Delta
                    &&& elapsed_ms < old(self).throttle_ms
                },
                Ok(StreamStep::Update(update)) => {
                    &&& !old(self).ended && event is Delta
                    &&& elapsed_ms >= old(self).throttle_ms
                    &&& final(self)@.is_sendable()
                    &&& update@ == final(self)@.update()
                },
                Ok(StreamStep::Finish) => old(self).ended || !(event is Delta),
                Err(e) => {
                    &&& e is CutInsideCharacter
                    &&& !old(self).ended && event is Delta
                    &&& elapsed_ms >= old(self).throttle_ms
                    &&& !final(self)@.is_sendable()
                },
            },
    {
        if self.ended {
            return Ok(StreamStep::Finish);
        }
        match event {
            StreamEvent::Delta(d) => {
                self.full = text::joined(self.full.as_str(), d.as_str());
                if elapsed_ms < self.throttle_ms as u128 {
                    return Ok(StreamStep::Wait);
                }
                match render(self.full.as_str(), SLACK_MAX_MESSAGE_LEN) {
                    Ok(chunks) => {
                        proof {
                            assert(chunks@.map_values(|c: String| c@)[0] == chunks@[0]@);
                        }
                        Ok(StreamStep::Update(self.update_with(chunks[0].clone())))
                    },
                    Err(e) => Err(e),
                }
            },
            StreamEvent::Done => {
                self.ended = true;
                Ok(StreamStep::Finish)
            },
            StreamEvent::Error(err) => {
                if self.full.as_str().is_empty() {
                    self.full = err;
                }
                self.ended = true;
                Ok(StreamStep::Finish)
            },
        }
    }

    /// What the stream ends in: the last update of its message, and then what
    /// does not fit into it, in the message's thread.
    pub fn finish(&self) -> (r: Result<StreamEnd, SlackError>)
        ensures
            match r {
                Ok(end) => {
                    &&& self@.is_sendable()
                    &&& end.update@ == self@.update()
                    &&& end.extras@.map_values(|p: PostMessage| p@) == self@.extras()
                },
                Err(e) => !self@.is_sendable() && e is CutInsideCharacter,
            },
    {
        let chunks = match render(self.full.as_str(), SLACK_MAX_MESSAGE_LEN) {
            Ok(chunks) => chunks,
            Err(e) => {
                return Err(e);
            },
        };
        let ghost views = chunks@.map_values(|c: String| c@);
        let n: usize = chunks.len();
        let mut extras: Vec<PostMessage> = Vec::new();
        let mut i: usize = 1;
        while i < n
            invariant
                n == chunks@.len(),
                1 <= i <= n,
                extras@.len() == i - 1,
                forall|j: int|
                    0 <= j < i - 1 ==> (#[trigger] extras@[j])@ == (PostModel {
                        channel: self@.channel,
                        text: chunks@[j + 1]@,
                        thread_ts: Some(self@.ts),
                    }),
            decreases n - i,
        {
            extras.push(
                PostMessage {
                    channel: self.channel.clone(),
                    text: chunks[i].clone(),
                    thread_ts: Some(self.ts.clone()),
                },
            );
            i = i + 1;
        }
        proof {
            assert(views[0] == chunks@[0]@);
            assert forall|j: int| 0 <= j < n - 1 implies (#[trigger] extras@[j])@
                == self@.extras()[j] by {
                assert(views[j + 1] == chunks@[j + 1]@);
            }
            assert(extras@.map_values(|p: PostMessage| p@) =~= self@.extras());
        }
        Ok(StreamEnd { update: self.update_with(chunks[0].clone()), extras })
    }
}

// ---------------------------------------------------------------------------
// Laws
// ---------------------------------------------------------------------------

/// No message that a text is posted as is longer than the account's chunk size,
/// and the chunk size that counts is never below the default.
pub proof fn law_posts_fit(
    md: Seq<char>,
    chunk_size: usize,
    to: Seq<char>,
    reply_to: Option<Seq<char>>,
)
    requires
        sendable(md, effective_chunk_size(chunk_size)),
    ensures
        effective_chunk_size(chunk_size) >= SLACK_DEFAULT_CHUNK_SIZE,
        posts_for(md, chunk_size, to, reply_to).len() >= 1,
        forall|i: int|
            0 <= i < posts_for(md, chunk_size, to, reply_to).len() ==> text::byte_len(
                (#[trigger] posts_for(md, chunk_size, to, reply_to)[i]).text,
            ) <= effective_chunk_size(chunk_size),
{
    let size = effective_chunk_size(chunk_size);
    chunk::law_chunks_fit(markdown::mrkdwn(md), size);
    chunk::law_chunks_at_least_one(markdown::mrkdwn(md), size);
    let posts = posts_for(md, chunk_size, to, reply_to);
    assert forall|i: int| 0 <= i < posts.len() implies text::byte_len((#[trigger] posts[i]).text)
        <= size by {
        assert(posts[i].text == rendered(md, size)[i]);
    }
}

/// These pieces of text as they arrive.
pub open spec fn arriving(deltas: Seq<String>) -> Seq<StreamEvent> {
    deltas.map_values(|d: String| StreamEvent::Delta(d))
}

proof fn lemma_fed_deltas(stream: StreamModel, deltas: Seq<String>)
    requires
        !stream.ended,
    ensures
        stream.fed_all(arriving(deltas)) == (StreamModel {
            full: stream.full + deltas.map_values(|d: String| d@).flatten(),
            ..stream
        }),
    decreases deltas.len(),
{
    let views = deltas.map_values(|d: String| d@);
    let events = arriving(deltas);
    if deltas.len() > 0 {
        let less = deltas.drop_last();
        lemma_fed_deltas(stream, less);
        assert(events.drop_last() =~= arriving(less));
        assert(views.drop_last() =~= less.map_values(|d: String| d@));
        views.lemma_flatten_and_flatten_alt_are_equivalent();
        views.drop_last().lemma_flatten_and_flatten_alt_are_equivalent();
    }
    assert(stream.fed_all(events).full =~= stream.full + views.flatten());
}

proof fn lemma_fed_after_end(stream: StreamModel, events: Seq<StreamEvent>, later: Seq<StreamEvent>)
    requires
        stream.fed_all(events).ended,
    ensures
        stream.fed_all(events + later) == stream.fed_all(events),
    decreases later.len(),
{
    if later.len() == 0 {
        assert(events + later =~= events);
    } else {
        assert((events + later).drop_last() =~= events + later.drop_last());
        lemma_fed_after_end(stream, events, later.drop_last());
    }
}

/// The text of a stream without an end is all its pieces, one after another,
/// and the stream's message stays the same.
pub proof fn law_stream_is_its_deltas(stream: StreamModel, deltas: Seq<String>)
    requires
        !stream.ended,
        stream.full.len() == 0,
    ensures
        stream.fed_all(arriving(deltas)) == (StreamModel {
            full: deltas.map_values(|d: String| d@).flatten(),
            ..stream
        }),
{
    lemma_fed_deltas(stream, deltas);
    let joined = deltas.map_values(|d: String| d@).flatten();
    assert(stream.full + joined =~= joined);
}

/// The text of a stream that ends is all its pieces up to the end, one after
/// another; where there is none, it is the reason for which the stream ended, if
/// there is one. What arrives after the end does not count, and the stream's
/// message stays the same.
pub proof fn law_stream_ends_once(
    stream: StreamModel,
    deltas: Seq<String>,
    end: StreamEvent,
    later: Seq<StreamEvent>,
)
    requires
        !stream.ended,
        stream.full.len() == 0,
        !(end is Delta),
    ensures
        ({
            let joined = deltas.map_values(|d: String| d@).flatten();
            stream.fed_all(arriving(deltas).push(end) + later) == (StreamModel {
                full: match end {
                    StreamEvent::Error(e) => if joined.len() == 0 {
                        e@
                    } else {
                        joined
                    },
                    _ => joined,
                },
                ended: true,
                ..stream
            })
        }),
{
    let events = arriving(deltas).push(end);
    law_stream_is_its_deltas(stream, deltas);
    assert(events.drop_last() =~= arriving(deltas));
    lemma_fed_after_end(stream, events, later);
}

/// The last update of a stream and the posts to its thread are, one after
/// another, the messages that its text is sent as, none longer than Slack takes.
pub proof fn law_stream_shows_all(stream: StreamModel)
    requires
        stream.is_sendable(),
    ensures
        seq![stream.update().text] + stream.extras().map_values(|p: PostModel| p.text)
            == stream.messages(),
        text::byte_len(stream.update().text) <= SLACK_MAX_MESSAGE_LEN,
        stream.update().channel == stream.channel,
        stream.update().ts == stream.ts,
        stream.messages() == chunk::chunks(markdown::mrkdwn(stream.full), 40_000),
        forall|i: int|
            0 <= i < stream.extras().len() ==> {
                &&& text::byte_len((#[trigger] stream.extras()[i]).text) <= SLACK_MAX_MESSAGE_LEN
                &&& stream.extras()[i].channel == stream.channel
                &&& stream.extras()[i].thread_ts == Some(stream.ts)
            },
{
    let size = SLACK_MAX_MESSAGE_LEN as nat;
    let all = stream.messages();
    chunk::law_chunks_fit(markdown::mrkdwn(stream.full), size);
    chunk::law_chunks_at_least_one(markdown::mrkdwn(stream.full), size);
    assert(seq![stream.update().text] + stream.extras().map_values(|p: PostModel| p.text) =~= all);
    assert forall|i: int| 0 <= i < stream.extras().len() implies text::byte_len(
        (#[trigger] stream.extras()[i]).text,
    ) <= SLACK_MAX_MESSAGE_LEN by {
        assert(stream.extras()[i].text == all[i + 1]);
    }
}

/// Every post of a text goes to the given channel and thread, and the posts are,
/// in order, the chunks of the converted text: of the account's chunk size, or
/// of the default where that is larger.
pub proof fn law_posts_go_where_they_should(
    md: Seq<char>,
    chunk_size: usize,
    to: Seq<char>,
    reply_to: Option<Seq<char>>,
)
    ensures
        ({
            let size: nat = if chunk_size >= 4_000 {
                chunk_size as nat
            } else {
                4_000
            };
            let parts = chunk::chunks(markdown::mrkdwn(md), size);
            let posts = posts_for(md, chunk_size, to, reply_to);
            &&& posts.len() == parts.len()
            &&& forall|i: int|
                0 <= i < posts.len() ==> {
                    &&& (#[trigger] posts[i]).channel == to
                    &&& posts[i].thread_ts == reply_to
                    &&& posts[i].text == parts[i]
                }
        }),
{
}

/// Sending a text succeeds exactly where the account is there and the converted
/// text can be cut. Then it is posted with the account's bot token, chunk by
/// chunk, each to the given channel and thread.
pub proof fn law_text_is_sent<L, S, C>(
    accounts: Map<Seq<char>, AccountState<L, S, C>>,
    account_id: Seq<char>,
    to: Seq<char>,
    md: Seq<char>,
    reply_to: Option<Seq<char>>,
    r: Result<TextPlan, SlackError>,
)
    requires
        is_text_plan(accounts, account_id, to, md, reply_to, r),
    ensures
        ({
            let config = accounts[account_id].config;
            let size: nat = if config.chunk_size >= 4_000 {
                config.chunk_size as nat
            } else {
                4_000
            };
            let mrkdwn = markdown::mrkdwn(md);
            let parts = chunk::chunks(mrkdwn, size);
            &&& r is Ok <==> accounts.contains_key(account_id) && chunk::chunkable(mrkdwn, size)
            &&& r matches Ok(plan) ==> {
                &&& plan.token@ == config.bot_token@
                &&& plan.posts@.len() == parts.len()
                &&& forall|i: int|
                    0 <= i < parts.len() ==> {
                        &&& (#[trigger] plan.posts@[i]).channel@ == to
                        &&& plan.posts@[i].text@ == parts[i]
                        &&& plan.posts@[i].thread_ts is Some <==> reply_to is Some
                        &&& reply_to is Some ==> plan.posts@[i].thread_ts->0@ == reply_to->0
                    }
            }
            &&& r matches Err(e) ==> if accounts.contains_key(account_id) {
                e is CutInsideCharacter
            } else {
                e is UnknownAccount && e->UnknownAccount_0@ == account_id
            }
        }),
{
    law_posts_go_where_they_should(md, accounts[account_id].config.chunk_size, to, reply_to);
    if let Ok(plan) = r {
        let posts = posts_for(md, accounts[account_id].config.chunk_size, to, reply_to);
        let views = plan.posts@.map_values(|p: PostMessage| p@);
        assert(views == posts);
        assert forall|i: int| 0 <= i < posts.len() implies (#[trigger] plan.posts@[i])@
            == posts[i] by {
            assert(views[i] == plan.posts@[i]@);
        }
    }
}

/// The request that posts a message holds its channel, its text and, where it
/// goes to a thread, the thread, and asks for `mrkdwn` and for no previews.
pub proof fn law_post_request(post: PostMessage)
    ensures
        post.thread_ts is None ==> post@.body() == json::object_text(
            seq![("channel"@, post.channel@), ("text"@, post.text@)],
            seq![("mrkdwn"@, true), ("unfurl_links"@, false), ("unfurl_media"@, false)],
        ),
        post.thread_ts is Some ==> post@.body() == json::object_text(
            seq![
                ("channel"@, post.channel@),
                ("text"@, post.text@),
                ("thread_ts"@, post.thread_ts->0@),
            ],
            seq![("mrkdwn"@, true), ("unfurl_links"@, false), ("unfurl_media"@, false)],
        ),
{
    let texts = seq![("channel"@, post.channel@), ("text"@, post.text@)];
    if let Some(ts) = post.thread_ts {
        assert(texts.push(("thread_ts"@, ts@)) =~= seq![
            ("channel"@, post.channel@),
            ("text"@, post.text@),
            ("thread_ts"@, ts@),
        ]);
    }
}

/// The request that updates a message holds its channel, its timestamp and its
/// new text, and asks for `mrkdwn`.
pub proof fn law_update_request(update: UpdateMessage)
    ensures
        update@.body() == json::object_text(
            seq![
                ("channel"@, update.channel@),
                ("ts"@, update.ts@),
                ("text"@, update.text@),
            ],
            seq![("mrkdwn"@, true)],
        ),
{
}

/// A stream holds what it says.
pub proof fn law_streams_say_what_they_hold(stream: SlackStream)
    ensures
        stream@.channel == stream.channel@,
        stream@.ts == stream.ts@,
        stream@.full == stream.full@,
        stream@.throttle_ms == stream.throttle_ms,
        stream@.ended == stream.ended,
{
}

/// A refusal holds the call that was refused and Slack's reason, or a stand-in.
pub proof fn law_refusals(e: SlackError, call: ApiCall, error: Option<String>)
    ensures
        is_api_error(e, call, error) <==> (e matches SlackError::Api { call: c, reason } && c == call
            && reason@ == match error {
            Some(s) => s@,
            None => "unknown error"@,
        }),
{
}

/// An answer with a file is its text and the file's address, each on a line of
/// its own; without a text it is the address, and without a file the text.
pub proof fn law_media_text(payload: ReplyPayload)
    ensures
        ({
            let t = payload.text@;
            let r = media_text(payload);
            &&& payload.media is None ==> r == t
            &&& payload.media matches Some(media) ==> {
                let u = media.url@;
                &&& t.len() == 0 ==> r == u
                &&& t.len() > 0 ==> {
                    &&& r.len() == t.len() + 1 + u.len()
                    &&& r.take(t.len() as int) == t
                    &&& r[t.len() as int] == '\n'
                    &&& r.skip(t.len() + 1int) == u
                }
            }
        }),
{
    reveal_strlit("\n");
    if let Some(media) = payload.media {
        let t = payload.text@;
        let r = media_text(payload);
        if t.len() > 0 {
            assert(r.take(t.len() as int) =~= t);
            assert(r.skip(t.len() + 1int) =~= media.url@);
        }
    }
}

/// A location is a link to a map, latitude before longitude, below its title
/// where it has one.
pub proof fn law_location_text(latitude: Seq<char>, longitude: Seq<char>, title: Seq<char>)
    ensures
        location_text(latitude, longitude, None) == "https://maps.google.com/?q="@ + latitude
            + seq![','] + longitude,
        location_text(latitude, longitude, Some(title)) == title + seq!['\n'] + location_text(
            latitude,
            longitude,
            None,
        ),
{
    reveal_strlit("\n");
    reveal_strlit(",");
    assert("\n"@ =~= seq!['\n']);
    assert(","@ =~= seq![',']);
}

} // verus!
