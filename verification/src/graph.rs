//! Microsoft Graph: the messages of a channel and the requests that concern
//! them.
use std::time::{Duration, SystemTime, SystemTimeError, UNIX_EPOCH};

use vstd::prelude::*;

use crate::credentials::Credentials;
use crate::number::{decimal, saturating_mul, saturating_product, to_decimal};
use crate::scan::{cut, lemma_cut, lemma_cut_joined, split_once};
use crate::state::text_of;
use crate::text::{
    lemma_precedes_irreflexive, lemma_precedes_total, lemma_precedes_transitive, precedes, str_less,
};

verus! {

// ---------------------------------------------------------------------------
// Messages
// ---------------------------------------------------------------------------

#[derive(Debug, Clone)]
pub struct GraphIdentity {
    pub id: String,
    /// For diagnostics; no rule reads it.
    pub display_name: Option<String>,
}

#[derive(Debug, Clone, Default)]
pub struct GraphFrom {
    pub user: Option<GraphIdentity>,
    pub application: Option<GraphIdentity>,
}

#[derive(Debug, Clone)]
pub struct GraphBody {
    /// `html` or `text`; no rule reads it, since text without a complete tag
    /// and without an entity passes through the HTML-to-text pass unchanged.
    pub content_type: Option<String>,
    pub content: String,
}

#[derive(Debug, Clone, Default)]
pub struct GraphMentionedIdentitySet {
    /// No rule reads it: only mentions of an application matter.
    pub user: Option<GraphIdentity>,
    pub application: Option<GraphIdentity>,
}

#[derive(Debug, Clone)]
pub struct GraphMention {
    /// For diagnostics; no rule reads it.
    pub mention_text: Option<String>,
    pub mentioned: GraphMentionedIdentitySet,
}

#[derive(Debug, Clone)]
pub struct GraphChatMessage {
    pub id: String,
    pub created_date_time: String,
    pub from: GraphFrom,
    pub body: GraphBody,
    pub mentions: Vec<GraphMention>,
    pub reply_to_id: Option<String>,
}

/// Who sent a message: the application where there is one, else the user.
pub open spec fn sender(msg: GraphChatMessage) -> Option<Seq<char>> {
    match msg.from.application {
        Some(app) => Some(app.id@),
        None => match msg.from.user {
            Some(user) => Some(user.id@),
            None => None,
        },
    }
}

impl GraphChatMessage {
    /// The directory object id of whoever sent this message: the application
    /// id if a bot or an application sent it, otherwise the user id.
    pub fn sender_id(&self) -> (r: Option<&str>)
        ensures
            match r {
                Some(id) => sender(*self) == Some(id@),
                None => sender(*self) is None,
            },
    {
        match &self.from.application {
            Some(app) => Some(app.id.as_str()),
            None => match &self.from.user {
                Some(user) => Some(user.id.as_str()),
                None => None,
            },
        }
    }
}

// ---------------------------------------------------------------------------
// Chronological order
// ---------------------------------------------------------------------------

/// Whether one message was created before another.
pub open spec fn created_before(a: GraphChatMessage, b: GraphChatMessage) -> bool {
    precedes(a.created_date_time@, b.created_date_time@)
}

/// Messages in chronological order, with one more message put in its place:
/// behind all that were not created after it.
pub open spec fn placed(s: Seq<GraphChatMessage>, msg: GraphChatMessage) -> Seq<GraphChatMessage>
    decreases s.len(),
{
    if s.len() > 0 && created_before(msg, s.last()) {
        placed(s.drop_last(), msg).push(s.last())
    } else {
        s.push(msg)
    }
}

/// Messages in chronological order. Those created at the same time keep the
/// order that they came in.
pub open spec fn chronological(s: Seq<GraphChatMessage>) -> Seq<GraphChatMessage>
    decreases s.len(),
{
    if s.len() == 0 {
        s
    } else {
        placed(chronological(s.drop_last()), s.last())
    }
}

/// Which messages were created at one time.
pub open spec fn made_at(time: Seq<char>) -> spec_fn(GraphChatMessage) -> bool {
    |m: GraphChatMessage| m.created_date_time@ == time
}

/// The messages created at one time, in their order.
pub open spec fn created_at(s: Seq<GraphChatMessage>, time: Seq<char>) -> Seq<GraphChatMessage> {
    s.filter(made_at(time))
}

/// Whether no message comes before one that was created earlier.
pub open spec fn in_order(s: Seq<GraphChatMessage>) -> bool {
    forall|i: int, j: int| 0 <= i < j < s.len() ==> !created_before(#[trigger] s[j], #[trigger] s[i])
}

/// Puts messages in chronological order.
pub fn sort_by_created(messages: Vec<GraphChatMessage>) -> (r: Vec<GraphChatMessage>)
    ensures
        r@ == chronological(messages@),
{
    let mut out: Vec<GraphChatMessage> = Vec::new();
    for msg in it: messages
        invariant
            it.seq() == messages@,
            out@ == chronological(messages@.take(it.index())),
    {
        let ghost done = messages@.take(it.index() + 1);
        assert(done.drop_last() =~= messages@.take(it.index()));
        assert(done.last() == msg);
        let mut pos: usize = out.len();
        assert(out@.take(pos as int) =~= out@);
        assert(placed(out@.take(pos as int), msg) + out@.skip(pos as int) =~= placed(out@, msg));
        while pos > 0 && str_less(
            msg.created_date_time.as_str(),
            out[pos - 1].created_date_time.as_str(),
        )
            invariant
                pos <= out@.len(),
                placed(out@, msg) == placed(out@.take(pos as int), msg) + out@.skip(pos as int),
            decreases pos,
        {
            let ghost front = out@.take(pos as int);
            assert(front.drop_last() =~= out@.take(pos - 1));
            assert(placed(front.drop_last(), msg).push(front.last()) + out@.skip(pos as int)
                =~= placed(out@.take(pos - 1), msg) + out@.skip(pos - 1));
            pos = pos - 1;
        }
        assert(out@.insert(pos as int, msg) =~= out@.take(pos as int).push(msg) + out@.skip(
            pos as int,
        ));
        assert(pos > 0 ==> out@.take(pos as int).last() == out@[pos - 1]);
        out.insert(pos, msg);
    }
    assert(messages@.take(messages@.len() as int) =~= messages@);
    out
}

proof fn lemma_placed_bounds(s: Seq<GraphChatMessage>, msg: GraphChatMessage, x: GraphChatMessage)
    requires
        forall|i: int| 0 <= i < s.len() ==> !created_before(x, #[trigger] s[i]),
        !created_before(x, msg),
    ensures
        forall|i: int| 0 <= i < placed(s, msg).len() ==> !created_before(
            x,
            #[trigger] placed(s, msg)[i],
        ),
    decreases s.len(),
{
    if s.len() > 0 && created_before(msg, s.last()) {
        assert forall|i: int| 0 <= i < s.drop_last().len() implies !created_before(
            x,
            #[trigger] s.drop_last()[i],
        ) by {
            assert(s.drop_last()[i] == s[i]);
        }
        lemma_placed_bounds(s.drop_last(), msg, x);
        assert forall|i: int| 0 <= i < placed(s, msg).len() implies !created_before(
            x,
            #[trigger] placed(s, msg)[i],
        ) by {
            if i < placed(s, msg).len() - 1 {
                assert(placed(s, msg)[i] == placed(s.drop_last(), msg)[i]);
            } else {
                assert(placed(s, msg)[i] == s[s.len() - 1]);
            }
        }
    }
}

proof fn lemma_placed_in_order(s: Seq<GraphChatMessage>, msg: GraphChatMessage)
    requires
        in_order(s),
    ensures
        in_order(placed(s, msg)),
    decreases s.len(),
{
    let r = placed(s, msg);
    if s.len() > 0 && created_before(msg, s.last()) {
        let front = s.drop_last();
        assert(in_order(front)) by {
            assert forall|i: int, j: int| 0 <= i < j < front.len() implies !created_before(
                #[trigger] front[j],
                #[trigger] front[i],
            ) by {
                assert(!created_before(s[j], s[i]));
            }
        }
        lemma_placed_in_order(front, msg);
        let last = s.last();
        assert(!created_before(last, msg)) by {
            if created_before(last, msg) {
                lemma_precedes_transitive(
                    last.created_date_time@,
                    msg.created_date_time@,
                    last.created_date_time@,
                );
                lemma_precedes_irreflexive(last.created_date_time@);
            }
        }
        assert forall|i: int| 0 <= i < front.len() implies !created_before(
            last,
            #[trigger] front[i],
        ) by {
            assert(!created_before(s[s.len() - 1], s[i]));
        }
        lemma_placed_bounds(front, msg, last);
        assert forall|i: int, j: int| 0 <= i < j < r.len() implies !created_before(
            #[trigger] r[j],
            #[trigger] r[i],
        ) by {
            if j < r.len() - 1 {
                assert(r[j] == placed(front, msg)[j]);
            }
            assert(r[i] == placed(front, msg)[i]);
        }
    } else {
        assert forall|i: int, j: int| 0 <= i < j < r.len() implies !created_before(
            #[trigger] r[j],
            #[trigger] r[i],
        ) by {
            assert(r[i] == s[i]);
            if j < s.len() {
                assert(r[j] == s[j]);
            } else if created_before(msg, s[i]) {
                let last = s.last();
                if i < s.len() - 1 {
                    assert(!created_before(s[s.len() - 1], s[i]));
                    lemma_precedes_total(last.created_date_time@, s[i].created_date_time@);
                    if created_before(s[i], last) {
                        lemma_precedes_transitive(
                            msg.created_date_time@,
                            s[i].created_date_time@,
                            last.created_date_time@,
                        );
                    }
                }
            }
        }
    }
}

proof fn lemma_placed_keeps_others(s: Seq<GraphChatMessage>, msg: GraphChatMessage, time: Seq<char>)
    ensures
        created_at(placed(s, msg), time) == created_at(s.push(msg), time),
        placed(s, msg).to_multiset() == s.push(msg).to_multiset(),
        placed(s, msg).len() == s.len() + 1,
    decreases s.len(),
{
    broadcast use vstd::seq_lib::group_to_multiset_ensures;

    let keep = made_at(time);
    if s.len() > 0 && created_before(msg, s.last()) {
        let front = s.drop_last();
        let last = s.last();
        lemma_placed_keeps_others(front, msg, time);
        lemma_precedes_irreflexive(msg.created_date_time@);
        reveal(Seq::filter);
        let r = placed(s, msg);
        assert(r.drop_last() =~= placed(front, msg));
        assert(front.push(msg).drop_last() =~= front);
        assert(s.push(msg).drop_last() =~= s);
        assert(s =~= front.push(last));
        assert(!(keep(msg) && keep(last)));
        let kept = front.filter(keep);
        assert(s.filter(keep) == if keep(last) {
            kept.push(last)
        } else {
            kept
        });
        assert(s.push(msg).filter(keep) == if keep(msg) {
            s.filter(keep).push(msg)
        } else {
            s.filter(keep)
        });
        assert(front.push(msg).filter(keep) == if keep(msg) {
            kept.push(msg)
        } else {
            kept
        });
        assert(r.filter(keep) == if keep(last) {
            placed(front, msg).filter(keep).push(last)
        } else {
            placed(front, msg).filter(keep)
        });
        assert(r.to_multiset() =~= s.push(msg).to_multiset());
    }
}

/// Chronological order: no message comes before one that was created earlier,
/// messages created at the same time keep their order, and none is lost or
/// doubled.
pub proof fn law_chronological(s: Seq<GraphChatMessage>)
    ensures
        in_order(chronological(s)),
        forall|time: Seq<char>| #[trigger]
            created_at(chronological(s), time) == created_at(s, time),
        chronological(s).to_multiset() == s.to_multiset(),
        chronological(s).len() == s.len(),
    decreases s.len(),
{
    if s.len() > 0 {
        let front = s.drop_last();
        let msg = s.last();
        law_chronological(front);
        lemma_placed_in_order(chronological(front), msg);
        lemma_placed_keeps_others(chronological(front), msg, Seq::empty());
        broadcast use vstd::seq_lib::group_to_multiset_ensures;

        assert(s =~= front.push(msg));
        assert(chronological(s).to_multiset() =~= s.to_multiset());
        assert forall|time: Seq<char>| #[trigger]
            created_at(chronological(s), time) == created_at(s, time) by {
            lemma_placed_keeps_others(chronological(front), msg, time);
            assert(created_at(chronological(front), time) == created_at(front, time));
            reveal(Seq::filter);
            assert(chronological(front).push(msg).drop_last() =~= chronological(front));
        }
    }
}

// ---------------------------------------------------------------------------
// The clock
// ---------------------------------------------------------------------------

/// `std::time::SystemTime`, a reading of the system clock.
#[verifier::external_type_specification]
#[verifier::external_body]
pub struct ExSystemTime(SystemTime);

/// `std::time::SystemTimeError`, which tells by how much a reading of the clock
/// lies before another.
#[verifier::external_type_specification]
#[verifier::external_body]
pub struct ExSystemTimeError(SystemTimeError);

/// Trusted: `std::time::SystemTime::now` reads the system clock. What the clock
/// shows is not stated.
pub assume_specification[ SystemTime::now ]() -> (r: SystemTime)
;

/// Trusted: `std::time::SystemTime::duration_since`, from `UNIX_EPOCH` on: the
/// time from the start of 1970 to a reading of the clock, or an error where the
/// reading is earlier. Readings cannot be looked into, so nothing more is
/// stated.
#[verifier::external_body]
fn since_epoch(reading: SystemTime) -> (r: Result<Duration, SystemTimeError>) {
    reading.duration_since(UNIX_EPOCH)
}

/// The `Duration` that `Duration::from_millis` makes of a number of
/// milliseconds.
pub uninterp spec fn duration_of_millis(millis: u64) -> Duration;

/// Trusted: `std::time::Duration::from_millis` makes the duration of the given
/// number of milliseconds, which depends on that number alone.
pub assume_specification[ Duration::from_millis ](millis: u64) -> (r: Duration)
    ensures
        r == duration_of_millis(millis),
;

/// Trusted: `std::time::Duration::as_millis` gives the whole milliseconds of a
/// duration: of one made of milliseconds, just that number. What it gives for
/// other durations is not stated.
pub assume_specification[ Duration::as_millis ](d: &Duration) -> (r: u128)
    ensures
        forall|millis: u64| *d == #[trigger] duration_of_millis(millis) ==> r == millis,
;

/// The time for a reading of the clock: the low 64 bits of the milliseconds,
/// or zero where the clock stands before the epoch.
pub open spec fn clock_time(reading: Option<u128>) -> u64 {
    match reading {
        Some(ms) => (ms % 0x1_0000_0000_0000_0000) as u64,
        None => 0,
    }
}

/// The time for a reading of the clock.
pub fn time_of_reading(reading: Option<u128>) -> (r: u64)
    ensures
        r == clock_time(reading),
{
    match reading {
        Some(ms) => (ms % 0x1_0000_0000_0000_0000) as u64,
        None => 0,
    }
}

/// The time now, in Unix milliseconds.
pub fn now_ms() -> (r: u64)
    ensures
        exists|reading: Option<u128>| r == #[trigger] clock_time(reading),
{
    match since_epoch(SystemTime::now()) {
        Ok(elapsed) => time_of_reading(Some(elapsed.as_millis())),
        Err(_) => time_of_reading(None),
    }
}

// ---------------------------------------------------------------------------
// Recipients
// ---------------------------------------------------------------------------

/// A team and a channel in one text. Replies and messages name a channel this
/// way, since a channel is known only within its team.
pub open spec fn recipient_text(team_id: Seq<char>, channel_id: Seq<char>) -> Seq<char> {
    team_id + seq!['/'] + channel_id
}

/// What is said of a recipient that names no channel.
pub open spec fn bad_recipient(recipient: Seq<char>) -> Seq<char> {
    "invalid recipient (expected \"team_id/channel_id\"): "@ + recipient
}

/// Splits a recipient into the team and the channel, at the first slash.
pub fn split_recipient(recipient: &str) -> (r: Result<(&str, &str), String>)
    ensures
        match r {
            Ok((team_id, channel_id)) => cut(recipient@, '/') == Some((team_id@, channel_id@)),
            Err(e) => cut(recipient@, '/') is None && e@ == bad_recipient(recipient@),
        },
{
    match split_once(recipient, '/') {
        Some(parts) => Ok(parts),
        None => {
            let mut e = "invalid recipient (expected \"team_id/channel_id\"): ".to_owned();
            e.append(recipient);
            Err(e)
        },
    }
}

/// A recipient gives back the team and the channel that it was made of, where
/// the team id holds no slash.
pub proof fn law_recipient_splits_back(team_id: Seq<char>, channel_id: Seq<char>)
    requires
        !team_id.contains('/'),
    ensures
        cut(recipient_text(team_id, channel_id), '/') == Some((team_id, channel_id)),
{
    lemma_cut_joined(team_id, '/', channel_id);
}

/// A text is refused as a recipient just where it holds no slash.
pub proof fn law_recipient_needs_a_slash(recipient: Seq<char>)
    ensures
        cut(recipient, '/') is None <==> !recipient.contains('/'),
{
    lemma_cut(recipient, '/');
    if let Some((head, tail)) = cut(recipient, '/') {
        assert(recipient[head.len() as int] == '/');
    }
}

// ---------------------------------------------------------------------------
// Access tokens
// ---------------------------------------------------------------------------

/// How long before it expires a token is replaced.
pub const TOKEN_REFRESH_MARGIN_MS: u64 = 60_000;

/// An access token and when it expires.
#[derive(Debug, Clone)]
pub struct CachedToken {
    pub access_token: String,
    /// Unix milliseconds.
    pub expires_at_unix_ms: u64,
}

/// Whether a token expires at or before the end of a margin from now.
pub open spec fn expires_within(token: CachedToken, now_ms: u64, margin_ms: u64) -> bool {
    now_ms + margin_ms >= token.expires_at_unix_ms
}

/// Whether a token has to be replaced.
pub fn token_needs_refresh(token: &CachedToken, now_ms: u64, margin_ms: u64) -> (r: bool)
    requires
        now_ms + margin_ms <= u64::MAX,
    ensures
        r == expires_within(*token, now_ms, margin_ms),
{
    now_ms + margin_ms >= token.expires_at_unix_ms
}

/// The access token to use at a time, where the cached one still serves.
pub open spec fn serving_token(cache: Option<CachedToken>, now_ms: u64) -> Option<Seq<char>> {
    match cache {
        Some(token) => if expires_within(token, now_ms, TOKEN_REFRESH_MARGIN_MS) {
            None
        } else {
            Some(token.access_token@)
        },
        None => None,
    }
}

/// The cached access token, unless it is missing or about to expire: then a
/// fresh one has to be requested. There is no timer; a token is replaced only
/// when one is needed.
pub fn get_token(cache: &Option<CachedToken>, now_ms: u64) -> (r: Option<String>)
    requires
        cache is Some ==> now_ms + TOKEN_REFRESH_MARGIN_MS <= u64::MAX,
    ensures
        match r {
            Some(token) => serving_token(*cache, now_ms) == Some(token@),
            None => serving_token(*cache, now_ms) is None,
        },
{
    if let Some(token) = cache {
        if !token_needs_refresh(token, now_ms, TOKEN_REFRESH_MARGIN_MS) {
            return Some(token.access_token.clone());
        }
    }
    None
}

/// Keeps a fresh token for later, and hands it out.
pub fn keep_token(cache: &mut Option<CachedToken>, fresh: CachedToken) -> (r: String)
    ensures
        *final(cache) == Some(fresh),
        r@ == fresh.access_token@,
{
    let access_token = fresh.access_token.clone();
    *cache = Some(fresh);
    access_token
}

/// When a token granted at a time expires.
pub open spec fn expiry(now_ms: u64, expires_in: u64) -> int {
    now_ms + saturating_product(expires_in, 1_000)
}

/// The token that was granted, with a life given in seconds.
pub fn granted_token(access_token: String, expires_in: u64, now_ms: u64) -> (r: CachedToken)
    requires
        expiry(now_ms, expires_in) <= u64::MAX,
    ensures
        r.access_token == access_token,
        r.expires_at_unix_ms == expiry(now_ms, expires_in),
{
    CachedToken {
        access_token,
        expires_at_unix_ms: now_ms + saturating_mul(expires_in, 1_000),
    }
}

/// A granted token serves until the refresh margin before its life ends, and
/// no longer.
pub proof fn law_granted_token_serves_until_the_margin(
    fresh: CachedToken,
    granted_ms: u64,
    expires_in: u64,
    now_ms: u64,
)
    requires
        fresh.expires_at_unix_ms == expiry(granted_ms, expires_in),
        expires_in * 1_000 <= u64::MAX,
    ensures
        serving_token(Some(fresh), now_ms) == (if now_ms + TOKEN_REFRESH_MARGIN_MS < granted_ms
            + expires_in * 1_000 {
            Some(fresh.access_token@)
        } else {
            None
        }),
{
}

/// A token that has to be replaced at one time has to be replaced at every
/// later one.
pub proof fn law_refresh_stays_due(token: CachedToken, now_ms: u64, later_ms: u64, margin_ms: u64)
    requires
        now_ms <= later_ms,
        expires_within(token, now_ms, margin_ms),
    ensures
        expires_within(token, later_ms, margin_ms),
{
}

// ---------------------------------------------------------------------------
// Requests
// ---------------------------------------------------------------------------

/// What a list of pairs of strings holds.
pub open spec fn pairs(v: Seq<(String, String)>) -> Seq<(Seq<char>, Seq<char>)> {
    Seq::new(v.len(), |i: int| (v[i].0@, v[i].1@))
}

/// A request for an access token: a form posted to a URL.
#[derive(Debug, Clone)]
pub struct TokenRequest {
    pub url: String,
    pub form: Vec<(String, String)>,
}

/// Where a tenant's access tokens are granted.
pub open spec fn token_url(tenant_id: Seq<char>) -> Seq<char> {
    "https://login.microsoftonline.com/"@ + tenant_id + "/oauth2/v2.0/token"@
}

/// The fields of a request for an access token, by client credentials.
pub open spec fn token_form(client_id: Seq<char>, client_secret: Seq<char>) -> Seq<
    (Seq<char>, Seq<char>),
> {
    seq![
        ("client_id"@, client_id),
        ("client_secret"@, client_secret),
        ("scope"@, "https://graph.microsoft.com/.default"@),
        ("grant_type"@, "client_credentials"@),
    ]
}

/// The request for a fresh access token.
pub fn fetch_token(creds: &Credentials) -> (r: TokenRequest)
    ensures
        r.url@ == token_url(creds.tenant_id@),
        pairs(r.form@) == token_form(creds.client_id@, creds.client_secret@),
{
    let mut url = "https://login.microsoftonline.com/".to_owned();
    url.append(creds.tenant_id.as_str());
    url.append("/oauth2/v2.0/token");
    let mut form: Vec<(String, String)> = Vec::new();
    form.push(("client_id".to_owned(), creds.client_id.clone()));
    form.push(("client_secret".to_owned(), creds.client_secret.clone()));
    form.push(("scope".to_owned(), "https://graph.microsoft.com/.default".to_owned()));
    form.push(("grant_type".to_owned(), "client_credentials".to_owned()));
    assert(pairs(form@) =~= token_form(creds.client_id@, creds.client_secret@));
    TokenRequest { url, form }
}

#[derive(Debug, Clone, Copy, PartialEq, Eq, Structural)]
pub enum Method {
    Get,
    Post,
}

/// A request to Graph.
#[derive(Debug, Clone)]
pub struct GraphRequest {
    pub method: Method,
    pub url: String,
    /// The value of the `Authorization` header.
    pub authorization: String,
    pub query: Vec<(String, String)>,
    /// The message that is posted, if one is.
    pub content: Option<String>,
}

/// What a request to Graph holds.
#[verifier::ext_equal]
pub struct GraphRequestView {
    pub method: Method,
    pub url: Seq<char>,
    pub authorization: Seq<char>,
    pub query: Seq<(Seq<char>, Seq<char>)>,
    pub content: Option<Seq<char>>,
}

impl View for GraphRequest {
    type V = GraphRequestView;

    open spec fn view(&self) -> GraphRequestView {
        GraphRequestView {
            method: self.method,
            url: self.url@,
            authorization: self.authorization@,
            query: pairs(self.query@),
            content: text_of(self.content),
        }
    }
}

/// Where the messages of a channel are.
pub open spec fn messages_url(team_id: Seq<char>, channel_id: Seq<char>) -> Seq<char> {
    "https://graph.microsoft.com/v1.0/teams/"@ + team_id + "/channels/"@ + channel_id
        + "/messages"@
}

/// Where the replies to a message of a channel are.
pub open spec fn replies_url(
    team_id: Seq<char>,
    channel_id: Seq<char>,
    message_id: Seq<char>,
) -> Seq<char> {
    messages_url(team_id, channel_id) + "/"@ + message_id + "/replies"@
}

/// What authorizes a request.
pub open spec fn bearer(token: Seq<char>) -> Seq<char> {
    "Bearer "@ + token
}

fn url_of_messages(team_id: &str, channel_id: &str) -> (r: String)
    ensures
        r@ == messages_url(team_id@, channel_id@),
{
    let mut url = "https://graph.microsoft.com/v1.0/teams/".to_owned();
    url.append(team_id);
    url.append("/channels/");
    url.append(channel_id);
    url.append("/messages");
    url
}

fn url_of_replies(team_id: &str, channel_id: &str, message_id: &str) -> (r: String)
    ensures
        r@ == replies_url(team_id@, channel_id@, message_id@),
{
    let mut url = url_of_messages(team_id, channel_id);
    url.append("/");
    url.append(message_id);
    url.append("/replies");
    url
}

fn authorized(token: &str) -> (r: String)
    ensures
        r@ == bearer(token@),
{
    let mut value = "Bearer ".to_owned();
    value.append(token);
    value
}

/// The request for the newest messages of a channel, fifty at most.
pub fn list_channel_messages(token: &str, team_id: &str, channel_id: &str) -> (r: GraphRequest)
    ensures
        r@ == (GraphRequestView {
            method: Method::Get,
            url: messages_url(team_id@, channel_id@),
            authorization: bearer(token@),
            query: seq![("$top"@, "50"@)],
            content: None,
        }),
{
    let mut query: Vec<(String, String)> = Vec::new();
    query.push(("$top".to_owned(), "50".to_owned()));
    let r = GraphRequest {
        method: Method::Get,
        url: url_of_messages(team_id, channel_id),
        authorization: authorized(token),
        query,
        content: None,
    };
    assert(r@.query =~= seq![("$top"@, "50"@)]);
    r
}

/// The request for the replies to a message.
pub fn list_replies(token: &str, team_id: &str, channel_id: &str, message_id: &str) -> (r:
    GraphRequest)
    ensures
        r@ == (GraphRequestView {
            method: Method::Get,
            url: replies_url(team_id@, channel_id@, message_id@),
            authorization: bearer(token@),
            query: Seq::empty(),
            content: None,
        }),
{
    let r = GraphRequest {
        method: Method::Get,
        url: url_of_replies(team_id, channel_id, message_id),
        authorization: authorized(token),
        query: Vec::new(),
        content: None,
    };
    assert(r@.query =~= Seq::empty());
    r
}

/// The request that posts a message to a channel.
pub fn send_message(token: &str, team_id: &str, channel_id: &str, content: &str) -> (r:
    GraphRequest)
    ensures
        r@ == (GraphRequestView {
            method: Method::Post,
            url: messages_url(team_id@, channel_id@),
            authorization: bearer(token@),
            query: Seq::empty(),
            content: Some(content@),
        }),
{
    let r = GraphRequest {
        method: Method::Post,
        url: url_of_messages(team_id, channel_id),
        authorization: authorized(token),
        query: Vec::new(),
        content: Some(content.to_owned()),
    };
    assert(r@.query =~= Seq::empty());
    r
}

/// The request that posts a reply to a message.
pub fn send_reply(
    token: &str,
    team_id: &str,
    channel_id: &str,
    root_message_id: &str,
    content: &str,
) -> (r: GraphRequest)
    ensures
        r@ == (GraphRequestView {
            method: Method::Post,
            url: replies_url(team_id@, channel_id@, root_message_id@),
            authorization: bearer(token@),
            query: Seq::empty(),
            content: Some(content@),
        }),
{
    let r = GraphRequest {
        method: Method::Post,
        url: url_of_replies(team_id, channel_id, root_message_id),
        authorization: authorized(token),
        query: Vec::new(),
        content: Some(content.to_owned()),
    };
    assert(r@.query =~= Seq::empty());
    r
}

// ---------------------------------------------------------------------------
// Responses
// ---------------------------------------------------------------------------

/// Whether a response refuses its request.
pub fn refused(status: u16) -> (r: bool)
    ensures
        r == (status >= 400),
{
    status >= 400
}

/// What is said of a refused request for an access token.
pub open spec fn token_error_text(status: u16, body: Seq<char>) -> Seq<char> {
    "token request returned "@ + decimal(status as nat) + ": "@ + body
}

/// What is said of a refused request to Graph: the message that Graph gives,
/// or the whole response where it gives none.
pub open spec fn graph_error_text(
    status: u16,
    body: Seq<char>,
    message: Option<Seq<char>>,
) -> Seq<char> {
    "graph api returned "@ + decimal(status as nat) + ": "@ + (match message {
        Some(m) => m,
        None => body,
    })
}

/// The error for a refused request for an access token, if it is refused.
pub fn token_error(status: u16, body: &str) -> (r: Option<String>)
    ensures
        match r {
            Some(e) => status >= 400 && e@ == token_error_text(status, body@),
            None => status < 400,
        },
{
    if !refused(status) {
        return None;
    }
    let mut e = "token request returned ".to_owned();
    e.append(to_decimal(status as u64).as_str());
    e.append(": ");
    e.append(body);
    Some(e)
}

/// The error for a refused request to Graph, if it is refused. `message` is
/// the error message found in the response, where there is one.
pub fn graph_error(status: u16, body: &str, message: Option<&str>) -> (r: Option<String>)
    ensures
        match r {
            Some(e) => status >= 400 && e@ == graph_error_text(
                status,
                body@,
                match message {
                    Some(m) => Some(m@),
                    None => None,
                },
            ),
            None => status < 400,
        },
{
    if !refused(status) {
        return None;
    }
    let mut e = "graph api returned ".to_owned();
    e.append(to_decimal(status as u64).as_str());
    e.append(": ");
    match message {
        Some(m) => e.append(m),
        None => e.append(body),
    }
    Some(e)
}

} // verus!
