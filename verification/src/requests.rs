//! What requests to Graph and their errors hold: every id, text and token as
//! it was given, and whole.
use vstd::prelude::*;

use crate::channel::{posting, Outgoing};
use crate::graph::{
    bad_recipient, bearer, clock_time, expires_within, expiry, graph_error_text, messages_url,
    pairs, recipient_text, replies_url, serving_token, token_error_text, token_form, token_url,
    CachedToken, GraphRequest, Method,
};
use crate::number::{decimal, decimal_value, numeral};
use crate::scan::{cut, joined, lemma_cut, lemma_cut_joined};
use crate::timestamp::part;
use crate::wording::{law_cutting, law_writing_numbers};

verus! {

// ---------------------------------------------------------------------------
// URLs
// ---------------------------------------------------------------------------

/// Whether a text is put together from five others, in this order.
pub open spec fn made_of(
    s: Seq<char>,
    a: Seq<char>,
    b: Seq<char>,
    c: Seq<char>,
    d: Seq<char>,
    e: Seq<char>,
) -> bool {
    let i = a.len() as int;
    let j = i + b.len();
    let k = j + c.len();
    let l = k + d.len();
    &&& s.len() == l + e.len()
    &&& s.take(i) == a
    &&& s.subrange(i, j) == b
    &&& s.subrange(j, k) == c
    &&& s.subrange(k, l) == d
    &&& s.skip(l) == e
}

/// The URL of a channel's messages holds the whole team id and the whole
/// channel id, whatever they are.
pub proof fn law_messages_url_holds_the_ids(team_id: Seq<char>, channel_id: Seq<char>)
    ensures
        made_of(
            messages_url(team_id, channel_id),
            "https://graph.microsoft.com/v1.0/teams/"@,
            team_id,
            "/channels/"@,
            channel_id,
            "/messages"@,
        ),
{
    let url = messages_url(team_id, channel_id);
    let i = "https://graph.microsoft.com/v1.0/teams/"@.len() as int;
    let j = i + team_id.len();
    let k = j + "/channels/"@.len();
    let l = k + channel_id.len();
    assert(url.take(i) =~= "https://graph.microsoft.com/v1.0/teams/"@);
    assert(url.subrange(i, j) =~= team_id);
    assert(url.subrange(j, k) =~= "/channels/"@);
    assert(url.subrange(k, l) =~= channel_id);
    assert(url.skip(l) =~= "/messages"@);
}

/// The URL of the replies to a message is that of the channel's messages, the
/// whole message id, and `replies`.
pub proof fn law_replies_url_holds_the_ids(
    team_id: Seq<char>,
    channel_id: Seq<char>,
    message_id: Seq<char>,
)
    ensures
        made_of(
            replies_url(team_id, channel_id, message_id),
            messages_url(team_id, channel_id),
            "/"@,
            message_id,
            "/replies"@,
            Seq::empty(),
        ),
{
    let url = replies_url(team_id, channel_id, message_id);
    let front = messages_url(team_id, channel_id);
    let i = front.len() as int;
    let j = i + "/"@.len();
    let k = j + message_id.len();
    let l = k + "/replies"@.len();
    assert(url.take(i) =~= front);
    assert(url.subrange(i, j) =~= "/"@);
    assert(url.subrange(j, k) =~= message_id);
    assert(url.subrange(k, l) =~= "/replies"@);
    assert(url.skip(l) =~= Seq::empty());
}

/// Texts without slashes that are joined by slashes are the parts of what comes
/// out.
proof fn lemma_parts_of_joined(segments: Seq<Seq<char>>, k: nat)
    requires
        segments.len() > 0,
        forall|i: int| 0 <= i < segments.len() ==> !(#[trigger] segments[i]).contains('/'),
    ensures
        part(joined(segments, seq!['/']), '/', k) == (if k < segments.len() {
            Some(segments[k as int])
        } else {
            None
        }),
    decreases segments.len(),
{
    let s = joined(segments, seq!['/']);
    let head = segments[0];
    let none = Seq::<char>::empty();
    law_cutting(head, '/', none);
    if segments.len() > 1 {
        let rest = segments.skip(1);
        let tail = joined(rest, seq!['/']);
        assert forall|i: int| 0 <= i < rest.len() implies !(#[trigger] rest[i]).contains('/') by {
            assert(rest[i] == segments[i + 1]);
        }
        lemma_cut_joined(head, '/', tail);
        if k > 0 {
            lemma_parts_of_joined(rest, (k - 1) as nat);
        }
    }
}

/// The segments of the URL of a channel's messages read back as the ids that
/// it was made for, where those hold no slash.
pub proof fn law_messages_url_reads_back(team_id: Seq<char>, channel_id: Seq<char>)
    requires
        !team_id.contains('/'),
        !channel_id.contains('/'),
    ensures
        ({
            let url = messages_url(team_id, channel_id);
            &&& part(url, '/', 2) == Some("graph.microsoft.com"@)
            &&& part(url, '/', 4) == Some("teams"@)
            &&& part(url, '/', 5) == Some(team_id)
            &&& part(url, '/', 6) == Some("channels"@)
            &&& part(url, '/', 7) == Some(channel_id)
            &&& part(url, '/', 8) == Some("messages"@)
            &&& part(url, '/', 9) is None
        }),
{
    let url = messages_url(team_id, channel_id);
    reveal_strlit("https://graph.microsoft.com/v1.0/teams/");
    reveal_strlit("/channels/");
    reveal_strlit("/messages");
    reveal_strlit("graph.microsoft.com");
    reveal_strlit("teams");
    reveal_strlit("channels");
    reveal_strlit("messages");
    let segments = seq![
        seq!['h', 't', 't', 'p', 's', ':'],
        Seq::<char>::empty(),
        "graph.microsoft.com"@,
        seq!['v', '1', '.', '0'],
        "teams"@,
        team_id,
        "channels"@,
        channel_id,
        "messages"@,
    ];
    assert(segments.skip(1).skip(1) =~= segments.skip(2));
    assert(segments.skip(2).skip(1) =~= segments.skip(3));
    assert(segments.skip(3).skip(1) =~= segments.skip(4));
    assert(segments.skip(4).skip(1) =~= segments.skip(5));
    assert(segments.skip(5).skip(1) =~= segments.skip(6));
    assert(segments.skip(6).skip(1) =~= segments.skip(7));
    assert(segments.skip(7).skip(1) =~= segments.skip(8));
    reveal_with_fuel(joined, 10);
    assert(url =~= joined(segments, seq!['/']));
    lemma_parts_of_joined(segments, 2);
    lemma_parts_of_joined(segments, 4);
    lemma_parts_of_joined(segments, 5);
    lemma_parts_of_joined(segments, 6);
    lemma_parts_of_joined(segments, 7);
    lemma_parts_of_joined(segments, 8);
    lemma_parts_of_joined(segments, 9);
}

/// Different channels have different URLs, where their ids hold no slash.
pub proof fn law_channels_have_urls_of_their_own(
    team_id: Seq<char>,
    channel_id: Seq<char>,
    other_team_id: Seq<char>,
    other_channel_id: Seq<char>,
)
    requires
        !team_id.contains('/'),
        !channel_id.contains('/'),
        !other_team_id.contains('/'),
        !other_channel_id.contains('/'),
        team_id != other_team_id || channel_id != other_channel_id,
    ensures
        messages_url(team_id, channel_id) != messages_url(other_team_id, other_channel_id),
{
    law_messages_url_reads_back(team_id, channel_id);
    law_messages_url_reads_back(other_team_id, other_channel_id);
}

/// The URL for tokens holds the whole tenant id, and the form the whole client
/// id and the whole secret, under their names.
pub proof fn law_token_request(tenant_id: Seq<char>, client_id: Seq<char>, secret: Seq<char>)
    ensures
        made_of(
            token_url(tenant_id),
            "https://login.microsoftonline.com/"@,
            tenant_id,
            "/oauth2/v2.0/token"@,
            Seq::empty(),
            Seq::empty(),
        ),
        token_form(client_id, secret).len() == 4,
        token_form(client_id, secret)[0] == ("client_id"@, client_id),
        token_form(client_id, secret)[1] == ("client_secret"@, secret),
        token_form(client_id, secret)[2] == ("scope"@, "https://graph.microsoft.com/.default"@),
        token_form(client_id, secret)[3] == ("grant_type"@, "client_credentials"@),
{
    let url = token_url(tenant_id);
    let i = "https://login.microsoftonline.com/"@.len() as int;
    let j = i + tenant_id.len();
    let k = j + "/oauth2/v2.0/token"@.len();
    assert(url.take(i) =~= "https://login.microsoftonline.com/"@);
    assert(url.subrange(i, j) =~= tenant_id);
    assert(url.subrange(j, k) =~= "/oauth2/v2.0/token"@);
    assert(url.subrange(k, k) =~= Seq::empty());
    assert(url.skip(k) =~= Seq::empty());
}

/// A request is authorized by the word `Bearer`, a space and the whole token.
pub proof fn law_bearer(token: Seq<char>)
    ensures
        bearer(token).len() == token.len() + 7,
        bearer(token).take(7) == "Bearer "@,
        bearer(token).skip(7) == token,
{
    reveal_strlit("Bearer ");
    assert(bearer(token).take(7) =~= "Bearer "@);
    assert(bearer(token).skip(7) =~= token);
}

/// What a request holds is what its fields hold.
pub proof fn law_request_fields(r: GraphRequest, i: int)
    requires
        0 <= i < r.query@.len(),
    ensures
        r@.method == r.method,
        r@.url == r.url@,
        r@.authorization == r.authorization@,
        r@.query.len() == r.query@.len(),
        r@.query[i] == (r.query@[i].0@, r.query@[i].1@),
        r@.content is Some == r.content is Some,
        r.content matches Some(text) ==> r@.content == Some(text@),
{
}

/// What a list of pairs holds is what each pair holds, in order.
pub proof fn law_pairs(v: Seq<(String, String)>, i: int)
    requires
        0 <= i < v.len(),
    ensures
        pairs(v).len() == v.len(),
        pairs(v)[i].0 == v[i].0@,
        pairs(v)[i].1 == v[i].1@,
{
}

/// A message is posted whole, to its channel, as a reply just where it replies
/// to a message.
pub proof fn law_posting(outgoing: Outgoing, token: Seq<char>)
    ensures
        posting(outgoing, token).method == Method::Post,
        posting(outgoing, token).content == Some(outgoing.content@),
        posting(outgoing, token).authorization == bearer(token),
        posting(outgoing, token).query.len() == 0,
        outgoing.root_message_id matches Some(root) ==> posting(outgoing, token).url == replies_url(
            outgoing.team_id@,
            outgoing.channel_id@,
            root@,
        ),
        outgoing.root_message_id is None ==> posting(outgoing, token).url == messages_url(
            outgoing.team_id@,
            outgoing.channel_id@,
        ),
{
}

// ---------------------------------------------------------------------------
// Errors
// ---------------------------------------------------------------------------

/// The number in an error says the status.
proof fn lemma_status(status: u16)
    ensures
        numeral(decimal(status as nat)),
        decimal_value(decimal(status as nat)) == status,
{
    law_writing_numbers(status as nat);
}

/// A refused token request is told with its status and the whole response.
pub proof fn law_token_error(status: u16, body: Seq<char>, digits: Seq<char>)
    requires
        digits == decimal(status as nat),
    ensures
        made_of(
            token_error_text(status, body),
            "token request returned "@,
            digits,
            ": "@,
            body,
            Seq::empty(),
        ),
        numeral(digits) && decimal_value(digits) == status,
{
    lemma_status(status);
    let text = token_error_text(status, body);
    let i = "token request returned "@.len() as int;
    let j = i + digits.len();
    let k = j + ": "@.len();
    let l = k + body.len();
    assert(text.take(i) =~= "token request returned "@);
    assert(text.subrange(i, j) =~= digits);
    assert(text.subrange(j, k) =~= ": "@);
    assert(text.subrange(k, l) =~= body);
    assert(text.skip(l) =~= Seq::empty());
}

/// A refused request to Graph is told with its status and the whole message
/// that Graph gave, or the whole response where it gave none.
pub proof fn law_graph_error(
    status: u16,
    body: Seq<char>,
    message: Option<Seq<char>>,
    said: Seq<char>,
    digits: Seq<char>,
)
    requires
        digits == decimal(status as nat),
        message matches Some(m) ==> said == m,
        message is None ==> said == body,
    ensures
        made_of(
            graph_error_text(status, body, message),
            "graph api returned "@,
            digits,
            ": "@,
            said,
            Seq::empty(),
        ),
        numeral(digits) && decimal_value(digits) == status,
{
    lemma_status(status);
    let text = graph_error_text(status, body, message);
    let i = "graph api returned "@.len() as int;
    let j = i + digits.len();
    let k = j + ": "@.len();
    let l = k + said.len();
    assert(text.take(i) =~= "graph api returned "@);
    assert(text.subrange(i, j) =~= digits);
    assert(text.subrange(j, k) =~= ": "@);
    assert(text.subrange(k, l) =~= said);
    assert(text.skip(l) =~= Seq::empty());
}

// ---------------------------------------------------------------------------
// Recipients
// ---------------------------------------------------------------------------

/// A recipient holds the whole team id, a slash and the whole channel id.
pub proof fn law_recipient_holds_the_ids(team_id: Seq<char>, channel_id: Seq<char>)
    ensures
        recipient_text(team_id, channel_id).len() == team_id.len() + 1 + channel_id.len(),
        recipient_text(team_id, channel_id).take(team_id.len() as int) == team_id,
        recipient_text(team_id, channel_id)[team_id.len() as int] == '/',
        recipient_text(team_id, channel_id).skip(team_id.len() as int + 1) == channel_id,
{
    let r = recipient_text(team_id, channel_id);
    assert(r.take(team_id.len() as int) =~= team_id);
    assert(r.skip(team_id.len() as int + 1) =~= channel_id);
}

/// The parts that a recipient is split into are all of it, around its first
/// slash.
pub proof fn law_recipient_parts(recipient: Seq<char>, team_id: Seq<char>, channel_id: Seq<char>)
    requires
        cut(recipient, '/') == Some((team_id, channel_id)),
    ensures
        recipient == team_id + seq!['/'] + channel_id,
        !team_id.contains('/'),
{
    lemma_cut(recipient, '/');
}

/// A recipient that names no channel is told whole.
pub proof fn law_bad_recipient_is_told(recipient: Seq<char>)
    ensures
        made_of(
            bad_recipient(recipient),
            "invalid recipient (expected \"team_id/channel_id\"): "@,
            recipient,
            Seq::empty(),
            Seq::empty(),
            Seq::empty(),
        ),
{
    let text = bad_recipient(recipient);
    let i = "invalid recipient (expected \"team_id/channel_id\"): "@.len() as int;
    let j = i + recipient.len();
    assert(text.take(i) =~= "invalid recipient (expected \"team_id/channel_id\"): "@);
    assert(text.subrange(i, j) =~= recipient);
    assert(text.subrange(j, j) =~= Seq::empty());
    assert(text.skip(j) =~= Seq::empty());
}

// ---------------------------------------------------------------------------
// Tokens and the clock
// ---------------------------------------------------------------------------

/// A token is replaced from the margin before it expires on, and a cached token
/// serves, whole, until a minute before it expires.
pub proof fn law_token_life(token: CachedToken, now_ms: u64, margin_ms: u64)
    ensures
        expires_within(token, now_ms, margin_ms) <==> token.expires_at_unix_ms <= now_ms
            + margin_ms,
        now_ms + 60_000 < token.expires_at_unix_ms ==> serving_token(Some(token), now_ms) == Some(
            token.access_token@,
        ),
        now_ms + 60_000 >= token.expires_at_unix_ms ==> serving_token(Some(token), now_ms) is None,
        serving_token(None, now_ms) is None,
{
}

/// A token granted for some seconds expires a thousand times as many
/// milliseconds later, as far as the numbers go.
pub proof fn law_token_expiry(now_ms: u64, expires_in: u64)
    ensures
        expires_in * 1_000 <= u64::MAX ==> expiry(now_ms, expires_in) == now_ms + expires_in
            * 1_000,
        expires_in * 1_000 > u64::MAX ==> expiry(now_ms, expires_in) == now_ms + u64::MAX,
{
}

/// The time is what the clock reads, in milliseconds, as far as 64 bits hold
/// it.
pub proof fn law_clock_time(ms: u128)
    ensures
        ms <= u64::MAX ==> clock_time(Some(ms)) == ms,
        clock_time(Some(ms)) == ms % 0x1_0000_0000_0000_0000,
        clock_time(None) == 0,
{
}

} // verus!
