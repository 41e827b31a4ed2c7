//! Capture-URL resolution.
//!
//! Priority: a pre-resolved URL carried on the schedule; else a URL
//! regenerated from the source's stored URL template and credentials,
//! for sources whose tokens expire; else the channel's last known static
//! URL. Template URLs follow the form
//! `http://host:port/live/username/password/stream_id.ts`.

use vstd::prelude::*;
use vstd::string::{StrSliceExecFns, StringExecFns};

use crate::models::Schedule;
use crate::store::{
    ScheduleStore, channel_by_id, has_channel, is_first_channel_of_source,
};
use crate::text::{
    join_char, lemma_trim_end_char_is_prefix, split_char, split_on_char, str_contains_char,
    str_eq, str_starts_with, trim_end_char,
};

verus! {

/// Why no capture URL could be produced.
#[derive(Debug, Clone, Copy, PartialEq, Eq, Structural)]
pub enum ResolveError {
    /// Neither a template nor a stored URL is known for the channel.
    UrlNotFound,
}

/// Connection template of a source, recovered from a stored URL.
#[derive(Debug)]
pub struct SourceConfig {
    pub source_type: String,
    pub url: String,
    pub username: Option<String>,
    pub password: Option<String>,
    pub mac: Option<String>,
}

/// The position of the first `live` segment of a split URL.
pub open spec fn is_first_live(parts: Seq<Seq<char>>, i: int) -> bool {
    &&& 0 <= i < parts.len()
    &&& parts[i] == "live"@
    &&& forall|j: int| 0 <= j < i ==> #[trigger] parts[j] != "live"@
}

pub open spec fn has_live(parts: Seq<Seq<char>>) -> bool {
    exists|i: int| is_first_live(parts, i)
}

pub open spec fn live_index(parts: Seq<Seq<char>>) -> int {
    choose|i: int| is_first_live(parts, i)
}

pub proof fn lemma_first_live_unique(parts: Seq<Seq<char>>, i: int)
    requires
        is_first_live(parts, i),
    ensures
        has_live(parts),
        live_index(parts) == i,
{
    assert(has_live(parts));
    let j = live_index(parts);
    if j < i {
        assert(parts[j] != "live"@);
    }
    if i < j {
        assert(parts[i] != "live"@);
    }
}

/// Whether a stored URL parses as a template: it has a `live` segment
/// followed by at least a username, a password, and a stream segment.
pub open spec fn xtream_parse_ok(url: Seq<char>) -> bool {
    let parts = split_char(url, '/');
    has_live(parts) && parts.len() > live_index(parts) + 3
}

/// The server part of a template URL: everything before `live`.
pub open spec fn xtream_base(url: Seq<char>) -> Seq<char> {
    let parts = split_char(url, '/');
    join_char(parts.subrange(0, live_index(parts)), '/')
}

pub open spec fn xtream_user(url: Seq<char>) -> Seq<char> {
    split_char(url, '/')[live_index(split_char(url, '/')) + 1]
}

pub open spec fn xtream_pass(url: Seq<char>) -> Seq<char> {
    split_char(url, '/')[live_index(split_char(url, '/')) + 2]
}

/// The URL regeneration produces: base without trailing slashes, the
/// `live` path, credentials, and the stream id, with `.ts` appended
/// unless the id already carries an extension.
pub open spec fn xtream_url_of(
    base: Seq<char>,
    user: Seq<char>,
    pass: Seq<char>,
    stream_id: Seq<char>,
) -> Seq<char> {
    trim_end_char(base, '/') + "/live/"@ + user + "/"@ + pass + "/"@ + stream_id + (
    if stream_id.contains('.') {
        Seq::<char>::empty()
    } else {
        ".ts"@
    })
}

/// The position of the first `live` segment, if any.
fn find_first_live(parts: &Vec<String>) -> (r: Option<usize>)
    ensures
        ({
            let views = parts@.map_values(|p: String| p@);
            match r {
                Some(i) => is_first_live(views, i as int),
                None => forall|j: int| 0 <= j < views.len() ==> #[trigger] views[j] != "live"@,
            }
        }),
{
    let ghost views = parts@.map_values(|p: String| p@);
    let n = parts.len();
    let mut i: usize = 0;
    while i < n
        invariant
            views == parts@.map_values(|p: String| p@),
            n == views.len(),
            n == parts@.len(),
            i <= n,
            forall|j: int| 0 <= j < i ==> #[trigger] views[j] != "live"@,
        decreases n - i,
    {
        if str_eq(parts[i].as_str(), "live") {
            proof {
                assert(views[i as int] == "live"@);
            }
            return Some(i);
        }
        i += 1;
    }
    None
}

/// Recovers the server, username, and password from a stored template
/// URL; `None` when the URL does not follow the template form.
pub fn parse_xtream_url(url: &str) -> (r: Option<SourceConfig>)
    ensures
        xtream_parse_ok(url@) ==> {
            &&& r is Some
            &&& r->0.source_type@ == "xtream"@
            &&& r->0.url@ == xtream_base(url@)
            &&& r->0.username is Some && r->0.username->0@ == xtream_user(url@)
            &&& r->0.password is Some && r->0.password->0@ == xtream_pass(url@)
            &&& r->0.mac is None
        },
        !xtream_parse_ok(url@) ==> r is None,
{
    let parts = split_on_char(url, '/');
    let ghost views = parts@.map_values(|p: String| p@);
    let n = parts.len();
    let li = match find_first_live(&parts) {
        Some(i) => i,
        None => {
            proof {
                if has_live(views) {
                    let w = live_index(views);
                    assert(is_first_live(views, w));
                    assert(views[w] != "live"@);
                }
            }
            return None;
        },
    };
    proof {
        lemma_first_live_unique(views, li as int);
        assert(li < n);
    }
    if n - li <= 3 {
        return None;
    }
    let mut base = String::new();
    let mut k: usize = 0;
    proof {
        assert(views.subrange(0, 0) =~= Seq::<Seq<char>>::empty());
        assert(base@ =~= join_char(views.subrange(0, 0), '/'));
    }
    while k < li
        invariant
            li < n,
            n == views.len(),
            views == parts@.map_values(|p: String| p@),
            n == parts@.len(),
            k <= li,
            base@ == join_char(views.subrange(0, k as int), '/'),
        decreases li - k,
    {
        let ghost pre = views.subrange(0, k as int);
        let ghost ext = views.subrange(0, k as int + 1);
        proof {
            assert(ext.drop_last() =~= pre);
            assert(ext.last() == views[k as int]);
        }
        if k > 0 {
            base.push('/');
        }
        base.append(parts[k].as_str());
        proof {
            if k == 0 {
                assert(ext.len() == 1);
                assert(base@ =~= join_char(ext, '/'));
            } else {
                assert(base@ =~= join_char(pre, '/').push('/') + views[k as int]);
            }
        }
        k += 1;
    }
    let username = parts[li + 1].clone();
    let password = parts[li + 2].clone();
    Some(
        SourceConfig {
            source_type: String::from_str("xtream"),
            url: base,
            username: Some(username),
            password: Some(password),
            mac: None,
        },
    )
}

/// Builds a capture URL from a server, credentials, and a stream id.
pub fn generate_xtream_url(base_url: &str, username: &str, password: &str, stream_id: &str) -> (r:
    String)
    ensures
        r@ == xtream_url_of(base_url@, username@, password@, stream_id@),
{
    let n = base_url.unicode_len();
    let mut t: usize = n;
    while t > 0 && base_url.get_char(t - 1) == '/'
        invariant
            n == base_url@.len(),
            t <= n,
            forall|j: int| t <= j < n ==> base_url@[j] == '/',
        decreases t,
    {
        t -= 1;
    }
    proof {
        lemma_trim_end_char_is_prefix(base_url@, '/', t as int);
    }
    let base = base_url.substring_char(0, t);
    let mut s = String::new();
    s.append(base);
    s.append("/live/");
    s.append(username);
    s.append("/");
    s.append(password);
    s.append("/");
    s.append(stream_id);
    if !str_contains_char(stream_id, '.') {
        s.append(".ts");
    }
    proof {
        assert(s@ =~= xtream_url_of(base_url@, username@, password@, stream_id@));
    }
    s
}

/// Whether `source_id` marks a token-expiring source: it starts with the
/// `xtream_` prefix.
pub open spec fn is_xtream_source(source_id: Seq<char>) -> bool {
    crate::text::has_prefix(source_id, "xtream_"@)
}

/// The stored URL of the earliest channel of the source.
pub open spec fn first_source_url(chans: Seq<crate::store::ChannelUrl>, source_id: Seq<char>) -> Seq<char> {
    chans[choose|i: int| is_first_channel_of_source(chans, source_id, i)].direct_url@
}

pub open spec fn has_source_channel(chans: Seq<crate::store::ChannelUrl>, source_id: Seq<char>) -> bool {
    exists|i: int| is_first_channel_of_source(chans, source_id, i)
}

/// When regeneration applies: a token-expiring source with a stored URL
/// that parses as a template.
pub open spec fn xtream_regen_ok(chans: Seq<crate::store::ChannelUrl>, source_id: Seq<char>) -> bool {
    is_xtream_source(source_id) && has_source_channel(chans, source_id) && xtream_parse_ok(
        first_source_url(chans, source_id),
    )
}

proof fn lemma_first_source_channel_unique(
    chans: Seq<crate::store::ChannelUrl>,
    source_id: Seq<char>,
    i: int,
)
    requires
        is_first_channel_of_source(chans, source_id, i),
    ensures
        has_source_channel(chans, source_id),
        first_source_url(chans, source_id) == chans[i].direct_url@,
{
    assert(has_source_channel(chans, source_id));
    let j = choose|j: int| is_first_channel_of_source(chans, source_id, j);
    if j < i {
        assert(chans[j].source_id@ != source_id);
    }
    if i < j {
        assert(chans[i].source_id@ != source_id);
    }
}

/// Recovers a source's connection template, when the source is marked
/// token-expiring and one of its channels has a stored template URL.
pub fn get_source_config(store: &ScheduleStore, source_id: &str) -> (r: Option<SourceConfig>)
    requires
        store.wf(),
    ensures
        ({
            let chans = store.channels();
            if xtream_regen_ok(chans, source_id@) {
                let u = first_source_url(chans, source_id@);
                &&& r is Some
                &&& r->0.source_type@ == "xtream"@
                &&& r->0.url@ == xtream_base(u)
                &&& r->0.username is Some && r->0.username->0@ == xtream_user(u)
                &&& r->0.password is Some && r->0.password->0@ == xtream_pass(u)
            } else {
                r is None
            }
        }),
{
    if !str_starts_with(source_id, "xtream_") {
        return None;
    }
    match store.first_channel_url_of_source(source_id) {
        Some(url) => {
            proof {
                let i = choose|i: int|
                    is_first_channel_of_source(store.channels(), source_id@, i) && url@
                        == store.channels()[i].direct_url@;
                lemma_first_source_channel_unique(store.channels(), source_id@, i);
            }
            parse_xtream_url(url.as_str())
        },
        None => {
            proof {
                if has_source_channel(store.channels(), source_id@) {
                    let i = choose|i: int|
                        is_first_channel_of_source(store.channels(), source_id@, i);
                    assert(store.channels()[i].source_id@ == source_id@);
                }
            }
            None
        },
    }
}

/// Resolves the URL a capture process should read from: the schedule's
/// pre-resolved URL when present; else a freshly regenerated template
/// URL for a token-expiring source; else the channel's stored URL.
pub fn resolve_stream_url(schedule: &Schedule, store: &ScheduleStore) -> (r: Result<
    String,
    ResolveError,
>)
    requires
        store.wf(),
    ensures
        ({
            let chans = store.channels();
            match schedule.stream_url {
                Some(pre) => r == Ok::<String, ResolveError>(pre),
                None => {
                    if xtream_regen_ok(chans, schedule.source_id@) {
                        let u = first_source_url(chans, schedule.source_id@);
                        r is Ok && r->Ok_0@ == xtream_url_of(
                            xtream_base(u),
                            xtream_user(u),
                            xtream_pass(u),
                            schedule.channel_id@,
                        )
                    } else if has_channel(chans, schedule.channel_id@) {
                        r is Ok && r->Ok_0@ == channel_by_id(
                            chans,
                            schedule.channel_id@,
                        ).direct_url@
                    } else {
                        r == Err::<String, ResolveError>(ResolveError::UrlNotFound)
                    }
                },
            }
        }),
{
    match &schedule.stream_url {
        Some(url) => {
            return Ok(url.clone());
        },
        None => {},
    }
    match get_source_config(store, schedule.source_id.as_str()) {
        Some(config) => {
            match (&config.username, &config.password) {
                (Some(username), Some(password)) => Ok(
                    generate_xtream_url(
                        config.url.as_str(),
                        username.as_str(),
                        password.as_str(),
                        schedule.channel_id.as_str(),
                    ),
                ),
                _ => stored_url_fallback(store, schedule),
            }
        },
        None => stored_url_fallback(store, schedule),
    }
}

fn stored_url_fallback(store: &ScheduleStore, schedule: &Schedule) -> (r: Result<
    String,
    ResolveError,
>)
    requires
        store.wf(),
    ensures
        has_channel(store.channels(), schedule.channel_id@) ==> r is Ok && r->Ok_0@
            == channel_by_id(store.channels(), schedule.channel_id@).direct_url@,
        !has_channel(store.channels(), schedule.channel_id@) ==> r == Err::<String, ResolveError>(
            ResolveError::UrlNotFound,
        ),
{
    match store.get_stored_url(schedule.channel_id.as_str()) {
        Some(url) => Ok(url),
        None => Err(ResolveError::UrlNotFound),
    }
}

} // verus!
