//! The ZLMediaKit HTTP API as the device uses it: the request URLs, the
//! reading of replies, and when a failed request is tried again.
use vstd::prelude::*;
use crate::num::{dec, push_dec};
use crate::text::{chars_of, seq_eq};

verus! {

/// Where the media server's API is and the secret it wants.
pub struct ZlmClient {
    api_base: String,
    secret: String,
}

impl View for ZlmClient {
    type V = (Seq<char>, Seq<char>);

    closed spec fn view(&self) -> (Seq<char>, Seq<char>) {
        (self.api_base@, self.secret@)
    }
}

/// One entry of the media list, by the fields the device reads.
pub struct MediaEntry {
    /// The entry's `app`, when it is a string.
    pub app: Option<String>,
    /// The entry's `stream`, when it is a string.
    pub stream: Option<String>,
}

/// A reply of the API, by the fields the device reads.
pub struct ZlmReply {
    /// `code`, when it is an `i64`.
    pub code: Option<i64>,
    /// `data`, when it is an array.
    pub data: Option<Vec<MediaEntry>>,
    /// `local_port`, when it is a `u64`.
    pub local_port: Option<u64>,
}

/// Why a reply gives no result.
#[derive(Debug, Clone, Copy, PartialEq, Eq)]
pub enum ZlmError {
    /// The reply's `code` is not 0.
    Rejected,
    /// The reply has no `local_port`.
    NoLocalPort,
}

/// The view of an optional string.
pub open spec fn opt_string_view(o: Option<String>) -> Option<Seq<char>> {
    match o {
        Some(s) => Some(s@),
        None => None,
    }
}

/// An entry names the given app and stream.
pub open spec fn entry_is(e: MediaEntry, app: Seq<char>, stream: Seq<char>) -> bool {
    opt_string_view(e.app) == Some(app) && opt_string_view(e.stream) == Some(stream)
}

/// `&name=value` for an optional number.
pub open spec fn opt_param(name: Seq<char>, v: Option<nat>) -> Seq<char> {
    match v {
        Some(x) => "&"@ + name + "="@ + dec(x),
        None => seq![],
    }
}

fn push_opt_param(s: &mut String, name: &str, v: Option<u64>)
    ensures
        final(s)@ == old(s)@ + opt_param(
            name@,
            match v {
                Some(x) => Some(x as nat),
                None => None,
            },
        ),
{
    match v {
        Some(x) => {
            s.append("&");
            s.append(name);
            s.append("=");
            push_dec(s, x);
        },
        None => {
            assert(s@ =~= s@ + Seq::<char>::empty());
        },
    }
}

impl ZlmClient {
    /// A client for the API at `api_base`.
    pub fn new(api_base: String, secret: String) -> (r: ZlmClient)
        ensures
            r@ == (api_base@, secret@),
    {
        ZlmClient { api_base, secret }
    }

    /// A client for another node's API.
    pub fn for_node(api_base: &str, secret: &str) -> (r: ZlmClient)
        ensures
            r@ == (api_base@, secret@),
    {
        Self::new(api_base.to_owned(), secret.to_owned())
    }

    /// The API's base URL.
    pub fn api_base(&self) -> (r: &str)
        ensures
            r@ == self@.0,
    {
        self.api_base.as_str()
    }

    /// The API's secret.
    pub fn secret(&self) -> (r: &str)
        ensures
            r@ == self@.1,
    {
        self.secret.as_str()
    }

    /// The URL that lists the server's media.
    pub fn media_list_url(&self) -> (r: String)
        ensures
            r@ == self@.0 + "/index/api/getMediaList?secret="@ + self@.1,
    {
        let mut u = self.api_base.clone();
        u.append("/index/api/getMediaList?secret=");
        u.append(self.secret.as_str());
        u
    }

    /// The URL that has the server send a stream's RTP to a given address.
    pub fn start_send_rtp_url(
        &self,
        vhost: &str,
        app: &str,
        stream: &str,
        ssrc: u32,
        dst_url: &str,
        dst_port: u16,
        is_udp: u8,
        src_port: Option<u16>,
        pt: Option<u8>,
        only_track: Option<u8>,
    ) -> (r: String)
        ensures
            r@ == self@.0 + "/index/api/startSendRtp?secret="@ + self@.1 + "&vhost="@ + vhost@
                + "&app="@ + app@ + "&stream="@ + stream@ + "&ssrc="@ + dec(ssrc as nat)
                + "&dst_url="@ + dst_url@ + "&dst_port="@ + dec(dst_port as nat) + "&is_udp="@
                + dec(is_udp as nat) + opt_param(
                "src_port"@,
                match src_port {
                    Some(x) => Some(x as nat),
                    None => None,
                },
            ) + opt_param(
                "pt"@,
                match pt {
                    Some(x) => Some(x as nat),
                    None => None,
                },
            ) + opt_param(
                "only_track"@,
                match only_track {
                    Some(x) => Some(x as nat),
                    None => None,
                },
            ),
    {
        let mut u = self.api_base.clone();
        u.append("/index/api/startSendRtp?secret=");
        u.append(self.secret.as_str());
        u.append("&vhost=");
        u.append(vhost);
        u.append("&app=");
        u.append(app);
        u.append("&stream=");
        u.append(stream);
        u.append("&ssrc=");
        push_dec(&mut u, ssrc as u64);
        u.append("&dst_url=");
        u.append(dst_url);
        u.append("&dst_port=");
        push_dec(&mut u, dst_port as u64);
        u.append("&is_udp=");
        push_dec(&mut u, is_udp as u64);
        push_opt_param(
            &mut u,
            "src_port",
            match src_port {
                Some(x) => Some(x as u64),
                None => None,
            },
        );
        push_opt_param(
            &mut u,
            "pt",
            match pt {
                Some(x) => Some(x as u64),
                None => None,
            },
        );
        push_opt_param(
            &mut u,
            "only_track",
            match only_track {
                Some(x) => Some(x as u64),
                None => None,
            },
        );
        u
    }

    /// The URL that has the server wait for the peer to fetch a stream's RTP.
    pub fn start_send_rtp_passive_url(
        &self,
        vhost: &str,
        app: &str,
        stream: &str,
        ssrc: u32,
        is_udp: u8,
        only_track: Option<u8>,
        only_audio: bool,
    ) -> (r: String)
        ensures
            r@ == self@.0 + "/index/api/startSendRtpPassive?secret="@ + self@.1 + "&vhost="@
                + vhost@ + "&app="@ + app@ + "&stream="@ + stream@ + "&ssrc="@ + dec(ssrc as nat)
                + "&is_udp="@ + dec(is_udp as nat) + opt_param(
                "only_track"@,
                match only_track {
                    Some(x) => Some(x as nat),
                    None => None,
                },
            ) + if only_audio {
                "&only_audio=1"@
            } else {
                Seq::<char>::empty()
            },
    {
        let mut u = self.api_base.clone();
        u.append("/index/api/startSendRtpPassive?secret=");
        u.append(self.secret.as_str());
        u.append("&vhost=");
        u.append(vhost);
        u.append("&app=");
        u.append(app);
        u.append("&stream=");
        u.append(stream);
        u.append("&ssrc=");
        push_dec(&mut u, ssrc as u64);
        u.append("&is_udp=");
        push_dec(&mut u, is_udp as u64);
        push_opt_param(
            &mut u,
            "only_track",
            match only_track {
                Some(x) => Some(x as u64),
                None => None,
            },
        );
        if only_audio {
            u.append("&only_audio=1");
        } else {
            assert(u@ =~= u@ + Seq::<char>::empty());
        }
        u
    }

    /// The URL that stops sending a stream's RTP.
    pub fn stop_send_rtp_url(&self, vhost: &str, app: &str, stream: &str, ssrc: Option<u32>) -> (r:
        String)
        ensures
            r@ == self@.0 + "/index/api/stopSendRtp?secret="@ + self@.1 + "&vhost="@ + vhost@
                + "&app="@ + app@ + "&stream="@ + stream@ + opt_param(
                "ssrc"@,
                match ssrc {
                    Some(x) => Some(x as nat),
                    None => None,
                },
            ),
    {
        let mut u = self.api_base.clone();
        u.append("/index/api/stopSendRtp?secret=");
        u.append(self.secret.as_str());
        u.append("&vhost=");
        u.append(vhost);
        u.append("&app=");
        u.append(app);
        u.append("&stream=");
        u.append(stream);
        push_opt_param(
            &mut u,
            "ssrc",
            match ssrc {
                Some(x) => Some(x as u64),
                None => None,
            },
        );
        u
    }
}

/// Whether the server accepted a request: its reply's `code` is 0.
pub fn reply_ok(reply: &ZlmReply) -> (r: bool)
    ensures
        r == (reply.code == Some(0i64)),
{
    match reply.code {
        Some(c) => c == 0,
        None => false,
    }
}

/// The media of a list reply: its `data` array, or none.
pub fn media_list_of(reply: ZlmReply) -> (r: Vec<MediaEntry>)
    ensures
        match reply.data {
            Some(d) => r == d,
            None => r@.len() == 0,
        },
{
    match reply.data {
        Some(d) => d,
        None => Vec::new(),
    }
}

/// The port a start reply names, cut to 16 bits as `as u16` does.
pub fn local_port_of(reply: &ZlmReply) -> (r: Result<u16, ZlmError>)
    ensures
        match reply.local_port {
            Some(p) => r == Ok::<u16, ZlmError>((p % 65536) as u16),
            None => r == Err::<u16, ZlmError>(ZlmError::NoLocalPort),
        },
{
    match reply.local_port {
        Some(p) => Ok((p % 65536) as u16),
        None => Err(ZlmError::NoLocalPort),
    }
}

/// After the `attempts`-th failure of a request that may be retried
/// `max_retries` times: the new count of failures, and whether to stop.
pub fn retry_after_failure(attempts: u32, max_retries: u32) -> (r: (u32, bool))
    requires
        attempts <= max_retries,
        attempts < u32::MAX,
    ensures
        r.0 == attempts + 1,
        r.1 == (attempts + 1 > max_retries),
{
    let a = attempts + 1;
    (a, a > max_retries)
}

/// Whether some entry of the media list names the given app and stream.
pub fn stream_exists(media: &[MediaEntry], app: &str, stream: &str) -> (r: bool)
    ensures
        r == exists|i: int| 0 <= i < media@.len() && entry_is(#[trigger] media@[i], app@, stream@),
{
    let a = chars_of(app);
    let s = chars_of(stream);
    let mut i: usize = 0;
    while i < media.len()
        invariant
            i <= media@.len(),
            a@ == app@,
            s@ == stream@,
            forall|j: int| 0 <= j < i ==> !entry_is(#[trigger] media@[j], app@, stream@),
        decreases media@.len() - i,
    {
        let e = &media[i];
        let app_ok = match &e.app {
            Some(x) => {
                let xc = chars_of(x.as_str());
                seq_eq(xc.as_slice(), a.as_slice())
            },
            None => false,
        };
        let stream_ok = match &e.stream {
            Some(x) => {
                let xc = chars_of(x.as_str());
                seq_eq(xc.as_slice(), s.as_slice())
            },
            None => false,
        };
        if app_ok && stream_ok {
            assert(entry_is(media@[i as int], app@, stream@));
            return true;
        }
        i = i + 1;
    }
    false
}

} // verus!
