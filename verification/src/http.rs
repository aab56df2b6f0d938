//! The gateway's HTTP surface: parsing one buffered request, telling a plain
//! page fetch from a WebSocket upgrade, mapping file extensions to content
//! types, and building the three responses the gateway ever sends.
//!
//! The request line and header block are taken apart by the `httparse` crate;
//! what it extracts from given bytes is named by an uninterpreted function,
//! and every decision made on the extracted parts is verified.

use vstd::prelude::*;

use crate::bytes::{bytes_eq, copy_bytes, has_byte, suffix_after_last, tail_after_last};
use crate::handshake::{accept_of, compute_accept};

verus! {

/// The `Upgrade` header name.
pub open spec fn upgrade_hdr() -> Seq<u8> {
    seq![85u8, 112, 103, 114, 97, 100, 101]
}

fn upgrade_hdr_vec() -> (r: Vec<u8>)
    ensures
        r@ == upgrade_hdr(),
{
    let r: Vec<u8> = vec![85u8, 112, 103, 114, 97, 100, 101];
    proof {
        assert(r@ =~= upgrade_hdr());
    }
    r
}

/// The `Sec-WebSocket-Key` header name.
pub open spec fn ws_key_hdr() -> Seq<u8> {
    seq![83u8, 101, 99, 45, 87, 101, 98, 83, 111, 99, 107, 101, 116, 45, 75, 101, 121]
}

fn ws_key_hdr_vec() -> (r: Vec<u8>)
    ensures
        r@ == ws_key_hdr(),
{
    let r: Vec<u8> = vec![83u8, 101, 99, 45, 87, 101, 98, 83, 111, 99, 107, 101, 116, 45, 75, 101, 121];
    proof {
        assert(r@ =~= ws_key_hdr());
    }
    r
}

/// The file served for the root path: `index.html`.
pub open spec fn index_html() -> Seq<u8> {
    seq![105u8, 110, 100, 101, 120, 46, 104, 116, 109, 108]
}

fn index_html_vec() -> (r: Vec<u8>)
    ensures
        r@ == index_html(),
{
    let r: Vec<u8> = vec![105u8, 110, 100, 101, 120, 46, 104, 116, 109, 108];
    proof {
        assert(r@ =~= index_html());
    }
    r
}

/// The `video` channel name.
pub open spec fn video_name() -> Seq<u8> {
    seq![118u8, 105, 100, 101, 111]
}

fn video_name_vec() -> (r: Vec<u8>)
    ensures
        r@ == video_name(),
{
    let r: Vec<u8> = vec![118u8, 105, 100, 101, 111];
    proof {
        assert(r@ =~= video_name());
    }
    r
}

/// The `attitude` channel name.
pub open spec fn attitude_name() -> Seq<u8> {
    seq![97u8, 116, 116, 105, 116, 117, 100, 101]
}

fn attitude_name_vec() -> (r: Vec<u8>)
    ensures
        r@ == attitude_name(),
{
    let r: Vec<u8> = vec![97u8, 116, 116, 105, 116, 117, 100, 101];
    proof {
        assert(r@ =~= attitude_name());
    }
    r
}

/// The `sysinfo` channel name.
pub open spec fn sysinfo_name() -> Seq<u8> {
    seq![115u8, 121, 115, 105, 110, 102, 111]
}

fn sysinfo_name_vec() -> (r: Vec<u8>)
    ensures
        r@ == sysinfo_name(),
{
    let r: Vec<u8> = vec![115u8, 121, 115, 105, 110, 102, 111];
    proof {
        assert(r@ =~= sysinfo_name());
    }
    r
}

/// `html` as ASCII bytes.
pub open spec fn ext_html() -> Seq<u8> {
    seq![104u8, 116, 109, 108]
}

fn ext_html_vec() -> (r: Vec<u8>)
    ensures
        r@ == ext_html(),
{
    let r: Vec<u8> = vec![104u8, 116, 109, 108];
    proof {
        assert(r@ =~= ext_html());
    }
    r
}

/// `js` as ASCII bytes.
pub open spec fn ext_js() -> Seq<u8> {
    seq![106u8, 115]
}

fn ext_js_vec() -> (r: Vec<u8>)
    ensures
        r@ == ext_js(),
{
    let r: Vec<u8> = vec![106u8, 115];
    proof {
        assert(r@ =~= ext_js());
    }
    r
}

/// `png` as ASCII bytes.
pub open spec fn ext_png() -> Seq<u8> {
    seq![112u8, 110, 103]
}

fn ext_png_vec() -> (r: Vec<u8>)
    ensures
        r@ == ext_png(),
{
    let r: Vec<u8> = vec![112u8, 110, 103];
    proof {
        assert(r@ =~= ext_png());
    }
    r
}

/// `svg` as ASCII bytes.
pub open spec fn ext_svg() -> Seq<u8> {
    seq![115u8, 118, 103]
}

fn ext_svg_vec() -> (r: Vec<u8>)
    ensures
        r@ == ext_svg(),
{
    let r: Vec<u8> = vec![115u8, 118, 103];
    proof {
        assert(r@ =~= ext_svg());
    }
    r
}

/// `text/html` as ASCII bytes.
pub open spec fn mime_html() -> Seq<u8> {
    seq![116u8, 101, 120, 116, 47, 104, 116, 109, 108]
}

fn mime_html_vec() -> (r: Vec<u8>)
    ensures
        r@ == mime_html(),
{
    let r: Vec<u8> = vec![116u8, 101, 120, 116, 47, 104, 116, 109, 108];
    proof {
        assert(r@ =~= mime_html());
    }
    r
}

/// `application/javascript` as ASCII bytes.
pub open spec fn mime_js() -> Seq<u8> {
    seq![97u8, 112, 112, 108, 105, 99, 97, 116, 105, 111, 110, 47, 106, 97, 118, 97, 115, 99, 114, 105, 112, 116]
}

fn mime_js_vec() -> (r: Vec<u8>)
    ensures
        r@ == mime_js(),
{
    let r: Vec<u8> = vec![97u8, 112, 112, 108, 105, 99, 97, 116, 105, 111, 110, 47, 106, 97, 118, 97, 115, 99, 114, 105, 112, 116];
    proof {
        assert(r@ =~= mime_js());
    }
    r
}

/// `image/png` as ASCII bytes.
pub open spec fn mime_png() -> Seq<u8> {
    seq![105u8, 109, 97, 103, 101, 47, 112, 110, 103]
}

fn mime_png_vec() -> (r: Vec<u8>)
    ensures
        r@ == mime_png(),
{
    let r: Vec<u8> = vec![105u8, 109, 97, 103, 101, 47, 112, 110, 103];
    proof {
        assert(r@ =~= mime_png());
    }
    r
}

/// `image/svg+xml` as ASCII bytes.
pub open spec fn mime_svg() -> Seq<u8> {
    seq![105u8, 109, 97, 103, 101, 47, 115, 118, 103, 43, 120, 109, 108]
}

fn mime_svg_vec() -> (r: Vec<u8>)
    ensures
        r@ == mime_svg(),
{
    let r: Vec<u8> = vec![105u8, 109, 97, 103, 101, 47, 115, 118, 103, 43, 120, 109, 108];
    proof {
        assert(r@ =~= mime_svg());
    }
    r
}

/// The whole `404 Not Found` response: the status line `HTTP/1.1 404 Not Found` and nothing after it.
pub open spec fn status_404() -> Seq<u8> {
    seq![72u8, 84, 84, 80, 47, 49, 46, 49, 32, 52, 48, 52, 32, 78, 111, 116, 32, 70, 111, 117, 110, 100, 13, 10]
}

fn status_404_vec() -> (r: Vec<u8>)
    ensures
        r@ == status_404(),
{
    let r: Vec<u8> = vec![72u8, 84, 84, 80, 47, 49, 46, 49, 32, 52, 48, 52, 32, 78, 111, 116, 32, 70, 111, 117, 110, 100, 13, 10];
    proof {
        assert(r@ =~= status_404());
    }
    r
}

/// The start of a `200 OK` response, up to and including `Content-Type: `.
pub open spec fn ok_prefix() -> Seq<u8> {
    seq![72u8, 84, 84, 80, 47, 49, 46, 49, 32, 50, 48, 48, 32, 79, 75, 13, 10, 67, 111, 110, 116, 101, 110, 116, 45, 84, 121, 112, 101, 58, 32]
}

fn ok_prefix_vec() -> (r: Vec<u8>)
    ensures
        r@ == ok_prefix(),
{
    let r: Vec<u8> = vec![72u8, 84, 84, 80, 47, 49, 46, 49, 32, 50, 48, 48, 32, 79, 75, 13, 10, 67, 111, 110, 116, 101, 110, 116, 45, 84, 121, 112, 101, 58, 32];
    proof {
        assert(r@ =~= ok_prefix());
    }
    r
}

/// The blank line that ends a header block.
pub open spec fn crlf2() -> Seq<u8> {
    seq![13u8, 10, 13, 10]
}

fn crlf2_vec() -> (r: Vec<u8>)
    ensures
        r@ == crlf2(),
{
    let r: Vec<u8> = vec![13u8, 10, 13, 10];
    proof {
        assert(r@ =~= crlf2());
    }
    r
}

/// The start of the `101 Switching Protocols` response, up to and including `Sec-WebSocket-Accept: `.
pub open spec fn upgrade_prefix() -> Seq<u8> {
    seq![72u8, 84, 84, 80, 47, 49, 46, 49, 32, 49, 48, 49, 32, 83, 119, 105, 116, 99, 104, 105, 110, 103, 32, 80, 114, 111, 116, 111, 99, 111, 108, 115, 13, 10, 85, 112, 103, 114, 97, 100, 101, 58, 32, 119, 101, 98, 115, 111, 99, 107, 101, 116, 13, 10, 67, 111, 110, 110, 101, 99, 116, 105, 111, 110, 58, 32, 85, 112, 103, 114, 97, 100, 101, 13, 10, 83, 101, 99, 45, 87, 101, 98, 83, 111, 99, 107, 101, 116, 45, 65, 99, 99, 101, 112, 116, 58, 32]
}

fn upgrade_prefix_vec() -> (r: Vec<u8>)
    ensures
        r@ == upgrade_prefix(),
{
    let r: Vec<u8> = vec![72u8, 84, 84, 80, 47, 49, 46, 49, 32, 49, 48, 49, 32, 83, 119, 105, 116, 99, 104, 105, 110, 103, 32, 80, 114, 111, 116, 111, 99, 111, 108, 115, 13, 10, 85, 112, 103, 114, 97, 100, 101, 58, 32, 119, 101, 98, 115, 111, 99, 107, 101, 116, 13, 10, 67, 111, 110, 110, 101, 99, 116, 105, 111, 110, 58, 32, 85, 112, 103, 114, 97, 100, 101, 13, 10, 83, 101, 99, 45, 87, 101, 98, 83, 111, 99, 107, 101, 116, 45, 65, 99, 99, 101, 112, 116, 58, 32];
    proof {
        assert(r@ =~= upgrade_prefix());
    }
    r
}

// ---------------------------------------------------------------------------
// Channels and request classification
// ---------------------------------------------------------------------------

/// The three telemetry streams a client can subscribe to.
#[derive(Clone, Copy, PartialEq, Eq, Structural, Debug)]
pub enum Channel {
    Video,
    Attitude,
    Sysinfo,
}

/// The channel a request path subscribes to: its final segment must name one
/// of the three streams; any other path upgrades to a socket that is attached
/// to no channel.
pub open spec fn channel_of(path: Seq<u8>) -> Option<Channel> {
    let seg = suffix_after_last(path, 47u8);
    if seg == video_name() {
        Some(Channel::Video)
    } else if seg == attitude_name() {
        Some(Channel::Attitude)
    } else if seg == sysinfo_name() {
        Some(Channel::Sysinfo)
    } else {
        None
    }
}

/// Decide which channel a path names.
pub fn channel_for(path: &[u8]) -> (r: Option<Channel>)
    ensures
        r == channel_of(path@),
{
    let (_, seg) = tail_after_last(path, 47);
    if bytes_eq(seg.as_slice(), video_name_vec().as_slice()) {
        Some(Channel::Video)
    } else if bytes_eq(seg.as_slice(), attitude_name_vec().as_slice()) {
        Some(Channel::Attitude)
    } else if bytes_eq(seg.as_slice(), sysinfo_name_vec().as_slice()) {
        Some(Channel::Sysinfo)
    } else {
        None
    }
}

/// What the parser extracts from one buffered request, when it is a complete
/// request-line-and-header block: the request path and the headers in order.
pub uninterp spec fn http_req_of(data: Seq<u8>) -> Option<(Seq<u8>, Seq<(Seq<u8>, Seq<u8>)>)>;

/// Relies on `httparse::Request::parse`, with room for 16 headers: whether a
/// byte buffer holds a complete, well-formed request head, and which path and
/// headers it carries, are functions of the bytes alone.
#[verifier::external_body]
fn parse_request_raw(data: &[u8]) -> (r: Option<(Vec<u8>, Vec<(Vec<u8>, Vec<u8>)>)>)
    ensures
        r is Some <==> http_req_of(data@) is Some,
        r matches Some(t) ==> http_req_of(data@) == Some(t.deep_view()),
{
    let mut buf = [httparse::EMPTY_HEADER; 16];
    let mut req = httparse::Request::new(&mut buf);
    match (req.parse(data), req.path) {
        (Ok(httparse::Status::Complete(_)), Some(p)) => {
            let hs =
                req.headers.iter().map(|h| (h.name.as_bytes().to_vec(), h.value.to_vec())).collect();
            Some((p.as_bytes().to_vec(), hs))
        },
        _ => None,
    }
}

/// The value of the last header with the given name, if any; the later of two
/// same-named headers wins.
pub open spec fn header_lookup(hs: Seq<(Seq<u8>, Seq<u8>)>, name: Seq<u8>) -> Option<Seq<u8>>
    decreases hs.len(),
{
    if hs.len() == 0 {
        None
    } else if hs.last().0 == name {
        Some(hs.last().1)
    } else {
        header_lookup(hs.drop_last(), name)
    }
}

/// One classified inbound request.
pub enum Request {
    /// A plain page fetch: serve the file the path names, then close.
    Http { path: Vec<u8> },
    /// A WebSocket upgrade: answer the key, then attach to the channel.
    Ws { channel: Option<Channel>, key: Vec<u8> },
    /// Nothing that parses: drop the connection.
    Bad,
}

/// The mathematical image of a classified request.
pub enum RequestView {
    Http { path: Seq<u8> },
    Ws { channel: Option<Channel>, key: Seq<u8> },
    Bad,
}

impl View for Request {
    type V = RequestView;

    open spec fn view(&self) -> RequestView {
        match self {
            Request::Http { path } => RequestView::Http { path: path@ },
            Request::Ws { channel, key } => RequestView::Ws { channel: *channel, key: key@ },
            Request::Bad => RequestView::Bad,
        }
    }
}

/// How a parsed request is classified: a request with an `Upgrade` header and
/// a key is a WebSocket upgrade onto the channel its path names; one with an
/// `Upgrade` header but no key is malformed; anything else is a page fetch.
pub open spec fn classify_spec(path: Seq<u8>, hs: Seq<(Seq<u8>, Seq<u8>)>) -> RequestView {
    match header_lookup(hs, upgrade_hdr()) {
        Some(_) => match header_lookup(hs, ws_key_hdr()) {
            Some(k) => RequestView::Ws { channel: channel_of(path), key: k },
            None => RequestView::Bad,
        },
        None => RequestView::Http { path: path },
    }
}

/// Everything the gateway decides about one buffered request.
pub open spec fn request_of(data: Seq<u8>) -> RequestView {
    match http_req_of(data) {
        Some(pr) => classify_spec(pr.0, pr.1),
        None => RequestView::Bad,
    }
}

/// Parse and classify one buffered request.
pub fn classify_request(data: &[u8]) -> (r: Request)
    ensures
        r@ == request_of(data@),
{
    match parse_request_raw(data) {
        None => Request::Bad,
        Some((path, headers)) => {
            let ghost hv = headers.deep_view();
            proof {
                assert(path.deep_view() =~= path@);
            }
            let up_name = upgrade_hdr_vec();
            let key_name = ws_key_hdr_vec();
            let mut upgrade = false;
            let mut key: Option<Vec<u8>> = None;
            let n = headers.len();
            let mut i: usize = 0;
            proof {
                assert(hv.take(0) =~= Seq::<(Seq<u8>, Seq<u8>)>::empty());
            }
            while i < n
                invariant
                    i <= n,
                    n == headers@.len(),
                    hv == headers.deep_view(),
                    up_name@ == upgrade_hdr(),
                    key_name@ == ws_key_hdr(),
                    upgrade == (header_lookup(hv.take(i as int), upgrade_hdr()) is Some),
                    match key {
                        Some(k) => header_lookup(hv.take(i as int), ws_key_hdr()) == Some(k@),
                        None => header_lookup(hv.take(i as int), ws_key_hdr()) is None,
                    },
                decreases n - i,
            {
                proof {
                    assert(hv[i as int] == (headers@[i as int].0@, headers@[i as int].1@)) by {
                        assert(headers@[i as int].0.deep_view() =~= headers@[i as int].0@);
                        assert(headers@[i as int].1.deep_view() =~= headers@[i as int].1@);
                    };
                    assert(hv.take(i + 1).drop_last() =~= hv.take(i as int));
                    assert(hv.take(i + 1).last() == hv[i as int]);
                }
                let h = &headers[i];
                if bytes_eq(h.0.as_slice(), up_name.as_slice()) {
                    upgrade = true;
                }
                if bytes_eq(h.0.as_slice(), key_name.as_slice()) {
                    key = Some(copy_bytes(h.1.as_slice()));
                }
                i = i + 1;
            }
            proof {
                assert(hv.take(n as int) =~= hv);
            }
            if upgrade {
                match key {
                    Some(k) => {
                        let channel = channel_for(path.as_slice());
                        Request::Ws { channel, key: k }
                    },
                    None => Request::Bad,
                }
            } else {
                Request::Http { path }
            }
        },
    }
}

// ---------------------------------------------------------------------------
// Paths and content types
// ---------------------------------------------------------------------------

/// The file a request path asks for: the path minus its leading slash, or
/// `index.html` when nothing is left.
pub open spec fn file_for(path: Seq<u8>) -> Seq<u8> {
    let stripped = if path.len() > 0 && path[0] == 47u8 {
        path.drop_first()
    } else {
        path
    };
    if stripped.len() == 0 {
        index_html()
    } else {
        stripped
    }
}

/// Resolve a request path to the file to serve.
pub fn resolve_file(path: &[u8]) -> (r: Vec<u8>)
    ensures
        r@ == file_for(path@),
{
    let stripped: Vec<u8> = if path.len() > 0 && path[0] == 47 {
        let r = copy_bytes(&path[1..path.len()]);
        proof {
            assert(path@.subrange(1, path@.len() as int) =~= path@.drop_first());
        }
        r
    } else {
        copy_bytes(path)
    };
    if stripped.len() == 0 {
        index_html_vec()
    } else {
        stripped
    }
}

/// The extension of a file name: what follows the last dot, or nothing when
/// there is no dot.
pub open spec fn ext_of(file: Seq<u8>) -> Seq<u8> {
    if has_byte(file, 46u8) {
        suffix_after_last(file, 46u8)
    } else {
        Seq::<u8>::empty()
    }
}

/// The content type for a file extension.  Only the four bundled kinds are
/// mapped; anything else is served with an empty content type.
pub open spec fn mime_of(ext: Seq<u8>) -> Seq<u8> {
    if ext == ext_html() {
        mime_html()
    } else if ext == ext_js() {
        mime_js()
    } else if ext == ext_png() {
        mime_png()
    } else if ext == ext_svg() {
        mime_svg()
    } else {
        Seq::<u8>::empty()
    }
}

/// Map a file extension to its content type.
pub fn get_mime(ext: &[u8]) -> (r: Vec<u8>)
    ensures
        r@ == mime_of(ext@),
{
    if bytes_eq(ext, ext_html_vec().as_slice()) {
        mime_html_vec()
    } else if bytes_eq(ext, ext_js_vec().as_slice()) {
        mime_js_vec()
    } else if bytes_eq(ext, ext_png_vec().as_slice()) {
        mime_png_vec()
    } else if bytes_eq(ext, ext_svg_vec().as_slice()) {
        mime_svg_vec()
    } else {
        Vec::new()
    }
}

/// The content type for a whole file name.
pub fn mime_for_file(file: &[u8]) -> (r: Vec<u8>)
    ensures
        r@ == mime_of(ext_of(file@)),
{
    let (found, ext) = tail_after_last(file, 46);
    if found {
        get_mime(ext.as_slice())
    } else {
        get_mime_empty()
    }
}

fn get_mime_empty() -> (r: Vec<u8>)
    ensures
        r@ == mime_of(Seq::<u8>::empty()),
{
    let e: Vec<u8> = Vec::new();
    get_mime(e.as_slice())
}

// ---------------------------------------------------------------------------
// Responses
// ---------------------------------------------------------------------------

/// The bytes of the `404 Not Found` response.
pub open spec fn wire_404() -> Seq<u8> {
    status_404()
}

/// The `404 Not Found` response sent for a file that cannot be opened.
pub fn response_404() -> (r: Vec<u8>)
    ensures
        r@ == wire_404(),
{
    status_404_vec()
}

/// The bytes of a `200 OK` response: status line, the content type, a blank
/// line, the raw file bytes, and a closing blank line.
pub open spec fn wire_200(mime: Seq<u8>, body: Seq<u8>) -> Seq<u8> {
    ok_prefix() + mime + crlf2() + body + crlf2()
}

/// Build the `200 OK` response for one file.
pub fn response_200(mime: &[u8], body: &[u8]) -> (r: Vec<u8>)
    ensures
        r@ == wire_200(mime@, body@),
{
    let mut out = ok_prefix_vec();
    append_bytes(&mut out, mime);
    let sep = crlf2_vec();
    append_bytes(&mut out, sep.as_slice());
    append_bytes(&mut out, body);
    append_bytes(&mut out, sep.as_slice());
    out
}

/// The bytes of the `101 Switching Protocols` response for a client key: the
/// fixed upgrade header block, the accept value the key is owed, and the
/// blank line.
pub open spec fn wire_101(key: Seq<u8>) -> Seq<u8> {
    upgrade_prefix() + accept_of(key) + crlf2()
}

/// Build the handshake response for one client key.
pub fn response_101(key: &Vec<u8>) -> (r: Vec<u8>)
    ensures
        r@ == wire_101(key@),
{
    let mut out = upgrade_prefix_vec();
    let accept = compute_accept(key);
    append_bytes(&mut out, accept.as_slice());
    let sep = crlf2_vec();
    append_bytes(&mut out, sep.as_slice());
    out
}

/// The one response of a page fetch: the file's bytes under its content type
/// when the runtime could open it, the `404 Not Found` line when it could
/// not, the connection closing either way.
pub fn file_response(file: &[u8], body: Option<&Vec<u8>>) -> (r: Vec<u8>)
    ensures
        body matches Some(b) ==> r@ == wire_200(mime_of(ext_of(file@)), b@),
        body is None ==> r@ == wire_404(),
{
    match body {
        Some(b) => {
            let mime = mime_for_file(file);
            response_200(mime.as_slice(), b.as_slice())
        },
        None => response_404(),
    }
}

fn append_bytes(out: &mut Vec<u8>, b: &[u8])
    ensures
        final(out)@ == old(out)@ + b@,
{
    let n = b.len();
    let mut i: usize = 0;
    while i < n
        invariant
            i <= n,
            n == b@.len(),
            out@ == old(out)@ + b@.take(i as int),
        decreases n - i,
    {
        out.push(b[i]);
        proof {
            assert(out@ =~= old(out)@ + b@.take(i + 1));
        }
        i = i + 1;
    }
    proof {
        assert(old(out)@ + b@.take(n as int) =~= old(out)@ + b@);
    }
}

} // verus!
