//! The base URL of a Subspace server, and what is derived from it: its canonical form, the
//! address of its websocket and the key under which its state is kept.

use vstd::prelude::*;

use crate::failure;
use crate::failure::{failure, failure_with, Failure};
use crate::text;

verus! {

/// What the library reads of a parsed URL.
#[derive(Debug, Clone)]
pub struct UrlParts {
    pub scheme: String,
    pub username: String,
    pub has_password: bool,
    pub host: Option<String>,
    /// The port that the URL names, if it is not the default one of its scheme.
    pub port: Option<u16>,
    /// The port that the URL names, or the default one of its scheme.
    pub effective_port: Option<u16>,
    pub path: String,
    pub has_query: bool,
    pub has_fragment: bool,
}

pub struct UrlView {
    pub scheme: Seq<char>,
    pub username: Seq<char>,
    pub has_password: bool,
    pub host: Option<Seq<char>>,
    pub port: Option<u16>,
    pub effective_port: Option<u16>,
    pub path: Seq<char>,
    pub has_query: bool,
    pub has_fragment: bool,
}

impl View for UrlParts {
    type V = UrlView;

    open spec fn view(&self) -> UrlView {
        UrlView {
            scheme: self.scheme@,
            username: self.username@,
            has_password: self.has_password,
            host: text::opt_text(self.host),
            port: self.port,
            effective_port: self.effective_port,
            path: self.path@,
            has_query: self.has_query,
            has_fragment: self.has_fragment,
        }
    }
}

pub open spec fn parts_result(result: Result<UrlParts, String>) -> Result<UrlView, Seq<char>> {
    match result {
        Ok(parts) => Ok(parts@),
        Err(message) => Err(message@),
    }
}

/// What `url::Url::parse` makes of a text: the parts of the URL, or the message of its error.
pub uninterp spec fn parsed_url(text: Seq<char>) -> Result<UrlView, Seq<char>>;

/// The schemes of the web.
pub open spec fn web_scheme(scheme: Seq<char>) -> bool {
    scheme == "http"@ || scheme == "https"@
}

/// The port of a server whose URL names none.
pub open spec fn default_port(scheme: Seq<char>) -> u16 {
    if scheme == "http"@ {
        80
    } else {
        443
    }
}

/// What is found in every web URL that has been parsed: a host in lower case, a path that begins
/// with a slash, white space in neither of them, and a port only where it is not the default one.
pub open spec fn web_url(url: UrlView) -> bool {
    &&& url.host matches Some(host) && host.len() > 0 && forall|i: int|
        0 <= i < host.len() ==> !text::ascii_upper(#[trigger] host[i]) && host[i] != '/'
            && !text::white_space(host[i])
    &&& url.path.len() > 0 && url.path[0] == '/' && forall|i: int|
        0 <= i < url.path.len() ==> !text::white_space(#[trigger] url.path[i])
    &&& url.port != Some(default_port(url.scheme))
    &&& url.effective_port == match url.port {
        Some(port) => Some(port),
        None => Some(default_port(url.scheme)),
    }
}

/// A port as it stands in a URL.
pub open spec fn port_text(port: Option<u16>) -> Seq<char> {
    match port {
        Some(port) => seq![':'] + text::decimal(port as nat),
        None => Seq::empty(),
    }
}

/// The scheme, host, port and path of a web URL written down, without the slashes at the end of the
/// path.
pub open spec fn web_text(url: UrlView) -> Seq<char> {
    let path = without_trailing_slashes(url.path);
    url.scheme + "://"@ + url.host->0 + port_text(url.port) + if path == seq!['/'] {
        Seq::empty()
    } else {
        path
    }
}

/// The parts of a URL that has the scheme, host, port and path of another, without the slashes at
/// the end of the path, and nothing else.
pub open spec fn web_parts(url: UrlView) -> UrlView {
    UrlView {
        username: Seq::empty(),
        has_password: false,
        path: without_trailing_slashes(url.path),
        has_query: false,
        has_fragment: false,
        ..url
    }
}

/// Some label of the host is in Punycode.
pub open spec fn has_punycode_label(host: Seq<char>) -> bool {
    exists|i: int|
        0 <= i <= host.len() - 4 && (i == 0 || host[i - 1] == '.') && #[trigger] host.subrange(
            i,
            i + 4,
        ) == seq!['x', 'n', '-', '-']
}

/// A web URL written down from its parts is read as those parts if it is read at all, and is read
/// unless its host has a label in Punycode.
pub open spec fn reads_back(url: UrlView) -> bool {
    &&& parsed_url(web_text(url)) matches Ok(again) ==> again == web_parts(url)
    &&& !has_punycode_label(url.host->0) ==> parsed_url(web_text(url)) is Ok
}

/// Parses a URL with `url::Url::parse` and reads its parts with the getters of `url::Url`.
/// The contract names the outcome; it is a function of the text alone. Of an `http` or `https` URL
/// it claims besides:
/// - The host is an IP address or a domain in lower-case ASCII, without the characters that hosts
///   must not hold; the path is percent-encoded, begins with a slash and holds no dot segments; the
///   default port of the scheme is never kept. This is what the parser writes.
/// - What the parser has written it reads as it stands, host and path segments each by itself. So
///   a URL put together from the parts of a parsed one, with fewer slashes at the end of the path,
///   has these parts. The one thing that may be refused is a label in Punycode: the parser encodes
///   labels of up to 1000 characters and decodes labels of up to 2000, and an encoded label may be
///   longer than that.
#[verifier::external_body]
fn parse_url(text: &str) -> (result: Result<UrlParts, String>)
    ensures
        parts_result(result) == parsed_url(text@),
        result matches Ok(parts) ==> (web_scheme(parts@.scheme) ==> web_url(parts@) && reads_back(
            parts@,
        )),
{
    let url = url::Url::parse(text).map_err(|err| err.to_string())?;
    Ok(UrlParts {
        scheme: url.scheme().to_string(),
        username: url.username().to_string(),
        has_password: url.password().is_some(),
        host: url.host_str().map(|host| host.to_string()),
        port: url.port(),
        effective_port: url.port_or_known_default(),
        path: url.path().to_string(),
        has_query: url.query().is_some(),
        has_fragment: url.fragment().is_some(),
    })
}

// ---------------------------------------------------------------------------
// Paths
// ---------------------------------------------------------------------------

/// `s` without the slashes at its end; of a text of slashes only, one is kept.
pub open spec fn without_trailing_slashes(s: Seq<char>) -> Seq<char>
    decreases s.len(),
{
    if s.len() > 1 && s.last() == '/' {
        without_trailing_slashes(s.drop_last())
    } else {
        s
    }
}

/// The normal form of a URL path: it begins with a slash and, unless it is `/`, ends with none.
pub open spec fn normal_path(path: Seq<char>) -> Seq<char> {
    let inner = text::trimmed(path);
    if inner.len() == 0 {
        seq!['/']
    } else {
        let stripped = without_trailing_slashes(inner);
        if stripped[0] == '/' {
            stripped
        } else {
            seq!['/'] + stripped
        }
    }
}

/// The normal form of a URL path.
pub fn normalize_path(path: &str) -> (normal: String)
    ensures
        normal@ == normal_path(path@),
{
    let inner = text::trim(path);
    let chars = text::chars_of(inner);
    if chars.len() == 0 {
        let mut root = String::new();
        root.push('/');
        assert(root@ == seq!['/']);
        return root;
    }
    let mut end: usize = chars.len();
    assert(inner@.take(end as int) == inner@);
    while end > 1 && chars[end - 1] == '/'
        invariant
            chars@ == inner@,
            1 <= end <= chars.len(),
            without_trailing_slashes(inner@) == without_trailing_slashes(inner@.take(end as int)),
        decreases end,
    {
        assert(inner@.take(end as int).drop_last() == inner@.take(end - 1));
        end = end - 1;
    }
    let stripped = inner.substring_char(0, end);
    assert(stripped@ == inner@.take(end as int));
    let mut normal = String::new();
    if chars[0] != '/' {
        normal.push('/');
        assert(normal@ == seq!['/']);
    }
    normal.append(stripped);
    assert(Seq::<char>::empty() + stripped@ == stripped@);
    normal
}

/// A normal path begins with a slash and, unless it is `/`, ends with another character.
pub proof fn law_normal_path_shape(path: Seq<char>)
    ensures
        normal_path(path).len() > 0,
        normal_path(path)[0] == '/',
        normal_path(path) != seq!['/'] ==> normal_path(path).last() != '/',
{
    let inner = text::trimmed(path);
    if inner.len() > 0 {
        lemma_without_trailing_slashes(inner);
        let stripped = without_trailing_slashes(inner);
        if stripped.len() == 1 && stripped[0] == '/' {
            assert(stripped == seq!['/']);
        }
        if stripped[0] == '/' && stripped.len() == 1 {
            assert(normal_path(path) == seq!['/']);
        }
    }
}

proof fn lemma_without_trailing_slashes(s: Seq<char>)
    requires
        s.len() > 0,
    ensures
        without_trailing_slashes(s).len() > 0,
        without_trailing_slashes(s)[0] == s[0],
        without_trailing_slashes(s).len() > 1 ==> without_trailing_slashes(s).last() != '/',
        without_trailing_slashes(without_trailing_slashes(s)) == without_trailing_slashes(s),
    decreases s.len(),
{
    if s.len() > 1 && s.last() == '/' {
        lemma_without_trailing_slashes(s.drop_last());
    }
}

// ---------------------------------------------------------------------------
// Canonical form
// ---------------------------------------------------------------------------

/// `:port`, unless `port` is the default one of the scheme.
pub open spec fn port_suffix(scheme: Seq<char>, port: u16) -> Seq<char> {
    if port == default_port(scheme) {
        Seq::empty()
    } else {
        port_text(Some(port))
    }
}

/// The path as it stands in a canonical URL: nothing for the root.
pub open spec fn path_suffix(path: Seq<char>) -> Seq<char> {
    if normal_path(path) == seq!['/'] {
        Seq::empty()
    } else {
        normal_path(path)
    }
}

/// The canonical base URL made of the parts of a parsed URL, or why there is none.
pub open spec fn canonical_of_parts(url: UrlView) -> Result<Seq<char>, Seq<char>> {
    if !web_scheme(url.scheme) {
        Err("unsupported server URL scheme: "@ + url.scheme)
    } else if url.username.len() > 0 || url.has_password {
        Err("server URL must not include userinfo"@)
    } else if url.has_query || url.has_fragment {
        Err("server URL must not include query or fragment"@)
    } else if url.host is None {
        Err("server URL missing host"@)
    } else if url.effective_port is None {
        Err("server URL missing effective port"@)
    } else {
        Ok(
            url.scheme + "://"@ + text::lower_ascii(url.host->0) + port_suffix(
                url.scheme,
                url.effective_port->0,
            ) + path_suffix(url.path),
        )
    }
}

/// The canonical form of a server base URL, or why it is refused.
pub open spec fn canonical_base_url(raw: Seq<char>) -> Result<Seq<char>, Seq<char>> {
    let inner = text::trimmed(raw);
    if inner.len() == 0 {
        Err("missing server base_url"@)
    } else {
        match parsed_url(inner) {
            Err(_) => Err("invalid server base_url"@),
            Ok(url) => canonical_of_parts(url),
        }
    }
}

fn port_suffix_text(scheme: &str, port: u16) -> (suffix: String)
    ensures
        suffix@ == port_suffix(scheme@, port),
{
    let default_port: u16 = if text::same_text(scheme, "http") {
        80
    } else {
        443
    };
    let mut suffix = String::new();
    if port != default_port {
        suffix.push(':');
        suffix.append(text::decimal_text(port as u128).as_str());
    }
    suffix
}

fn path_suffix_text(path: &str) -> (suffix: String)
    ensures
        suffix@ == path_suffix(path@),
{
    let normal = normalize_path(path);
    let is_root = normal.as_str().unicode_len() == 1 && normal.as_str().get_char(0) == '/';
    assert(is_root ==> normal@ == seq!['/']);
    assert(normal@ == seq!['/'] ==> normal@.len() == 1 && normal@[0] == '/');
    if is_root {
        String::new()
    } else {
        normal
    }
}

/// The canonical base URL made of the parts of a parsed URL.
pub fn canonicalize_parts(url: &UrlParts) -> (result: Result<String, Failure>)
    ensures
        failure::text_result(result) == canonical_of_parts(url@),
{
    let scheme = url.scheme.as_str();
    if !text::same_text(scheme, "http") && !text::same_text(scheme, "https") {
        return Err(failure_with("unsupported server URL scheme: ", scheme));
    }
    if !url.username.as_str().is_empty() || url.has_password {
        return Err(failure("server URL must not include userinfo"));
    }
    if url.has_query || url.has_fragment {
        return Err(failure("server URL must not include query or fragment"));
    }
    let host = match &url.host {
        Some(host) => text::to_lower_ascii(host.as_str()),
        None => return Err(failure("server URL missing host")),
    };
    let port: u16 = match url.effective_port {
        Some(port) => port,
        None => return Err(failure("server URL missing effective port")),
    };
    let mut canonical = scheme.to_owned();
    canonical.append("://");
    canonical.append(host.as_str());
    canonical.append(port_suffix_text(scheme, port).as_str());
    canonical.append(path_suffix_text(url.path.as_str()).as_str());
    Ok(canonical)
}

/// A canonical base URL ends with no slash. It is its own canonical form, and stands for the same
/// server: the key and the address of the websocket are those of the URL that it was made of. This is
/// so wherever the parser reads it; and it does, unless its host has a label in Punycode.
pub open spec fn stands_for_itself(raw: Seq<char>, canonical: Seq<char>) -> bool {
    &&& canonical.len() > 0 && canonical.last() != '/'
    &&& parsed_url(canonical) is Ok ==> canonical_base_url(canonical) == Ok::<
        Seq<char>,
        Seq<char>,
    >(canonical) && server_key(canonical) == server_key(raw) && subspace_ws_url(canonical)
        == subspace_ws_url(raw)
    &&& (parsed_url(text::trimmed(raw)) matches Ok(url) && url.host matches Some(host)
        && !has_punycode_label(host)) ==> parsed_url(canonical) is Ok
}

/// The canonical form of a server base URL: scheme and host in lower case, no default port and no
/// slash at the end.
pub fn canonicalize_base_url(raw: &str) -> (result: Result<String, Failure>)
    ensures
        failure::text_result(result) == canonical_base_url(raw@),
        result matches Ok(canonical) ==> stands_for_itself(raw@, canonical@),
{
    let inner = text::trim(raw);
    if inner.is_empty() {
        return Err(failure("missing server base_url"));
    }
    match parse_url(inner) {
        Err(_) => Err(failure("invalid server base_url")),
        Ok(url) => {
            let result = canonicalize_parts(&url);
            proof {
                if result is Ok {
                    lemma_canonical_url_is_stable(raw@, url@);
                }
            }
            result
        },
    }
}

// ---------------------------------------------------------------------------
// Websocket address
// ---------------------------------------------------------------------------

/// The address of the firehose websocket, made of the parts of the canonical base URL.
pub open spec fn ws_url_of_parts(url: UrlView) -> Result<Seq<char>, Seq<char>> {
    if !web_scheme(url.scheme) {
        Err("unsupported server URL scheme: "@ + url.scheme)
    } else if url.host is None {
        Err("server URL missing host"@)
    } else {
        let ws_scheme = if url.scheme == "http"@ { "ws"@ } else { "wss"@ };
        Ok(
            ws_scheme + "://"@ + url.host->0 + port_text(url.port) + path_suffix(url.path)
                + "/api/firehose/stream/websocket"@,
        )
    }
}

/// The address of the firehose websocket of the server at `base_url`.
pub open spec fn subspace_ws_url(base_url: Seq<char>) -> Result<Seq<char>, Seq<char>> {
    match canonical_base_url(base_url) {
        Err(message) => Err(message),
        Ok(canonical) => match parsed_url(canonical) {
            Err(message) => Err(message),
            Ok(url) => ws_url_of_parts(url),
        },
    }
}

/// The address of the firehose websocket, made of the parts of the canonical base URL.
pub fn ws_url_from_parts(url: &UrlParts) -> (result: Result<String, Failure>)
    ensures
        failure::text_result(result) == ws_url_of_parts(url@),
{
    let scheme = url.scheme.as_str();
    let mut address = if text::same_text(scheme, "http") {
        "ws".to_owned()
    } else if text::same_text(scheme, "https") {
        "wss".to_owned()
    } else {
        return Err(failure_with("unsupported server URL scheme: ", scheme));
    };
    address.append("://");
    match &url.host {
        Some(host) => address.append(host.as_str()),
        None => return Err(failure("server URL missing host")),
    }
    let mut port = String::new();
    match url.port {
        Some(number) => {
            port.push(':');
            port.append(text::decimal_text(number as u128).as_str());
        },
        None => {},
    }
    address.append(port.as_str());
    address.append(path_suffix_text(url.path.as_str()).as_str());
    address.append("/api/firehose/stream/websocket");
    Ok(address)
}

/// The address of the firehose websocket of the server at `base_url`.
pub fn derive_subspace_ws_url(base_url: &str) -> (result: Result<String, Failure>)
    ensures
        failure::text_result(result) == subspace_ws_url(base_url@),
{
    let canonical = match canonicalize_base_url(base_url) {
        Ok(canonical) => canonical,
        Err(f) => return Err(f),
    };
    match parse_url(canonical.as_str()) {
        Err(message) => Err(Failure { message }),
        Ok(url) => ws_url_from_parts(&url),
    }
}

// ---------------------------------------------------------------------------
// Server key
// ---------------------------------------------------------------------------

/// The characters that a component of a server key keeps.
pub open spec fn key_char(c: char) -> bool {
    text::ascii_lower(c) || text::ascii_digit(c)
}

/// `s` in lower case, with one underscore for each run of characters that a key does not keep.
pub open spec fn squeezed(s: Seq<char>) -> Seq<char>
    decreases s.len(),
{
    if s.len() == 0 {
        Seq::empty()
    } else {
        let before = squeezed(s.drop_last());
        let last = text::lower_ascii_char(s.last());
        if key_char(last) {
            before.push(last)
        } else if s.len() > 1 && !key_char(text::lower_ascii_char(s[s.len() - 2])) {
            before
        } else {
            before.push('_')
        }
    }
}

pub open spec fn without_leading_underscores(s: Seq<char>) -> Seq<char>
    decreases s.len(),
{
    if s.len() > 0 && s[0] == '_' {
        without_leading_underscores(s.skip(1))
    } else {
        s
    }
}

pub open spec fn without_trailing_underscores(s: Seq<char>) -> Seq<char>
    decreases s.len(),
{
    if s.len() > 0 && s.last() == '_' {
        without_trailing_underscores(s.drop_last())
    } else {
        s
    }
}

/// A part of a URL as it stands in a server key; nothing where no character is kept.
pub open spec fn key_component(raw: Seq<char>) -> Option<Seq<char>> {
    let inner = without_trailing_underscores(without_leading_underscores(squeezed(raw)));
    if inner.len() == 0 {
        None
    } else {
        Some(inner)
    }
}

/// A part of a URL as it stands in a server key.
pub fn sanitize_server_key_component(raw: &str) -> (component: Option<String>)
    ensures
        text::opt_text(component) == key_component(raw@),
{
    let chars = text::chars_of(raw);
    let mut out: Vec<char> = Vec::new();
    let mut last_was_underscore = false;
    let mut i: usize = 0;
    while i < chars.len()
        invariant
            i <= chars.len(),
            chars@ == raw@,
            out@ == squeezed(raw@.take(i as int)),
            last_was_underscore == (i > 0 && !key_char(text::lower_ascii_char(raw@[i - 1]))),
        decreases chars.len() - i,
    {
        let normalized = text::to_lower_ascii_char(chars[i]);
        let is_safe = ('a' <= normalized && normalized <= 'z') || ('0' <= normalized && normalized
            <= '9');
        assert(raw@.take(i + 1).drop_last() == raw@.take(i as int));
        if is_safe {
            out.push(normalized);
            last_was_underscore = false;
        } else if !last_was_underscore {
            out.push('_');
            last_was_underscore = true;
        }
        i = i + 1;
    }
    assert(raw@.take(raw@.len() as int) == raw@);
    let ghost all = squeezed(raw@);
    let mut start: usize = 0;
    assert(all.skip(0) == all);
    while start < out.len() && out[start] == '_'
        invariant
            start <= out.len(),
            out@ == all,
            without_leading_underscores(all) == without_leading_underscores(all.skip(start as int)),
        decreases out.len() - start,
    {
        assert(all.skip(start as int).skip(1) == all.skip(start + 1));
        start = start + 1;
    }
    let ghost body = all.skip(start as int);
    let mut end: usize = out.len();
    assert(body.take(end - start) == body);
    while end > start && out[end - 1] == '_'
        invariant
            start <= end <= out.len(),
            out@ == all,
            body == all.skip(start as int),
            without_trailing_underscores(body) == without_trailing_underscores(
                body.take(end - start),
            ),
        decreases end,
    {
        assert(body.take(end - start).drop_last() == body.take(end - start - 1));
        end = end - 1;
    }
    if start == end {
        return None;
    }
    let whole = text::text_of(&out);
    let component = whole.as_str().substring_char(start, end);
    assert(component@ == body.take(end - start));
    Some(component.to_owned())
}

/// The part of `s` before its first slash.
pub open spec fn first_segment(s: Seq<char>) -> Seq<char>
    decreases s.len(),
{
    if s.len() == 0 || s[0] == '/' {
        Seq::empty()
    } else {
        seq![s[0]] + first_segment(s.skip(1))
    }
}

/// The key components of the segments of a path, in order; `s` begins after a slash.
pub open spec fn segment_components(s: Seq<char>) -> Seq<Seq<char>>
    decreases s.len(),
{
    let n = first_segment(s).len() as int;
    let head = match key_component(first_segment(s)) {
        Some(component) => seq![component],
        None => Seq::empty(),
    };
    if n < s.len() {
        head + segment_components(s.skip(n + 1))
    } else {
        head
    }
}

proof fn lemma_first_segment(s: Seq<char>, n: int)
    requires
        0 <= n <= s.len(),
        forall|i: int| 0 <= i < n ==> s[i] != '/',
        n < s.len() ==> s[n] == '/',
    ensures
        first_segment(s) == s.take(n),
    decreases n,
{
    if n > 0 {
        lemma_first_segment(s.skip(1), n - 1);
        assert(s.take(n) == seq![s[0]] + s.skip(1).take(n - 1));
    } else {
        assert(s.take(0) == Seq::<char>::empty());
    }
}

/// The components of the server key that the parts of the canonical base URL give.
pub open spec fn server_key_components(url: UrlView) -> Result<Seq<Seq<char>>, Seq<char>> {
    if key_component(url.scheme) is None {
        Err("server URL missing scheme"@)
    } else if url.host is None || key_component(url.host->0) is None {
        Err("server URL missing host"@)
    } else if url.effective_port is None {
        Err("server URL missing effective port"@)
    } else {
        let segments = if url.path.len() > 0 && url.path[0] == '/' {
            segment_components(url.path.skip(1))
        } else {
            Seq::empty()
        };
        Ok(
            seq![
                key_component(url.scheme)->0,
                key_component(url.host->0)->0,
                text::decimal(url.effective_port->0 as nat),
            ] + segments,
        )
    }
}

/// The server key that the parts of the canonical base URL give.
pub open spec fn server_key_of_parts(url: UrlView) -> Result<Seq<char>, Seq<char>> {
    match server_key_components(url) {
        Err(message) => Err(message),
        Ok(components) => Ok(text::joined(components, "_"@)),
    }
}

/// The key of the server at `base_url`.
pub open spec fn server_key(base_url: Seq<char>) -> Result<Seq<char>, Seq<char>> {
    match canonical_base_url(base_url) {
        Err(message) => Err(message),
        Ok(canonical) => match parsed_url(canonical) {
            Err(message) => Err(message),
            Ok(url) => server_key_of_parts(url),
        },
    }
}

/// Adds the key components of the segments of `path`, which begins after a slash.
fn push_segments(parts: &mut Vec<String>, path: &str)
    ensures
        text::texts(final(parts)@) == text::texts(old(parts)@) + segment_components(path@),
{
    let chars = text::chars_of(path);
    let ghost before = text::texts(parts@);
    let mut start: usize = 0;
    assert(path@.skip(0) == path@);
    loop
        invariant
            chars@ == path@,
            before == text::texts(old(parts)@),
            start <= chars.len(),
            before + segment_components(path@) == text::texts(parts@) + segment_components(
                path@.skip(start as int),
            ),
        decreases chars.len() - start,
    {
        let ghost rest = path@.skip(start as int);
        let mut end: usize = start;
        while end < chars.len() && chars[end] != '/'
            invariant
                chars@ == path@,
                start <= end <= chars.len(),
                forall|i: int| start <= i < end ==> path@[i] != '/',
            decreases chars.len() - end,
        {
            end = end + 1;
        }
        let segment = path.substring_char(start, end);
        proof {
            lemma_first_segment(rest, end - start);
            assert(rest.take(end - start) == segment@);
        }
        let ghost pushed = text::texts(parts@);
        match sanitize_server_key_component(segment) {
            Some(component) => {
                parts.push(component);
                assert(text::texts(parts@) == pushed + seq![key_component(segment@)->0]);
            },
            None => {
                assert(text::texts(parts@) == pushed + Seq::<Seq<char>>::empty());
            },
        }
        let ghost head = match key_component(segment@) {
            Some(component) => seq![component],
            None => Seq::<Seq<char>>::empty(),
        };
        assert(text::texts(parts@) == pushed + head);
        if end == chars.len() {
            assert(segment_components(rest) == head);
            return;
        }
        assert(rest.skip(end - start + 1) == path@.skip(end + 1));
        assert(pushed + (head + segment_components(path@.skip(end + 1))) == (pushed + head)
            + segment_components(path@.skip(end + 1)));
        start = end + 1;
    }
}

/// The server key that the parts of the canonical base URL give.
pub fn server_key_from_parts(url: &UrlParts) -> (result: Result<String, Failure>)
    ensures
        failure::text_result(result) == server_key_of_parts(url@),
{
    let scheme = match sanitize_server_key_component(url.scheme.as_str()) {
        Some(scheme) => scheme,
        None => return Err(failure("server URL missing scheme")),
    };
    let host = match &url.host {
        Some(host) => match sanitize_server_key_component(host.as_str()) {
            Some(host) => host,
            None => return Err(failure("server URL missing host")),
        },
        None => return Err(failure("server URL missing host")),
    };
    let port: u16 = match url.effective_port {
        Some(port) => port,
        None => return Err(failure("server URL missing effective port")),
    };
    let mut parts: Vec<String> = Vec::new();
    parts.push(scheme);
    parts.push(host);
    parts.push(text::decimal_text(port as u128));
    let ghost base = seq![
        key_component(url@.scheme)->0,
        key_component(url@.host->0)->0,
        text::decimal(port as nat),
    ];
    assert(text::texts(parts@) == base);
    match text::strip_prefix(url.path.as_str(), "/") {
        Some(rest) => {
            proof {
                reveal_strlit("/");
                assert("/"@ == seq!['/']);
                assert(url.path@.take(1)[0] == url.path@[0]);
            }
            push_segments(&mut parts, rest);
        },
        None => {
            proof {
                reveal_strlit("/");
                assert("/"@ == seq!['/']);
                if url.path@.len() > 0 && url.path@[0] == '/' {
                    assert(url.path@.take(1) == seq!['/']);
                }
            }
            assert(base + Seq::<Seq<char>>::empty() == base);
        },
    }
    Ok(text::join(&parts, "_"))
}

/// The key of the server at `base_url`: the scheme, host, port and path segments of its canonical
/// form, joined by underscores.
pub fn derive_server_key(base_url: &str) -> (result: Result<String, Failure>)
    ensures
        failure::text_result(result) == server_key(base_url@),
{
    let canonical = match canonicalize_base_url(base_url) {
        Ok(canonical) => canonical,
        Err(f) => return Err(f),
    };
    match parse_url(canonical.as_str()) {
        Err(message) => Err(Failure { message }),
        Ok(url) => server_key_from_parts(&url),
    }
}

// ---------------------------------------------------------------------------
// Laws
// ---------------------------------------------------------------------------

/// A server key is made of lower-case letters, digits and underscores: it is safe as the name of
/// a directory.
pub proof fn law_server_key_alphabet(base_url: Seq<char>)
    ensures
        server_key(base_url) matches Ok(key) ==> key.len() > 0 && forall|i: int|
            0 <= i < key.len() ==> key_char(#[trigger] key[i]) || key[i] == '_',
{
    if server_key(base_url) is Ok {
        let url = parsed_url(canonical_base_url(base_url)->Ok_0)->Ok_0;
        let parts = server_key_components(url)->Ok_0;
        lemma_key_component(url.scheme);
        lemma_key_component(url.host->0);
        text::lemma_decimal_digits(url.effective_port->0 as nat);
        if url.path.len() > 0 && url.path[0] == '/' {
            lemma_segment_components(url.path.skip(1));
        }
        assert forall|i: int| 0 <= i < parts.len() implies key_text(#[trigger] parts[i]) by {
            if i >= 3 {
                assert(parts[i] == segment_components(url.path.skip(1))[i - 3]);
            }
        }
        reveal_strlit("_");
        assert("_"@ == seq!['_']);
        lemma_joined_key_text(parts);
    }
}

spec fn key_text(s: Seq<char>) -> bool {
    s.len() > 0 && forall|i: int| 0 <= i < s.len() ==> key_char(#[trigger] s[i]) || s[i] == '_'
}

proof fn lemma_squeezed(s: Seq<char>)
    ensures
        forall|i: int|
            0 <= i < squeezed(s).len() ==> key_char(#[trigger] squeezed(s)[i]) || squeezed(s)[i]
                == '_',
    decreases s.len(),
{
    if s.len() > 0 {
        lemma_squeezed(s.drop_last());
        let before = squeezed(s.drop_last());
        assert forall|i: int| 0 <= i < squeezed(s).len() implies key_char(#[trigger] squeezed(s)[i])
            || squeezed(s)[i] == '_' by {
            if i < before.len() {
                assert(squeezed(s)[i] == before[i]);
            }
        }
    }
}

proof fn lemma_leading(s: Seq<char>)
    ensures
        exists|k: int| 0 <= k <= s.len() && without_leading_underscores(s) == s.skip(k),
    decreases s.len(),
{
    if s.len() > 0 && s[0] == '_' {
        lemma_leading(s.skip(1));
        let k = choose|k: int|
            0 <= k <= s.skip(1).len() && without_leading_underscores(s.skip(1)) == s.skip(1).skip(k);
        assert(s.skip(1).skip(k) == s.skip(k + 1));
    } else {
        assert(s.skip(0) == s);
    }
}

proof fn lemma_trailing(s: Seq<char>)
    ensures
        exists|k: int| 0 <= k <= s.len() && without_trailing_underscores(s) == s.take(k),
    decreases s.len(),
{
    if s.len() > 0 && s.last() == '_' {
        lemma_trailing(s.drop_last());
        let k = choose|k: int|
            0 <= k <= s.drop_last().len() && without_trailing_underscores(s.drop_last())
                == s.drop_last().take(k);
        assert(s.drop_last().take(k) == s.take(k));
    } else {
        assert(s.take(s.len() as int) == s);
    }
}

proof fn lemma_key_component(raw: Seq<char>)
    ensures
        key_component(raw) matches Some(component) ==> key_text(component),
{
    let all = squeezed(raw);
    let body = without_leading_underscores(all);
    lemma_squeezed(raw);
    lemma_leading(all);
    lemma_trailing(body);
    let k = choose|k: int| 0 <= k <= all.len() && body == all.skip(k);
    let m = choose|m: int|
        0 <= m <= body.len() && without_trailing_underscores(body) == body.take(m);
    assert forall|i: int| 0 <= i < m implies key_char(#[trigger] body.take(m)[i]) || body.take(m)[i]
        == '_' by {
        assert(body.take(m)[i] == all[i + k]);
    }
}

proof fn lemma_segment_components(s: Seq<char>)
    ensures
        forall|i: int|
            0 <= i < segment_components(s).len() ==> key_text(#[trigger] segment_components(s)[i]),
    decreases s.len(),
{
    let n = first_segment(s).len() as int;
    lemma_key_component(first_segment(s));
    if n < s.len() {
        let rest = segment_components(s.skip(n + 1));
        lemma_segment_components(s.skip(n + 1));
        assert forall|i: int| 0 <= i < segment_components(s).len() implies key_text(
            #[trigger] segment_components(s)[i],
        ) by {
            let head_len = segment_components(s).len() - rest.len();
            if i >= head_len {
                assert(segment_components(s)[i] == rest[i - head_len]);
            }
        }
    }
}

proof fn lemma_joined_key_text(parts: Seq<Seq<char>>)
    requires
        parts.len() > 0,
        "_"@ == seq!['_'],
        forall|i: int| 0 <= i < parts.len() ==> key_text(#[trigger] parts[i]),
    ensures
        key_text(text::joined(parts, "_"@)),
    decreases parts.len(),
{
    assert(key_text(parts.last()));
    if parts.len() > 1 {
        assert forall|i: int| 0 <= i < parts.drop_last().len() implies key_text(
            #[trigger] parts.drop_last()[i],
        ) by {
            assert(key_text(parts[i]));
        }
        lemma_joined_key_text(parts.drop_last());
    }
}

// ---------------------------------------------------------------------------
// Canonical URLs
// ---------------------------------------------------------------------------

/// A path that the parser has written is its own normal form but for the slashes at its end.
proof fn lemma_normal_path(path: Seq<char>)
    requires
        path.len() > 0,
        path[0] == '/',
        !text::white_space(path.last()),
    ensures
        normal_path(path) == without_trailing_slashes(path),
{
    assert(text::trimmed_start(path) == path);
    assert(text::trimmed(path) == path);
    lemma_without_trailing_slashes(path);
}

/// The characters of a stripped path stand at the same places in the path.
proof fn lemma_stripped(s: Seq<char>)
    ensures
        without_trailing_slashes(s).len() <= s.len(),
        forall|i: int|
            0 <= i < without_trailing_slashes(s).len() ==> #[trigger] without_trailing_slashes(s)[i]
                == s[i],
    decreases s.len(),
{
    if s.len() > 1 && s.last() == '/' {
        lemma_stripped(s.drop_last());
    }
}

/// The canonical form of a web URL is its text, and that of the URL with the parts of this text.
proof fn lemma_canonical_text(url: UrlView)
    requires
        web_scheme(url.scheme),
        web_url(url),
        canonical_of_parts(url) is Ok,
    ensures
        canonical_of_parts(url) == Ok::<Seq<char>, Seq<char>>(web_text(url)),
        canonical_of_parts(web_parts(url)) == Ok::<Seq<char>, Seq<char>>(web_text(url)),
        web_text(url).len() > 0,
        web_text(url)[0] == 'h',
        web_text(url).last() != '/',
        !text::white_space(web_text(url).last()),
{
    reveal_strlit("http");
    reveal_strlit("https");
    let host = url.host->0;
    let path = without_trailing_slashes(url.path);
    let text = web_text(url);
    assert(text::lower_ascii(host) =~= host);
    assert(port_suffix(url.scheme, url.effective_port->0) == port_text(url.port));
    assert(!text::white_space(url.path[url.path.len() - 1]));
    lemma_normal_path(url.path);
    lemma_without_trailing_slashes(url.path);
    lemma_stripped(url.path);
    assert(path.last() == url.path[path.len() - 1]);
    lemma_normal_path(path);
    if path != seq!['/'] {
        assert(path.len() > 1) by {
            if path.len() == 1 {
                assert(path =~= seq!['/']);
            }
        }
        assert(text.last() == path.last());
    } else if url.port is Some {
        let digits = text::decimal(url.port->0 as nat);
        text::lemma_decimal_digits(url.port->0 as nat);
        assert(text.last() == digits[digits.len() - 1]);
    } else {
        assert(text.last() == host[host.len() - 1]);
    }
}

proof fn lemma_canonical_url_is_stable(raw: Seq<char>, url: UrlView)
    requires
        text::trimmed(raw).len() > 0,
        parsed_url(text::trimmed(raw)) == Ok::<UrlView, Seq<char>>(url),
        web_scheme(url.scheme) ==> web_url(url) && reads_back(url),
        canonical_of_parts(url) is Ok,
    ensures
        stands_for_itself(raw, canonical_of_parts(url)->Ok_0),
{
    lemma_canonical_text(url);
    let canonical = web_text(url);
    assert(text::trimmed_start(canonical) == canonical);
    assert(text::trimmed(canonical) == canonical);
}

/// The components of a path are those of its first part, followed by those of the rest: none is lost,
/// and they keep their order.
pub proof fn law_segments_follow_one_another(first: Seq<char>, rest: Seq<char>)
    ensures
        segment_components(first + seq!['/'] + rest) == segment_components(first)
            + segment_components(rest),
    decreases first.len(),
{
    let whole = first + seq!['/'] + rest;
    lemma_segment_ends(first);
    lemma_segment_ends(whole);
    let n = first_segment(first).len() as int;
    let m = first_segment(whole).len() as int;
    assert(m == n) by {
        if n < m {
            if n < first.len() {
                assert(whole[n] == first[n]);
            } else {
                assert(whole[n] == '/');
            }
        }
        if m < n {
            assert(whole[m] == first[m]);
        }
    }
    assert(whole.take(n) =~= first.take(n));
    if n < first.len() {
        law_segments_follow_one_another(first.skip(n + 1), rest);
        assert(whole.skip(n + 1) =~= first.skip(n + 1) + seq!['/'] + rest);
        assert(segment_components(whole) =~= segment_components(first) + segment_components(rest));
    } else {
        assert(whole.skip(n + 1) =~= rest);
        assert(segment_components(whole) =~= segment_components(first) + segment_components(rest));
    }
}

/// The first segment of a path reaches up to the first slash.
proof fn lemma_segment_ends(s: Seq<char>)
    ensures
        first_segment(s).len() <= s.len(),
        first_segment(s) == s.take(first_segment(s).len() as int),
        forall|i: int| 0 <= i < first_segment(s).len() ==> #[trigger] s[i] != '/',
        first_segment(s).len() < s.len() ==> s[first_segment(s).len() as int] == '/',
    decreases s.len(),
{
    if s.len() > 0 && s[0] != '/' {
        let rest = s.skip(1);
        lemma_segment_ends(rest);
        let n = first_segment(rest).len() as int;
        assert(first_segment(s) =~= s.take(n + 1));
        assert forall|i: int| 0 <= i < n + 1 implies #[trigger] s[i] != '/' by {
            if i > 0 {
                assert(rest[i - 1] == s[i]);
            }
        }
        if n < rest.len() {
            assert(rest[n] == s[n + 1]);
        }
    } else {
        assert(first_segment(s) =~= s.take(0));
    }
}

/// A segment of a path has its component in the key, if it has a letter or a digit.
pub proof fn law_segment_has_its_component(segment: Seq<char>)
    requires
        forall|i: int| 0 <= i < segment.len() ==> #[trigger] segment[i] != '/',
    ensures
        key_component(segment) matches Some(component) ==> segment_components(segment) == seq![
            component,
        ],
        key_component(segment) is None ==> segment_components(segment).len() == 0,
{
    lemma_segment_ends(segment);
    let n = first_segment(segment).len() as int;
    assert(n == segment.len());
    assert(segment.take(n) =~= segment);
}

/// Letters and digits of a text stay in its squeezed form in their order, in lower case; all that
/// stands between them becomes one underscore.
pub proof fn law_squeezing_keeps_letters_and_digits(s: Seq<char>, c: char)
    ensures
        ({
            let low = text::lower_ascii_char(c);
            let more = squeezed(s.push(c));
            &&& key_char(low) ==> more == squeezed(s).push(low)
            &&& !key_char(low) ==> more.len() > 0 && more.last() == '_' && more == if s.len() > 0
                && squeezed(s).last() == '_' {
                squeezed(s)
            } else {
                squeezed(s).push('_')
            }
        }),
        squeezed(s).len() == 0 <==> s.len() == 0,
        s.len() > 0 ==> (squeezed(s).last() == '_' <==> !key_char(
            text::lower_ascii_char(s.last()),
        )),
    decreases s.len(),
{
    let more = s.push(c);
    assert(more.drop_last() =~= s);
    if s.len() > 0 {
        law_squeezing_keeps_letters_and_digits(s.drop_last(), s.last());
        assert(s.drop_last().push(s.last()) =~= s);
        assert(more[more.len() - 2] == s.last());
    }
}

/// A component begins and ends with a letter or a digit, and is cut out of the squeezed text; only
/// underscores are left out.
pub proof fn law_component_lies_in_the_squeezed_text(raw: Seq<char>)
    ensures
        key_component(raw) matches Some(component) ==> component.len() > 0 && component[0] != '_'
            && component.last() != '_' && exists|from: int|
            #![trigger squeezed(raw).subrange(from, from + component.len())]
            0 <= from && from + component.len() <= squeezed(raw).len() && squeezed(raw).subrange(
                from,
                from + component.len(),
            ) == component && (forall|i: int|
                0 <= i < from || from + component.len() <= i < squeezed(raw).len()
                    ==> #[trigger] squeezed(raw)[i] == '_'),
        key_component(raw) is None ==> forall|i: int|
            0 <= i < squeezed(raw).len() ==> #[trigger] squeezed(raw)[i] == '_',
{
    let all = squeezed(raw);
    let led = without_leading_underscores(all);
    let inner = without_trailing_underscores(led);
    lemma_without_leading(all);
    lemma_without_trailing(led);
    let from = all.len() - led.len();
    assert(led =~= all.skip(from));
    assert(inner =~= led.take(inner.len() as int));
    assert(inner =~= all.subrange(from, from + inner.len()));
    assert forall|i: int| 0 <= i < from || from + inner.len() <= i < all.len() implies #[trigger] all[i]
        == '_' by {
        if i >= from {
            assert(led[i - from] == all[i]);
        }
    }
    if inner.len() > 0 {
        assert(inner[0] == led[0]);
    }
}

proof fn lemma_without_leading(s: Seq<char>)
    ensures
        without_leading_underscores(s).len() <= s.len(),
        without_leading_underscores(s) == s.skip(s.len() - without_leading_underscores(s).len()),
        without_leading_underscores(s).len() > 0 ==> without_leading_underscores(s)[0] != '_',
        forall|i: int|
            0 <= i < s.len() - without_leading_underscores(s).len() ==> #[trigger] s[i] == '_',
    decreases s.len(),
{
    if s.len() > 0 && s[0] == '_' {
        let rest = s.skip(1);
        lemma_without_leading(rest);
        let w = without_leading_underscores(s);
        assert(w =~= s.skip(s.len() - w.len()));
        assert forall|i: int| 0 <= i < s.len() - w.len() implies #[trigger] s[i] == '_' by {
            if i > 0 {
                assert(rest[i - 1] == s[i]);
            }
        }
    } else {
        assert(s =~= s.skip(0));
    }
}

proof fn lemma_without_trailing(s: Seq<char>)
    ensures
        without_trailing_underscores(s).len() <= s.len(),
        without_trailing_underscores(s) == s.take(without_trailing_underscores(s).len() as int),
        without_trailing_underscores(s).len() > 0 ==> without_trailing_underscores(s).last() != '_',
        forall|i: int|
            without_trailing_underscores(s).len() <= i < s.len() ==> #[trigger] s[i] == '_',
    decreases s.len(),
{
    if s.len() > 0 && s.last() == '_' {
        let rest = s.drop_last();
        lemma_without_trailing(rest);
        let w = without_trailing_underscores(s);
        assert(w =~= s.take(w.len() as int));
        assert forall|i: int| w.len() <= i < s.len() implies #[trigger] s[i] == '_' by {
            if i < rest.len() {
                assert(rest[i] == s[i]);
            }
        }
    } else {
        assert(s =~= s.take(s.len() as int));
    }
}

/// The key of a server is made of its scheme, its host, its port and each segment of its path, in this
/// order.
pub proof fn law_key_has_every_component(url: UrlView)
    ensures
        server_key_components(url) matches Ok(components) ==> components.len() >= 3
            && key_component(url.scheme) == Some(components[0]) && (url.host matches Some(host)
            && key_component(host) == Some(components[1])) && (url.effective_port matches Some(port)
            && components[2] == text::decimal(port as nat)) && (url.path.len() > 0 && url.path[0]
            == '/' ==> components.skip(3) == segment_components(url.path.skip(1))),
        (url.host matches Some(host) && key_component(host) is Some && key_component(url.scheme)
            is Some && url.effective_port is Some) ==> server_key_components(url) is Ok,
        server_key_components(url) matches Ok(components) ==> server_key_of_parts(url) == Ok::<
            Seq<char>,
            Seq<char>,
        >(text::joined(components, "_"@)),
{
    if let Ok(components) = server_key_components(url) {
        if url.path.len() > 0 && url.path[0] == '/' {
            assert(components.skip(3) =~= segment_components(url.path.skip(1)));
        }
    }
}

/// The WebSocket of a server has its host, its port and its path; it is secure if the server is.
pub proof fn law_websocket_belongs_to_the_server(url: UrlView)
    ensures
        ws_url_of_parts(url) matches Ok(ws) ==> {
            let path = normal_path(url.path);
            let shown = if path == seq!['/'] { Seq::empty() } else { path };
            let scheme = if url.scheme == "https"@ { "wss://"@ } else { "ws://"@ };
            &&& url.scheme == "http"@ || url.scheme == "https"@
            &&& url.host matches Some(host) && ws == scheme + host + port_text(url.port) + shown
                + "/api/firehose/stream/websocket"@
        },
        (url.scheme == "http"@ || url.scheme == "https"@) && url.host is Some
            ==> ws_url_of_parts(url) is Ok,
{
    reveal_strlit("ws");
    reveal_strlit("wss");
    reveal_strlit("://");
    reveal_strlit("ws://");
    reveal_strlit("wss://");
    reveal_strlit("http");
    reveal_strlit("https");
    assert("http"@.len() == 4 && "https"@.len() == 5);
    assert("ws"@ + "://"@ =~= "ws://"@);
    assert("wss"@ + "://"@ =~= "wss://"@);
}

/// A port is written out exactly if it is not the one that the scheme has anyway.
pub proof fn law_port_is_written(scheme: Seq<char>, port: u16)
    ensures
        port_text(Some(port)) == seq![':'] + text::decimal(port as nat),
        port_text(None).len() == 0,
        port_suffix("http"@, 80).len() == 0,
        port_suffix("https"@, 443).len() == 0,
        scheme == "http"@ && port != 80 || scheme == "https"@ && port != 443 ==> port_suffix(
            scheme,
            port,
        ) == seq![':'] + text::decimal(port as nat),
{
    reveal_strlit("http");
    reveal_strlit("https");
    assert("http"@.len() == 4 && "https"@.len() == 5);
}

/// The canonical URL of a server keeps its scheme, its host, its port and its path, and nothing else.
/// It does not depend on the case of the host, on slashes at the end of the path or on whether the
/// usual port is written.
pub proof fn law_canonical_url_has_the_parts(url: UrlView)
    ensures
        canonical_of_parts(url) is Ok <==> (url.scheme == "http"@ || url.scheme == "https"@)
            && url.username.len() == 0 && !url.has_password && !url.has_query && !url.has_fragment
            && url.host is Some && url.effective_port is Some,
        canonical_of_parts(url) matches Ok(canonical) ==> {
            let path = normal_path(url.path);
            canonical == url.scheme + "://"@ + text::lower_ascii(url.host->0) + port_suffix(
                url.scheme,
                url.effective_port->0,
            ) + if path == seq!['/'] { Seq::empty() } else { path }
        },
        text::trimmed(url.path.push('/')) == text::trimmed(url.path).push('/')
            ==> canonical_of_parts((UrlView { path: url.path.push('/'), ..url }))
            == canonical_of_parts(url),
{
    let inner = text::trimmed(url.path);
    let more = text::trimmed(url.path.push('/'));
    if more == inner.push('/') {
        assert(more.drop_last() =~= inner);
        if inner.len() > 0 {
            assert(without_trailing_slashes(more) == without_trailing_slashes(inner));
        } else {
            assert(more =~= seq!['/']);
            assert(without_trailing_slashes(more) == more);
        }
        assert(normal_path(url.path.push('/')) == normal_path(url.path));
    }
}

/// The normal path is the path without the slashes at its end.
pub proof fn law_normal_path_keeps_the_path(path: Seq<char>)
    ensures
        path.len() > 1 && path[0] == '/' && text::trimmed(path) == path && path.last() != '/'
            ==> normal_path(path) == path,
        path.len() > 0 && path[0] == '/' && text::trimmed(path) == path
            ==> normal_path(path).is_prefix_of(path) && forall|i: int|
            normal_path(path).len() <= i < path.len() ==> #[trigger] path[i] == '/',
        text::trimmed(path).len() == 0 ==> normal_path(path) == seq!['/'],
{
    if path.len() > 0 {
        lemma_slashes_are_cut(path);
    }
}

proof fn lemma_slashes_are_cut(s: Seq<char>)
    requires
        s.len() > 0,
    ensures
        0 < without_trailing_slashes(s).len() <= s.len(),
        without_trailing_slashes(s) == s.take(without_trailing_slashes(s).len() as int),
        forall|i: int| without_trailing_slashes(s).len() <= i < s.len() ==> #[trigger] s[i] == '/',
    decreases s.len(),
{
    if s.len() > 1 && s.last() == '/' {
        let rest = s.drop_last();
        lemma_slashes_are_cut(rest);
        let w = without_trailing_slashes(s);
        assert(w =~= s.take(w.len() as int));
        assert forall|i: int| w.len() <= i < s.len() implies #[trigger] s[i] == '/' by {
            if i < rest.len() {
                assert(rest[i] == s[i]);
            }
        }
    } else {
        assert(s =~= s.take(s.len() as int));
    }
}

/// A URL that is refused is refused for a reason: what it is of a kind that the daemon does not speak,
/// what it names beyond the server, or what it lacks.
pub proof fn law_refusal_tells_the_reason(url: UrlView)
    ensures
        ({
            let web = url.scheme == "http"@ || url.scheme == "https"@;
            let user = url.username.len() > 0 || url.has_password;
            let more = url.has_query || url.has_fragment;
            &&& !web ==> canonical_of_parts(url) == Err::<Seq<char>, Seq<char>>(
                "unsupported server URL scheme: "@ + url.scheme,
            )
            &&& web && user ==> canonical_of_parts(url) == Err::<Seq<char>, Seq<char>>(
                "server URL must not include userinfo"@,
            )
            &&& web && !user && more ==> canonical_of_parts(url) == Err::<Seq<char>, Seq<char>>(
                "server URL must not include query or fragment"@,
            )
            &&& web && !user && !more && url.host is None ==> canonical_of_parts(url) == Err::<
                Seq<char>,
                Seq<char>,
            >("server URL missing host"@)
        }),
{
}

/// A blank text is no URL, and neither is one that cannot be read as one; white space around a URL does
/// not count.
pub proof fn law_url_is_read_without_white_space(raw: Seq<char>)
    ensures
        text::trimmed(raw).len() == 0 ==> canonical_base_url(raw) == Err::<Seq<char>, Seq<char>>(
            "missing server base_url"@,
        ),
        text::trimmed(raw).len() > 0 && parsed_url(text::trimmed(raw)) is Err ==> canonical_base_url(
            raw,
        ) == Err::<Seq<char>, Seq<char>>("invalid server base_url"@),
        text::trimmed(raw).len() > 0 ==> (parsed_url(text::trimmed(raw)) matches Ok(url)
            ==> canonical_base_url(raw) == canonical_of_parts(url)),
        canonical_base_url(text::trimmed(raw)) == canonical_base_url(raw),
{
    text::lemma_trimmed_twice(raw);
}

} // verus!
