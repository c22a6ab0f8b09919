//! URLs of the two schemes that the client speaks, and how a redirect's target is
//! read against the URL that it came from.

use crate::bytes::{
    bytes_eq, copy_bytes, copy_range, find, find_byte, has_prefix, lemma_find_from,
    lowercase, starts_with, to_lowercase, AT, COLON, HASH, QUESTION, SLASH,
};
use crate::error::Error;
use crate::numbers::{decimal, parse_u16, parse_unsigned, push_decimal};
use vstd::prelude::*;
use vstd::slice::slice_subrange;
use vstd::string::StringSliceAdditionalSpecFns;

verus! {

/// The port of a URL.
#[derive(Clone, Copy, Debug, PartialEq, Eq, Structural)]
pub enum Port {
    /// The URL names no port: the scheme's own port is meant.
    Implicit,
    /// The URL names this port.
    Explicit(u16),
}

/// What a URL is.
pub struct Url {
    /// Whether the scheme is `https`.
    pub https: bool,
    /// The host.
    pub host: Seq<u8>,
    /// The port.
    pub port: Port,
    /// The path with the query, which begins with `/`.
    pub path_and_query: Seq<u8>,
    /// The fragment, which is never sent.
    pub fragment: Option<Seq<u8>>,
    /// The user name and password.
    pub credentials: Option<(Seq<u8>, Seq<u8>)>,
}

/// A parsed URL.
pub struct HttpUrl {
    /// Whether the scheme is `https`.
    pub https: bool,
    /// The host.
    pub host: Vec<u8>,
    /// The port.
    pub port: Port,
    /// The path with the query, which begins with `/`.
    pub path_and_query: Vec<u8>,
    /// The fragment, which is never sent.
    pub fragment: Option<Vec<u8>>,
    /// The user name and password.
    pub credentials: Option<(Vec<u8>, Vec<u8>)>,
}

impl View for HttpUrl {
    type V = Url;

    open spec fn view(&self) -> Url {
        Url {
            https: self.https,
            host: self.host@,
            port: self.port,
            path_and_query: self.path_and_query@,
            fragment: match self.fragment {
                Some(fragment) => Some(fragment@),
                None => None,
            },
            credentials: match self.credentials {
                Some((user, password)) => Some((user@, password@)),
                None => None,
            },
        }
    }
}

/// The invariant of a URL: it has a host, and its path begins with `/`.
pub open spec fn url_wf(url: Url) -> bool {
    url.host.len() > 0 && url.path_and_query.len() > 0 && url.path_and_query[0] == SLASH
}

/// The port that a connection to the URL goes to.
pub open spec fn port_number(url: Url) -> u16 {
    match url.port {
        Port::Explicit(port) => port,
        Port::Implicit => if url.https {
            443
        } else {
            80
        },
    }
}

/// Whether two URLs name the same resource: they agree in all but the fragment.
pub open spec fn same_resource(a: Url, b: Url) -> bool {
    a.https == b.https && a.host == b.host && a.port == b.port && a.path_and_query
        == b.path_and_query && a.credentials == b.credentials
}

/// Whether a byte ends the authority of a URL.
pub open spec fn ends_authority(b: u8) -> bool {
    b == SLASH || b == QUESTION || b == HASH
}

/// Index of the first byte at or after `from` that ends the authority, or `s.len()`.
pub open spec fn authority_end(s: Seq<u8>, from: int) -> int
    decreases s.len() - from,
{
    if from < 0 || from >= s.len() {
        s.len() as int
    } else if ends_authority(s[from]) {
        from
    } else {
        authority_end(s, from + 1)
    }
}

/// `authority_end` stays inside the string.
pub proof fn lemma_authority_end(s: Seq<u8>, from: int)
    requires
        0 <= from <= s.len(),
    ensures
        from <= authority_end(s, from) <= s.len(),
        authority_end(s, from) < s.len() ==> ends_authority(s[authority_end(s, from)]),
        forall|j: int| from <= j < authority_end(s, from) ==> !ends_authority(#[trigger] s[j]),
    decreases s.len() - from,
{
    if from < s.len() && !ends_authority(s[from]) {
        lemma_authority_end(s, from + 1);
    }
}

/// The scheme of a URL: whether it is `https`, and how many bytes the scheme with
/// its `://` takes. The scheme is read without regard to case.
pub open spec fn scheme_spec(url: Seq<u8>) -> Option<(bool, int)> {
    if has_prefix(lowercase(url), "http://".spec_bytes()) {
        Some((false, 7))
    } else if has_prefix(lowercase(url), "https://".spec_bytes()) {
        Some((true, 8))
    } else {
        None
    }
}

/// The user name and password that stand before the `@` of an authority.
pub open spec fn credentials_spec(authority: Seq<u8>) -> Option<(Seq<u8>, Seq<u8>)> {
    let at = find(authority, AT);
    if at < authority.len() {
        let userinfo = authority.take(at);
        let colon = find(userinfo, COLON);
        if colon < userinfo.len() {
            Some((userinfo.take(colon), userinfo.skip(colon + 1)))
        } else {
            Some((userinfo, Seq::<u8>::empty()))
        }
    } else {
        None
    }
}

/// The host and port of an authority: what follows its `@`, or all of it.
pub open spec fn host_port_spec(authority: Seq<u8>) -> Seq<u8> {
    let at = find(authority, AT);
    if at < authority.len() {
        authority.skip(at + 1)
    } else {
        authority
    }
}

/// The port that the text after the host's colon names.
pub open spec fn port_spec(text: Seq<u8>) -> Result<Port, Error> {
    if text.len() == 0 {
        Ok(Port::Implicit)
    } else {
        match parse_unsigned(text, 10, 0xffff) {
            Some(port) => Ok(Port::Explicit(port as u16)),
            None => Err(Error::InvalidUrl),
        }
    }
}

/// Whether every byte is ASCII.
pub open spec fn all_ascii(s: Seq<u8>) -> bool {
    forall|i: int| 0 <= i < s.len() ==> s[i] < 0x80
}

/// The path and query of a URL, given what stands between authority and
/// fragment: an absent path is `/`.
pub open spec fn path_spec(raw: Seq<u8>) -> Seq<u8> {
    if raw.len() == 0 {
        seq![SLASH]
    } else if raw[0] == QUESTION {
        seq![SLASH] + raw
    } else {
        raw
    }
}

/// What parsing `url` gives. A URL without a fragment takes the one given in
/// `inherited`.
///
/// The scheme is `http` or `https`. The authority runs to the first `/`, `?` or
/// `#`; in it, user name and password stand before the `@`, and the port after
/// the host's colon. The path and query run to the `#`, the fragment to the end.
pub open spec fn parse_spec(url: Seq<u8>, inherited: Option<Seq<u8>>) -> Result<Url, Error> {
    match scheme_spec(url) {
        None => Err(Error::InvalidUrl),
        Some((https, taken)) => {
            let after = url.skip(taken);
            let end = authority_end(after, 0);
            let authority = after.take(end);
            let resource = after.skip(end);
            let host_port = host_port_spec(authority);
            let colon = find(host_port, COLON);
            let host = host_port.take(colon);
            let port_text = if colon < host_port.len() {
                host_port.skip(colon + 1)
            } else {
                Seq::<u8>::empty()
            };
            let hash = find(resource, HASH);
            if host.len() == 0 {
                Err(Error::InvalidUrl)
            } else if !all_ascii(host) {
                Err(Error::PunycodeFeatureNotEnabled)
            } else {
                match port_spec(port_text) {
                    Err(e) => Err(e),
                    Ok(port) => Ok(
                        Url {
                            https,
                            host,
                            port,
                            path_and_query: path_spec(resource.take(hash)),
                            fragment: if hash < resource.len() {
                                Some(resource.skip(hash + 1))
                            } else {
                                inherited
                            },
                            credentials: credentials_spec(authority),
                        },
                    ),
                }
            }
        },
    }
}

/// A parsed URL has a host, and its path begins with `/`.
pub proof fn lemma_parse_spec_wf(url: Seq<u8>, inherited: Option<Seq<u8>>)
    ensures
        parse_spec(url, inherited) matches Ok(parsed) ==> url_wf(parsed),
{
    if let Some((_, taken)) = scheme_spec(url) {
        let after = url.skip(taken);
        lemma_authority_end(after, 0);
        let resource = after.skip(authority_end(after, 0));
        lemma_find_from(resource, HASH, 0);
    }
}

/// Whether every byte of `s` is ASCII.
pub fn is_ascii_bytes(s: &[u8]) -> (r: bool)
    ensures
        r == all_ascii(s@),
{
    let mut i: usize = 0;
    while i < s.len()
        invariant
            0 <= i <= s.len(),
            forall|j: int| 0 <= j < i ==> s@[j] < 0x80,
        decreases s.len() - i,
    {
        if s[i] >= 0x80 {
            return false;
        }
        i += 1;
    }
    true
}

/// Finds where the authority ends.
fn find_authority_end(s: &[u8]) -> (r: usize)
    ensures
        r == authority_end(s@, 0),
        r <= s.len(),
{
    let mut i: usize = 0;
    while i < s.len()
        invariant
            0 <= i <= s.len(),
            authority_end(s@, 0) == authority_end(s@, i as int),
        decreases s.len() - i,
    {
        let b = s[i];
        if b == SLASH || b == QUESTION || b == HASH {
            return i;
        }
        i += 1;
    }
    i
}

/// Reads the user name and password of an authority.
fn parse_credentials(authority: &[u8]) -> (r: Option<(Vec<u8>, Vec<u8>)>)
    ensures
        match credentials_spec(authority@) {
            Some((user, password)) => r matches Some((u, p)) && u@ == user && p@ == password,
            None => r is None,
        },
{
    let at = find_byte(authority, AT, 0);
    if at < authority.len() {
        let userinfo = slice_subrange(authority, 0, at);
        let colon = find_byte(userinfo, COLON, 0);
        if colon < userinfo.len() {
            Some((copy_range(userinfo, 0, colon), copy_range(userinfo, colon + 1, userinfo.len())))
        } else {
            Some((copy_bytes(userinfo), Vec::new()))
        }
    } else {
        None
    }
}

impl HttpUrl {
    /// The invariant of a URL: it has a host, and its path begins with `/`.
    pub open spec fn wf(&self) -> bool {
        url_wf(self@)
    }

    /// Parses a URL. Where it has no fragment and `redirected_from` has one, it
    /// takes that one: a fragment outlives a redirect that names no other.
    #[verifier::rlimit(40)]
    pub fn parse(url: &[u8], redirected_from: Option<&HttpUrl>) -> (r: Result<HttpUrl, Error>)
        ensures
            match parse_spec(
                url@,
                match redirected_from {
                    Some(from) => from@.fragment,
                    None => None,
                },
            ) {
                Ok(parsed) => r matches Ok(u) && u@ == parsed && u.wf(),
                Err(e) => r matches Err(x) && x == e,
            },
    {
        let lowered = to_lowercase(url);
        let (https, taken): (bool, usize) = if starts_with(
            lowered.as_slice(),
            "http://".as_bytes(),
        ) {
            (false, 7)
        } else if starts_with(lowered.as_slice(), "https://".as_bytes()) {
            (true, 8)
        } else {
            return Err(Error::InvalidUrl);
        };
        proof {
            reveal_strlit("http://");
            reveal_strlit("https://");
            vstd::utf8::is_ascii_chars_encode_utf8("http://"@);
            vstd::utf8::is_ascii_chars_encode_utf8("https://"@);
        }
        let after = slice_subrange(url, taken, url.len());
        let end = find_authority_end(after);
        let authority = slice_subrange(after, 0, end);
        let resource = slice_subrange(after, end, after.len());
        let at = find_byte(authority, AT, 0);
        let host_port = if at < authority.len() {
            slice_subrange(authority, at + 1, authority.len())
        } else {
            authority
        };
        let colon = find_byte(host_port, COLON, 0);
        let host = slice_subrange(host_port, 0, colon);
        let port_text = if colon < host_port.len() {
            slice_subrange(host_port, colon + 1, host_port.len())
        } else {
            slice_subrange(host_port, 0, 0)
        };
        let hash = find_byte(resource, HASH, 0);
        if host.len() == 0 {
            return Err(Error::InvalidUrl);
        }
        if !is_ascii_bytes(host) {
            return Err(Error::PunycodeFeatureNotEnabled);
        }
        let port = if port_text.len() == 0 {
            Port::Implicit
        } else {
            match parse_u16(port_text) {
                Some(port) => Port::Explicit(port),
                None => {
                    return Err(Error::InvalidUrl);
                },
            }
        };
        let raw = slice_subrange(resource, 0, hash);
        let mut path_and_query: Vec<u8> = Vec::new();
        if raw.len() == 0 || raw[0] == QUESTION {
            path_and_query.push(SLASH);
        }
        path_and_query.extend_from_slice(raw);
        assert(path_and_query@ =~= path_spec(raw@));
        let fragment = if hash < resource.len() {
            Some(copy_range(resource, hash + 1, resource.len()))
        } else {
            match redirected_from {
                Some(from) => match &from.fragment {
                    Some(fragment) => Some(copy_bytes(fragment.as_slice())),
                    None => None,
                },
                None => None,
            }
        };
        let credentials = parse_credentials(authority);
        proof {
            lemma_parse_spec_wf(
                url@,
                match redirected_from {
                    Some(from) => from@.fragment,
                    None => None,
                },
            );
        }
        Ok(HttpUrl { https, host: copy_bytes(host), port, path_and_query, fragment, credentials })
    }

    /// The port that a connection to the URL goes to: the port that it names, or
    /// 443 for `https` and 80 for `http`.
    pub fn port(&self) -> (r: u16)
        ensures
            r == port_number(self@),
    {
        match self.port {
            Port::Explicit(port) => port,
            Port::Implicit => if self.https {
                443
            } else {
                80
            },
        }
    }

    /// Whether two URLs name the same resource: they agree in all but the fragment.
    pub fn is_same_resource(&self, other: &HttpUrl) -> (r: bool)
        ensures
            r == same_resource(self@, other@),
    {
        let same_credentials = match (&self.credentials, &other.credentials) {
            (Some((user, password)), Some((other_user, other_password))) => bytes_eq(
                user.as_slice(),
                other_user.as_slice(),
            ) && bytes_eq(password.as_slice(), other_password.as_slice()),
            (None, None) => true,
            _ => false,
        };
        self.https == other.https && bytes_eq(self.host.as_slice(), other.host.as_slice())
            && self.port == other.port && bytes_eq(
            self.path_and_query.as_slice(),
            other.path_and_query.as_slice(),
        ) && same_credentials
    }

    /// A copy of the URL.
    pub fn duplicate(&self) -> (r: HttpUrl)
        ensures
            r@ == self@,
    {
        HttpUrl {
            https: self.https,
            host: copy_bytes(self.host.as_slice()),
            port: self.port,
            path_and_query: copy_bytes(self.path_and_query.as_slice()),
            fragment: match &self.fragment {
                Some(fragment) => Some(copy_bytes(fragment.as_slice())),
                None => None,
            },
            credentials: match &self.credentials {
                Some((user, password)) => Some(
                    (copy_bytes(user.as_slice()), copy_bytes(password.as_slice())),
                ),
                None => None,
            },
        }
    }
}

/// The scheme of a URL with its `://`.
pub open spec fn scheme_text(https: bool) -> Seq<u8> {
    if https {
        "https://".spec_bytes()
    } else {
        "http://".spec_bytes()
    }
}

/// User name and password as they stand in a URL, with the `@` after them.
pub open spec fn credentials_text(credentials: Option<(Seq<u8>, Seq<u8>)>) -> Seq<u8> {
    match credentials {
        Some((user, password)) => user + seq![COLON] + password + seq![AT],
        None => Seq::<u8>::empty(),
    }
}

/// The port as it stands in a URL, with the `:` before it; nothing for an implicit
/// port.
pub open spec fn port_text(port: Port) -> Seq<u8> {
    match port {
        Port::Explicit(port) => seq![COLON] + decimal(port as nat),
        Port::Implicit => Seq::<u8>::empty(),
    }
}

/// The URL up to its path: scheme, credentials, host and port.
pub open spec fn base_url_spec(url: Url) -> Seq<u8> {
    scheme_text(url.https) + credentials_text(url.credentials) + url.host + port_text(url.port)
}

/// The URL from its path on: path, query and fragment.
pub open spec fn resource_spec(url: Url) -> Seq<u8> {
    match url.fragment {
        Some(fragment) => url.path_and_query + seq![HASH] + fragment,
        None => url.path_and_query,
    }
}

/// The whole URL.
pub open spec fn full_url_spec(url: Url) -> Seq<u8> {
    base_url_spec(url) + resource_spec(url)
}

/// Index of the last `b` among the first `upto` bytes of `s`, or `-1`.
pub open spec fn find_last(s: Seq<u8>, b: u8, upto: int) -> int
    decreases upto,
{
    if upto <= 0 || upto > s.len() {
        -1
    } else if s[upto - 1] == b {
        upto - 1
    } else {
        find_last(s, b, upto - 1)
    }
}

/// The directory of a path with query: the path up to its last `/`, that `/`
/// included.
pub open spec fn base_dir(path_and_query: Seq<u8>) -> Seq<u8> {
    let path_len = find(path_and_query, QUESTION);
    let slash = find_last(path_and_query, SLASH, path_len);
    if slash < 0 {
        seq![SLASH]
    } else {
        path_and_query.take(slash + 1)
    }
}

/// Whether a byte may stand in the name of a scheme.
pub open spec fn is_scheme_byte(b: u8) -> bool {
    (0x61 <= b <= 0x7a) || (0x41 <= b <= 0x5a) || (0x30 <= b <= 0x39) || b == 0x2b || b == 0x2d
        || b == 0x2e
}

/// Whether a redirect's target names a scheme: a letter, then letters, digits,
/// `+`, `-` and `.`, then a colon.
pub open spec fn has_scheme(location: Seq<u8>) -> bool {
    let colon = find(location, COLON);
    &&& 0 < colon < location.len()
    &&& !(0x30 <= location[0] <= 0x39) && location[0] != 0x2b && location[0] != 0x2d
        && location[0] != 0x2e
    &&& forall|i: int| 0 <= i < colon ==> is_scheme_byte(#[trigger] location[i])
}

/// The absolute URL that a redirect's target stands for, read against the URL
/// that the redirect came from.
///
/// A target with a scheme stands for itself. One that begins with `//` takes the
/// scheme alone. One that begins with `/` takes scheme and authority, and
/// replaces path and query. Any other is a path in the directory of the path that
/// the redirect came from.
pub open spec fn absolute_spec(base: Url, location: Seq<u8>) -> Seq<u8> {
    if has_scheme(location) {
        location
    } else if has_prefix(location, seq![SLASH, SLASH]) {
        (if base.https {
            "https:".spec_bytes()
        } else {
            "http:".spec_bytes()
        }) + location
    } else if has_prefix(location, seq![SLASH]) {
        base_url_spec(base) + location
    } else {
        base_url_spec(base) + base_dir(base.path_and_query) + location
    }
}

/// The URL that a redirect leads to. A target without a fragment keeps the
/// fragment of the URL that the redirect came from.
pub open spec fn resolve_spec(base: Url, location: Seq<u8>) -> Result<Url, Error> {
    parse_spec(absolute_spec(base, location), base.fragment)
}

/// Whether a redirect's target names a scheme.
pub fn names_scheme(location: &[u8]) -> (r: bool)
    ensures
        r == has_scheme(location@),
{
    let colon = find_byte(location, COLON, 0);
    if colon == 0 || colon >= location.len() {
        return false;
    }
    let first = location[0];
    if (0x30 <= first && first <= 0x39) || first == 0x2b || first == 0x2d || first == 0x2e {
        return false;
    }
    let mut i: usize = 0;
    while i < colon
        invariant
            0 <= i <= colon < location.len(),
            colon == find(location@, COLON),
            first == location@[0],
            !((0x30 <= first && first <= 0x39) || first == 0x2b || first == 0x2d || first
                == 0x2e),
            forall|j: int| 0 <= j < i ==> is_scheme_byte(#[trigger] location@[j]),
        decreases colon - i,
    {
        let b = location[i];
        let ok = (0x61 <= b && b <= 0x7a) || (0x41 <= b && b <= 0x5a) || (0x30 <= b && b <= 0x39)
            || b == 0x2b || b == 0x2d || b == 0x2e;
        if !ok {
            assert(!is_scheme_byte(location@[i as int]));
            return false;
        }
        i += 1;
    }
    true
}

/// Appends the directory of a path with query.
fn push_base_dir(dst: &mut Vec<u8>, path_and_query: &[u8])
    ensures
        final(dst)@ == old(dst)@ + base_dir(path_and_query@),
{
    let path_len = find_byte(path_and_query, QUESTION, 0);
    let mut upto: usize = path_len;
    while upto > 0 && path_and_query[upto - 1] != SLASH
        invariant
            0 <= upto <= path_len <= path_and_query.len(),
            find_last(path_and_query@, SLASH, path_len as int) == find_last(
                path_and_query@,
                SLASH,
                upto as int,
            ),
        decreases upto,
    {
        upto -= 1;
    }
    if upto == 0 {
        dst.push(SLASH);
        assert(dst@ =~= old(dst)@ + seq![SLASH]);
    } else {
        dst.extend_from_slice(slice_subrange(path_and_query, 0, upto));
    }
}

impl HttpUrl {
    /// Appends the URL up to its path: scheme, credentials, host and port.
    #[verifier::rlimit(40)]
    pub fn write_base_url_to(&self, dst: &mut Vec<u8>)
        ensures
            final(dst)@ == old(dst)@ + base_url_spec(self@),
    {
        if self.https {
            dst.extend_from_slice("https://".as_bytes());
        } else {
            dst.extend_from_slice("http://".as_bytes());
        }
        if let Some((user, password)) = &self.credentials {
            dst.extend_from_slice(user.as_slice());
            dst.push(COLON);
            dst.extend_from_slice(password.as_slice());
            dst.push(AT);
            assert(dst@ =~= old(dst)@ + scheme_text(self.https) + credentials_text(
                self@.credentials,
            ));
        }
        dst.extend_from_slice(self.host.as_slice());
        let ghost before_port = dst@;
        if let Port::Explicit(port) = self.port {
            dst.push(COLON);
            push_decimal(dst, port as u64);
            assert(dst@ =~= before_port + port_text(self.port));
        }
        assert(dst@ =~= old(dst)@ + base_url_spec(self@));
    }

    /// Appends the URL from its path on: path, query and fragment.
    pub fn write_resource_to(&self, dst: &mut Vec<u8>)
        ensures
            final(dst)@ == old(dst)@ + resource_spec(self@),
    {
        dst.extend_from_slice(self.path_and_query.as_slice());
        if let Some(fragment) = &self.fragment {
            dst.push(HASH);
            dst.extend_from_slice(fragment.as_slice());
        }
        assert(dst@ =~= old(dst)@ + resource_spec(self@));
    }

    /// The whole URL.
    pub fn to_bytes(&self) -> (r: Vec<u8>)
        ensures
            r@ == full_url_spec(self@),
    {
        let mut dst: Vec<u8> = Vec::new();
        self.write_base_url_to(&mut dst);
        self.write_resource_to(&mut dst);
        assert(dst@ =~= full_url_spec(self@));
        dst
    }

    /// The URL that a redirect with the target `location` leads to from here.
    #[verifier::rlimit(40)]
    pub fn resolve(&self, location: &[u8]) -> (r: Result<HttpUrl, Error>)
        ensures
            match resolve_spec(self@, location@) {
                Ok(target) => r matches Ok(u) && u@ == target && u.wf(),
                Err(e) => r matches Err(x) && x == e,
            },
    {
        let mut absolute: Vec<u8> = Vec::new();
        if names_scheme(location) {
        } else if location.len() >= 2 && location[0] == SLASH && location[1] == SLASH {
            assert(location@.subrange(0, 2) =~= seq![SLASH, SLASH]);
            if self.https {
                absolute.extend_from_slice("https:".as_bytes());
            } else {
                absolute.extend_from_slice("http:".as_bytes());
            }
        } else if location.len() >= 1 && location[0] == SLASH {
            assert(location@.subrange(0, 1) =~= seq![SLASH]);
            assert(!has_prefix(location@, seq![SLASH, SLASH])) by {
                if location@.len() >= 2 {
                    assert(location@.subrange(0, 2)[1] == location@[1]);
                }
            }
            self.write_base_url_to(&mut absolute);
        } else {
            assert(!has_prefix(location@, seq![SLASH])) by {
                if location@.len() >= 1 {
                    assert(location@.subrange(0, 1)[0] == location@[0]);
                }
            }
            assert(!has_prefix(location@, seq![SLASH, SLASH])) by {
                if location@.len() >= 2 {
                    assert(location@.subrange(0, 2)[0] == location@[0]);
                }
            }
            self.write_base_url_to(&mut absolute);
            push_base_dir(&mut absolute, self.path_and_query.as_slice());
        }
        absolute.extend_from_slice(location);
        assert(absolute@ =~= absolute_spec(self@, location@));
        HttpUrl::parse(absolute.as_slice(), Some(self))
    }
}

} // verus!
