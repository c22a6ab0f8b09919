//! What holds of URLs: a URL that is written out and parsed again is the same
//! URL, and so a redirect's target that is a path leads to the same host.

use crate::bytes::{
    find, has_prefix, lemma_find_concat, lemma_find_from, lemma_find_from_is, lowercase, AT, COLON,
    HASH, QUESTION, SLASH,
};
use crate::error::Error;
use crate::http_url::{
    absolute_spec, all_ascii, authority_end, base_dir, base_url_spec, credentials_spec,
    credentials_text, ends_authority, find_last, full_url_spec, has_scheme, host_port_spec,
    is_scheme_byte, lemma_authority_end, parse_spec, path_spec, port_spec, port_text,
    resolve_spec, resource_spec, scheme_spec, scheme_text, url_wf, Port, Url,
};
use crate::numbers::{decimal, digit_value, lemma_decimal_round_trip};
use vstd::prelude::*;
use vstd::string::StringSliceAdditionalSpecFns;

verus! {

/// Whether `b` does not occur in `s`.
pub open spec fn free_of(s: Seq<u8>, b: u8) -> bool {
    forall|i: int| 0 <= i < s.len() ==> s[i] != b
}

/// Whether none of the bytes that end an authority occurs in `s`.
pub open spec fn within_authority(s: Seq<u8>) -> bool {
    forall|i: int| 0 <= i < s.len() ==> !ends_authority(#[trigger] s[i])
}

/// A byte that does not occur is not found.
pub proof fn lemma_find_absent(s: Seq<u8>, b: u8)
    requires
        free_of(s, b),
    ensures
        find(s, b) == s.len(),
{
    lemma_find_from_is(s, b, 0, s.len() as int);
}

/// The first byte of a kind after a stretch without it is found right there.
pub proof fn lemma_find_after(a: Seq<u8>, c: Seq<u8>, b: u8)
    requires
        free_of(a, b),
        c.len() > 0,
        c[0] == b,
    ensures
        find(a + c, b) == a.len(),
{
    lemma_find_absent(a, b);
    lemma_find_concat(a, c, b);
}

/// An index with no end of the authority before it, and one (or the end of the
/// string) at it, is where the authority ends.
proof fn lemma_authority_end_is(s: Seq<u8>, from: int, i: int)
    requires
        0 <= from <= i <= s.len(),
        forall|j: int| from <= j < i ==> !ends_authority(#[trigger] s[j]),
        i < s.len() ==> ends_authority(s[i]),
    ensures
        authority_end(s, from) == i,
    decreases i - from,
{
    if from < i {
        assert(!ends_authority(s[from]));
        lemma_authority_end_is(s, from + 1, i);
    }
}

/// The decimal digits of a number are digits: none of them is a mark of a URL.
proof fn lemma_decimal_is_plain(n: nat)
    ensures
        within_authority(decimal(n)),
        free_of(decimal(n), COLON),
        free_of(decimal(n), AT),
        decimal(n).len() > 0,
{
    lemma_decimal_round_trip(n, n);
    let d = decimal(n);
    assert forall|i: int| 0 <= i < d.len() implies 0x30 <= (#[trigger] d[i]) <= 0x39 by {
        assert(digit_value(d[i], 10) is Some);
    }
}

/// The scheme that a URL is written with is the scheme that is read from it.
proof fn lemma_scheme_is_read(https: bool, tail: Seq<u8>)
    ensures
        scheme_spec(scheme_text(https) + tail) == Some(
            (
                https,
                if https {
                    8int
                } else {
                    7int
                },
            ),
        ),
        (scheme_text(https) + tail).skip(scheme_text(https).len() as int) == tail,
        scheme_text(https).len() == if https {
            8int
        } else {
            7int
        },
{
    reveal_strlit("http://");
    reveal_strlit("https://");
    vstd::utf8::is_ascii_chars_encode_utf8("http://"@);
    vstd::utf8::is_ascii_chars_encode_utf8("https://"@);
    let text = scheme_text(https) + tail;
    let low = lowercase(text);
    let plain = "http://".spec_bytes();
    let secure = "https://".spec_bytes();
    assert(text.skip(scheme_text(https).len() as int) =~= tail);
    if https {
        assert(low.subrange(0, 8) =~= secure);
        if has_prefix(low, plain) {
            assert(low.subrange(0, 7)[4] == plain[4]);
            assert(low[4] == secure[4]);
        }
    } else {
        assert(low.subrange(0, 7) =~= plain);
    }
}

/// Whether user name and password are such that they can stand in a URL: neither
/// holds a byte that ends the authority or an `@`, and the user name holds no
/// colon.
pub open spec fn plain_credentials(credentials: Option<(Seq<u8>, Seq<u8>)>) -> bool {
    match credentials {
        Some((user, password)) => {
            &&& within_authority(user)
            &&& within_authority(password)
            &&& free_of(user, AT)
            &&& free_of(password, AT)
            &&& free_of(user, COLON)
        },
        None => true,
    }
}

/// Whether a URL is such that it can be written out: its parts hold none of the
/// bytes that would end them early. Every URL that the parser returns is such.
pub open spec fn writable(url: Url) -> bool {
    &&& url_wf(url)
    &&& all_ascii(url.host)
    &&& within_authority(url.host)
    &&& free_of(url.host, COLON)
    &&& url.credentials is None ==> free_of(url.host, AT)
    &&& free_of(url.path_and_query, HASH)
    &&& plain_credentials(url.credentials)
}

/// The authority of a URL as it is written: credentials, host and port.
pub open spec fn authority_text(url: Url) -> Seq<u8> {
    credentials_text(url.credentials) + url.host + port_text(url.port)
}

/// The authority of a URL that is written out holds no byte that ends it.
proof fn lemma_authority_is_plain(url: Url)
    requires
        writable(url),
    ensures
        within_authority(authority_text(url)),
{
    let text = authority_text(url);
    let credentials = credentials_text(url.credentials);
    let port = port_text(url.port);
    if let Port::Explicit(number) = url.port {
        lemma_decimal_is_plain(number as nat);
    }
    assert forall|i: int| 0 <= i < text.len() implies !ends_authority(#[trigger] text[i]) by {
        if i < credentials.len() {
            assert(text[i] == credentials[i]);
            if let Some((user, password)) = url.credentials {
                if i < user.len() {
                    assert(credentials[i] == user[i]);
                } else if i == user.len() {
                    assert(credentials[i] == COLON);
                } else if i < user.len() + 1 + password.len() {
                    assert(credentials[i] == password[i - user.len() - 1]);
                } else {
                    assert(credentials[i] == AT);
                }
            }
        } else if i < credentials.len() + url.host.len() {
            assert(text[i] == url.host[i - credentials.len()]);
        } else {
            let k = i - credentials.len() - url.host.len();
            assert(text[i] == port[k]);
            if let Port::Explicit(number) = url.port {
                if k > 0 {
                    assert(port[k] == decimal(number as nat)[k - 1]);
                }
            }
        }
    }
}

/// The credentials that a URL is written with are the credentials that are read
/// from its authority, and what follows them is host and port.
proof fn lemma_credentials_are_read(url: Url)
    requires
        writable(url),
    ensures
        credentials_spec(authority_text(url)) == url.credentials,
        host_port_spec(authority_text(url)) == url.host + port_text(url.port),
{
    let tail = url.host + port_text(url.port);
    let text = authority_text(url);
    if let Port::Explicit(number) = url.port {
        lemma_decimal_is_plain(number as nat);
    }
    match url.credentials {
        Some((user, password)) => {
            let userinfo = user + seq![COLON] + password;
            assert(free_of(userinfo, AT)) by {
                assert forall|i: int| 0 <= i < userinfo.len() implies userinfo[i] != AT by {
                    if i < user.len() {
                        assert(userinfo[i] == user[i]);
                    } else if i > user.len() {
                        assert(userinfo[i] == password[i - user.len() - 1]);
                    }
                }
            }
            assert(text =~= userinfo + (seq![AT] + tail));
            lemma_find_after(userinfo, seq![AT] + tail, AT);
            assert(text.take(userinfo.len() as int) =~= userinfo);
            assert(text.skip(userinfo.len() as int + 1) =~= tail);
            assert(userinfo =~= user + (seq![COLON] + password));
            lemma_find_after(user, seq![COLON] + password, COLON);
            assert(userinfo.take(user.len() as int) =~= user);
            assert(userinfo.skip(user.len() as int + 1) =~= password);
        },
        None => {
            assert forall|i: int| 0 <= i < tail.len() implies tail[i] != AT by {
                if i < url.host.len() {
                    assert(tail[i] == url.host[i]);
                } else {
                    let k = i - url.host.len();
                    assert(tail[i] == port_text(url.port)[k]);
                    if let Port::Explicit(number) = url.port {
                        if k > 0 {
                            assert(port_text(url.port)[k] == decimal(number as nat)[k - 1]);
                        }
                    }
                }
            }
            assert(text =~= tail);
            lemma_find_absent(tail, AT);
        },
    }
}

/// The host and port that a URL is written with are the host and port that are
/// read from it.
proof fn lemma_host_and_port_are_read(url: Url)
    requires
        writable(url),
    ensures
        ({
            let host_port = url.host + port_text(url.port);
            let colon = find(host_port, COLON);
            &&& host_port.take(colon) == url.host
            &&& port_spec(
                if colon < host_port.len() {
                    host_port.skip(colon + 1)
                } else {
                    Seq::<u8>::empty()
                },
            ) == Ok::<Port, Error>(url.port)
        }),
{
    let host_port = url.host + port_text(url.port);
    match url.port {
        Port::Explicit(number) => {
            lemma_decimal_round_trip(number as nat, 0xffff);
            let digits = decimal(number as nat);
            assert(host_port =~= url.host + (seq![COLON] + digits));
            lemma_find_after(url.host, seq![COLON] + digits, COLON);
            assert(host_port.take(url.host.len() as int) =~= url.host);
            assert(host_port.skip(url.host.len() as int + 1) =~= digits);
        },
        Port::Implicit => {
            assert(host_port =~= url.host);
            lemma_find_absent(url.host, COLON);
            assert(host_port.take(url.host.len() as int) =~= url.host);
        },
    }
}

/// The path, query and fragment that a URL is written with are those that are
/// read from it.
proof fn lemma_resource_is_read(url: Url)
    requires
        writable(url),
    ensures
        ({
            let resource = resource_spec(url);
            let hash = find(resource, HASH);
            &&& path_spec(resource.take(hash)) == url.path_and_query
            &&& hash < resource.len() <==> url.fragment is Some
            &&& url.fragment matches Some(fragment) ==> resource.skip(hash + 1) == fragment
        }),
{
    let resource = resource_spec(url);
    let path = url.path_and_query;
    match url.fragment {
        Some(fragment) => {
            assert(resource =~= path + (seq![HASH] + fragment));
            lemma_find_after(path, seq![HASH] + fragment, HASH);
            assert(resource.take(path.len() as int) =~= path);
            assert(resource.skip(path.len() as int + 1) =~= fragment);
        },
        None => {
            lemma_find_absent(path, HASH);
            assert(resource.take(path.len() as int) =~= path);
        },
    }
}

/// A URL that is written out and parsed again is the same URL. Where it has no
/// fragment, it takes the fragment that the parser is given to hand down.
pub proof fn law_url_round_trip(url: Url, inherited: Option<Seq<u8>>)
    requires
        writable(url),
    ensures
        parse_spec(full_url_spec(url), inherited) == Ok::<Url, Error>(
            Url {
                fragment: if url.fragment is Some {
                    url.fragment
                } else {
                    inherited
                },
                ..url
            },
        ),
{
    let authority = authority_text(url);
    let resource = resource_spec(url);
    let after = authority + resource;
    let text = full_url_spec(url);
    assert(text =~= scheme_text(url.https) + after);
    lemma_scheme_is_read(url.https, after);
    lemma_authority_is_plain(url);
    assert(resource[0] == url.path_and_query[0]);
    assert forall|j: int| 0 <= j < authority.len() implies !ends_authority(#[trigger] after[j]) by {
        assert(after[j] == authority[j]);
    }
    assert(after[authority.len() as int] == resource[0]);
    lemma_authority_end_is(after, 0, authority.len() as int);
    assert(after.take(authority.len() as int) =~= authority);
    assert(after.skip(authority.len() as int) =~= resource);
    lemma_credentials_are_read(url);
    lemma_host_and_port_are_read(url);
    lemma_resource_is_read(url);
}

/// Every URL that the parser returns can be written out.
pub proof fn law_parsed_url_is_writable(text: Seq<u8>, inherited: Option<Seq<u8>>)
    ensures
        parse_spec(text, inherited) matches Ok(url) ==> writable(url),
{
    if let Some((_, taken)) = scheme_spec(text) {
        let after = text.skip(taken);
        lemma_authority_end(after, 0);
        let end = authority_end(after, 0);
        let authority = after.take(end);
        let resource = after.skip(end);
        assert(within_authority(authority)) by {
            assert forall|i: int| 0 <= i < authority.len() implies !ends_authority(
                #[trigger] authority[i],
            ) by {
                assert(authority[i] == after[i]);
            }
        }
        lemma_find_from(authority, AT, 0);
        let at = find(authority, AT);
        let host_port = host_port_spec(authority);
        lemma_find_from(host_port, COLON, 0);
        let colon = find(host_port, COLON);
        let host = host_port.take(colon);
        let shift = if at < authority.len() {
            at + 1
        } else {
            0
        };
        assert forall|i: int| 0 <= i < host.len() implies !ends_authority(#[trigger] host[i])
            && host[i] != COLON && (at >= authority.len() ==> host[i] != AT) by {
            assert(host[i] == host_port[i]);
            assert(host_port[i] == authority[i + shift]);
        }
        lemma_find_from(resource, HASH, 0);
        let hash = find(resource, HASH);
        let raw = resource.take(hash);
        assert(free_of(path_spec(raw), HASH)) by {
            assert forall|i: int| 0 <= i < path_spec(raw).len() implies path_spec(raw)[i]
                != HASH by {
                if raw.len() > 0 && raw[0] == QUESTION {
                    if i > 0 {
                        assert(path_spec(raw)[i] == raw[i - 1]);
                        assert(raw[i - 1] == resource[i - 1]);
                    }
                } else if raw.len() > 0 {
                    assert(raw[i] == resource[i]);
                }
            }
        }
        if at < authority.len() {
            let userinfo = authority.take(at);
            lemma_find_from(userinfo, COLON, 0);
            let split = find(userinfo, COLON);
            let user = userinfo.take(split);
            let password = if split < userinfo.len() {
                userinfo.skip(split + 1)
            } else {
                Seq::<u8>::empty()
            };
            assert forall|i: int| 0 <= i < user.len() implies !ends_authority(#[trigger] user[i])
                && user[i] != AT && user[i] != COLON by {
                assert(user[i] == userinfo[i]);
                assert(userinfo[i] == authority[i]);
            }
            assert forall|i: int| 0 <= i < password.len() implies !ends_authority(
                #[trigger] password[i],
            ) && password[i] != AT by {
                assert(password[i] == userinfo[i + split + 1]);
                assert(userinfo[i + split + 1] == authority[i + split + 1]);
            }
        }
        crate::http_url::lemma_parse_spec_wf(text, inherited);
    }
}

/// The fragment that a redirect's target names, or else the one that is kept.
pub open spec fn fragment_after(named: Option<Seq<u8>>, kept: Option<Seq<u8>>) -> Option<Seq<u8>> {
    if named is Some {
        named
    } else {
        kept
    }
}

/// A redirect's target as a server writes it: a path with query, and a fragment
/// if it names one.
pub open spec fn location_of(path: Seq<u8>, fragment: Option<Seq<u8>>) -> Seq<u8> {
    match fragment {
        Some(fragment) => path + seq![HASH] + fragment,
        None => path,
    }
}

/// A redirect to a path stays on the host: where the target begins with one `/`,
/// the URL that the redirect leads to has the scheme, credentials, host and port
/// of the URL that it came from, and the target's path and query. Its fragment is
/// the target's if the target names one, else the one of the URL that the
/// redirect came from.
pub proof fn law_redirect_to_path(base: Url, path: Seq<u8>, fragment: Option<Seq<u8>>)
    requires
        writable(base),
        path.len() > 0,
        path[0] == SLASH,
        path.len() >= 2 ==> path[1] != SLASH,
        free_of(path, HASH),
    ensures
        resolve_spec(base, location_of(path, fragment)) == Ok::<Url, Error>(
            Url {
                path_and_query: path,
                fragment: fragment_after(fragment, base.fragment),
                ..base
            },
        ),
{
    let location = location_of(path, fragment);
    let target = Url { path_and_query: path, fragment, ..base };
    assert(location[0] == SLASH);
    assert(!has_scheme(location)) by {
        lemma_find_from(location, COLON, 0);
        if find(location, COLON) > 0 {
            assert(!is_scheme_byte(location[0]));
        }
    }
    assert(!has_prefix(location, seq![SLASH, SLASH])) by {
        if location.len() >= 2 {
            assert(location.subrange(0, 2)[1] == location[1]);
            if path.len() >= 2 {
                assert(location[1] == path[1]);
            } else {
                assert(location[1] == HASH);
            }
        }
    }
    assert(has_prefix(location, seq![SLASH])) by {
        assert(location.subrange(0, 1) =~= seq![SLASH]);
    }
    assert(absolute_spec(base, location) =~= full_url_spec(target)) by {
        assert(location =~= resource_spec(target));
        assert(base_url_spec(base) == base_url_spec(target));
    }
    law_url_round_trip(target, base.fragment);
}

/// A redirect to a relative path stays in the directory: where the target names
/// no scheme and does not begin with `/`, the URL that the redirect leads to has
/// the scheme, credentials, host and port of the URL that it came from, and its
/// path is the target's, read in the directory of the path that the redirect came
/// from.
pub proof fn law_redirect_to_relative_path(base: Url, path: Seq<u8>, fragment: Option<Seq<u8>>)
    requires
        writable(base),
        !has_scheme(location_of(path, fragment)),
        path.len() > 0 ==> path[0] != SLASH,
        free_of(path, HASH),
    ensures
        resolve_spec(base, location_of(path, fragment)) == Ok::<Url, Error>(
            Url {
                path_and_query: base_dir(base.path_and_query) + path,
                fragment: fragment_after(fragment, base.fragment),
                ..base
            },
        ),
{
    let location = location_of(path, fragment);
    let directory = base_dir(base.path_and_query);
    let target = Url { path_and_query: directory + path, fragment, ..base };
    assert(location.len() > 0 ==> location[0] != SLASH) by {
        if location.len() > 0 {
            if path.len() > 0 {
                assert(location[0] == path[0]);
            } else {
                assert(location[0] == HASH);
            }
        }
    }
    assert(!has_prefix(location, seq![SLASH, SLASH])) by {
        if location.len() >= 2 {
            assert(location.subrange(0, 2)[0] == location[0]);
        }
    }
    assert(!has_prefix(location, seq![SLASH])) by {
        if location.len() >= 1 {
            assert(location.subrange(0, 1)[0] == location[0]);
        }
    }
    lemma_base_dir(base.path_and_query);
    assert(free_of(directory + path, HASH)) by {
        assert forall|i: int| 0 <= i < (directory + path).len() implies (directory + path)[i]
            != HASH by {
            if i < directory.len() {
                assert((directory + path)[i] == directory[i]);
            } else {
                assert((directory + path)[i] == path[i - directory.len()]);
            }
        }
    }
    assert((directory + path)[0] == directory[0]);
    assert(absolute_spec(base, location) =~= full_url_spec(target)) by {
        assert(directory + location =~= resource_spec(target));
        assert(base_url_spec(base) == base_url_spec(target));
        assert(base_url_spec(base) + directory + location =~= base_url_spec(base) + (directory
            + location));
    }
    law_url_round_trip(target, base.fragment);
}

/// The directory of a path begins with `/`, and holds no `#` where the path holds
/// none.
proof fn lemma_base_dir(path_and_query: Seq<u8>)
    requires
        path_and_query.len() > 0,
        path_and_query[0] == SLASH,
        free_of(path_and_query, HASH),
    ensures
        base_dir(path_and_query).len() > 0,
        base_dir(path_and_query)[0] == SLASH,
        free_of(base_dir(path_and_query), HASH),
{
    lemma_find_from(path_and_query, QUESTION, 0);
    let path_len = find(path_and_query, QUESTION);
    lemma_find_last_bounds(path_and_query, SLASH, path_len);
    let slash = find_last(path_and_query, SLASH, path_len);
    if slash >= 0 {
        let directory = path_and_query.take(slash + 1);
        assert(directory[0] == path_and_query[0]);
        assert forall|i: int| 0 <= i < directory.len() implies directory[i] != HASH by {
            assert(directory[i] == path_and_query[i]);
        }
    }
}

/// `find_last` stays inside the range.
proof fn lemma_find_last_bounds(s: Seq<u8>, b: u8, upto: int)
    requires
        0 <= upto <= s.len(),
    ensures
        -1 <= find_last(s, b, upto) < upto,
    decreases upto,
{
    if upto > 0 && s[upto - 1] != b {
        lemma_find_last_bounds(s, b, upto - 1);
    }
}

} // verus!
