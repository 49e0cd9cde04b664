//! Probe URL construction.
//!
//! From a base endpoint, a target and a module name the builder produces
//! `scheme://authority<path>/probe?<query>`, preserving the base endpoint's
//! path and query: the probe path is the base path with a single trailing
//! slash stripped and `/probe` appended, and `target=<encoded>` and
//! `module=<encoded>` are appended to the base query.

use vstd::prelude::*;
use vstd::string::*;
use vstd::utf8::*;
use crate::codec::{encode_component, spec_pct_encode};

verus! {

/// A base endpoint, split into the parts the builder reads.
#[derive(Debug)]
pub struct Endpoint {
    pub scheme: Option<String>,
    pub authority: Option<String>,
    pub path: String,
    pub query: Option<String>,
}

/// A built probe request URL, kept both as its parts and as the assembled
/// string.
#[derive(Debug)]
pub struct ProbeUrl {
    pub scheme: String,
    pub authority: String,
    pub path: String,
    pub query: String,
    pub url: String,
}

/// Why a URL could not be built: the assembled string is not a well-formed
/// URI.
#[derive(Clone, Copy, PartialEq, Eq, Structural, Debug)]
pub enum UrlError {
    InvalidUri,
}

/// Whether the URI grammar accepts a string.  The grammar is the outside
/// parser's; nothing here depends on its details.
pub uninterp spec fn uri_accepted(s: Seq<char>) -> bool;

/// Relies on `http::Uri`'s string parser (`str::parse::<http::Uri>`): it
/// accepts or rejects a given string deterministically, returns a `Result`
/// and never panics, and on success its accessors hand the URI's parts back
/// as plain strings.
#[verifier::external_body]
fn parse_endpoint(s: &str) -> (r: Option<Endpoint>)
    ensures
        r is Some <==> uri_accepted(s@),
{
    match s.parse::<http::Uri>() {
        Ok(u) => Some(
            Endpoint {
                scheme: u.scheme_str().map(|v| v.to_string()),
                authority: u.authority().map(|a| a.as_str().to_string()),
                path: u.path().to_string(),
                query: u.query().map(|q| q.to_string()),
            },
        ),
        Err(_) => None,
    }
}

/// A path with a single trailing slash stripped.
pub open spec fn spec_strip_slash(p: Seq<char>) -> Seq<char> {
    if p.len() > 0 && p.last() == '/' {
        p.drop_last()
    } else {
        p
    }
}

/// The probe path: the base path with a single trailing slash stripped and
/// `/probe` appended.  An empty base path or `/` alone gives `/probe`.
pub open spec fn spec_probe_path(p: Seq<char>) -> Seq<char> {
    spec_strip_slash(p) + "/probe"@
}

/// The characters of a percent-encoded value: its encoded bytes are ASCII,
/// read back as characters.
pub open spec fn spec_encoded_chars(s: Seq<char>) -> Seq<char> {
    decode_utf8(spec_pct_encode(encode_utf8(s)))
}

/// The built query: the base query, if any, then `target=` and `module=`
/// with the percent-encoded target and module.
pub open spec fn spec_built_query(q: Option<Seq<char>>, t: Seq<char>, m: Seq<char>) -> Seq<char> {
    match q {
        Option::None => "target="@ + spec_encoded_chars(t) + "&module="@ + spec_encoded_chars(m),
        Option::Some(qs) => qs + "&target="@ + spec_encoded_chars(t) + "&module="@
            + spec_encoded_chars(m),
    }
}

/// The assembled URL string.
pub open spec fn spec_built_url(
    scheme: Seq<char>,
    authority: Seq<char>,
    path: Seq<char>,
    query: Seq<char>,
) -> Seq<char> {
    scheme + "://"@ + authority + path + "?"@ + query
}

impl Endpoint {
    /// The scheme, defaulting to `http` where the base has none.
    pub open spec fn spec_scheme(&self) -> Seq<char> {
        match self.scheme {
            Option::Some(s) => s@,
            Option::None => "http"@,
        }
    }

    /// The authority, empty where the base has none.
    pub open spec fn spec_authority(&self) -> Seq<char> {
        match self.authority {
            Option::Some(a) => a@,
            Option::None => Seq::<char>::empty(),
        }
    }

    /// The query as an optional character sequence.
    pub open spec fn spec_query(&self) -> Option<Seq<char>> {
        match self.query {
            Option::Some(q) => Option::Some(q@),
            Option::None => Option::None,
        }
    }

    /// The probe URL string this endpoint yields for a target and module.
    pub open spec fn spec_probe_url(&self, t: Seq<char>, m: Seq<char>) -> Seq<char> {
        spec_built_url(
            self.spec_scheme(),
            self.spec_authority(),
            spec_probe_path(self.path@),
            spec_built_query(self.spec_query(), t, m),
        )
    }
}

impl ProbeUrl {
    /// The assembled URL.
    pub fn url_string(&self) -> (r: String)
        ensures
            r@ == self.url@,
    {
        self.url.clone()
    }

    /// The URL's query string.
    pub fn query(&self) -> (r: &String)
        ensures
            r@ == self.query@,
    {
        &self.query
    }
}

/// Parse a base URL string into its parts.  Fails exactly on the strings the
/// URI grammar rejects.
pub fn parse_base_url(s: &str) -> (r: Result<Endpoint, UrlError>)
    ensures
        r is Ok <==> uri_accepted(s@),
        r is Err ==> r == Result::<Endpoint, UrlError>::Err(UrlError::InvalidUri),
{
    match parse_endpoint(s) {
        Some(e) => Ok(e),
        None => Err(UrlError::InvalidUri),
    }
}

/// The probe path for a base path.
fn probe_path(path: &str) -> (r: String)
    ensures
        r@ == spec_probe_path(path@),
{
    let n = path.unicode_len();
    let stripped: &str = if n > 0 && path.get_char(n - 1) == '/' {
        path.substring_char(0, n - 1)
    } else {
        path
    };
    proof {
        assert(path@.subrange(0, path@.len() - 1) =~= path@.drop_last());
        assert(stripped@ == spec_strip_slash(path@));
    }
    let mut r = String::from_str(stripped);
    r.append("/probe");
    r
}

/// Construct the probe URL for one target.
///
/// The result preserves the base path and query as `spec_probe_path` and
/// `spec_built_query` state; construction fails exactly when the URI grammar
/// rejects the assembled string.
pub fn construct_probe_url(base: &Endpoint, target: &str, module: &str) -> (r: Result<
    ProbeUrl,
    UrlError,
>)
    ensures
        r is Ok <==> uri_accepted(base.spec_probe_url(target@, module@)),
        r matches Ok(u) ==> {
            &&& u.scheme@ == base.spec_scheme()
            &&& u.authority@ == base.spec_authority()
            &&& u.path@ == spec_probe_path(base.path@)
            &&& u.query@ == spec_built_query(base.spec_query(), target@, module@)
            &&& u.url@ == base.spec_probe_url(target@, module@)
        },
        r is Err ==> r == Result::<ProbeUrl, UrlError>::Err(UrlError::InvalidUri),
{
    let scheme = match &base.scheme {
        Some(s) => s.clone(),
        None => String::from_str("http"),
    };
    let authority = match &base.authority {
        Some(a) => a.clone(),
        None => String::new(),
    };
    let path = probe_path(base.path.as_str());
    let encoded_target = encode_component(target);
    let encoded_module = encode_component(module);
    proof {
        broadcast use vstd::utf8::encode_utf8_decode_utf8;

        assert(encoded_target@ == spec_encoded_chars(target@));
        assert(encoded_module@ == spec_encoded_chars(module@));
    }
    let mut query = match &base.query {
        Some(q) => {
            let mut x = q.clone();
            x.append("&target=");
            x
        },
        None => String::from_str("target="),
    };
    query.append(encoded_target.as_str());
    query.append("&module=");
    query.append(encoded_module.as_str());
    let mut url = scheme.clone();
    url.append("://");
    url.append(authority.as_str());
    url.append(path.as_str());
    url.append("?");
    url.append(query.as_str());
    proof {
        assert(url@ == base.spec_probe_url(target@, module@));
    }
    if parse_endpoint(url.as_str()).is_some() {
        Ok(ProbeUrl { scheme, authority, path, query, url })
    } else {
        Err(UrlError::InvalidUri)
    }
}

/// Construct one probe URL per target, in order.  Succeeds exactly when the
/// URI grammar accepts every target's assembled URL.
pub fn build_probe_urls(base: &Endpoint, targets: &Vec<String>, module: &str) -> (r: Result<
    Vec<ProbeUrl>,
    UrlError,
>)
    ensures
        r is Ok <==> (forall|i: int|
            0 <= i < targets@.len() ==> uri_accepted(
                base.spec_probe_url((#[trigger] targets@[i])@, module@),
            )),
        r matches Ok(v) ==> {
            &&& v@.len() == targets@.len()
            &&& forall|i: int|
                0 <= i < targets@.len() ==> {
                    let u = #[trigger] v@[i];
                    &&& u.scheme@ == base.spec_scheme()
                    &&& u.authority@ == base.spec_authority()
                    &&& u.path@ == spec_probe_path(base.path@)
                    &&& u.query@ == spec_built_query(base.spec_query(), targets@[i]@, module@)
                    &&& u.url@ == base.spec_probe_url(targets@[i]@, module@)
                }
        },
        r is Err ==> r == Result::<Vec<ProbeUrl>, UrlError>::Err(UrlError::InvalidUri),
{
    let mut urls: Vec<ProbeUrl> = Vec::new();
    let n = targets.len();
    let mut i: usize = 0;
    while i < n
        invariant
            n == targets@.len(),
            i <= n,
            urls@.len() == i,
            forall|j: int|
                0 <= j < i ==> uri_accepted(
                    base.spec_probe_url((#[trigger] targets@[j])@, module@),
                ),
            forall|j: int|
                0 <= j < i ==> {
                    let u = #[trigger] urls@[j];
                    &&& u.scheme@ == base.spec_scheme()
                    &&& u.authority@ == base.spec_authority()
                    &&& u.path@ == spec_probe_path(base.path@)
                    &&& u.query@ == spec_built_query(base.spec_query(), targets@[j]@, module@)
                    &&& u.url@ == base.spec_probe_url(targets@[j]@, module@)
                },
        decreases n - i,
    {
        match construct_probe_url(base, targets[i].as_str(), module) {
            Ok(u) => {
                urls.push(u);
            },
            Err(e) => {
                return Err(e);
            },
        }
        i = i + 1;
    }
    Ok(urls)
}

/// The index of the first `&` in a byte sequence, or its length when it
/// holds none.
pub open spec fn spec_first_amp(bs: Seq<u8>) -> nat
    decreases bs.len(),
{
    if bs.len() == 0 {
        0
    } else if bs[0] == 0x26 {
        0
    } else {
        1 + spec_first_amp(bs.drop_first())
    }
}

/// `spec_first_amp` holds what its name says: everything before it is not
/// `&`, and it points at a `&` unless it is the length.
pub proof fn lemma_first_amp_bounds(bs: Seq<u8>)
    ensures
        spec_first_amp(bs) <= bs.len(),
        forall|j: int| 0 <= j < spec_first_amp(bs) ==> bs[j] != 0x26,
        spec_first_amp(bs) < bs.len() ==> bs[spec_first_amp(bs) as int] == 0x26,
    decreases bs.len(),
{
    if bs.len() > 0 && bs[0] != 0x26 {
        lemma_first_amp_bounds(bs.drop_first());
        let e = spec_first_amp(bs);
        assert forall|j: int| 0 <= j < e implies bs[j] != 0x26 by {
            if j > 0 {
                assert(bs.drop_first()[j - 1] != 0x26);
            }
        }
        if e < bs.len() {
            assert(bs.drop_first()[e - 1] == 0x26);
        }
    }
}

/// An index before which no `&` stands, and which points at a `&` or the
/// end, is the first `&`.
pub proof fn lemma_first_amp_is(bs: Seq<u8>, e: int)
    requires
        0 <= e <= bs.len(),
        forall|j: int| 0 <= j < e ==> bs[j] != 0x26,
        e < bs.len() ==> bs[e] == 0x26,
    ensures
        spec_first_amp(bs) == e,
    decreases bs.len(),
{
    if bs.len() == 0 {
    } else if bs[0] == 0x26 {
        assert(e == 0);
    } else {
        assert(e > 0);
        assert forall|j: int| 0 <= j < e - 1 implies bs.drop_first()[j] != 0x26 by {
            assert(bs.drop_first()[j] == bs[j + 1]);
        }
        assert(e - 1 < bs.drop_first().len() ==> bs.drop_first()[e - 1] == 0x26);
        lemma_first_amp_is(bs.drop_first(), e - 1);
    }
}

/// The bytes of `target=`.
pub open spec fn spec_target_key() -> Seq<u8> {
    seq![0x74u8, 0x61u8, 0x72u8, 0x67u8, 0x65u8, 0x74u8, 0x3du8]
}

/// Whether a query segment starts with `target=`.
pub open spec fn spec_has_target_prefix(seg: Seq<u8>) -> bool {
    seg.len() >= 7 && seg.take(7) == spec_target_key()
}

/// The value of the first `target=` parameter of a query, still encoded, or
/// nothing when the query has no such parameter.  Segments are separated by
/// `&`.
pub open spec fn spec_target_param(bs: Seq<u8>) -> Option<Seq<u8>>
    decreases bs.len(),
{
    let e = spec_first_amp(bs) as int;
    let seg = bs.take(e);
    if spec_has_target_prefix(seg) {
        Option::Some(seg.skip(7))
    } else if e < bs.len() {
        spec_target_param(bs.skip(e + 1))
    } else {
        Option::None
    }
}

/// The target a built URL's query decodes to: the first `target=` value,
/// percent-decoded and read as UTF-8; empty when the parameter is absent or
/// does not decode.
pub open spec fn spec_extracted_target(q: Seq<char>) -> Seq<char> {
    match spec_target_param(encode_utf8(q)) {
        Option::Some(enc) => if valid_utf8(crate::codec::spec_pct_decode(enc)) {
            decode_utf8(crate::codec::spec_pct_decode(enc))
        } else {
            Seq::<char>::empty()
        },
        Option::None => Seq::<char>::empty(),
    }
}

/// Extract and decode the `target=` parameter of a query string; absence or
/// a decoding failure yields the empty string.
pub fn extract_target(query: &str) -> (t: String)
    ensures
        t@ == spec_extracted_target(query@),
{
    let bs = query.as_bytes();
    let n = bs.len();
    let mut i: usize = 0;
    proof {
        assert(bs@.skip(0) =~= bs@);
    }
    loop
        invariant
            bs@ == encode_utf8(query@),
            n == bs@.len(),
            i <= n,
            spec_target_param(bs@.skip(i as int)) == spec_target_param(bs@),
        decreases n - i,
    {
        let ghost seg_suffix = bs@.skip(i as int);
        let mut e: usize = i;
        while e < n && bs[e] != 0x26
            invariant
                bs@ == encode_utf8(query@),
                n == bs@.len(),
                i <= e <= n,
                forall|j: int| i <= j < e ==> bs@[j] != 0x26,
            decreases n - e,
        {
            e = e + 1;
        }
        proof {
            assert forall|j: int| 0 <= j < e - i implies seg_suffix[j] != 0x26 by {
                assert(seg_suffix[j] == bs@[i + j]);
            }
            assert((e - i) < seg_suffix.len() ==> seg_suffix[e - i] == bs@[e as int]);
            lemma_first_amp_is(seg_suffix, e - i);
        }
        let ghost seg = seg_suffix.take(e - i);
        proof {
            assert(forall|j: int| 0 <= j < seg.len() ==> seg[j] == bs@[i + j]);
        }
        if e - i >= 7 && bs[i] == 0x74 && bs[i + 1] == 0x61 && bs[i + 2] == 0x72 && bs[i + 3]
            == 0x67 && bs[i + 4] == 0x65 && bs[i + 5] == 0x74 && bs[i + 6] == 0x3d {
            proof {
                assert(seg.take(7) =~= spec_target_key());
            }
            let value = vstd::slice::slice_subrange(bs, i + 7, e);
            proof {
                assert(value@ =~= seg.skip(7));
            }
            let decoded = crate::codec::pct_decode_bytes(value);
            match crate::codec::bytes_to_string(decoded) {
                Some(s) => {
                    return s;
                },
                None => {
                    return String::new();
                },
            }
        } else if e < n {
            proof {
                if spec_has_target_prefix(seg) {
                    assert(seg.take(7)[0] == seg[0]);
                    assert(seg.take(7)[1] == seg[1]);
                    assert(seg.take(7)[2] == seg[2]);
                    assert(seg.take(7)[3] == seg[3]);
                    assert(seg.take(7)[4] == seg[4]);
                    assert(seg.take(7)[5] == seg[5]);
                    assert(seg.take(7)[6] == seg[6]);
                    assert(false);
                }
                assert(seg_suffix.skip(e - i + 1) =~= bs@.skip(e + 1));
                assert(spec_target_param(bs@.skip(e + 1)) == spec_target_param(bs@));
            }
            i = e + 1;
        } else {
            proof {
                if spec_has_target_prefix(seg) {
                    assert(seg.take(7)[0] == seg[0]);
                    assert(seg.take(7)[1] == seg[1]);
                    assert(seg.take(7)[2] == seg[2]);
                    assert(seg.take(7)[3] == seg[3]);
                    assert(seg.take(7)[4] == seg[4]);
                    assert(seg.take(7)[5] == seg[5]);
                    assert(seg.take(7)[6] == seg[6]);
                    assert(false);
                }
                assert(spec_target_param(seg_suffix) is None);
            }
            return String::new();
        }
    }
}

} // verus!
