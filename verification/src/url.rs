//! Relay URLs in canonical form.

use vstd::prelude::*;
use crate::error::CoreError;

verus! {

/// The canonical form that `nostr_types` gives a relay URL written as `text`,
/// or `None` where it refuses the text.
pub uninterp spec fn canonical_relay_url(text: Seq<char>) -> Option<Seq<char>>;

#[verifier::external_type_specification]
#[verifier::external_body]
pub struct ExNostrTypesError(nostr_types::Error);

/// `nostr_types::RelayUrl::try_from_str`: parses and normalises `text` (the
/// scheme and host come out in lower case), and refuses what is no
/// `ws`/`wss` URL with an Internet host. The outcome depends on the text
/// alone, so the contract names it; it claims no more.
#[verifier::external_body]
fn canonicalize(text: &str) -> (r: Result<String, nostr_types::Error>)
    ensures
        r is Ok <==> canonical_relay_url(text@) is Some,
        r matches Ok(u) ==> canonical_relay_url(text@) == Some(u@),
{
    match nostr_types::RelayUrl::try_from_str(text) {
        Ok(u) => Ok(u.0),
        Err(e) => Err(e),
    }
}

/// What `http` makes of `text` read as a URI: nothing where it cannot be
/// read; else the authority, the part that names user, host and port, or
/// none where the URI has none.
pub uninterp spec fn uri_authority(text: Seq<char>) -> Option<Option<Seq<char>>>;

#[verifier::external_type_specification]
#[verifier::external_body]
pub struct ExInvalidUri(http::uri::InvalidUri);

/// `str::parse::<http::Uri>` and `http::Uri::authority`: reads `text` as a
/// URI and hands back its authority as text. The outcome depends on the
/// text alone, so the contract names it; it claims no more.
#[verifier::external_body]
fn authority_of(text: &str) -> (r: Result<Option<String>, http::uri::InvalidUri>)
    ensures
        match r {
            Ok(Some(a)) => uri_authority(text@) == Some(Some(a@)),
            Ok(None) => uri_authority(text@) == Some(None::<Seq<char>>),
            Err(_) => uri_authority(text@) is None,
        },
{
    match text.parse::<http::Uri>() {
        Ok(uri) => match uri.authority() {
            Some(a) => Ok(Some(a.as_str().to_owned())),
            None => Ok(None),
        },
        Err(e) => Err(e),
    }
}

/// The text after the first `@` of `authority`; all of it where it has
/// none.
pub open spec fn after_at(authority: Seq<char>) -> Seq<char> {
    match authority.index_of_first('@') {
        Some(i) => authority.skip(i + 1),
        None => authority,
    }
}

/// The text after the first `@` of `authority`.
pub fn strip_user(authority: &str) -> (r: String)
    ensures
        r@ == after_at(authority@),
{
    let n = authority.unicode_len();
    let mut i: usize = 0;
    while i < n
        invariant
            i <= n,
            n == authority@.len(),
            forall|j: int| 0 <= j < i ==> authority@[j] != '@',
        decreases n - i,
    {
        if authority.get_char(i) == '@' {
            proof {
                authority@.index_of_first_ensures('@');
                assert(authority@.contains('@'));
                let first = authority@.index_of_first('@').unwrap();
                if first < i {
                    assert(authority@[first] != '@');
                }
                if i < first {
                    assert(authority@[i as int] != '@');
                }
                assert(authority@.skip(i + 1) =~= authority@.subrange(i + 1, n as int));
            }
            return authority.substring_char(i + 1, n).to_owned();
        }
        i += 1;
    }
    proof {
        authority@.index_of_first_ensures('@');
    }
    authority.to_owned()
}

/// The host of the URL `url`, with its port: the authority that `http`
/// finds in it, less what stands before the first `@`.
pub open spec fn host_and_port(url: Seq<char>) -> Result<Seq<char>, CoreError> {
    match uri_authority(url) {
        None => Err(CoreError::InvalidUri),
        Some(None) => Err(CoreError::UrlHasNoHostname),
        Some(Some(a)) => if after_at(a).len() == 0 {
            Err(CoreError::UrlHasEmptyHostname)
        } else {
            Ok(after_at(a))
        },
    }
}

/// The URL of a relay, validated and in canonical form. Two are the same
/// relay exactly when their texts are equal. There is no way to change one.
#[derive(Debug)]
pub struct RelayUrl {
    inner: String,
}

impl View for RelayUrl {
    type V = Seq<char>;

    closed spec fn view(&self) -> Seq<char> {
        self.inner@
    }
}

impl Clone for RelayUrl {
    fn clone(&self) -> (r: Self)
        ensures
            r == *self,
    {
        RelayUrl { inner: self.inner.clone() }
    }
}

impl RelayUrl {
    /// The relay URL that `text` denotes. Fails with `CoreError::InvalidUrl`,
    /// holding `text`, exactly when the text has no canonical form.
    pub fn try_from_str(text: &str) -> (r: Result<RelayUrl, CoreError>)
        ensures
            match r {
                Ok(u) => canonical_relay_url(text@) == Some(u@),
                Err(CoreError::InvalidUrl(t)) => canonical_relay_url(text@) is None && t@ == text@,
                Err(_) => false,
            },
    {
        match canonicalize(text) {
            Ok(inner) => Ok(RelayUrl { inner }),
            Err(_) => Err(CoreError::InvalidUrl(text.to_owned())),
        }
    }

    /// The text of the URL.
    pub fn as_str(&self) -> (r: &str)
        ensures
            r@ == self@,
    {
        self.inner.as_str()
    }

    /// The host of the relay, with its port if the URL names one.
    pub fn host(&self) -> (r: Result<String, CoreError>)
        ensures
            match r {
                Ok(h) => host_and_port(self@) == Ok::<Seq<char>, CoreError>(h@),
                Err(e) => host_and_port(self@) == Err::<Seq<char>, CoreError>(e),
            },
    {
        match authority_of(self.inner.as_str()) {
            Err(_) => Err(CoreError::InvalidUri),
            Ok(None) => Err(CoreError::UrlHasNoHostname),
            Ok(Some(a)) => {
                let host = strip_user(a.as_str());
                if host.as_str().unicode_len() == 0 {
                    Err(CoreError::UrlHasEmptyHostname)
                } else {
                    Ok(host)
                }
            },
        }
    }

    /// Whether both name the same relay.
    pub fn same_as(&self, other: &RelayUrl) -> (r: bool)
        ensures
            r == (self@ == other@),
    {
        self.inner == other.inner
    }

    /// Whether `target`, the address on a message to the workers, is this URL.
    pub fn is_target(&self, target: &String) -> (r: bool)
        ensures
            r == (self@ == target@),
    {
        self.inner == *target
    }
}

/// Whether `url` occurs in `urls`.
pub open spec fn has_url(urls: Seq<RelayUrl>, url: Seq<char>) -> bool {
    exists|i: int| 0 <= i < urls.len() && #[trigger] urls[i]@ == url
}

/// Whether no URL occurs twice in `urls`.
pub open spec fn distinct_urls(urls: Seq<RelayUrl>) -> bool {
    forall|i: int, j: int|
        0 <= i < urls.len() && 0 <= j < urls.len() && i != j ==> #[trigger] urls[i]@
            != #[trigger] urls[j]@
}

/// Whether `url` occurs in `urls`.
pub fn contains_url(urls: &Vec<RelayUrl>, url: &RelayUrl) -> (r: bool)
    ensures
        r == has_url(urls@, url@),
{
    let mut i: usize = 0;
    while i < urls.len()
        invariant
            i <= urls.len(),
            forall|j: int| 0 <= j < i ==> urls@[j]@ != url@,
        decreases urls.len() - i,
    {
        if urls[i].same_as(url) {
            return true;
        }
        i += 1;
    }
    false
}

} // verus!
