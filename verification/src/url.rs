//! URLs typed by the user: the host they name, the platform it belongs to,
//! and the short form of YouTube watch links.
use vstd::prelude::*;
use vstd::string::*;
use crate::text::{
    all_ascii, ascii_lowered, before_first, cut_before, ends_with, find_piece, first_occurrence,
    has_prefix, has_suffix, join_text, lemma_ascii_lowered_idempotent, lemma_before_first_ascii,
    lemma_before_first_lowered, lemma_first_occurrence_lowered, lemma_first_occurrence_props,
    no_ascii_letters, same_text, starts_with, to_lowercase, unicode_lowercase, occurs_at,
    ascii_lower_char, lemma_cut_absent_char, lemma_cut_at_char, lemma_cut_excludes_char,
    lemma_cut_is_prefix, lemma_first_occurrence_is_least,
};

verus! {

/// The site a URL belongs to.
#[derive(Debug, Clone, Copy, PartialEq, Eq, Structural)]
pub enum Platform {
    Youtube,
    Instagram,
    Twitter,
    Facebook,
    Other,
}

/// The display name of each platform.
pub open spec fn platform_name(p: Platform) -> Seq<char> {
    match p {
        Platform::Youtube => "Youtube"@,
        Platform::Instagram => "Instagram"@,
        Platform::Twitter => "Twitter/X"@,
        Platform::Facebook => "Facebook"@,
        Platform::Other => "Other"@,
    }
}

impl Platform {
    /// The display name of the platform, as the program prints it.
    pub fn name(&self) -> (r: &'static str)
        ensures
            r@ == platform_name(*self),
    {
        match self {
            Platform::Youtube => "Youtube",
            Platform::Instagram => "Instagram",
            Platform::Twitter => "Twitter/X",
            Platform::Facebook => "Facebook",
            Platform::Other => "Other",
        }
    }
}

/// The authority part of a URL with any port and query cut off: the text after the
/// first `://` (up to the next one), or the whole URL when there is none, cut before
/// the first `/`, then the first `:`, then the first `?`.
pub open spec fn url_authority(u: Seq<char>) -> Seq<char> {
    let segment = match first_occurrence(u, "://"@) {
        Some(i) => before_first(u.skip(i + "://"@.len()), "://"@),
        None => u,
    };
    before_first(before_first(before_first(segment, "/"@), ":"@), "?"@)
}

/// The host of a URL, lower-cased.
pub open spec fn host_of_url(u: Seq<char>) -> Seq<char> {
    unicode_lowercase(url_authority(u))
}

/// `host` is `domain` itself or one of its subdomains.
pub open spec fn matches_domain(host: Seq<char>, domain: Seq<char>) -> bool {
    host == domain || ends_with(host, "."@ + domain)
}

/// The platform that a (lower-cased) host belongs to.
pub open spec fn platform_of_host(h: Seq<char>) -> Platform {
    if matches_domain(h, "youtube.com"@) || matches_domain(h, "youtu.be"@) || matches_domain(
        h,
        "youtube-nocookie.com"@,
    ) {
        Platform::Youtube
    } else if matches_domain(h, "instagram.com"@) {
        Platform::Instagram
    } else if matches_domain(h, "twitter.com"@) || matches_domain(h, "x.com"@) {
        Platform::Twitter
    } else if matches_domain(h, "facebook.com"@) || matches_domain(h, "fb.com"@)
        || matches_domain(h, "fb.watch"@) {
        Platform::Facebook
    } else {
        Platform::Other
    }
}

/// The host of `url`: the authority after the scheme, without port or query, lower-cased.
/// Where the authority is ASCII, lower-casing it maps `A`-`Z` to `a`-`z` and keeps the rest.
pub fn host_of(url: &str) -> (r: String)
    ensures
        r@ == host_of_url(url@),
        all_ascii(url_authority(url@)) ==> r@ == ascii_lowered(url_authority(url@)),
{
    let segment: &str = match find_piece(url, "://") {
        Some(i) => {
            proof {
                lemma_first_occurrence_props(url@, "://"@);
            }
            let sep_len = "://".unicode_len();
            let n = url.unicode_len();
            let rest = url.substring_char(i + sep_len, n);
            assert(rest@ =~= url@.skip(i + "://"@.len()));
            cut_before(rest, "://")
        },
        None => url,
    };
    let no_path = cut_before(segment, "/");
    let no_port = cut_before(no_path, ":");
    let host = cut_before(no_port, "?");
    to_lowercase(host)
}

/// Whether `host` is `domain` or a subdomain of it.
pub fn host_matches(host: &str, domain: &str) -> (b: bool)
    ensures
        b == matches_domain(host@, domain@),
{
    if same_text(host, domain) {
        return true;
    }
    let dotted = join_text(".", domain);
    has_suffix(host, dotted.as_str())
}

/// The platform of `url`, from its host.
pub fn detect_platform(url: &str) -> (p: Platform)
    ensures
        p == platform_of_host(host_of_url(url@)),
        all_ascii(url_authority(url@)) ==> p == platform_of_host(
            ascii_lowered(url_authority(url@)),
        ),
{
    let owned = host_of(url);
    let host = owned.as_str();
    if host_matches(host, "youtube.com") || host_matches(host, "youtu.be") || host_matches(
        host,
        "youtube-nocookie.com",
    ) {
        Platform::Youtube
    } else if host_matches(host, "instagram.com") {
        Platform::Instagram
    } else if host_matches(host, "twitter.com") || host_matches(host, "x.com") {
        Platform::Twitter
    } else if host_matches(host, "facebook.com") || host_matches(host, "fb.com") || host_matches(
        host,
        "fb.watch",
    ) {
        Platform::Facebook
    } else {
        Platform::Other
    }
}

/// How a YouTube watch link starts, if `u` is one: `http` or `https`, then `www.`,
/// `m.` or no subdomain, then `youtube.com/watch?v=`.
pub open spec fn watch_prefix_of(u: Seq<char>) -> Option<Seq<char>> {
    if starts_with(u, "https://www.youtube.com/watch?v="@) {
        Some("https://www.youtube.com/watch?v="@)
    } else if starts_with(u, "https://youtube.com/watch?v="@) {
        Some("https://youtube.com/watch?v="@)
    } else if starts_with(u, "https://m.youtube.com/watch?v="@) {
        Some("https://m.youtube.com/watch?v="@)
    } else if starts_with(u, "http://www.youtube.com/watch?v="@) {
        Some("http://www.youtube.com/watch?v="@)
    } else if starts_with(u, "http://youtube.com/watch?v="@) {
        Some("http://youtube.com/watch?v="@)
    } else if starts_with(u, "http://m.youtube.com/watch?v="@) {
        Some("http://m.youtube.com/watch?v="@)
    } else {
        None
    }
}

/// A YouTube watch link `...youtube.com/watch?v=ID&...` becomes `https://youtu.be/ID`;
/// any other text is kept as it is.
pub open spec fn normalized_url(u: Seq<char>) -> Seq<char> {
    match watch_prefix_of(u) {
        Some(p) => "https://youtu.be/"@ + before_first(u.skip(p.len() as int), "&"@),
        None => u,
    }
}

fn watch_prefix_in(url: &str) -> (r: Option<&'static str>)
    ensures
        match r {
            Some(p) => watch_prefix_of(url@) == Some(p@),
            None => watch_prefix_of(url@) is None,
        },
{
    if has_prefix(url, "https://www.youtube.com/watch?v=") {
        Some("https://www.youtube.com/watch?v=")
    } else if has_prefix(url, "https://youtube.com/watch?v=") {
        Some("https://youtube.com/watch?v=")
    } else if has_prefix(url, "https://m.youtube.com/watch?v=") {
        Some("https://m.youtube.com/watch?v=")
    } else if has_prefix(url, "http://www.youtube.com/watch?v=") {
        Some("http://www.youtube.com/watch?v=")
    } else if has_prefix(url, "http://youtube.com/watch?v=") {
        Some("http://youtube.com/watch?v=")
    } else if has_prefix(url, "http://m.youtube.com/watch?v=") {
        Some("http://m.youtube.com/watch?v=")
    } else {
        None
    }
}

/// Converts a `watch?v=` style YouTube URL into the shorter `youtu.be` form.
pub fn normalize_youtube_url(url_input: &str) -> (r: String)
    ensures
        r@ == normalized_url(url_input@),
{
    match watch_prefix_in(url_input) {
        Some(prefix) => {
            let n = url_input.unicode_len();
            let start = prefix.unicode_len();
            let rest = url_input.substring_char(start, n);
            assert(rest@ =~= url_input@.skip(prefix@.len() as int));
            let video_id = cut_before(rest, "&");
            join_text("https://youtu.be/", video_id)
        },
        None => String::from_str(url_input),
    }
}

proof fn lemma_differs_at(s: Seq<char>, p: Seq<char>, k: int)
    requires
        0 <= k < p.len(),
        k < s.len(),
        s[k] != p[k],
    ensures
        !starts_with(s, p),
{
    if starts_with(s, p) {
        assert(s.subrange(0, p.len() as int)[k] == p[k]);
    }
}

/// Normalizing a URL twice gives what normalizing it once gives.
pub proof fn normalize_is_idempotent(u: Seq<char>)
    ensures
        normalized_url(normalized_url(u)) == normalized_url(u),
{
    if watch_prefix_of(u) is Some {
        reveal_strlit("https://youtu.be/");
        reveal_strlit("https://www.youtube.com/watch?v=");
        reveal_strlit("https://youtube.com/watch?v=");
        reveal_strlit("https://m.youtube.com/watch?v=");
        reveal_strlit("http://www.youtube.com/watch?v=");
        reveal_strlit("http://youtube.com/watch?v=");
        reveal_strlit("http://m.youtube.com/watch?v=");
        let out = normalized_url(u);
        let id = before_first(u.skip(watch_prefix_of(u)->0.len() as int), "&"@);
        assert(out == "https://youtu.be/"@ + id);
        assert forall|k: int| 0 <= k < 17 implies out[k] == "https://youtu.be/"@[k] by {}
        assert(out[4] == 's' && out[8] == 'y' && out[13] == '.');
        assert(watch_prefix_of(out) is None) by {
            lemma_differs_at(out, "https://www.youtube.com/watch?v="@, 8);
            lemma_differs_at(out, "https://youtube.com/watch?v="@, 13);
            lemma_differs_at(out, "https://m.youtube.com/watch?v="@, 8);
            lemma_differs_at(out, "http://www.youtube.com/watch?v="@, 4);
            lemma_differs_at(out, "http://youtube.com/watch?v="@, 4);
            lemma_differs_at(out, "http://m.youtube.com/watch?v="@, 4);
        }
    }
}

/// A subdomain of a host that is (a subdomain of) a domain is a subdomain of it too.
pub proof fn subdomain_matches_domain(label: Seq<char>, host: Seq<char>, domain: Seq<char>)
    requires
        matches_domain(host, domain),
    ensures
        matches_domain(label + "."@ + host, domain),
{
    reveal_strlit(".");
    let s = label + "."@ + host;
    let suffix = "."@ + domain;
    if host == domain {
        assert(s.subrange(s.len() - suffix.len(), s.len() as int) =~= suffix);
    } else {
        assert(s.subrange(s.len() - suffix.len(), s.len() as int) =~= host.subrange(
            host.len() - suffix.len(),
            host.len() as int,
        ));
    }
}

proof fn lemma_separators_have_no_letters()
    ensures
        no_ascii_letters("://"@),
        no_ascii_letters("/"@),
        no_ascii_letters(":"@),
        no_ascii_letters("?"@),
{
    reveal_strlit("://");
    reveal_strlit("/");
    reveal_strlit(":");
    reveal_strlit("?");
}

proof fn lemma_authority_ascii(u: Seq<char>)
    requires
        all_ascii(u),
    ensures
        all_ascii(url_authority(u)),
{
    let segment = match first_occurrence(u, "://"@) {
        Some(i) => before_first(u.skip(i + "://"@.len()), "://"@),
        None => u,
    };
    match first_occurrence(u, "://"@) {
        Some(i) => {
            lemma_first_occurrence_props(u, "://"@);
            let rest = u.skip(i + "://"@.len());
            assert forall|t: int| 0 <= t < rest.len() implies (#[trigger] rest[t]) <= '\u{7f}' by {
                assert(rest[t] == u[t + i + "://"@.len()]);
            }
            lemma_before_first_ascii(rest, "://"@);
        },
        None => {},
    }
    lemma_before_first_ascii(segment, "/"@);
    lemma_before_first_ascii(before_first(segment, "/"@), ":"@);
    lemma_before_first_ascii(before_first(before_first(segment, "/"@), ":"@), "?"@);
}

/// Finding the host does not depend on ASCII case: for an ASCII URL, the URL and its
/// lower-cased form have ASCII authorities with the same lower-cased form (what `host_of`
/// gives for them), so they are detected as the same platform.
pub proof fn host_ignores_ascii_case(u: Seq<char>)
    requires
        all_ascii(u),
    ensures
        all_ascii(ascii_lowered(u)),
        all_ascii(url_authority(u)),
        all_ascii(url_authority(ascii_lowered(u))),
        ascii_lowered(url_authority(ascii_lowered(u))) == ascii_lowered(url_authority(u)),
        platform_of_host(ascii_lowered(url_authority(ascii_lowered(u)))) == platform_of_host(
            ascii_lowered(url_authority(u)),
        ),
{
    lemma_separators_have_no_letters();
    lemma_ascii_lowered_idempotent(u);
    let m = ascii_lowered(u);
    lemma_authority_ascii(u);
    lemma_authority_ascii(m);
    lemma_first_occurrence_lowered(u, "://"@);
    lemma_first_occurrence_props(u, "://"@);
    let segment = match first_occurrence(u, "://"@) {
        Some(i) => before_first(u.skip(i + "://"@.len()), "://"@),
        None => u,
    };
    let msegment = match first_occurrence(m, "://"@) {
        Some(i) => before_first(m.skip(i + "://"@.len()), "://"@),
        None => m,
    };
    match first_occurrence(u, "://"@) {
        Some(i) => {
            let rest = u.skip(i + "://"@.len());
            assert(m.skip(i + "://"@.len()) =~= ascii_lowered(rest));
            lemma_before_first_lowered(rest, "://"@);
        },
        None => {},
    }
    assert(msegment == ascii_lowered(segment));
    lemma_before_first_lowered(segment, "/"@);
    let a = before_first(segment, "/"@);
    lemma_before_first_lowered(a, ":"@);
    let b = before_first(a, ":"@);
    lemma_before_first_lowered(b, "?"@);
    lemma_ascii_lowered_idempotent(url_authority(u));
}

proof fn lemma_separator_chars()
    ensures
        "/"@ == seq!['/'],
        ":"@ == seq![':'],
        "?"@ == seq!['?'],
        "://"@ == seq![':', '/', '/'],
{
    reveal_strlit("/");
    reveal_strlit(":");
    reveal_strlit("?");
    reveal_strlit("://");
    assert("/"@ =~= seq!['/']);
    assert(":"@ =~= seq![':']);
    assert("?"@ =~= seq!['?']);
    assert("://"@ =~= seq![':', '/', '/']);
}

/// The authority of text without `:`, `/` or `?` is the text itself.
proof fn lemma_plain_authority(h: Seq<char>)
    requires
        forall|i: int| 0 <= i < h.len() ==> h[i] != '/' && h[i] != ':' && h[i] != '?',
    ensures
        url_authority(h) == h,
{
    lemma_separator_chars();
    assert forall|j: int| !occurs_at(h, "://"@, j) by {
        if occurs_at(h, "://"@, j) {
            assert(h.subrange(j, j + 3)[0] == ':');
        }
    }
    lemma_first_occurrence_props(h, "://"@);
    lemma_cut_absent_char(h, '/');
    lemma_cut_absent_char(h, ':');
    lemma_cut_absent_char(h, '?');
}

/// The authority of a URL holds no `/`, `:` or `?`.
proof fn lemma_authority_is_plain(u: Seq<char>)
    ensures
        forall|i: int|
            0 <= i < url_authority(u).len() ==> url_authority(u)[i] != '/' && url_authority(u)[i]
                != ':' && url_authority(u)[i] != '?',
{
    lemma_separator_chars();
    let segment = match first_occurrence(u, "://"@) {
        Some(i) => before_first(u.skip(i + "://"@.len()), "://"@),
        None => u,
    };
    let c = before_first(segment, "/"@);
    let b = before_first(c, ":"@);
    let a = before_first(b, "?"@);
    assert(a == url_authority(u));
    lemma_cut_excludes_char(segment, '/');
    lemma_cut_excludes_char(c, ':');
    lemma_cut_excludes_char(b, '?');
    lemma_cut_is_prefix(c, ":"@);
    lemma_cut_is_prefix(b, "?"@);
    assert forall|i: int| 0 <= i < a.len() implies a[i] != '/' && a[i] != ':' && a[i] != '?' by {
        assert(a[i] == b[i]);
        assert(b[i] == c[i]);
    }
}

/// Taking the host of a host gives it back: where a URL's authority is ASCII, the host
/// that `host_of` gives (the lower-cased authority) is ASCII, and the host of that host
/// is itself.
pub proof fn host_of_is_idempotent(u: Seq<char>)
    requires
        all_ascii(url_authority(u)),
    ensures
        all_ascii(ascii_lowered(url_authority(u))),
        ascii_lowered(url_authority(ascii_lowered(url_authority(u)))) == ascii_lowered(
            url_authority(u),
        ),
{
    let a = url_authority(u);
    let h = ascii_lowered(a);
    lemma_authority_is_plain(u);
    assert forall|i: int| 0 <= i < h.len() implies h[i] != '/' && h[i] != ':' && h[i] != '?' by {
        assert(h[i] == ascii_lower_char(a[i]));
    }
    lemma_plain_authority(h);
    lemma_ascii_lowered_idempotent(a);
}

/// A URL that starts with `scheme://host/` (the scheme without `:`, the host without
/// `/`, `:` or `?`) has `host` as its authority.
proof fn lemma_authority_of_link(u: Seq<char>, scheme: Seq<char>, host: Seq<char>)
    requires
        forall|i: int| 0 <= i < scheme.len() ==> scheme[i] != ':',
        forall|i: int| 0 <= i < host.len() ==> host[i] != '/' && host[i] != ':' && host[i] != '?',
        starts_with(u, scheme + "://"@ + host + "/"@),
    ensures
        url_authority(u) == host,
{
    lemma_separator_chars();
    let q = scheme + "://"@ + host + "/"@;
    let sl = scheme.len() as int;
    let hl = host.len() as int;
    assert forall|k: int| 0 <= k < q.len() implies u[k] == q[k] by {
        assert(u.subrange(0, q.len() as int)[k] == q[k]);
    }
    assert(u.subrange(sl, sl + 3) =~= "://"@) by {
        assert(u[sl] == q[sl] && u[sl + 1] == q[sl + 1] && u[sl + 2] == q[sl + 2]);
    }
    assert forall|j: int| 0 <= j < sl implies !occurs_at(u, "://"@, j) by {
        if occurs_at(u, "://"@, j) {
            assert(u.subrange(j, j + 3)[0] == ':');
            assert(u[j] == q[j]);
        }
    }
    lemma_first_occurrence_is_least(u, "://"@, sl);
    let rest = u.skip(sl + 3);
    assert forall|k: int| 0 <= k <= hl implies rest[k] == (if k < hl {
        host[k]
    } else {
        '/'
    }) by {
        assert(rest[k] == u[sl + 3 + k]);
        assert(u[sl + 3 + k] == q[sl + 3 + k]);
    }
    let x = before_first(rest, "://"@);
    lemma_first_occurrence_props(rest, "://"@);
    lemma_cut_is_prefix(rest, "://"@);
    if first_occurrence(rest, "://"@) is Some {
        let i = first_occurrence(rest, "://"@)->0;
        assert(rest.subrange(i, i + 3)[0] == ':');
        assert(rest[i] == ':');
        assert(i > hl);
    }
    assert(x.len() > hl);
    assert forall|k: int| 0 <= k <= hl implies x[k] == rest[k] by {}
    lemma_cut_at_char(x, '/', hl);
    assert(x.take(hl) =~= host);
    lemma_cut_absent_char(host, ':');
    lemma_cut_absent_char(host, '?');
}

/// A URL that starts with `p` starts with every prefix `q` of `p`.
proof fn lemma_starts_with_prefix(u: Seq<char>, p: Seq<char>, q: Seq<char>)
    requires
        starts_with(u, p),
        q.len() <= p.len(),
        forall|k: int| 0 <= k < q.len() ==> q[k] == p[k],
    ensures
        starts_with(u, q),
{
    assert forall|k: int| 0 <= k < q.len() implies u.subrange(0, q.len() as int)[k] == q[k] by {
        assert(u.subrange(0, p.len() as int)[k] == p[k]);
    }
    assert(u.subrange(0, q.len() as int) =~= q);
}

/// The hosts a YouTube watch link can name all belong to YouTube.
proof fn lemma_watch_hosts()
    ensures
        ascii_lowered("www.youtube.com"@) == "www.youtube.com"@,
        ascii_lowered("youtube.com"@) == "youtube.com"@,
        ascii_lowered("m.youtube.com"@) == "m.youtube.com"@,
        ascii_lowered("youtu.be"@) == "youtu.be"@,
        all_ascii("www.youtube.com"@),
        all_ascii("youtube.com"@),
        all_ascii("m.youtube.com"@),
        all_ascii("youtu.be"@),
        platform_of_host("www.youtube.com"@) == Platform::Youtube,
        platform_of_host("youtube.com"@) == Platform::Youtube,
        platform_of_host("m.youtube.com"@) == Platform::Youtube,
        platform_of_host("youtu.be"@) == Platform::Youtube,
{
    reveal_strlit("www.youtube.com");
    reveal_strlit("youtube.com");
    reveal_strlit("m.youtube.com");
    reveal_strlit("youtu.be");
    reveal_strlit(".");
    assert(ascii_lowered("www.youtube.com"@) =~= "www.youtube.com"@);
    assert(ascii_lowered("youtube.com"@) =~= "youtube.com"@);
    assert(ascii_lowered("m.youtube.com"@) =~= "m.youtube.com"@);
    assert(ascii_lowered("youtu.be"@) =~= "youtu.be"@);
    assert("www.youtube.com"@.subrange(3, 15) =~= "."@ + "youtube.com"@);
    assert("m.youtube.com"@.subrange(1, 13) =~= "."@ + "youtube.com"@);
}

proof fn lemma_plain_host(host: Seq<char>)
    requires
        host == "www.youtube.com"@ || host == "youtube.com"@ || host == "m.youtube.com"@ || host
            == "youtu.be"@,
    ensures
        forall|i: int| 0 <= i < host.len() ==> host[i] != '/' && host[i] != ':' && host[i] != '?',
{
    reveal_strlit("www.youtube.com");
    reveal_strlit("youtube.com");
    reveal_strlit("m.youtube.com");
    reveal_strlit("youtu.be");
}

proof fn lemma_watch_link_case(u: Seq<char>, p: Seq<char>, scheme: Seq<char>, host: Seq<char>)
    requires
        starts_with(u, p),
        p == scheme + "://"@ + host + "/watch?v="@,
        scheme == "https"@ || scheme == "http"@,
        host == "www.youtube.com"@ || host == "youtube.com"@ || host == "m.youtube.com"@ || host
            == "youtu.be"@,
    ensures
        url_authority(u) == host,
{
    reveal_strlit("https");
    reveal_strlit("http");
    reveal_strlit("/watch?v=");
    reveal_strlit("/");
    lemma_plain_host(host);
    let q = scheme + "://"@ + host + "/"@;
    assert forall|k: int| 0 <= k < q.len() implies q[k] == p[k] by {
        if k < q.len() - 1 {
            assert(q[k] == (scheme + "://"@ + host)[k]);
            assert(p[k] == (scheme + "://"@ + host)[k]);
        }
    }
    lemma_starts_with_prefix(u, p, q);
    lemma_authority_of_link(u, scheme, host);
}

/// The authority of a YouTube watch link is ASCII and names YouTube.
proof fn lemma_watch_link_platform(u: Seq<char>)
    requires
        watch_prefix_of(u) is Some,
    ensures
        all_ascii(url_authority(u)),
        platform_of_host(ascii_lowered(url_authority(u))) == Platform::Youtube,
{
    reveal_strlit("https://www.youtube.com/watch?v=");
    reveal_strlit("https://youtube.com/watch?v=");
    reveal_strlit("https://m.youtube.com/watch?v=");
    reveal_strlit("http://www.youtube.com/watch?v=");
    reveal_strlit("http://youtube.com/watch?v=");
    reveal_strlit("http://m.youtube.com/watch?v=");
    reveal_strlit("https");
    reveal_strlit("http");
    reveal_strlit("://");
    reveal_strlit("www.youtube.com");
    reveal_strlit("youtube.com");
    reveal_strlit("m.youtube.com");
    reveal_strlit("/watch?v=");
    lemma_watch_hosts();
    let p = watch_prefix_of(u)->0;
    if p == "https://www.youtube.com/watch?v="@ {
        assert(p =~= "https"@ + "://"@ + "www.youtube.com"@ + "/watch?v="@);
        lemma_watch_link_case(u, p, "https"@, "www.youtube.com"@);
    } else if p == "https://youtube.com/watch?v="@ {
        assert(p =~= "https"@ + "://"@ + "youtube.com"@ + "/watch?v="@);
        lemma_watch_link_case(u, p, "https"@, "youtube.com"@);
    } else if p == "https://m.youtube.com/watch?v="@ {
        assert(p =~= "https"@ + "://"@ + "m.youtube.com"@ + "/watch?v="@);
        lemma_watch_link_case(u, p, "https"@, "m.youtube.com"@);
    } else if p == "http://www.youtube.com/watch?v="@ {
        assert(p =~= "http"@ + "://"@ + "www.youtube.com"@ + "/watch?v="@);
        lemma_watch_link_case(u, p, "http"@, "www.youtube.com"@);
    } else if p == "http://youtube.com/watch?v="@ {
        assert(p =~= "http"@ + "://"@ + "youtube.com"@ + "/watch?v="@);
        lemma_watch_link_case(u, p, "http"@, "youtube.com"@);
    } else {
        assert(p == "http://m.youtube.com/watch?v="@);
        assert(p =~= "http"@ + "://"@ + "m.youtube.com"@ + "/watch?v="@);
        lemma_watch_link_case(u, p, "http"@, "m.youtube.com"@);
    }
}

/// Normalizing a URL keeps its platform. A URL that is no watch link is kept as it is;
/// a watch link and its `youtu.be` form both have an ASCII authority, and both
/// lower-cased authorities name YouTube, so `detect_platform` gives the same platform
/// for a URL and its normalized form.
pub proof fn normalizing_keeps_platform(u: Seq<char>)
    ensures
        watch_prefix_of(u) is None ==> normalized_url(u) == u,
        watch_prefix_of(u) is Some ==> {
            &&& all_ascii(url_authority(u))
            &&& all_ascii(url_authority(normalized_url(u)))
            &&& platform_of_host(ascii_lowered(url_authority(u))) == Platform::Youtube
            &&& platform_of_host(ascii_lowered(url_authority(normalized_url(u))))
                == Platform::Youtube
        },
{
    if watch_prefix_of(u) is Some {
        let p = watch_prefix_of(u)->0;
        reveal_strlit("https://youtu.be/");
        reveal_strlit("https");
        reveal_strlit("://");
        reveal_strlit("youtu.be");
        reveal_strlit("/");
        lemma_watch_link_platform(u);
        lemma_watch_hosts();
        lemma_plain_host("youtu.be"@);
        let id = before_first(u.skip(p.len() as int), "&"@);
        let out = normalized_url(u);
        assert(out == "https://youtu.be/"@ + id);
        let q = "https"@ + "://"@ + "youtu.be"@ + "/"@;
        assert(out.subrange(0, q.len() as int) =~= q);
        lemma_authority_of_link(out, "https"@, "youtu.be"@);
    }
}

/// A watch link keeps its whole video ID: the normalized URL is `https://youtu.be/`
/// followed by the text after the watch prefix, up to the first `&`, or all of it when
/// there is no `&`. Only `&` ends the ID; every other character (`-` and `_` among them)
/// stays in it.
pub proof fn watch_link_keeps_whole_id(u: Seq<char>, p: Seq<char>)
    requires
        watch_prefix_of(u) == Some(p),
    ensures
        starts_with(u, p),
        normalized_url(u).len() >= 17,
        normalized_url(u).take(17) == "https://youtu.be/"@,
        ({
            let rest = u.skip(p.len() as int);
            let id = normalized_url(u).skip(17);
            &&& id.len() <= rest.len()
            &&& forall|i: int| 0 <= i < id.len() ==> id[i] == rest[i] && id[i] != '&'
            &&& id.len() == rest.len() || rest[id.len() as int] == '&'
        }),
{
    reveal_strlit("https://youtu.be/");
    reveal_strlit("&");
    assert("&"@ =~= seq!['&']);
    let rest = u.skip(p.len() as int);
    let cut = before_first(rest, "&"@);
    let out = normalized_url(u);
    assert(out == "https://youtu.be/"@ + cut);
    assert(out.take(17) =~= "https://youtu.be/"@);
    assert(out.skip(17) =~= cut);
    lemma_cut_is_prefix(rest, "&"@);
    lemma_cut_excludes_char(rest, '&');
    lemma_first_occurrence_props(rest, "&"@);
    if first_occurrence(rest, "&"@) is Some {
        let k = first_occurrence(rest, "&"@)->0;
        assert(rest.subrange(k, k + 1)[0] == rest[k]);
    }
}

/// The `k`th character from the end of a host that is `d` or a subdomain of it is the
/// `k`th character from the end of `d`.
proof fn lemma_end_char(h: Seq<char>, d: Seq<char>, k: int)
    requires
        matches_domain(h, d),
        0 <= k < d.len(),
    ensures
        h[h.len() - 1 - k] == d[d.len() - 1 - k],
{
    reveal_strlit(".");
    if h != d {
        let s = "."@ + d;
        assert(h.subrange(h.len() - s.len(), h.len() as int)[s.len() - 1 - k] == s[s.len() - 1
            - k]);
    }
}

/// A host that is a domain or one of its subdomains shares the domain's last character,
/// and the fifth character from its end, with every other domain it matches.
proof fn lemma_host_of_domain(h: Seq<char>, d: Seq<char>)
    requires
        matches_domain(h, d),
        d.len() > 4,
    ensures
        forall|t: Seq<char>|
            #[trigger] matches_domain(h, t) && t.len() > 4 ==> d[d.len() - 1] == t[t.len() - 1]
                && d[d.len() - 5] == t[t.len() - 5],
{
    assert forall|t: Seq<char>| #[trigger] matches_domain(h, t) && t.len() > 4 implies d[d.len()
        - 1] == t[t.len() - 1] && d[d.len() - 5] == t[t.len() - 5] by {
        lemma_end_char(h, d, 0);
        lemma_end_char(h, t, 0);
        lemma_end_char(h, d, 4);
        lemma_end_char(h, t, 4);
    }
}

/// A domain matches itself and every subdomain of it.
proof fn lemma_domain_matches(label: Seq<char>, d: Seq<char>)
    ensures
        matches_domain(d, d),
        matches_domain(label + "."@ + d, d),
{
    let h = label + "."@ + d;
    let s = "."@ + d;
    assert(h.subrange(h.len() - s.len(), h.len() as int) =~= s);
}

/// Both facts above, for the domain `d` and its subdomain named by `label`.
proof fn lemma_domain_hosts(label: Seq<char>, d: Seq<char>)
    requires
        d.len() > 4,
    ensures
        matches_domain(d, d),
        matches_domain(label + "."@ + d, d),
        forall|t: Seq<char>|
            #[trigger] matches_domain(d, t) && t.len() > 4 ==> d[d.len() - 1] == t[t.len() - 1]
                && d[d.len() - 5] == t[t.len() - 5],
        forall|t: Seq<char>|
            #[trigger] matches_domain(label + "."@ + d, t) && t.len() > 4 ==> d[d.len() - 1] == t[t.len()
                - 1] && d[d.len() - 5] == t[t.len() - 5],
{
    lemma_domain_matches(label, d);
    lemma_host_of_domain(d, d);
    lemma_host_of_domain(label + "."@ + d, d);
}

/// Every listed domain and each of its subdomains is detected as the platform the
/// domain belongs to: `youtube.com`, `youtu.be` and `youtube-nocookie.com` as YouTube,
/// `instagram.com` as Instagram, `twitter.com` and `x.com` as Twitter/X, `facebook.com`,
/// `fb.com` and `fb.watch` as Facebook, whatever `label` names the subdomain.
pub proof fn listed_domains_keep_their_platform(label: Seq<char>)
    ensures
        platform_of_host("youtube.com"@) == Platform::Youtube,
        platform_of_host(label + "."@ + "youtube.com"@) == Platform::Youtube,
        platform_of_host("youtu.be"@) == Platform::Youtube,
        platform_of_host(label + "."@ + "youtu.be"@) == Platform::Youtube,
        platform_of_host("youtube-nocookie.com"@) == Platform::Youtube,
        platform_of_host(label + "."@ + "youtube-nocookie.com"@) == Platform::Youtube,
        platform_of_host("instagram.com"@) == Platform::Instagram,
        platform_of_host(label + "."@ + "instagram.com"@) == Platform::Instagram,
        platform_of_host("twitter.com"@) == Platform::Twitter,
        platform_of_host(label + "."@ + "twitter.com"@) == Platform::Twitter,
        platform_of_host("x.com"@) == Platform::Twitter,
        platform_of_host(label + "."@ + "x.com"@) == Platform::Twitter,
        platform_of_host("facebook.com"@) == Platform::Facebook,
        platform_of_host(label + "."@ + "facebook.com"@) == Platform::Facebook,
        platform_of_host("fb.com"@) == Platform::Facebook,
        platform_of_host(label + "."@ + "fb.com"@) == Platform::Facebook,
        platform_of_host("fb.watch"@) == Platform::Facebook,
        platform_of_host(label + "."@ + "fb.watch"@) == Platform::Facebook,
{
    reveal_strlit("youtube.com");
    reveal_strlit("youtu.be");
    reveal_strlit("youtube-nocookie.com");
    reveal_strlit("instagram.com");
    reveal_strlit("twitter.com");
    reveal_strlit("x.com");
    reveal_strlit("facebook.com");
    reveal_strlit("fb.com");
    reveal_strlit("fb.watch");
    lemma_domain_hosts(label, "youtube.com"@);
    lemma_domain_hosts(label, "youtu.be"@);
    lemma_domain_hosts(label, "youtube-nocookie.com"@);
    lemma_domain_hosts(label, "instagram.com"@);
    lemma_domain_hosts(label, "twitter.com"@);
    lemma_domain_hosts(label, "x.com"@);
    lemma_domain_hosts(label, "facebook.com"@);
    lemma_domain_hosts(label, "fb.com"@);
    lemma_domain_hosts(label, "fb.watch"@);
}

} // verus!
