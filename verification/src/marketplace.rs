//! Which marketplace source is the official one.

use vstd::prelude::*;

use crate::text::{
    begins_with, chars_of, ends_with, lower, lower_char, lowered, maybe, same, starts_with,
    string_of, strip_prefix, strip_suffix, trim, trim_end, trim_start, trimmed, white_space,
    without_prefix, without_suffix,
};

verus! {

/// Display name given to the configured official marketplace source.
pub const OFFICIAL_SOURCE_NAME: &'static str = "Axon Official";

/// A URL in lower case, without white space around it, a slash at its end, or
/// `.git` before that.
pub open spec fn normalized(url: Seq<char>) -> Seq<char> {
    without_suffix(without_suffix(lower(trim(url)), "/"@), ".git"@)
}

/// `s` without a scheme.
pub open spec fn without_scheme(s: Seq<char>) -> Seq<char> {
    if starts_with(s, "https://"@) {
        without_prefix(s, "https://"@)
    } else if starts_with(s, "http://"@) {
        without_prefix(s, "http://"@)
    } else {
        without_prefix(s, "ssh://"@)
    }
}

/// What a host and path are after the scheme, the user and `www.`.
pub open spec fn location(s: Seq<char>) -> Seq<char> {
    without_prefix(without_prefix(without_scheme(s), "git@"@), "www."@)
}

/// The owner and repository of a normalized GitHub URL.
pub open spec fn github_path(s: Seq<char>) -> Option<Seq<char>> {
    let rest = location(s);
    let path = if starts_with(rest, "github.com/"@) {
        without_prefix(rest, "github.com/"@)
    } else if starts_with(rest, "github.com:"@) {
        without_prefix(rest, "github.com:"@)
    } else {
        Seq::empty()
    };
    if path.len() == 0 {
        None
    } else {
        Some(path)
    }
}

/// The owner and repository of a GitHub URL, in lower case.
pub open spec fn owner_repo(url: Seq<char>) -> Option<Seq<char>> {
    github_path(normalized(url))
}

/// Two URLs name the same source: the same GitHub repository, or, where the
/// first is not on GitHub, the same normalized URL.
pub open spec fn same_source(official: Seq<char>, url: Seq<char>) -> bool {
    match owner_repo(official) {
        Some(path) => owner_repo(url) == Some(path),
        None => normalized(official) == normalized(url),
    }
}

fn normalized_chars(url: &str) -> (r: Vec<char>)
    ensures
        r@ == normalized(url@),
{
    strip_suffix(strip_suffix(lowered(&trimmed(&chars_of(url))), "/"), ".git")
}

/// Case and suffix normalization for remotes that
/// [`canonical_github_owner_repo`] does not understand, so that a self-hosted
/// marketplace can still be named official.
pub fn normalize_non_github(url: &str) -> (r: String)
    ensures
        r@ == normalized(url@),
{
    string_of(&normalized_chars(url))
}

/// Normalized lower-case `owner/repo` from a GitHub URL (HTTPS, http, ssh or
/// scp form, `www.`, trailing `.git` or `/`), or `None` if not a GitHub URL.
pub fn canonical_github_owner_repo(url: &str) -> (r: Option<String>)
    ensures
        maybe(r) == owner_repo(url@),
{
    let s = normalized_chars(url);
    let https = begins_with(&s, &chars_of("https://"));
    let http = begins_with(&s, &chars_of("http://"));
    let rest = if https {
        strip_prefix(s, "https://")
    } else if http {
        strip_prefix(s, "http://")
    } else {
        strip_prefix(s, "ssh://")
    };
    let rest = strip_prefix(strip_prefix(rest, "git@"), "www.");
    let slash = begins_with(&rest, &chars_of("github.com/"));
    let colon = begins_with(&rest, &chars_of("github.com:"));
    let path = if slash {
        strip_prefix(rest, "github.com/")
    } else if colon {
        strip_prefix(rest, "github.com:")
    } else {
        return None;
    };
    if path.len() == 0 {
        None
    } else {
        Some(string_of(&path))
    }
}

/// Whether `url` is the marketplace source configured as official, normalizing
/// case, a `www.` prefix, a trailing `/` or `.git`, and HTTPS/SSH forms before
/// comparing. `None` (the default) means that nothing is official, so no source
/// gets install privileges by default.
///
/// Comparison is by canonical URL only. Matching on the display name as well
/// would let any source call itself official.
pub fn is_official_source_url(official: Option<&str>, url: &str) -> (r: bool)
    ensures
        r == (official matches Some(configured) && same_source(configured@, url@)),
{
    match official {
        None => false,
        Some(official) => match canonical_github_owner_repo(official) {
            Some(official_repo) => match canonical_github_owner_repo(url) {
                Some(repo) => same(repo.as_str(), official_repo.as_str()),
                None => false,
            },
            None => same(
                normalize_non_github(official).as_str(),
                normalize_non_github(url).as_str(),
            ),
        },
    }
}

// ---- Laws ----

/// Naming the same source is an equivalence of URLs.
pub proof fn same_source_is_an_equivalence(a: Seq<char>, b: Seq<char>, c: Seq<char>)
    ensures
        same_source(a, a),
        same_source(a, b) == same_source(b, a),
        same_source(a, b) && same_source(b, c) ==> same_source(a, c),
{
}

/// A GitHub URL never matches an official source that is not on GitHub, nor
/// the other way round.
pub proof fn github_matches_only_github(official: Seq<char>, url: Seq<char>)
    requires
        owner_repo(official) is Some != owner_repo(url) is Some,
    ensures
        !same_source(official, url),
{
}

proof fn lemma_lower_char(c: char)
    ensures
        white_space(lower_char(c)) == white_space(c),
        lower_char(lower_char(c)) == lower_char(c),
{
}

proof fn lemma_lower_trim_start(s: Seq<char>)
    ensures
        trim_start(lower(s)) == lower(trim_start(s)),
    decreases s.len(),
{
    if s.len() > 0 {
        lemma_lower_char(s[0]);
        if white_space(s[0]) {
            lemma_lower_trim_start(s.skip(1));
            assert(lower(s).skip(1) =~= lower(s.skip(1)));
        }
    }
}

proof fn lemma_lower_trim_end(s: Seq<char>)
    ensures
        trim_end(lower(s)) == lower(trim_end(s)),
    decreases s.len(),
{
    if s.len() > 0 {
        lemma_lower_char(s.last());
        if white_space(s.last()) {
            lemma_lower_trim_end(s.drop_last());
            assert(lower(s).drop_last() =~= lower(s.drop_last()));
        }
    }
}

proof fn lemma_lower_trim(s: Seq<char>)
    ensures
        trim(lower(s)) == lower(trim(s)),
        lower(lower(s)) == lower(s),
{
    lemma_lower_trim_start(s);
    lemma_lower_trim_end(trim_start(s));
    assert forall|i: int| 0 <= i < s.len() implies lower(lower(s))[i] == lower(s)[i] by {
        lemma_lower_char(s[i]);
    }
    assert(lower(lower(s)) =~= lower(s));
}

/// The case of letters makes no difference to a URL.
pub proof fn letter_case_makes_no_difference(url: Seq<char>)
    ensures
        normalized(lower(url)) == normalized(url),
        owner_repo(lower(url)) == owner_repo(url),
        forall|official: Seq<char>|
            #![trigger same_source(official, url)]
            same_source(official, lower(url)) == same_source(official, url),
        forall|other: Seq<char>|
            #![trigger same_source(url, other)]
            same_source(lower(url), other) == same_source(url, other),
{
    lemma_lower_trim(url);
    lemma_lower_trim(trim(url));
}

/// A scheme that a GitHub URL may have, or none.
pub open spec fn a_scheme(s: Seq<char>) -> bool {
    s.len() == 0 || s == "https://"@ || s == "http://"@ || s == "ssh://"@
}

/// A user that a GitHub URL may name, or none.
pub open spec fn a_user(s: Seq<char>) -> bool {
    s.len() == 0 || s == "git@"@
}

/// A prefix that the host of a GitHub URL may have, or none.
pub open spec fn a_host_prefix(s: Seq<char>) -> bool {
    s.len() == 0 || s == "www."@
}

/// GitHub, followed by the mark that separates the path.
pub open spec fn a_host(s: Seq<char>) -> bool {
    s == "github.com/"@ || s == "github.com:"@
}

/// What may follow the path of a repository, or nothing.
pub open spec fn an_ending(s: Seq<char>) -> bool {
    s.len() == 0 || s == "/"@ || s == ".git"@ || s == ".git/"@
}

proof fn lemma_prefix_of(prefix: Seq<char>, rest: Seq<char>)
    ensures
        starts_with(prefix + rest, prefix),
        without_prefix(prefix + rest, prefix) == rest,
{
    assert((prefix + rest).take(prefix.len() as int) =~= prefix);
    assert((prefix + rest).skip(prefix.len() as int) =~= rest);
}

proof fn lemma_no_prefix(s: Seq<char>, prefix: Seq<char>, i: int)
    requires
        0 <= i < prefix.len(),
        i < s.len(),
        s[i] != prefix[i],
    ensures
        !starts_with(s, prefix),
        without_prefix(s, prefix) == s,
{
    if starts_with(s, prefix) {
        assert(s.take(prefix.len() as int)[i] == prefix[i]);
    }
}

proof fn lemma_suffix_of(s: Seq<char>, suffix: Seq<char>)
    ensures
        ends_with(s + suffix, suffix),
        without_suffix(s + suffix, suffix) == s,
{
    assert((s + suffix).skip(s.len() as int) =~= suffix);
    assert((s + suffix).take(s.len() as int) =~= s);
}

proof fn lemma_location(
    scheme: Seq<char>,
    user: Seq<char>,
    www: Seq<char>,
    host: Seq<char>,
    path: Seq<char>,
)
    requires
        a_scheme(scheme),
        a_user(user),
        a_host_prefix(www),
        a_host(host),
        path.len() > 0,
    ensures
        github_path(scheme + (user + (www + (host + path)))) == Some(path),
{
    reveal_strlit("https://");
    reveal_strlit("http://");
    reveal_strlit("ssh://");
    reveal_strlit("git@");
    reveal_strlit("www.");
    reveal_strlit("github.com/");
    reveal_strlit("github.com:");
    let at_host = host + path;
    let at_www = www + at_host;
    let at_user = user + at_www;
    let s = scheme + at_user;
    assert(at_host[0] == 'g' && at_host[3] == 'h');
    assert(at_www[0] == 'g' || at_www[0] == 'w');
    assert(at_user[0] == 'g' || at_user[0] == 'w');
    if scheme.len() == 0 {
        assert(s =~= at_user);
        lemma_no_prefix(s, "https://"@, 0);
        lemma_no_prefix(s, "http://"@, 0);
        lemma_no_prefix(s, "ssh://"@, 0);
    } else {
        lemma_prefix_of(scheme, at_user);
        if scheme == "http://"@ {
            lemma_no_prefix(s, "https://"@, 4);
        }
        if scheme == "ssh://"@ {
            lemma_no_prefix(s, "https://"@, 0);
            lemma_no_prefix(s, "http://"@, 0);
        }
    }
    assert(without_scheme(s) == at_user);
    if user.len() == 0 {
        assert(at_user =~= at_www);
        if www.len() == 0 {
            assert(at_www =~= at_host);
            lemma_no_prefix(at_user, "git@"@, 3);
        } else {
            lemma_no_prefix(at_user, "git@"@, 0);
        }
    } else {
        lemma_prefix_of(user, at_www);
    }
    if www.len() == 0 {
        assert(at_www =~= at_host);
        lemma_no_prefix(at_www, "www."@, 0);
    } else {
        lemma_prefix_of(www, at_host);
    }
    assert(location(s) == at_host);
    lemma_prefix_of(host, path);
    if host == "github.com:"@ {
        lemma_no_prefix(at_host, "github.com/"@, 10);
    }
}

proof fn lemma_ending(s: Seq<char>, ending: Seq<char>)
    requires
        s.len() > 0,
        !white_space(s[0]),
        !white_space(s.last()),
        !ends_with(lower(s), "/"@),
        !ends_with(lower(s), ".git"@),
        an_ending(lower(ending)),
    ensures
        normalized(s + ending) == lower(s),
{
    reveal_strlit("/");
    reveal_strlit(".git");
    reveal_strlit(".git/");
    let url = s + ending;
    let t = lower(s);
    let end = lower(ending);
    assert(lower(url) =~= t + end);
    assert(url[0] == s[0]);
    if ending.len() == 0 {
        assert(url =~= s);
        assert(t + end =~= t);
    } else {
        assert(url.last() == ending.last());
        lemma_lower_char(ending.last());
        assert(end.last() == lower_char(ending.last()));
    }
    assert(!white_space(url.last()));
    assert(trim(url) == url);
    if end == ".git/"@ {
        assert(t + end =~= (t + ".git"@) + "/"@);
        lemma_suffix_of(t + ".git"@, "/"@);
        lemma_suffix_of(t, ".git"@);
    } else if end == ".git"@ {
        assert((t + end).skip((t + end).len() - 1)[0] == 't');
        lemma_suffix_of(t, ".git"@);
    } else if end == "/"@ {
        lemma_suffix_of(t, "/"@);
    }
}

/// All the spellings of a GitHub repository agree: whatever the scheme, the
/// user, `www.`, the separator, the ending, and the case of letters, the
/// canonical form is the path in lower case.
pub proof fn spellings_of_a_repository_agree(
    scheme: Seq<char>,
    user: Seq<char>,
    www: Seq<char>,
    host: Seq<char>,
    path: Seq<char>,
    ending: Seq<char>,
)
    requires
        a_scheme(lower(scheme)),
        a_user(lower(user)),
        a_host_prefix(lower(www)),
        a_host(lower(host)),
        an_ending(lower(ending)),
        path.len() > 0,
        !white_space(path.last()),
        !ends_with(lower(path), "/"@),
        !ends_with(lower(host + path), ".git"@),
    ensures
        owner_repo(scheme + (user + (www + (host + path))) + ending) == Some(lower(path)),
{
    reveal_strlit("https://");
    reveal_strlit("http://");
    reveal_strlit("ssh://");
    reveal_strlit("git@");
    reveal_strlit("www.");
    reveal_strlit("github.com/");
    reveal_strlit("github.com:");
    reveal_strlit("/");
    reveal_strlit(".git");
    let s = scheme + (user + (www + (host + path)));
    let t = lower(s);
    assert(s.last() == path.last());
    assert(t =~= lower(scheme) + (lower(user) + (lower(www) + (lower(host) + lower(path)))));
    let first = t[0];
    assert(first == 'h' || first == 's' || first == 'g' || first == 'w');
    assert(first == lower_char(s[0]));
    lemma_lower_char(s[0]);
    if ends_with(t, "/"@) {
        assert(t.skip(t.len() - 1)[0] == t.last());
        assert(lower(path).skip(path.len() - 1) =~= "/"@);
    }
    if ends_with(t, ".git"@) {
        let u = lower(host + path);
        assert(t.skip(t.len() - 4) =~= u.skip(u.len() - 4));
    }
    lemma_ending(s, ending);
    lemma_location(lower(scheme), lower(user), lower(www), lower(host), lower(path));
}

/// Normalizing takes nothing from a URL but white space around it and one of the
/// known endings, and lowers its letters.
pub proof fn normalizing_takes_endings_only(url: Seq<char>) -> (ending: Seq<char>)
    ensures
        an_ending(ending),
        lower(trim(url)) == normalized(url) + ending,
{
    reveal_strlit("/");
    reveal_strlit(".git");
    reveal_strlit(".git/");
    let t = lower(trim(url));
    let u = without_suffix(t, "/"@);
    let n = without_suffix(u, ".git"@);
    lemma_suffix_back(t, "/"@);
    lemma_suffix_back(u, ".git"@);
    let ending = if ends_with(t, "/"@) && ends_with(u, ".git"@) {
        ".git/"@
    } else if ends_with(t, "/"@) {
        "/"@
    } else if ends_with(u, ".git"@) {
        ".git"@
    } else {
        Seq::empty()
    };
    assert(t =~= n + ending);
    ending
}

/// One ending comes off: `.git/`, or else `.git`, or else a slash; a URL without
/// any of them keeps its end.
pub proof fn one_ending_comes_off(url: Seq<char>, x: Seq<char>)
    ensures
        lower(trim(url)) == x + ".git/"@ ==> normalized(url) == x,
        lower(trim(url)) == x + ".git"@ ==> normalized(url) == x,
        lower(trim(url)) == x + "/"@ && !ends_with(x, ".git"@) ==> normalized(url) == x,
        !ends_with(lower(trim(url)), "/"@) && !ends_with(lower(trim(url)), ".git"@)
            ==> normalized(url) == lower(trim(url)),
{
    reveal_strlit("/");
    reveal_strlit(".git");
    reveal_strlit(".git/");
    let t = lower(trim(url));
    if t == x + ".git/"@ {
        assert(t =~= (x + ".git"@) + "/"@);
        lemma_suffix_of(x + ".git"@, "/"@);
        lemma_suffix_of(x, ".git"@);
    }
    if t == x + ".git"@ {
        assert(t.skip(t.len() - 1)[0] == 't');
        lemma_suffix_of(x, ".git"@);
    }
    if t == x + "/"@ {
        lemma_suffix_of(x, "/"@);
    }
}

/// Behind a scheme, a user and `www.`, each of which may be missing, and GitHub's
/// name, whatever follows is the path.
pub proof fn what_follows_github_is_the_path(
    url: Seq<char>,
    scheme: Seq<char>,
    user: Seq<char>,
    www: Seq<char>,
    host: Seq<char>,
    path: Seq<char>,
)
    requires
        a_scheme(scheme),
        a_user(user),
        a_host_prefix(www),
        a_host(host),
        path.len() > 0,
        normalized(url) == scheme + (user + (www + (host + path))),
    ensures
        owner_repo(url) == Some(path),
{
    lemma_location(scheme, user, www, host, path);
}

proof fn lemma_suffix_back(s: Seq<char>, suffix: Seq<char>)
    ensures
        ends_with(s, suffix) ==> s == without_suffix(s, suffix) + suffix,
{
    if ends_with(s, suffix) {
        assert(s =~= s.take(s.len() - suffix.len()) + s.skip(s.len() - suffix.len()));
    }
}

proof fn lemma_prefix_back(s: Seq<char>, prefix: Seq<char>)
    ensures
        starts_with(s, prefix) ==> s == prefix + without_prefix(s, prefix),
        !starts_with(s, prefix) ==> s == Seq::<char>::empty() + without_prefix(s, prefix),
{
    assert(s =~= Seq::<char>::empty() + s);
    if starts_with(s, prefix) {
        assert(s =~= s.take(prefix.len() as int) + s.skip(prefix.len() as int));
    }
}

/// A URL has an owner and a repository only where it is on GitHub: behind a
/// scheme, a user and `www.`, each of which may be missing, stands GitHub's
/// name, and the path is all that follows it.
pub proof fn only_github_has_an_owner(url: Seq<char>) -> (parts: (
    Seq<char>,
    Seq<char>,
    Seq<char>,
    Seq<char>,
))
    requires
        owner_repo(url) is Some,
    ensures
        a_scheme(parts.0),
        a_user(parts.1),
        a_host_prefix(parts.2),
        a_host(parts.3),
        owner_repo(url)->0.len() > 0,
        normalized(url) == parts.0 + (parts.1 + (parts.2 + (parts.3 + owner_repo(url)->0))),
{
    let s = normalized(url);
    let none = Seq::<char>::empty();
    lemma_prefix_back(s, "https://"@);
    lemma_prefix_back(s, "http://"@);
    lemma_prefix_back(s, "ssh://"@);
    let scheme = if starts_with(s, "https://"@) {
        "https://"@
    } else if starts_with(s, "http://"@) {
        "http://"@
    } else if starts_with(s, "ssh://"@) {
        "ssh://"@
    } else {
        none
    };
    let at_user = without_scheme(s);
    lemma_prefix_back(at_user, "git@"@);
    let user = if starts_with(at_user, "git@"@) {
        "git@"@
    } else {
        none
    };
    let at_www = without_prefix(at_user, "git@"@);
    lemma_prefix_back(at_www, "www."@);
    let www = if starts_with(at_www, "www."@) {
        "www."@
    } else {
        none
    };
    let at_host = location(s);
    lemma_prefix_back(at_host, "github.com/"@);
    lemma_prefix_back(at_host, "github.com:"@);
    let host = if starts_with(at_host, "github.com/"@) {
        "github.com/"@
    } else {
        "github.com:"@
    };
    (scheme, user, www, host)
}

/// Two URLs on GitHub name the same source exactly where their owners and
/// repositories are the same, and two that are not exactly where their
/// normalized forms are.
pub proof fn a_source_is_told_by_its_canonical_form(official: Seq<char>, url: Seq<char>)
    ensures
        owner_repo(official) is Some && owner_repo(url) is Some ==> (same_source(official, url)
            <==> owner_repo(official)->0 == owner_repo(url)->0),
        owner_repo(official) is None && owner_repo(url) is None ==> (same_source(official, url)
            <==> normalized(official) == normalized(url)),
        owner_repo(official) is Some != owner_repo(url) is Some ==> !same_source(official, url),
{
}

// ---- What the functions give ----

/// A source is official exactly where one is configured and the URL has its
/// canonical form: the same owner and repository on GitHub, or the same
/// normalized URL elsewhere.
pub proof fn only_the_configured_source_is_official(
    official: Option<&str>,
    url: &str,
    r: bool,
    path: Option<String>,
    plain: String,
)
    requires
        call_ensures(is_official_source_url, (official, url), r),
        call_ensures(canonical_github_owner_repo, (url,), path),
        call_ensures(normalize_non_github, (url,), plain),
    ensures
        official is None ==> !r,
        official matches Some(configured) ==> (r <==> match (owner_repo(configured@), path) {
            (Some(a), Some(b)) => a == b@,
            (None, None) => normalized(configured@) == plain@,
            _ => false,
        }),
        path matches Some(p) ==> owner_repo(url@) == Some(p@),
        path is None ==> owner_repo(url@) is None,
        plain@ == normalized(url@),
{
}

} // verus!
