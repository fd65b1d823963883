//! Turning a URL of the documentation site into a path relative to the
//! chapter that links to it.

use vstd::prelude::*;
use vstd::string::*;
use crate::error::{text_result, LinkError, LinkErrorView};

verus! {

pub open spec fn is_digit(c: char) -> bool {
    '0' <= c <= '9'
}

/// How many digits `s` starts with.
pub open spec fn digits(s: Seq<char>) -> nat
    decreases s.len(),
{
    if s.len() > 0 && is_digit(s[0]) {
        1 + digits(s.drop_first())
    } else {
        0
    }
}

/// The length of the version number `1.N.N` that `s` starts with, each `N`
/// being all the digits that stand there.
pub open spec fn version_len(s: Seq<char>) -> Option<nat> {
    if s.len() >= 2 && s[0] == '1' && s[1] == '.' {
        let minor = digits(s.skip(2)) as int;
        if minor > 0 && s.len() > 2 + minor && s[2 + minor] == '.' {
            let patch = digits(s.skip(3 + minor)) as int;
            if patch > 0 {
                Some((3 + minor + patch) as nat)
            } else {
                None
            }
        } else {
            None
        }
    } else {
        None
    }
}

/// The length of the release channel that `s` starts with: one of the four
/// named channels or a version number.
pub open spec fn channel_len(s: Seq<char>) -> Option<nat> {
    if "nightly"@.is_prefix_of(s) {
        Some(7)
    } else if "beta"@.is_prefix_of(s) {
        Some(4)
    } else if "stable"@.is_prefix_of(s) {
        Some(6)
    } else if "dev"@.is_prefix_of(s) {
        Some(3)
    } else {
        version_len(s)
    }
}

/// The length of what `url` has in front of its path on the site: the
/// site's address and a release channel. `None` for any other URL.
pub open spec fn doc_prefix_len(url: Seq<char>) -> Option<nat> {
    if "https://doc.rust-lang.org/"@.is_prefix_of(url) {
        match channel_len(url.skip(26)) {
            Some(n) => Some(26 + n),
            None => None,
        }
    } else {
        None
    }
}

/// `depth` times `..`, with `/` between them.
pub open spec fn parent_dirs(depth: nat) -> Seq<char>
    decreases depth,
{
    if depth == 0 {
        Seq::empty()
    } else if depth == 1 {
        seq!['.', '.']
    } else {
        parent_dirs((depth - 1) as nat) + seq!['/', '.', '.']
    }
}

/// The URL under which a chapter `depth` directories below the book's root
/// reaches `url`.
pub open spec fn relative_url_spec(url: Seq<char>, depth: nat, relativize: bool) -> Result<
    Seq<char>,
    LinkErrorView,
> {
    if !relativize {
        Ok(url)
    } else {
        match doc_prefix_len(url) {
            Some(n) => Ok(parent_dirs(depth) + url.skip(n as int)),
            None => Err(LinkErrorView::UnrecognizedUrl { url }),
        }
    }
}

/// `c` is a release channel and nothing more.
pub open spec fn is_channel(c: Seq<char>) -> bool {
    ||| c == "nightly"@
    ||| c == "beta"@
    ||| c == "stable"@
    ||| c == "dev"@
    ||| version_len(c) == Some(c.len())
}

/// The digits in front of `a` are those in front of `a + b`, unless `a` is
/// digits throughout and `b` goes on with one.
proof fn lemma_digits_extend(a: Seq<char>, b: Seq<char>)
    requires
        digits(a) < a.len() || b.len() == 0 || !is_digit(b[0]),
    ensures
        digits(a + b) == digits(a),
        digits(a) <= a.len(),
    decreases a.len(),
{
    if a.len() == 0 {
        assert(a + b =~= b);
    } else if is_digit(a[0]) {
        assert((a + b).drop_first() =~= a.drop_first() + b);
        lemma_digits_extend(a.drop_first(), b);
    }
}

proof fn lemma_digits_bound(a: Seq<char>)
    ensures
        digits(a) <= a.len(),
    decreases a.len(),
{
    if a.len() > 0 && is_digit(a[0]) {
        lemma_digits_bound(a.drop_first());
    }
}

/// A release channel is still read as that channel when anything but a digit
/// follows it.
pub proof fn lemma_channel_extend(channel: Seq<char>, rest: Seq<char>)
    requires
        is_channel(channel),
        rest.len() == 0 || !is_digit(rest[0]),
    ensures
        channel_len(channel + rest) == Some(channel.len()),
{
    reveal_strlit("nightly");
    reveal_strlit("beta");
    reveal_strlit("stable");
    reveal_strlit("dev");
    let s = channel + rest;
    if channel == "nightly"@ || channel == "beta"@ || channel == "stable"@ || channel == "dev"@ {
        assert(channel =~= s.subrange(0, channel.len() as int));
    } else {
        let minor = digits(channel.skip(2)) as int;
        let patch = digits(channel.skip(3 + minor)) as int;
        lemma_digits_bound(channel.skip(2));
        assert(s.skip(2) =~= channel.skip(2) + rest);
        lemma_digits_extend(channel.skip(2), rest);
        assert(s.skip(3 + minor) =~= channel.skip(3 + minor) + rest);
        lemma_digits_extend(channel.skip(3 + minor), rest);
        assert(s[0] == '1');
        assert(!"nightly"@.is_prefix_of(s)) by {
            if "nightly"@.is_prefix_of(s) {
                assert(s.subrange(0, 7)[0] == 'n');
            }
        }
        assert(!"beta"@.is_prefix_of(s)) by {
            if "beta"@.is_prefix_of(s) {
                assert(s.subrange(0, 4)[0] == 'b');
            }
        }
        assert(!"stable"@.is_prefix_of(s)) by {
            if "stable"@.is_prefix_of(s) {
                assert(s.subrange(0, 6)[0] == 's');
            }
        }
        assert(!"dev"@.is_prefix_of(s)) by {
            if "dev"@.is_prefix_of(s) {
                assert(s.subrange(0, 3)[0] == 'd');
            }
        }
    }
}

/// For a chapter `depth` directories below the root, the URL of `path` under
/// any release channel of the site becomes `depth` times `..`, joined by `/`,
/// and then `/` and `path`.
pub proof fn lemma_relative_url_keeps_path(channel: Seq<char>, path: Seq<char>, depth: nat)
    requires
        is_channel(channel),
    ensures
        relative_url_spec(
            "https://doc.rust-lang.org/"@ + channel + seq!['/'] + path,
            depth,
            true,
        ) == Ok::<Seq<char>, LinkErrorView>(parent_dirs(depth) + seq!['/'] + path),
{
    reveal_strlit("https://doc.rust-lang.org/");
    let site = "https://doc.rust-lang.org/"@;
    let rest = seq!['/'] + path;
    let url = site + channel + seq!['/'] + path;
    assert(site =~= url.subrange(0, 26));
    assert(url.skip(26) =~= channel + rest);
    lemma_channel_extend(channel, rest);
    assert(url.skip(26 + channel.len() as int) =~= rest);
    assert(parent_dirs(depth) + rest =~= parent_dirs(depth) + seq!['/'] + path);
}

/// With relative URLs turned off every URL stays as it is.
pub proof fn lemma_relative_url_off(url: Seq<char>, depth: nat)
    ensures
        relative_url_spec(url, depth, false) == Ok::<Seq<char>, LinkErrorView>(url),
{
}

/// Whether relative URLs are wanted, from the value of the switch that
/// turns them off: they are unless it is set to `0`.
pub fn relativize_enabled(switch: Option<&str>) -> (on: bool)
    ensures
        on == !(switch matches Some(v) && v@ == seq!['0']),
{
    match switch {
        Some(v) => {
            let off = v.unicode_len() == 1 && v.get_char(0) == '0';
            assert(off == (v@ =~= seq!['0']));
            !off
        },
        None => true,
    }
}

/// Whether `word` stands in `text` at character `at`.
fn has_word_at(text: &str, len: usize, at: usize, word: &str) -> (yes: bool)
    requires
        len == text@.len(),
        at <= len,
    ensures
        yes == word@.is_prefix_of(text@.skip(at as int)),
{
    let n = word.unicode_len();
    if n > len - at {
        return false;
    }
    let mut i: usize = 0;
    while i < n
        invariant
            i <= n,
            n == word@.len(),
            len == text@.len(),
            at + n <= len,
            forall|k: int| 0 <= k < i ==> word@[k] == text@[at + k],
        decreases n - i,
    {
        if word.get_char(i) != text.get_char(at + i) {
            assert(text@.skip(at as int)[i as int] != word@[i as int]);
            return false;
        }
        i += 1;
    }
    assert(word@ =~= text@.skip(at as int).subrange(0, n as int));
    true
}

/// How many digits stand in `text` from character `at` on.
fn count_digits(text: &str, len: usize, at: usize) -> (n: usize)
    requires
        len == text@.len(),
        at <= len,
    ensures
        n == digits(text@.skip(at as int)),
        at + n <= len,
{
    let mut n: usize = 0;
    assert(text@.skip(at as int) =~= text@.skip(at + 0));
    while at + n < len && is_digit_char(text.get_char(at + n))
        invariant
            len == text@.len(),
            at + n <= len,
            digits(text@.skip(at as int)) == n + digits(text@.skip(at + n)),
        decreases len - at - n,
    {
        assert(text@.skip(at + n).drop_first() =~= text@.skip(at + n + 1));
        n += 1;
    }
    n
}

fn is_digit_char(c: char) -> (yes: bool)
    ensures
        yes == is_digit(c),
{
    '0' <= c && c <= '9'
}

/// The length of the version number that stands in `text` at character `at`.
fn version_at(text: &str, len: usize, at: usize) -> (n: Option<usize>)
    requires
        len == text@.len(),
        at <= len,
    ensures
        n matches Some(k) ==> at + k <= len,
        match n {
            Some(k) => version_len(text@.skip(at as int)) == Some(k as nat),
            None => version_len(text@.skip(at as int)) is None,
        },
{
    let ghost s = text@.skip(at as int);
    if len - at < 2 || text.get_char(at) != '1' || text.get_char(at + 1) != '.' {
        return None;
    }
    assert(s.skip(2) =~= text@.skip(at + 2));
    let minor = count_digits(text, len, at + 2);
    if minor == 0 || at + 2 + minor >= len || text.get_char(at + 2 + minor) != '.' {
        return None;
    }
    assert(s.skip(3 + minor) =~= text@.skip(at + 3 + minor));
    let patch = count_digits(text, len, at + 3 + minor);
    if patch == 0 {
        return None;
    }
    Some(3 + minor + patch)
}

/// The length of the site's address and release channel in front of `url`.
pub fn doc_prefix(url: &str) -> (n: Option<usize>)
    ensures
        n matches Some(k) ==> k <= url@.len(),
        match n {
            Some(k) => doc_prefix_len(url@) == Some(k as nat),
            None => doc_prefix_len(url@) is None,
        },
{
    proof {
        reveal_strlit("https://doc.rust-lang.org/");
        reveal_strlit("nightly");
        reveal_strlit("beta");
        reveal_strlit("stable");
        reveal_strlit("dev");
    }
    let len = url.unicode_len();
    assert(url@.skip(0) =~= url@);
    if !has_word_at(url, len, 0, "https://doc.rust-lang.org/") {
        return None;
    }
    let at: usize = 26;
    if has_word_at(url, len, at, "nightly") {
        Some(at + 7)
    } else if has_word_at(url, len, at, "beta") {
        Some(at + 4)
    } else if has_word_at(url, len, at, "stable") {
        Some(at + 6)
    } else if has_word_at(url, len, at, "dev") {
        Some(at + 3)
    } else {
        match version_at(url, len, at) {
            Some(k) => Some(at + k),
            None => None,
        }
    }
}

/// `depth` times `..`, with `/` between them.
pub fn parent_path(depth: usize) -> (dots: String)
    ensures
        dots@ == parent_dirs(depth as nat),
{
    let mut dots = String::new();
    if depth == 0 {
        return dots;
    }
    proof {
        reveal_strlit("..");
        reveal_strlit("/..");
    }
    dots.append("..");
    assert(dots@ =~= parent_dirs(1));
    let mut i: usize = 1;
    while i < depth
        invariant
            1 <= i <= depth,
            dots@ == parent_dirs(i as nat),
            "/.."@ == seq!['/', '.', '.'],
        decreases depth - i,
    {
        dots.append("/..");
        i += 1;
    }
    dots
}

/// Converts a URL of the documentation site to one that is relative to a
/// chapter `depth` directories below the book's root, so that it is reached
/// without the network. With `relativize` off the URL is left as it is.
pub fn relative_url(url: &str, depth: usize, relativize: bool) -> (r: Result<String, LinkError>)
    ensures
        text_result(r) == relative_url_spec(url@, depth as nat, relativize),
{
    if !relativize {
        return Ok(url.to_owned());
    }
    match doc_prefix(url) {
        Some(k) => {
            let len = url.unicode_len();
            let mut out = parent_path(depth);
            out.append(url.substring_char(k, len));
            assert(url@.subrange(k as int, len as int) =~= url@.skip(k as int));
            Ok(out)
        },
        None => Err(LinkError::UnrecognizedUrl { url: url.to_owned() }),
    }
}

} // verus!
