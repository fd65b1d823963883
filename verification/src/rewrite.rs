//! Writing the chapter anew: links with an item path in parentheses are
//! turned into links by label, and a definition of every resolved label is
//! put at the end.

use vstd::prelude::*;
use vstd::string::*;
use vstd::utf8::{encode_utf8, encode_utf8_valid_utf8, is_char_boundary_start_end_of_seq};
use crate::engine::{
    captures_iter, captures_wf, group, group_span, match_end, match_start, regex_captures,
    span_str, span_text, Captures, CapturesView,
};
use crate::error::{text_result, LinkError, LinkErrorView};
use crate::link::{label, link_views, str_views, Link, LinkView};
use crate::relative::{relative_url, relative_url_spec};
use crate::resolve::{extract_urls, resolved_urls};
use crate::scan::{candidates, eligible_links, group_texts, links_of, LINK_DEF, STD_LINK};
use crate::select::{lemma_selection, selection};
use crate::text::{byte_slice, is_span, slice};

verus! {

/// What one match of the pattern for references is replaced with: a link
/// that had an item path in parentheses keeps its text and gets the path as
/// its label, any other match stays as it is.
pub open spec fn compact(text: Seq<char>, found: CapturesView) -> Seq<char> {
    match (group(found, 1), group(found, 2)) {
        (Some(shown), Some(path)) => span_text(text, shown) + seq!['['] + span_text(text, path)
            + seq![']'],
        _ => match group(found, 0) {
            Some(whole) => span_text(text, whole),
            None => Seq::empty(),
        },
    }
}

/// The byte offset up to which `text` is dealt with after `n` matches.
pub open spec fn copied_upto(found: Seq<CapturesView>, n: nat) -> int {
    if n == 0 {
        0
    } else {
        match_end(found[n - 1])
    }
}

/// The new text up to the end of match `n - 1`.
pub open spec fn rewritten_upto(
    text: Seq<char>,
    found: Seq<CapturesView>,
    n: nat,
) -> Seq<char>
    decreases n,
{
    if n == 0 {
        Seq::empty()
    } else {
        let m = (n - 1) as nat;
        rewritten_upto(text, found, m) + byte_slice(
            text,
            copied_upto(found, m),
            match_start(found[m as int]),
        ) + compact(text, found[m as int])
    }
}

/// `text` with every match replaced by its compact form.
pub open spec fn rewritten(text: Seq<char>, found: Seq<CapturesView>) -> Seq<char> {
    rewritten_upto(text, found, found.len()) + byte_slice(
        text,
        copied_upto(found, found.len()),
        encode_utf8(text).len() as int,
    )
}

/// The line that defines the label of `link` as `url`.
pub open spec fn definition(link: LinkView, url: Seq<char>) -> Seq<char> {
    label(link) + seq![':', ' '] + url + seq!['\n']
}

/// The definitions of the first `n` links, each with the URL at the same
/// place in `urls` made relative, or the error of the first URL that cannot
/// be.
pub open spec fn definitions_upto(
    links: Seq<LinkView>,
    urls: Seq<Seq<char>>,
    depth: nat,
    relativize: bool,
    n: nat,
) -> Result<Seq<char>, LinkErrorView>
    decreases n,
{
    if n == 0 {
        Ok(Seq::empty())
    } else {
        let m = (n - 1) as nat;
        match definitions_upto(links, urls, depth, relativize, m) {
            Err(e) => Err(e),
            Ok(front) => match relative_url_spec(urls[m as int], depth, relativize) {
                Err(e) => Err(e),
                Ok(url) => Ok(front + definition(links[m as int], url)),
            },
        }
    }
}

/// The block of definitions for `links` and the URLs that the resolver gave
/// for them: an error where there are not as many URLs as links.
pub open spec fn link_definitions_spec(
    links: Seq<LinkView>,
    urls: Seq<Seq<char>>,
    depth: nat,
    relativize: bool,
) -> Result<Seq<char>, LinkErrorView> {
    if links.len() != urls.len() {
        Err(
            LinkErrorView::CountMismatch {
                expected: links.len() as usize,
                found: urls.len() as usize,
            },
        )
    } else {
        definitions_upto(links, urls, depth, relativize, links.len())
    }
}

/// The new text of a chapter, from the matches of the pattern for
/// references in it, the references to resolve and their URLs.
pub open spec fn chapter_spec(
    content: Seq<char>,
    found: Seq<CapturesView>,
    links: Seq<LinkView>,
    urls: Seq<Seq<char>>,
    depth: nat,
    relativize: bool,
) -> Result<Seq<char>, LinkErrorView> {
    if links.len() == 0 {
        Ok(content)
    } else {
        match link_definitions_spec(links, urls, depth, relativize) {
            Err(e) => Err(e),
            Ok(defs) => Ok(rewritten(content, found) + seq!['\n'] + defs),
        }
    }
}

/// The new text of a chapter, from its text and the page that the resolver
/// wrote for it.
pub open spec fn std_links_spec(
    content: Seq<char>,
    generated: Seq<char>,
    depth: nat,
    relativize: bool,
) -> Result<Seq<char>, LinkErrorView> {
    match (regex_captures(STD_LINK@, content), eligible_links(content)) {
        (Some(found), Some(links)) => if links.len() == 0 {
            Ok(content)
        } else {
            match resolved_urls(generated) {
                Some(urls) => chapter_spec(content, found, links, urls, depth, relativize),
                None => Err(LinkErrorView::Pattern),
            }
        },
        _ => Err(LinkErrorView::Pattern),
    }
}

/// Once a URL cannot be made relative, no longer list of definitions can be
/// written either.
proof fn lemma_definitions_fail(
    links: Seq<LinkView>,
    urls: Seq<Seq<char>>,
    depth: nat,
    relativize: bool,
    k: nat,
    n: nat,
)
    requires
        k <= n,
        definitions_upto(links, urls, depth, relativize, k) is Err,
    ensures
        definitions_upto(links, urls, depth, relativize, n) == definitions_upto(
            links,
            urls,
            depth,
            relativize,
            k,
        ),
    decreases n,
{
    if k < n {
        lemma_definitions_fail(links, urls, depth, relativize, k, (n - 1) as nat);
    }
}

/// The definitions stand in the order of the links: the block for the first
/// `k` links is the beginning of the block for any more of them.
pub proof fn lemma_definitions_in_order(
    links: Seq<LinkView>,
    urls: Seq<Seq<char>>,
    depth: nat,
    relativize: bool,
    k: nat,
    n: nat,
)
    requires
        k <= n,
        definitions_upto(links, urls, depth, relativize, n) is Ok,
    ensures
        definitions_upto(links, urls, depth, relativize, k) matches Ok(front) && definitions_upto(
            links,
            urls,
            depth,
            relativize,
            n,
        ) matches Ok(all) && front.is_prefix_of(all),
    decreases n,
{
    if k < n {
        lemma_definitions_in_order(links, urls, depth, relativize, k, (n - 1) as nat);
    }
}

/// The compact form of one match in `content`.
fn compact_form(content: &str, found: &Captures) -> (form: String)
    requires
        found.len() > 0,
        forall|j: int|
            0 <= j < found.len() ==> (#[trigger] found[j] matches Some(span) ==> is_span(
                content@,
                span.0 as int,
                span.1 as int,
            )),
    ensures
        form@ == compact(content@, found.deep_view()),
{
    match (group_span(found, 1), group_span(found, 2)) {
        (Some(shown), Some(path)) => {
            proof {
                reveal_strlit("[");
                reveal_strlit("]");
            }
            assert(found[1] == Some(shown));
            assert(found[2] == Some(path));
            let mut form = span_str(content, shown).to_owned();
            form.append("[");
            form.append(span_str(content, path));
            form.append("]");
            assert(form@ =~= span_text(content@, shown) + seq!['['] + span_text(content@, path)
                + seq![']']);
            form
        },
        _ => match group_span(found, 0) {
            Some(whole) => {
                assert(found[0] == Some(whole));
                span_str(content, whole).to_owned()
            },
            None => String::new(),
        },
    }
}

/// Replaces every link whose destination is an item path by a link with
/// that path as its label; the rest of the text, other matches included,
/// is copied as it stands.
pub fn rewrite_links(content: &str, found: &Vec<Captures>) -> (out: String)
    requires
        captures_wf(content@, found.deep_view()),
    ensures
        out@ == rewritten(content@, found.deep_view()),
{
    let ghost all = found.deep_view();
    let mut out = String::new();
    let mut cursor: usize = 0;
    let mut i: usize = 0;
    proof {
        encode_utf8_valid_utf8(content@);
        is_char_boundary_start_end_of_seq(encode_utf8(content@));
    }
    while i < found.len()
        invariant
            i <= found.len(),
            all == found.deep_view(),
            captures_wf(content@, all),
            cursor == copied_upto(all, i as nat),
            is_span(content@, cursor as int, cursor as int),
            out@ == rewritten_upto(content@, all, i as nat),
        decreases found.len() - i,
    {
        let one = &found[i];
        assert(one.deep_view() == all[i as int]);
        assert(all[i as int].len() > 0 && all[i as int][0] is Some);
        assert forall|j: int| 0 <= j < one.len() implies (#[trigger] one[j] matches Some(span)
            ==> is_span(content@, span.0 as int, span.1 as int)) by {
            assert(all[i as int][j] == one[j]);
        }
        match group_span(one, 0) {
            Some(whole) => {
                assert(all[i as int][0] == Some(whole));
                assert(cursor <= whole.0) by {
                    if i > 0 {
                        assert(match_end(all[i - 1]) <= match_start(all[i as int]));
                    }
                }
                out.append(slice(content, cursor, whole.0));
                let form = compact_form(content, one);
                out.append(form.as_str());
                cursor = whole.1;
            },
            None => {},
        }
        i += 1;
    }
    let end = content.as_bytes().len();
    proof {
        encode_utf8_valid_utf8(content@);
        is_char_boundary_start_end_of_seq(encode_utf8(content@));
    }
    out.append(slice(content, cursor, end));
    out
}

/// Writes the definitions of the labels of `links`, one line each in the
/// order given, the URL of each made relative to a chapter `depth`
/// directories below the root if `relativize` is on. Fails where the two
/// lists differ in length and on a URL that is not of the documentation site.
pub fn link_definitions(
    links: &Vec<Link>,
    urls: &Vec<String>,
    depth: usize,
    relativize: bool,
) -> (r: Result<String, LinkError>)
    ensures
        text_result(r) == link_definitions_spec(
            link_views(links@),
            str_views(urls@),
            depth as nat,
            relativize,
        ),
{
    if links.len() != urls.len() {
        return Err(LinkError::CountMismatch { expected: links.len(), found: urls.len() });
    }
    let ghost ls = link_views(links@);
    let ghost us = str_views(urls@);
    let mut out = String::new();
    let mut i: usize = 0;
    while i < links.len()
        invariant
            i <= links.len(),
            links.len() == urls.len(),
            ls == link_views(links@),
            us == str_views(urls@),
            definitions_upto(ls, us, depth as nat, relativize, i as nat) == Ok::<
                Seq<char>,
                LinkErrorView,
            >(out@),
        decreases links.len() - i,
    {
        let ghost before = out@;
        match relative_url(urls[i].as_str(), depth, relativize) {
            Ok(url) => {
                proof {
                    reveal_strlit(": ");
                    reveal_strlit("\n");
                }
                let name = links[i].label();
                out.append(name.as_str());
                out.append(": ");
                out.append(url.as_str());
                out.append("\n");
                assert(out@ =~= before + definition(ls[i as int], url@));
            },
            Err(e) => {
                proof {
                    lemma_definitions_fail(
                        ls,
                        us,
                        depth as nat,
                        relativize,
                        (i + 1) as nat,
                        links.len() as nat,
                    );
                }
                return Err(e);
            },
        }
        i += 1;
    }
    Ok(out)
}

/// Writes a chapter anew from what was found in it: `found` are the matches
/// of the pattern for references, `links` the references that were resolved
/// and `urls` what they were resolved to. A chapter without such links
/// stays as it is.
pub fn rewrite_chapter(
    content: &str,
    found: &Vec<Captures>,
    links: &Vec<Link>,
    urls: &Vec<String>,
    depth: usize,
    relativize: bool,
) -> (r: Result<String, LinkError>)
    requires
        captures_wf(content@, found.deep_view()),
    ensures
        text_result(r) == chapter_spec(
            content@,
            found.deep_view(),
            link_views(links@),
            str_views(urls@),
            depth as nat,
            relativize,
        ),
{
    if links.len() == 0 {
        return Ok(content.to_owned());
    }
    match link_definitions(links, urls, depth, relativize) {
        Ok(defs) => {
            proof {
                reveal_strlit("\n");
            }
            let mut out = rewrite_links(content, found);
            out.append("\n");
            out.append(defs.as_str());
            assert(out@ =~= rewritten(content@, found.deep_view()) + seq!['\n'] + defs@);
            Ok(out)
        },
        Err(e) => Err(e),
    }
}

/// Converts the references of a chapter to items of the standard library
/// into links to the online documentation. `generated` is the page that the
/// resolver wrote for the references of this chapter; it is not read where
/// the chapter has none to resolve.
pub fn std_links(content: &str, generated: &str, depth: usize, relativize: bool) -> (r: Result<
    String,
    LinkError,
>)
    ensures
        text_result(r) == std_links_spec(content@, generated@, depth as nat, relativize),
{
    let found = match captures_iter(STD_LINK, content) {
        Ok(found) => found,
        Err(_) => {
            return Err(LinkError::Pattern);
        },
    };
    let defs = match captures_iter(LINK_DEF, content) {
        Ok(defs) => defs,
        Err(_) => {
            return Err(LinkError::Pattern);
        },
    };
    let links = links_of(content, &found, &defs);
    if links.len() == 0 {
        return Ok(content.to_owned());
    }
    match extract_urls(generated) {
        Ok(urls) => rewrite_chapter(content, &found, &links, &urls, depth, relativize),
        Err(e) => Err(e),
    }
}

/// A chapter in which every reference has a label that the chapter defines
/// itself comes back unchanged.
pub proof fn lemma_defined_references_stay(
    content: Seq<char>,
    generated: Seq<char>,
    depth: nat,
    relativize: bool,
)
    requires
        regex_captures(STD_LINK@, content) is Some,
        regex_captures(LINK_DEF@, content) is Some,
        forall|l: LinkView|
            candidates(content, regex_captures(STD_LINK@, content).unwrap()).contains(l)
                ==> group_texts(content, regex_captures(LINK_DEF@, content).unwrap(), 1).contains(
                label(l),
            ),
    ensures
        std_links_spec(content, generated, depth, relativize) == Ok::<Seq<char>, LinkErrorView>(
            content,
        ),
{
    let all = candidates(content, regex_captures(STD_LINK@, content).unwrap());
    let defined = group_texts(content, regex_captures(LINK_DEF@, content).unwrap(), 1);
    let chosen = selection(all, defined);
    lemma_selection(all, defined);
    if chosen.len() > 0 {
        assert(chosen.contains(chosen[0]));
    }
}

/// A chapter with no reference to resolve comes back unchanged, whatever
/// the resolver's page holds.
pub proof fn lemma_nothing_to_resolve(
    content: Seq<char>,
    generated: Seq<char>,
    depth: nat,
    relativize: bool,
)
    requires
        eligible_links(content) matches Some(links) && links.len() == 0,
    ensures
        std_links_spec(content, generated, depth, relativize) == Ok::<Seq<char>, LinkErrorView>(
            content,
        ),
{
}

/// Where the resolver's page holds another number of URLs than there are
/// references to resolve, the chapter is not written: the result is the
/// error that names both numbers.
pub proof fn lemma_count_mismatch(
    content: Seq<char>,
    generated: Seq<char>,
    depth: nat,
    relativize: bool,
)
    requires
        eligible_links(content) matches Some(links) && links.len() > 0,
        resolved_urls(generated) is Some,
        resolved_urls(generated).unwrap().len() != eligible_links(content).unwrap().len(),
    ensures
        std_links_spec(content, generated, depth, relativize) == Err::<Seq<char>, LinkErrorView>(
            LinkErrorView::CountMismatch {
                expected: eligible_links(content).unwrap().len() as usize,
                found: resolved_urls(generated).unwrap().len() as usize,
            },
        ),
{
}

} // verus!
