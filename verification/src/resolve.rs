//! Talking to the resolver: the source text that it is given, and the URLs
//! that are read from the page it writes.

use vstd::prelude::*;
use vstd::string::*;
use crate::engine::{captures_iter, regex_captures};
use crate::error::{LinkError, LinkErrorView};
use crate::link::{link_views, str_views, Link, LinkView};
use crate::scan::{collect_markdown_links, eligible_links, group_strings, group_texts};

verus! {

/// The first lines of the source text: broken links are errors, and a path
/// given where none is needed is no cause for a warning.
pub const SOURCE_HEAD: &'static str =
    "#![deny(rustdoc::broken_intra_doc_links)]\n#![allow(rustdoc::redundant_explicit_links)]\n";

/// The last lines of the source text, which bring the library's other crates
/// into scope.
pub const SOURCE_TAIL: &'static str =
    "extern crate alloc;\nextern crate proc_macro;\nextern crate test;\n\n";

/// An entry of the generated page's list that links to the documentation
/// site; group 1 is the URL. The dots of the address are literal.
pub const DOC_LINK: &'static str = r#"<li><a [^>]*href="(https://doc\.rust-lang\.org/[^"]+)""#;

/// The line of the source text that asks for one reference.
pub open spec fn source_line(link: LinkView) -> Seq<char> {
    "//! - "@ + link.text + match link.dest {
        Some(d) => "("@ + d + ")"@,
        None => Seq::empty(),
    } + "\n"@
}

/// The lines that ask for `links`, in their order.
pub open spec fn source_lines(links: Seq<LinkView>) -> Seq<char>
    decreases links.len(),
{
    if links.len() == 0 {
        Seq::empty()
    } else {
        source_lines(links.drop_last()) + source_line(links.last())
    }
}

/// The source text that the resolver is given for `links`.
pub open spec fn rustdoc_source_spec(links: Seq<LinkView>) -> Seq<char> {
    SOURCE_HEAD@ + source_lines(links) + SOURCE_TAIL@
}

/// The URLs on the page that the resolver wrote, in their order: `None`
/// where the engine refused the pattern.
pub open spec fn resolved_urls(generated: Seq<char>) -> Option<Seq<Seq<char>>> {
    match regex_captures(DOC_LINK@, generated) {
        Some(found) => Some(group_texts(generated, found, 1)),
        None => None,
    }
}

/// Writes the source text that makes the resolver resolve `links`: one line
/// of documentation for each, in the order given.
pub fn rustdoc_source(links: &Vec<Link>) -> (source: String)
    ensures
        source@ == rustdoc_source_spec(link_views(links@)),
{
    let ghost all = link_views(links@);
    let mut source = String::from_str(SOURCE_HEAD);
    let mut i: usize = 0;
    assert(all.take(0) =~= Seq::empty());
    assert(source@ =~= SOURCE_HEAD@ + source_lines(all.take(0)));
    while i < links.len()
        invariant
            i <= links.len(),
            all == link_views(links@),
            source@ == SOURCE_HEAD@ + source_lines(all.take(i as int)),
        decreases links.len() - i,
    {
        let ghost before = source@;
        let link = &links[i];
        source.append("//! - ");
        source.append(link.text.as_str());
        match &link.dest {
            Some(d) => {
                source.append("(");
                source.append(d.as_str());
                source.append(")");
            },
            None => {},
        }
        source.append("\n");
        proof {
            assert(all.take(i + 1).drop_last() =~= all.take(i as int));
            assert(all.take(i + 1).last() == link@);
            assert(source@ =~= before + source_line(link@));
        }
        i += 1;
    }
    assert(all.take(i as int) =~= all);
    source.append(SOURCE_TAIL);
    source
}

/// The source text to hand to the resolver for a chapter, or `None` where
/// the chapter has no reference to resolve and stays as it is.
pub fn resolver_input(content: &str) -> (r: Result<Option<String>, LinkError>)
    ensures
        match r {
            Ok(None) => eligible_links(content@) matches Some(links) && links.len() == 0,
            Ok(Some(source)) => eligible_links(content@) matches Some(links) && links.len() > 0
                && source@ == rustdoc_source_spec(links),
            Err(e) => eligible_links(content@) is None && e@ == LinkErrorView::Pattern,
        },
{
    match collect_markdown_links(content) {
        Ok(links) => {
            if links.len() == 0 {
                Ok(None)
            } else {
                Ok(Some(rustdoc_source(&links)))
            }
        },
        Err(e) => Err(e),
    }
}

/// Reads the resolved URLs from the page that the resolver wrote, in the
/// order in which they stand there.
pub fn extract_urls(generated: &str) -> (r: Result<Vec<String>, LinkError>)
    ensures
        match r {
            Ok(urls) => resolved_urls(generated@) == Some(str_views(urls@)),
            Err(e) => resolved_urls(generated@) is None && e@ == LinkErrorView::Pattern,
        },
{
    match captures_iter(DOC_LINK, generated) {
        Ok(found) => Ok(group_strings(generated, &found, 1)),
        Err(_) => Err(LinkError::Pattern),
    }
}

} // verus!
