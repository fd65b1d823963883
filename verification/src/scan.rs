//! Finding the references of a chapter and the labels it already defines.

use vstd::prelude::*;
use crate::engine::{
    captures_iter, captures_wf, group, group_span, regex_captures, span_str, span_text, Captures,
    CapturesView,
};
use crate::error::{LinkError, LinkErrorView};
use crate::link::{label, link_views, str_views, Link, LinkView};
use crate::select::{is_selection, select_links, selection};

verus! {

/// A bracketed code span that names an item of the standard library, alone
/// (group 3) or as the text of a link (group 1) whose destination is an item
/// path (group 2). An item path is an optional kind such as `macro@`, one of
/// the library's crates, and the rest of the path behind `::`.
pub const STD_LINK: &'static str = r"(?x)
    (?:
        ( \[`[^`]+`\] )
        \( ( (?: [a-z]+@ )? (?: std|core|alloc|proc_macro|test )
             (?: ::[A-Za-z0-9_!:<>{}()\[\]]+ )? ) \)
    )
    | (?:
        ( \[` (?: [a-z]+@ )? (?: std|core|alloc|proc_macro|test )
              (?: ::[A-Za-z0-9_!:<>{}()\[\]]+ )? `\] )
    )";

/// A link definition at the start of a line: the bracketed label (group 1),
/// a colon, and the destination (group 2). Block quotes and code blocks are
/// not told apart from other text.
pub const LINK_DEF: &'static str = r"(?m)^(\[[^]]+\]): *(.*)";

/// The reference that one match of [`STD_LINK`] stands for.
pub open spec fn candidate(text: Seq<char>, found: CapturesView) -> Option<LinkView> {
    match group(found, 3) {
        Some(bare) => Some(LinkView { text: span_text(text, bare), dest: None }),
        None => match (group(found, 1), group(found, 2)) {
            (Some(shown), Some(path)) => Some(
                LinkView { text: span_text(text, shown), dest: Some(span_text(text, path)) },
            ),
            _ => None,
        },
    }
}

/// The references that the matches of [`STD_LINK`] stand for, in the order
/// of the matches.
pub open spec fn candidates(text: Seq<char>, found: Seq<CapturesView>) -> Seq<LinkView>
    decreases found.len(),
{
    if found.len() == 0 {
        Seq::empty()
    } else {
        let front = candidates(text, found.drop_last());
        match candidate(text, found.last()) {
            Some(link) => front.push(link),
            None => front,
        }
    }
}

/// The text of group `index` of every match that has it, in the order of
/// the matches.
pub open spec fn group_texts(
    text: Seq<char>,
    found: Seq<CapturesView>,
    index: int,
) -> Seq<Seq<char>>
    decreases found.len(),
{
    if found.len() == 0 {
        Seq::empty()
    } else {
        let front = group_texts(text, found.drop_last(), index);
        match group(found.last(), index) {
            Some(span) => front.push(span_text(text, span)),
            None => front,
        }
    }
}

/// The references of `content` to resolve, from what the engine found in it:
/// `None` where the engine refused a pattern.
pub open spec fn eligible_links(content: Seq<char>) -> Option<Seq<LinkView>> {
    match (regex_captures(STD_LINK@, content), regex_captures(LINK_DEF@, content)) {
        (Some(found), Some(defs)) => Some(
            selection(candidates(content, found), group_texts(content, defs, 1)),
        ),
        _ => None,
    }
}

/// The references that the matches `found` of [`STD_LINK`] in `content`
/// stand for.
pub fn candidate_links(content: &str, found: &Vec<Captures>) -> (links: Vec<Link>)
    requires
        captures_wf(content@, found.deep_view()),
    ensures
        link_views(links@) == candidates(content@, found.deep_view()),
{
    let ghost all = found.deep_view();
    let mut links: Vec<Link> = Vec::new();
    let mut i: usize = 0;
    assert(all.take(0) =~= Seq::empty());
    while i < found.len()
        invariant
            i <= found.len(),
            all == found.deep_view(),
            captures_wf(content@, all),
            link_views(links@) == candidates(content@, all.take(i as int)),
        decreases found.len() - i,
    {
        let one = &found[i];
        let ghost before = link_views(links@);
        assert(one.deep_view() == all[i as int]);
        assert(all.take(i + 1).drop_last() =~= all.take(i as int));
        assert(all.take(i + 1).last() == all[i as int]);
        match group_span(one, 3) {
            Some(bare) => {
                assert(all[i as int][3] == Some(bare));
                let link = Link { text: span_str(content, bare).to_owned(), dest: None };
                links.push(link);
                assert(link_views(links@) =~= before.push(link@));
            },
            None => match (group_span(one, 1), group_span(one, 2)) {
                (Some(shown), Some(path)) => {
                    assert(all[i as int][1] == Some(shown));
                    assert(all[i as int][2] == Some(path));
                    let link = Link {
                        text: span_str(content, shown).to_owned(),
                        dest: Some(span_str(content, path).to_owned()),
                    };
                    links.push(link);
                    assert(link_views(links@) =~= before.push(link@));
                },
                _ => {},
            },
        }
        i += 1;
    }
    assert(all.take(i as int) =~= all);
    links
}

/// The text of group `index` of every match in `found` that has it.
pub fn group_strings(text: &str, found: &Vec<Captures>, index: usize) -> (texts: Vec<String>)
    requires
        captures_wf(text@, found.deep_view()),
    ensures
        str_views(texts@) == group_texts(text@, found.deep_view(), index as int),
{
    let ghost all = found.deep_view();
    let mut texts: Vec<String> = Vec::new();
    let mut i: usize = 0;
    assert(all.take(0) =~= Seq::empty());
    while i < found.len()
        invariant
            i <= found.len(),
            all == found.deep_view(),
            captures_wf(text@, all),
            str_views(texts@) == group_texts(text@, all.take(i as int), index as int),
        decreases found.len() - i,
    {
        let one = &found[i];
        let ghost before = str_views(texts@);
        assert(one.deep_view() == all[i as int]);
        assert(all.take(i + 1).drop_last() =~= all.take(i as int));
        assert(all.take(i + 1).last() == all[i as int]);
        match group_span(one, index) {
            Some(span) => {
                assert(all[i as int][index as int] == Some(span));
                let part = span_str(text, span).to_owned();
                texts.push(part);
                assert(str_views(texts@) =~= before.push(part@));
            },
            None => {},
        }
        i += 1;
    }
    assert(all.take(i as int) =~= all);
    texts
}

/// The references of a chapter to resolve, from the matches of
/// [`STD_LINK`] and of [`LINK_DEF`] in it.
pub fn links_of(
    content: &str,
    found: &Vec<Captures>,
    defs: &Vec<Captures>,
) -> (links: Vec<Link>)
    requires
        captures_wf(content@, found.deep_view()),
        captures_wf(content@, defs.deep_view()),
    ensures
        link_views(links@) == selection(
            candidates(content@, found.deep_view()),
            group_texts(content@, defs.deep_view(), 1),
        ),
        is_selection(
            link_views(links@),
            candidates(content@, found.deep_view()),
            group_texts(content@, defs.deep_view(), 1),
        ),
{
    let all = candidate_links(content, found);
    let defined = group_strings(content, defs, 1);
    select_links(&all, &defined)
}

/// Collects the references of a chapter that are to be resolved: every
/// distinct one once, in canonical order, but for those whose label the
/// chapter defines itself.
pub fn collect_markdown_links(content: &str) -> (r: Result<Vec<Link>, LinkError>)
    ensures
        match r {
            Ok(links) => eligible_links(content@) == Some(link_views(links@)),
            Err(e) => eligible_links(content@) is None && e@ == LinkErrorView::Pattern,
        },
{
    let found = match captures_iter(STD_LINK, content) {
        Ok(found) => found,
        Err(_) => {
            return Err(LinkError::Pattern);
        },
    };
    let defs = match captures_iter(LINK_DEF, content) {
        Ok(defs) => defs,
        Err(_) => {
            return Err(LinkError::Pattern);
        },
    };
    Ok(links_of(content, &found, &defs))
}

} // verus!
