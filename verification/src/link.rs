//! References to library items as they are written in a chapter, their
//! labels, and the order in which they are resolved and defined.

use vstd::prelude::*;
use vstd::string::*;
use crate::text::{
    lemma_lex_lt_irreflexive, lemma_lex_lt_transitive, lemma_str_lt_total, str_before, str_lt,
    str_same,
};

verus! {

/// A reference found in a chapter: the bracketed code span that the author
/// wrote, and the item path given in parentheses behind it, if any.
#[derive(Debug, PartialEq, Eq)]
pub struct Link {
    pub text: String,
    pub dest: Option<String>,
}

/// The mathematical value of a [`Link`].
pub struct LinkView {
    pub text: Seq<char>,
    pub dest: Option<Seq<char>>,
}

impl View for Link {
    type V = LinkView;

    open spec fn view(&self) -> LinkView {
        LinkView {
            text: self.text@,
            dest: match self.dest {
                Some(d) => Some(d@),
                None => None,
            },
        }
    }
}

/// The values of a list of links, in the same order.
pub open spec fn link_views(links: Seq<Link>) -> Seq<LinkView> {
    Seq::new(links.len(), |i: int| links[i]@)
}

/// The values of a list of strings, in the same order.
pub open spec fn str_views(strings: Seq<String>) -> Seq<Seq<char>> {
    Seq::new(strings.len(), |i: int| strings[i]@)
}

/// The label under which a reference is defined: the item path in square
/// brackets where one was given, else the bracketed code span itself.
pub open spec fn label(link: LinkView) -> Seq<char> {
    match link.dest {
        Some(d) => seq!['['] + d + seq![']'],
        None => link.text,
    }
}

/// The order in which references are resolved: by text, then a reference
/// without an item path before one with a path, then by path.
pub open spec fn link_lt(a: LinkView, b: LinkView) -> bool {
    ||| str_lt(a.text, b.text)
    ||| a.text == b.text && match (a.dest, b.dest) {
        (None, Some(_)) => true,
        (Some(x), Some(y)) => str_lt(x, y),
        _ => false,
    }
}

pub proof fn lemma_link_lt_irreflexive(a: LinkView)
    ensures
        !link_lt(a, a),
{
    lemma_lex_lt_irreflexive(vstd::utf8::encode_utf8(a.text));
    if let Some(d) = a.dest {
        lemma_lex_lt_irreflexive(vstd::utf8::encode_utf8(d));
    }
}

pub proof fn lemma_link_lt_transitive(a: LinkView, b: LinkView, c: LinkView)
    requires
        link_lt(a, b),
        link_lt(b, c),
    ensures
        link_lt(a, c),
{
    let (ta, tb, tc) = (
        vstd::utf8::encode_utf8(a.text),
        vstd::utf8::encode_utf8(b.text),
        vstd::utf8::encode_utf8(c.text),
    );
    if str_lt(a.text, b.text) && str_lt(b.text, c.text) {
        lemma_lex_lt_transitive(ta, tb, tc);
    } else if a.text == b.text && b.text == c.text {
        if let (Some(x), Some(y), Some(z)) = (a.dest, b.dest, c.dest) {
            lemma_lex_lt_transitive(
                vstd::utf8::encode_utf8(x),
                vstd::utf8::encode_utf8(y),
                vstd::utf8::encode_utf8(z),
            );
        }
    }
}

pub proof fn lemma_link_lt_total(a: LinkView, b: LinkView)
    ensures
        a == b || link_lt(a, b) || link_lt(b, a),
{
    lemma_str_lt_total(a.text, b.text);
    if let (Some(x), Some(y)) = (a.dest, b.dest) {
        lemma_str_lt_total(x, y);
    }
}

impl Clone for Link {
    fn clone(&self) -> (copy: Self)
        ensures
            copy == *self,
    {
        Link {
            text: self.text.clone(),
            dest: match &self.dest {
                Some(d) => Some(d.clone()),
                None => None,
            },
        }
    }
}

impl Link {
    /// Whether `self` is resolved before `other`.
    pub fn before(&self, other: &Link) -> (lt: bool)
        ensures
            lt == link_lt(self@, other@),
    {
        if str_before(self.text.as_str(), other.text.as_str()) {
            return true;
        }
        if !str_same(self.text.as_str(), other.text.as_str()) {
            return false;
        }
        match (&self.dest, &other.dest) {
            (None, Some(_)) => true,
            (Some(x), Some(y)) => str_before(x.as_str(), y.as_str()),
            _ => false,
        }
    }

    /// Whether `self` and `other` are the same reference.
    pub fn same(&self, other: &Link) -> (eq: bool)
        ensures
            eq == (self@ == other@),
    {
        if !str_same(self.text.as_str(), other.text.as_str()) {
            return false;
        }
        match (&self.dest, &other.dest) {
            (None, None) => true,
            (Some(x), Some(y)) => str_same(x.as_str(), y.as_str()),
            _ => false,
        }
    }

    /// The label under which this reference is defined.
    pub fn label(&self) -> (name: String)
        ensures
            name@ == label(self@),
    {
        match &self.dest {
            Some(d) => {
                proof {
                    reveal_strlit("[");
                    reveal_strlit("]");
                }
                let mut name = String::from_str("[");
                name.append(d.as_str());
                name.append("]");
                assert(name@ =~= seq!['['] + d@ + seq![']']);
                name
            },
            None => self.text.clone(),
        }
    }
}

} // verus!
