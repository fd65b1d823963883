use mdbook_spec::scan::{candidate_links, group_strings, links_of};
use mdbook_spec::select::{contains_label, insert_link};
use mdbook_spec::text::{bytes_lt, slice, str_before, str_same};
use mdbook_spec::{
    link_definitions, rewrite_chapter, rewrite_links, select_links, Link, LinkError,
};

fn link(text: &str, dest: Option<&str>) -> Link {
    Link { text: text.to_string(), dest: dest.map(|d| d.to_string()) }
}

fn strings(all: &[&str]) -> Vec<String> {
    all.iter().map(|s| s.to_string()).collect()
}

#[test]
fn selection_sorts_and_drops_repeated_and_defined() {
    let candidates = vec![
        link("[`std::vec`]", None),
        link("[`Option`]", Some("std::option::Option")),
        link("[`core::mem`]", None),
        link("[`std::vec`]", None),
        link("[`Option`]", Some("core::option::Option")),
        link("[`Option`]", Some("std::option::Option")),
        link("[`std::fmt`]", None),
    ];
    let defined = strings(&["[`core::mem`]", "[core::option::Option]", "[`unused`]"]);
    assert_eq!(
        select_links(&candidates, &defined),
        vec![
            link("[`Option`]", Some("std::option::Option")),
            link("[`std::fmt`]", None),
            link("[`std::vec`]", None),
        ]
    );
}

#[test]
fn selection_of_nothing_is_empty() {
    assert_eq!(select_links(&vec![], &strings(&["[`a`]"])), vec![]);
    assert_eq!(select_links(&vec![link("[`a`]", None)], &strings(&["[`a`]"])), vec![]);
    assert_eq!(select_links(&vec![link("[`a`]", None)], &vec![]), vec![link("[`a`]", None)]);
}

#[test]
fn label_is_the_path_in_brackets_or_the_text() {
    assert_eq!(link("[`Option`]", Some("std::option::Option")).label(), "[std::option::Option]");
    assert_eq!(link("[`std::fmt`]", None).label(), "[`std::fmt`]");
    assert_eq!(link("", Some("")).label(), "[]");
}

#[test]
fn links_are_ordered_by_text_then_path() {
    let a = link("[`a`]", None);
    let a_x = link("[`a`]", Some("x"));
    let a_y = link("[`a`]", Some("y"));
    let b = link("[`b`]", None);
    let all = [&a, &a_x, &a_y, &b];
    for i in 0..all.len() {
        for j in 0..all.len() {
            assert_eq!(all[i].before(all[j]), i < j);
            assert_eq!(all[i].same(all[j]), i == j);
        }
    }
    assert_eq!(a.clone(), a);
    assert_eq!(a_x.clone(), a_x);
}

#[test]
fn strings_are_ordered_byte_by_byte() {
    assert!(str_before("", "a"));
    assert!(!str_before("", ""));
    assert!(!str_before("a", ""));
    assert!(str_before("a", "ab"));
    assert!(!str_before("ab", "a"));
    assert!(str_before("Z", "a"));
    assert!(str_before("ab", "b"));
    assert!(str_before("z", "é"));
    assert!(!str_before("é", "z"));
    assert!(!str_before("same", "same"));
    assert!(bytes_lt(&[1, 2], &[1, 3]));
    assert!(bytes_lt(&[1, 255], &[2]));
    assert!(!bytes_lt(&[2], &[1, 255]));
    assert!(str_same("é", "é"));
    assert!(!str_same("e", "é"));
    assert!(!str_same("a", "ab"));
    assert!(str_same("", ""));
}

#[test]
fn slice_cuts_at_byte_offsets() {
    assert_eq!(slice("héllo", 0, 1), "h");
    assert_eq!(slice("héllo", 1, 3), "é");
    assert_eq!(slice("héllo", 3, 6), "llo");
    assert_eq!(slice("héllo", 6, 6), "");
    assert_eq!(slice("héllo", 0, 6), "héllo");
}

#[test]
fn labels_are_found_by_their_characters() {
    let defined = strings(&["[`a`]", "[b]"]);
    assert!(contains_label(&defined, "[b]"));
    assert!(contains_label(&defined, "[`a`]"));
    assert!(!contains_label(&defined, "[a]"));
    assert!(!contains_label(&vec![], ""));
}

#[test]
fn insert_keeps_the_order_and_adds_nothing_twice() {
    let mut links = vec![];
    insert_link(&mut links, &link("[`m`]", None));
    insert_link(&mut links, &link("[`z`]", None));
    insert_link(&mut links, &link("[`a`]", None));
    insert_link(&mut links, &link("[`m`]", None));
    insert_link(&mut links, &link("[`m`]", Some("p")));
    assert_eq!(
        links,
        vec![
            link("[`a`]", None),
            link("[`m`]", None),
            link("[`m`]", Some("p")),
            link("[`z`]", None),
        ]
    );
}

#[test]
fn links_are_rewritten_at_the_offsets_found() {
    //             0123456789012345678901234567
    let content = "a [`X`](std::x) b [`std::y`]";
    let found = vec![
        vec![Some((2, 15)), Some((2, 7)), Some((8, 14)), None],
        vec![Some((18, 28)), None, None, Some((18, 28))],
    ];
    assert_eq!(rewrite_links(content, &found), "a [`X`][std::x] b [`std::y`]");
    assert_eq!(rewrite_links(content, &vec![]), content);
    assert_eq!(
        candidate_links(content, &found),
        vec![link("[`X`]", Some("std::x")), link("[`std::y`]", None)]
    );
    assert_eq!(group_strings(content, &found, 0), strings(&["[`X`](std::x)", "[`std::y`]"]));
    assert_eq!(group_strings(content, &found, 1), strings(&["[`X`]"]));
    assert_eq!(group_strings(content, &found, 3), strings(&["[`std::y`]"]));
    assert_eq!(group_strings(content, &found, 4), strings(&[]));
}

#[test]
fn links_at_both_ends_of_the_text_are_rewritten() {
    //             01234567890123456789012345
    let content = "[`X`](std::x)é[`Y`](std::y)";
    let found = vec![
        vec![Some((0, 13)), Some((0, 5)), Some((6, 12)), None],
        vec![Some((15, 28)), Some((15, 20)), Some((21, 27)), None],
    ];
    assert_eq!(rewrite_links(content, &found), "[`X`][std::x]é[`Y`][std::y]");
}

#[test]
fn links_of_a_chapter_from_what_was_found() {
    //             0         1         2         3
    //             0123456789012345678901234567890123456
    let content = "[`std::b`] [`std::a`]\n[`std::b`]: u\n";
    let found = vec![
        vec![Some((0, 10)), None, None, Some((0, 10))],
        vec![Some((11, 21)), None, None, Some((11, 21))],
        vec![Some((22, 32)), None, None, Some((22, 32))],
    ];
    let defs = vec![vec![Some((22, 35)), Some((22, 32)), Some((34, 35))]];
    assert_eq!(links_of(content, &found, &defs), vec![link("[`std::a`]", None)]);
    assert_eq!(
        links_of(content, &found, &vec![]),
        vec![link("[`std::a`]", None), link("[`std::b`]", None)]
    );
}

#[test]
fn definitions_pair_links_with_urls_in_order() {
    let links = vec![link("[`Option`]", Some("std::option::Option")), link("[`std::fmt`]", None)];
    let urls = strings(&[
        "https://doc.rust-lang.org/stable/std/option/enum.Option.html",
        "https://doc.rust-lang.org/stable/std/fmt/index.html",
    ]);
    assert_eq!(
        link_definitions(&links, &urls, 2, true),
        Ok("[std::option::Option]: ../../std/option/enum.Option.html\n\
            [`std::fmt`]: ../../std/fmt/index.html\n"
            .to_string())
    );
    assert_eq!(
        link_definitions(&links, &urls, 2, false),
        Ok("[std::option::Option]: https://doc.rust-lang.org/stable/std/option/enum.Option.html\n\
            [`std::fmt`]: https://doc.rust-lang.org/stable/std/fmt/index.html\n"
            .to_string())
    );
    assert_eq!(link_definitions(&vec![], &vec![], 2, true), Ok(String::new()));
}

#[test]
fn definitions_fail_on_the_first_url_that_is_not_of_the_site() {
    let links = vec![link("[`a`]", None), link("[`b`]", None), link("[`c`]", None)];
    let urls = strings(&[
        "https://doc.rust-lang.org/stable/a",
        "https://example.com/b",
        "https://example.com/c",
    ]);
    assert_eq!(
        link_definitions(&links, &urls, 1, true),
        Err(LinkError::UnrecognizedUrl { url: "https://example.com/b".to_string() })
    );
}

#[test]
fn definitions_fail_on_lists_of_different_length() {
    let links = vec![link("[`a`]", None), link("[`b`]", None)];
    assert_eq!(
        link_definitions(&links, &strings(&["https://example.com/not/looked/at"]), 1, true),
        Err(LinkError::CountMismatch { expected: 2, found: 1 })
    );
    assert_eq!(
        link_definitions(&vec![], &strings(&["https://doc.rust-lang.org/stable/a"]), 1, true),
        Err(LinkError::CountMismatch { expected: 0, found: 1 })
    );
}

#[test]
fn chapter_is_written_from_what_was_found() {
    //             0123456789012345
    let content = "a [`X`](std::x)\n";
    let found = vec![vec![Some((2, 15)), Some((2, 7)), Some((8, 14)), None]];
    let links = vec![link("[`X`]", Some("std::x"))];
    let urls = strings(&["https://doc.rust-lang.org/dev/std/x/index.html"]);
    assert_eq!(
        rewrite_chapter(content, &found, &links, &urls, 1, true),
        Ok("a [`X`][std::x]\n\n[std::x]: ../std/x/index.html\n".to_string())
    );
    assert_eq!(
        rewrite_chapter(content, &found, &vec![], &urls, 1, true),
        Ok(content.to_string())
    );
    assert_eq!(
        rewrite_chapter(content, &found, &links, &vec![], 1, true),
        Err(LinkError::CountMismatch { expected: 1, found: 0 })
    );
}
