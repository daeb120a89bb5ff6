//! Search links for keywords.

use crate::text::push_char;
use vstd::prelude::*;

verus! {

/// What every suggested link starts with.
pub open spec fn search_prefix() -> Seq<char> {
    "https://www.google.com/search?q="@
}

/// The keyword as it stands in a query: each space is a plus sign.
pub open spec fn query_of(keyword: Seq<char>) -> Seq<char> {
    keyword.map_values(
        |c: char|
            if c == ' ' {
                '+'
            } else {
                c
            },
    )
}

/// The link that searches for `keyword`.
pub open spec fn search_link(keyword: Seq<char>) -> Seq<char> {
    search_prefix() + query_of(keyword)
}

fn link_for(keyword: &str) -> (link: String)
    ensures
        link@ == search_link(keyword@),
{
    let mut link = String::from_str("https://www.google.com/search?q=");
    for c in it: keyword.chars()
        invariant
            it.seq() == keyword@,
            link@ == search_prefix() + query_of(keyword@.take(it.index() as int)),
    {
        let ghost read = keyword@.take(it.index() as int);
        assert(keyword@.take(it.index() + 1) =~= read.push(c));
        assert(query_of(read.push(c)) =~= query_of(read).push(
            if c == ' ' {
                '+'
            } else {
                c
            },
        ));
        push_char(
            &mut link,
            if c == ' ' {
                '+'
            } else {
                c
            },
        );
    }
    assert(keyword@.take(keyword@.len() as int) =~= keyword@);
    link
}

/// One search link for each keyword, in the order of the keywords.
pub fn suggest_links(keywords: &[String]) -> (links: Vec<String>)
    ensures
        links.len() == keywords.len(),
        forall|i: int| 0 <= i < keywords.len() ==> (#[trigger] links[i])@ == search_link(keywords[i]@),
{
    let mut links: Vec<String> = Vec::new();
    let mut i: usize = 0;
    while i < keywords.len()
        invariant
            i <= keywords.len(),
            links.len() == i,
            forall|j: int| 0 <= j < i ==> (#[trigger] links[j])@ == search_link(keywords[j]@),
        decreases keywords.len() - i,
    {
        links.push(link_for(keywords[i].as_str()));
        i += 1;
    }
    links
}

} // verus!
