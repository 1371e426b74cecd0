//! The search among conversations.
use crate::chars;
use crate::chars::{contains_text, push_text, to_chars, to_text, trim};
use crate::letter_case;
use crate::letter_case::to_lowercase;
use vstd::prelude::*;

verus! {

/// A search text stands in a name or a subtitle, or across the space between them;
/// all three in lower case. An empty one stands everywhere.
pub open spec fn found_in(search: Seq<char>, name: Seq<char>, subtitle: Seq<char>) -> bool {
    search.len() == 0 || chars::occurs_in(name.push(' ') + subtitle, search)
}

/// Whether a search text stands in a name or a subtitle, all in lower case.
pub fn is_found_in(search: &str, name: &str, subtitle: &str) -> (r: bool)
    ensures
        r == found_in(search@, name@, subtitle@),
{
    let wanted = to_chars(search);
    if wanted.len() == 0 {
        return true;
    }
    let mut haystack: Vec<char> = Vec::new();
    push_text(&mut haystack, name);
    haystack.push(' ');
    push_text(&mut haystack, subtitle);
    assert(haystack@ =~= name@.push(' ') + subtitle@);
    contains_text(haystack.as_slice(), search)
}

/// Whether a conversation is shown for what the user searches. Neither case nor white
/// space around the search text matters.
pub fn matches_search(search_text: &str, name: &str, subtitle: &str) -> (r: bool)
    ensures
        r == found_in(
            letter_case::lowercase(chars::trimmed(search_text@)),
            letter_case::lowercase(name@),
            letter_case::lowercase(subtitle@),
        ),
{
    let search = to_chars(search_text);
    let search = trim(search.as_slice());
    let search = to_lowercase(to_text(search.as_slice()).as_str());
    is_found_in(
        search.as_str(),
        to_lowercase(name).as_str(),
        to_lowercase(subtitle).as_str(),
    )
}

} // verus!
