//! Style spans and hyperlinks of a styled string, and tab expansion.

use vstd::prelude::*;

verus! {

/// The spans that `ansi_str` finds in a string: the text of each, the
/// sequence that opens its style and the sequence that closes it.
pub uninterp spec fn style_spans_of(s: Seq<char>) -> Seq<(Seq<char>, Seq<char>, Seq<char>)>;

/// The views of spans held as strings.
pub open spec fn span_strings_view(v: Seq<(String, String, String)>) -> Seq<
    (Seq<char>, Seq<char>, Seq<char>),
> {
    v.map_values(|t: (String, String, String)| (t.0@, t.1@, t.2@))
}

/// Relies on `ansi_str::get_blocks`, with the `Display` of each block's
/// style start and end: the string cut into runs of one style, each with the
/// sequence that sets its style and the one that resets it.
#[verifier::external_body]
pub(crate) fn style_spans(s: &str) -> (r: Vec<(String, String, String)>)
    ensures
        span_strings_view(r@) == style_spans_of(s@),
{
    ansi_str::get_blocks(s).map(
        |b| (b.text().to_string(), b.style().start().to_string(), b.style().end().to_string()),
    ).collect()
}

/// What `papergrid` makes of a string with hyperlinks: the string without
/// them, and the target when the string is one hyperlink and nothing else.
pub uninterp spec fn osc_split_of(s: Seq<char>) -> (Seq<char>, Option<Seq<char>>);

/// The view of an optional string.
pub open spec fn opt_view(o: Option<String>) -> Option<Seq<char>> {
    match o {
        Some(u) => Some(u@),
        None => None,
    }
}

/// Relies on `papergrid::util::strip_osc`: the string with its OSC 8
/// hyperlink sequences removed, and the link's target when the whole string
/// is a single hyperlink.
#[verifier::external_body]
pub(crate) fn strip_osc(s: &str) -> (r: (String, Option<String>))
    ensures
        osc_split_of(s@) == (r.0@, opt_view(r.1)),
{
    papergrid::util::strip_osc(s)
}

/// What `papergrid` makes of a string when it expands its tabs to `n`
/// spaces.
pub uninterp spec fn tabs_expanded_of(s: Seq<char>, n: usize) -> Seq<char>;

/// Relies on `papergrid::util::replace_tab`: the string with its tab
/// characters replaced by `n` spaces each.
#[verifier::external_body]
pub(crate) fn replace_tab(s: &str, n: usize) -> (r: String)
    ensures
        r@ == tabs_expanded_of(s@, n),
{
    papergrid::util::replace_tab(s, n)
}

} // verus!
