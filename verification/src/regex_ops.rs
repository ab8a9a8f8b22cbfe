//! The calls into the `regex` crate that the matcher makes.
use vstd::prelude::*;

verus! {

/// The characters that `regex::escape` escapes.
pub open spec fn is_meta_character(c: char) -> bool {
    c == '\\' || c == '.' || c == '+' || c == '*' || c == '?' || c == '(' || c == ')' || c == '|'
        || c == '[' || c == ']' || c == '{' || c == '}' || c == '^' || c == '$' || c == '#' || c
        == '&' || c == '-' || c == '~'
}

/// A string with every meta character preceded by a backslash.
pub open spec fn escaped(s: Seq<char>) -> Seq<char>
    decreases s.len(),
{
    if s.len() == 0 {
        seq![]
    } else {
        escaped(s.drop_last()) + if is_meta_character(s.last()) {
            seq!['\\', s.last()]
        } else {
            seq![s.last()]
        }
    }
}

/// `regex::escape`: every meta character (`\ . + * ? ( ) | [ ] { } ^ $ # & - ~`)
/// gets a backslash in front of it; other characters are kept.
#[verifier::external_body]
pub(crate) fn regex_escape(s: &str) -> (r: String)
    ensures
        r@ == escaped(s@),
{
    regex::escape(s)
}

/// Whether `regex::Regex::new` accepts a pattern.
pub uninterp spec fn regex_valid(pattern: Seq<char>) -> bool;

/// `regex::Regex::new(pattern).is_ok()`: whether the pattern compiles.
#[verifier::external_body]
pub(crate) fn regex_compiles(pattern: &str) -> (b: bool)
    ensures
        b == regex_valid(pattern@),
{
    regex::Regex::new(pattern).is_ok()
}

/// The capture groups of the leftmost-first match of a pattern in a text,
/// group 0 (the whole match) first, or nothing when the pattern does not
/// compile or does not match.
pub uninterp spec fn regex_captures(pattern: Seq<char>, text: Seq<char>) -> Option<
    Seq<Option<Seq<char>>>,
>;

/// The view of captured groups.
pub open spec fn groups_view(g: Vec<Option<String>>) -> Seq<Option<Seq<char>>> {
    g@.map_values(
        |o: Option<String>|
            match o {
                Some(s) => Some(s@),
                None => None,
            },
    )
}

/// `Regex::new(pattern)` then `Regex::captures(text)`: every group, each the
/// text it matched if it took part. Nothing is claimed of the groups beyond
/// that they are what the regex crate returns for these two strings.
#[verifier::external_body]
pub(crate) fn regex_captures_of(pattern: &str, text: &str) -> (r: Option<Vec<Option<String>>>)
    ensures
        match r {
            Some(g) => regex_captures(pattern@, text@) == Some(groups_view(g)),
            None => regex_captures(pattern@, text@) is None,
        },
{
    match regex::Regex::new(pattern) {
        Ok(re) => re.captures(text).map(
            |c| c.iter().map(|m| m.map(|m| m.as_str().to_string())).collect(),
        ),
        Err(_) => None,
    }
}

/// The text of the leftmost-first match of a pattern, or nothing when the
/// pattern does not compile or does not match.
pub uninterp spec fn regex_first_match(pattern: Seq<char>, text: Seq<char>) -> Option<Seq<char>>;

/// `Regex::new(pattern)` then `Regex::find(text)`, as the matched text.
#[verifier::external_body]
pub(crate) fn regex_find(pattern: &str, text: &str) -> (r: Option<String>)
    ensures
        match r {
            Some(m) => regex_first_match(pattern@, text@) == Some(m@),
            None => regex_first_match(pattern@, text@) is None,
        },
{
    match regex::Regex::new(pattern) {
        Ok(re) => re.find(text).map(|m| m.as_str().to_string()),
        Err(_) => None,
    }
}

/// The text with every match of a pattern replaced (with `$` group
/// references in the replacement expanded), or the text unchanged when the
/// pattern does not compile.
pub uninterp spec fn regex_replaced(pattern: Seq<char>, text: Seq<char>, rep: Seq<char>) -> Seq<char>;

/// `Regex::new(pattern)` then `Regex::replace_all(text, rep)`.
#[verifier::external_body]
pub(crate) fn regex_replace_all(pattern: &str, text: &str, rep: &str) -> (r: String)
    ensures
        r@ == regex_replaced(pattern@, text@, rep@),
{
    match regex::Regex::new(pattern) {
        Ok(re) => re.replace_all(text, rep).into_owned(),
        Err(_) => text.to_string(),
    }
}

/// The pieces of a text between the matches of a pattern, or nothing when
/// the pattern does not compile.
pub uninterp spec fn regex_split_parts(pattern: Seq<char>, text: Seq<char>) -> Option<Seq<Seq<char>>>;

/// The view of a list of strings.
pub open spec fn strings_view(v: Vec<String>) -> Seq<Seq<char>> {
    v@.map_values(|s: String| s@)
}

/// `Regex::new(pattern)` then `Regex::split(text)`.
#[verifier::external_body]
pub(crate) fn regex_split(pattern: &str, text: &str) -> (r: Option<Vec<String>>)
    ensures
        match r {
            Some(v) => regex_split_parts(pattern@, text@) == Some(strings_view(v)),
            None => regex_split_parts(pattern@, text@) is None,
        },
{
    match regex::Regex::new(pattern) {
        Ok(re) => Some(re.split(text).map(|p| p.to_string()).collect()),
        Err(_) => None,
    }
}

/// Every match of a pattern in a text, left to right and without overlap,
/// each as its groups (group 0, the whole match, first), or nothing when the
/// pattern does not compile.
pub uninterp spec fn regex_all_captures(pattern: Seq<char>, text: Seq<char>) -> Option<
    Seq<Seq<Option<Seq<char>>>>,
>;

/// The views of the groups of several matches.
pub open spec fn matches_view(v: Vec<Vec<Option<String>>>) -> Seq<Seq<Option<Seq<char>>>> {
    v@.map_values(|g: Vec<Option<String>>| groups_view(g))
}

/// `Regex::new(pattern)` then `Regex::captures_iter(text)`: the groups of
/// every match, each the text it matched if it took part.
#[verifier::external_body]
pub(crate) fn regex_captures_all(pattern: &str, text: &str) -> (r: Option<Vec<Vec<Option<String>>>>)
    ensures
        match r {
            Some(v) => regex_all_captures(pattern@, text@) == Some(matches_view(v)),
            None => regex_all_captures(pattern@, text@) is None,
        },
{
    match regex::Regex::new(pattern) {
        Ok(re) => Some(
            re.captures_iter(text).map(
                |c| c.iter().map(|m| m.map(|m| m.as_str().to_string())).collect(),
            ).collect(),
        ),
        Err(_) => None,
    }
}

/// The groups of the leftmost-first match of a pattern in a text, group 0
/// first, each with its name (if it has one) and the text it matched (if it
/// took part); nothing when the pattern does not compile or does not match.
pub uninterp spec fn regex_named_groups(pattern: Seq<char>, text: Seq<char>) -> Option<
    Seq<(Option<Seq<char>>, Option<Seq<char>>)>,
>;

/// The view of named groups.
pub open spec fn named_view(v: Vec<(Option<String>, Option<String>)>) -> Seq<(Option<Seq<char>>, Option<Seq<char>>)> {
    v@.map_values(
        |p: (Option<String>, Option<String>)|
            (
                match p.0 {
                    Some(s) => Some(s@),
                    None => None,
                },
                match p.1 {
                    Some(s) => Some(s@),
                    None => None,
                },
            ),
    )
}

/// `Regex::new(pattern)`, `Regex::captures(text)`, and `Regex::capture_names`
/// paired group by group with the captured texts.
#[verifier::external_body]
pub(crate) fn regex_named_captures(pattern: &str, text: &str) -> (r: Option<Vec<(Option<String>, Option<String>)>>)
    ensures
        match r {
            Some(v) => regex_named_groups(pattern@, text@) == Some(named_view(v)),
            None => regex_named_groups(pattern@, text@) is None,
        },
{
    let re = match regex::Regex::new(pattern) {
        Ok(re) => re,
        Err(_) => return None,
    };
    let caps = re.captures(text)?;
    Some(re.capture_names().zip(caps.iter()).map(
        |(n, m)| (n.map(|n| n.to_string()), m.map(|m| m.as_str().to_string())),
    ).collect())
}

} // verus!
