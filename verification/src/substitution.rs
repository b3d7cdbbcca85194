//! Variables in command arguments, written as in a Makefile: `$(NAME)`.
//!
//! Matching is done by the `regex` crate with the pattern `VAR_SYNTAX`;
//! what each match is replaced with is decided here. `$(NAME)` becomes the
//! value of the variable `NAME` (nothing where it is not set), and a doubled
//! dollar, `$$(NAME)`, stands for the text `$(NAME)` itself.

use vstd::prelude::*;
use crate::request_state::RequestState;
use crate::text::{push_str, views};

verus! {

/// The variable syntax: an optional extra `$` (the group `precede`), then
/// `$(`, the shortest name up to the next `)` (the group `name`), and `)`.
pub const VAR_SYNTAX: &'static str = "(?P<precede>\\$?)\\$\\((?P<name>.+?)\\)";

/// The name of the group that holds the optional extra dollar.
pub const PRECEDE_GROUP: &'static str = "precede";

/// The name of the group that holds the variable's name.
pub const NAME_GROUP: &'static str = "name";

/// What `Regex::split` yields for `pattern` on `text`: the pieces of the
/// text between matches, or `None` where `pattern` does not compile. Its
/// definition is the regex crate's matching, which is named here and not
/// written out.
pub uninterp spec fn regex_pieces(pattern: Seq<char>, text: Seq<char>) -> Option<Seq<Seq<char>>>;

/// What `Regex::captures_iter` yields for `pattern` on `text`, each match
/// as its whole text and the texts of the groups named `first` and `second`
/// (empty where a group took no part), or `None` where `pattern` does not
/// compile. Named, like `regex_pieces`, and not written out.
pub uninterp spec fn regex_groups(pattern: Seq<char>, text: Seq<char>, first: Seq<char>, second: Seq<char>)
    -> Option<Seq<(Seq<char>, Seq<char>, Seq<char>)>>;

/// The views of an optional list of strings.
pub open spec fn opt_views(o: Option<Vec<String>>) -> Option<Seq<Seq<char>>> {
    match o {
        Some(v) => Some(views(v@)),
        None => None,
    }
}

/// The views of a list of matches.
pub open spec fn group_views(v: Seq<(String, String, String)>) -> Seq<(Seq<char>, Seq<char>, Seq<char>)> {
    v.map_values(|g: (String, String, String)| (g.0@, g.1@, g.2@))
}

/// The views of an optional list of matches.
pub open spec fn opt_group_views(o: Option<Vec<(String, String, String)>>) -> Option<
    Seq<(Seq<char>, Seq<char>, Seq<char>)>,
> {
    match o {
        Some(v) => Some(group_views(v@)),
        None => None,
    }
}

/// Compiles `pattern` and splits `text` at its matches.
/// Trusted: calls `regex::Regex::new` and `Regex::split`, collecting the
/// pieces into strings. The result is named `regex_pieces`; beyond that it
/// is claimed only that `VAR_SYNTAX`, which uses the crate's documented
/// syntax (named groups, escapes, a lazy repetition), compiles.
#[verifier::external_body]
pub(crate) fn pattern_pieces(pattern: &str, text: &str) -> (r: Option<Vec<String>>)
    ensures
        opt_views(r) == regex_pieces(pattern@, text@),
        pattern@ == VAR_SYNTAX@ ==> r is Some,
{
    match regex::Regex::new(pattern) {
        Ok(re) => Some(re.split(text).map(|p| p.to_string()).collect()),
        Err(_) => None,
    }
}

/// Compiles `pattern` and lists its matches in `text`.
/// Trusted: calls `regex::Regex::new` and `Regex::captures_iter`, taking of
/// each match its whole text and the texts of the groups `first` and
/// `second` (`Captures::name`, empty where the group took no part). The
/// result is named `regex_groups`; beyond that it is claimed only that
/// `VAR_SYNTAX` compiles.
#[verifier::external_body]
pub(crate) fn pattern_groups(pattern: &str, text: &str, first: &str, second: &str) -> (r: Option<
    Vec<(String, String, String)>,
>)
    ensures
        opt_group_views(r) == regex_groups(pattern@, text@, first@, second@),
        pattern@ == VAR_SYNTAX@ ==> r is Some,
{
    match regex::Regex::new(pattern) {
        Ok(re) => Some(re.captures_iter(text).map(|c| (
            c.get(0).map_or("", |m| m.as_str()).to_string(),
            c.name(first).map_or("", |m| m.as_str()).to_string(),
            c.name(second).map_or("", |m| m.as_str()).to_string(),
        )).collect()),
        Err(_) => None,
    }
}

/// The pieces with the fills between them: the first piece, the first fill,
/// the second piece, and so on, for the first `k` pieces. A piece with no
/// fill after it is followed by nothing.
pub open spec fn interleave(pieces: Seq<Seq<char>>, fills: Seq<Seq<char>>, k: int) -> Seq<char>
    decreases k,
{
    if k <= 0 {
        Seq::empty()
    } else {
        interleave(pieces, fills, k - 1) + pieces[k - 1] + if k - 1 < fills.len() {
            fills[k - 1]
        } else {
            Seq::empty()
        }
    }
}

/// All of the pieces with the fills between them.
pub open spec fn woven(pieces: Seq<Seq<char>>, fills: Seq<Seq<char>>) -> Seq<char> {
    interleave(pieces, fills, pieces.len() as int)
}

/// What a match is replaced with: for a doubled dollar, the match without
/// its leading `$`; otherwise the variable's value, or nothing where it is not
/// set.
pub open spec fn replacement(group: (Seq<char>, Seq<char>, Seq<char>), vars: Map<Seq<char>, Seq<char>>) -> Seq<
    char,
> {
    if group.1 == seq!['$'] {
        strip_dollar(group.0)
    } else if vars.contains_key(group.2) {
        vars[group.2]
    } else {
        Seq::empty()
    }
}

/// The replacements for all the matches.
pub open spec fn replacements(groups: Seq<(Seq<char>, Seq<char>, Seq<char>)>, vars: Map<Seq<char>, Seq<char>>) -> Seq<
    Seq<char>,
> {
    Seq::new(groups.len(), |i: int| replacement(groups[i], vars))
}

/// The text of `text` with its variables replaced, from the pattern's
/// pieces and matches; `None` where the pattern does not compile.
pub open spec fn substituted(text: Seq<char>, vars: Map<Seq<char>, Seq<char>>) -> Option<Seq<char>> {
    match (
        regex_pieces(VAR_SYNTAX@, text),
        regex_groups(VAR_SYNTAX@, text, PRECEDE_GROUP@, NAME_GROUP@),
    ) {
        (Some(p), Some(g)) => Some(woven(p, replacements(g, vars))),
        _ => None,
    }
}

/// Whether `t` is the one-character text `$`.
fn is_dollar(t: &str) -> (r: bool)
    ensures
        r == (t@ == seq!['$']),
{
    let c = crate::text::chars_of(t);
    let r = c.len() == 1 && c[0] == '$';
    proof {
        if r {
            assert(c@ =~= seq!['$']);
        }
    }
    r
}

/// `t` without a leading `$` (as `str::strip_prefix` takes it off).
pub open spec fn strip_dollar(t: Seq<char>) -> Seq<char> {
    if t.len() > 0 && t[0] == '$' {
        t.drop_first()
    } else {
        t
    }
}

/// `t` without a leading `$`.
fn strip_dollar_text(t: &str) -> (r: String)
    ensures
        r@ == strip_dollar(t@),
{
    let c = crate::text::chars_of(t);
    if c.len() == 0 || c[0] != '$' {
        return crate::text::string_of(t);
    }
    let mut out: Vec<char> = Vec::new();
    let mut i: usize = 1;
    while i < c.len()
        invariant
            c@ == t@,
            c@.len() > 0,
            1 <= i <= c@.len(),
            out@ == c@.subrange(1, i as int),
        decreases c@.len() - i,
    {
        out.push(c[i]);
        i += 1;
        proof {
            assert(out@ =~= c@.subrange(1, i as int));
        }
    }
    proof {
        assert(c@.subrange(1, c@.len() as int) =~= t@.drop_first());
    }
    crate::text::string_from_chars(out.as_slice())
}

/// Puts the pieces of a text back together with each match replaced as
/// `replacement` says, reading variables from `state`.
pub fn fill_matches(pieces: &Vec<String>, groups: &Vec<(String, String, String)>, state: &RequestState) -> (r:
    String)
    ensures
        r@ == woven(views(pieces@), replacements(group_views(groups@), state@.variables)),
{
    let ghost fills = replacements(group_views(groups@), state@.variables);
    let mut out = String::new();
    let mut i: usize = 0;
    while i < pieces.len()
        invariant
            0 <= i <= pieces@.len(),
            fills == replacements(group_views(groups@), state@.variables),
            out@ == interleave(views(pieces@), fills, i as int),
        decreases pieces@.len() - i,
    {
        push_str(&mut out, pieces[i].as_str());
        if i < groups.len() {
            let g = &groups[i];
            if is_dollar(g.1.as_str()) {
                let t = strip_dollar_text(g.0.as_str());
                push_str(&mut out, t.as_str());
            } else {
                match state.get_variable(g.2.as_str()) {
                    Some(v) => push_str(&mut out, v),
                    None => {},
                }
            }
        }
        proof {
            assert(views(pieces@)[i as int] == pieces@[i as int]@);
            if i < groups@.len() {
                assert(group_views(groups@)[i as int] == (groups@[i as int].0@, groups@[i as int].1@,
                    groups@[i as int].2@));
            }
        }
        i += 1;
    }
    out
}

/// Replaces the variables in `text` with their values in `state`. The
/// variable syntax compiles, so there is always a result.
pub fn substitute_vars(text: &str, state: &RequestState) -> (r: Option<String>)
    ensures
        opt_views_one(r) == substituted(text@, state@.variables),
        r is Some,
{
    let pieces = pattern_pieces(VAR_SYNTAX, text);
    let groups = pattern_groups(VAR_SYNTAX, text, PRECEDE_GROUP, NAME_GROUP);
    match (pieces, groups) {
        (Some(p), Some(g)) => Some(fill_matches(&p, &g, state)),
        _ => None,
    }
}

/// The view of an optional string.
pub open spec fn opt_views_one(o: Option<String>) -> Option<Seq<char>> {
    match o {
        Some(s) => Some(s@),
        None => None,
    }
}


/// Each match is replaced according to itself alone, one replacement per
/// match: a match with a doubled dollar (`$$(NAME)`) by its own text
/// without its first `$`; any other by the value of the variable that it
/// names, or by nothing where that variable is not set.
pub proof fn lemma_each_match_filled_by_itself(
    groups: Seq<(Seq<char>, Seq<char>, Seq<char>)>,
    vars: Map<Seq<char>, Seq<char>>,
    i: int,
)
    requires
        0 <= i < groups.len(),
    ensures
        replacements(groups, vars).len() == groups.len(),
        groups[i].1 != seq!['$'] && vars.contains_key(groups[i].2) ==> replacements(groups, vars)[i]
            == vars[groups[i].2],
        groups[i].1 != seq!['$'] && !vars.contains_key(groups[i].2) ==> replacements(groups, vars)[i]
            == Seq::<char>::empty(),
        groups[i].1 == seq!['$'] && groups[i].0.len() > 0 && groups[i].0[0] == '$' ==> replacements(groups, vars)[i]
            == groups[i].0.subrange(1, groups[i].0.len() as int),
        groups[i].1 == seq!['$'] && !(groups[i].0.len() > 0 && groups[i].0[0] == '$') ==> replacements(groups, vars)[i]
            == groups[i].0,
{
    if groups[i].1 == seq!['$'] && groups[i].0.len() > 0 && groups[i].0[0] == '$' {
        assert(groups[i].0.drop_first() =~= groups[i].0.subrange(1, groups[i].0.len() as int));
    }
}

/// The text is rebuilt from the front: the first piece, then the first
/// fill (if there is one), then the rest of the pieces and fills woven in
/// the same way.
pub proof fn lemma_woven_from_the_front(pieces: Seq<Seq<char>>, fills: Seq<Seq<char>>)
    requires
        pieces.len() >= 1,
    ensures
        woven(pieces, fills) == pieces[0] + (if fills.len() > 0 { fills[0] } else { Seq::<char>::empty() })
            + woven(pieces.drop_first(), if fills.len() > 0 { fills.drop_first() } else { fills }),
{
    lemma_interleave_front(pieces, fills, pieces.len() as int);
}

proof fn lemma_interleave_front(pieces: Seq<Seq<char>>, fills: Seq<Seq<char>>, k: int)
    requires
        1 <= k <= pieces.len(),
    ensures
        interleave(pieces, fills, k) == pieces[0] + (if fills.len() > 0 { fills[0] } else { Seq::<char>::empty() })
            + interleave(pieces.drop_first(), if fills.len() > 0 { fills.drop_first() } else { fills }, k - 1),
    decreases k,
{
    let p2 = pieces.drop_first();
    let f2 = if fills.len() > 0 { fills.drop_first() } else { fills };
    let head = pieces[0] + (if fills.len() > 0 { fills[0] } else { Seq::<char>::empty() });
    if k == 1 {
        assert(interleave(pieces, fills, 0) == Seq::<char>::empty());
        assert(interleave(p2, f2, 0) == Seq::<char>::empty());
        assert(interleave(pieces, fills, 1) =~= head);
        assert(head + interleave(p2, f2, 0) =~= head);
    } else {
        lemma_interleave_front(pieces, fills, k - 1);
        let tail = if k - 1 < fills.len() { fills[k - 1] } else { Seq::<char>::empty() };
        let tail2 = if k - 2 < f2.len() { f2[k - 2] } else { Seq::<char>::empty() };
        assert(p2[k - 2] == pieces[k - 1]);
        assert(tail2 == tail);
        assert(interleave(pieces, fills, k) == interleave(pieces, fills, k - 1) + pieces[k - 1] + tail);
        assert(interleave(p2, f2, k - 1) == interleave(p2, f2, k - 2) + p2[k - 2] + tail2);
        assert(head + interleave(p2, f2, k - 2) + pieces[k - 1] + tail =~= head + (interleave(p2, f2, k - 2)
            + p2[k - 2] + tail2));
    }
}

} // verus!
