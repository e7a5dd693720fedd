//! Route patterns with `{param}` placeholders.

use vstd::prelude::*;

use crate::table::Table;
use crate::text;
use crate::transport;

verus! {

/// The pieces of a path between its slashes.
pub open spec fn split_path(path: Seq<char>) -> Seq<Seq<char>>
    decreases path.len(),
{
    if path.len() == 0 {
        seq![Seq::empty()]
    } else {
        let before = split_path(path.drop_last());
        if path.last() == '/' {
            before.push(Seq::empty())
        } else {
            before.drop_last().push(before.last().push(path.last()))
        }
    }
}

/// A piece of a pattern is a placeholder.
pub open spec fn is_param(piece: Seq<char>) -> bool {
    piece.len() > 0 && piece[0] == '{' && piece.last() == '}'
}

/// The name of a placeholder.
pub open spec fn param_name(piece: Seq<char>) -> Seq<char> {
    piece.subrange(1, piece.len() - 1)
}

/// The pieces of a pattern fit those of a path: there are equally many, and
/// those that are no placeholders are the same.
pub open spec fn pieces_match(pattern: Seq<Seq<char>>, path: Seq<Seq<char>>) -> bool {
    &&& pattern.len() == path.len()
    &&& forall|i: int|
        0 <= i < pattern.len() ==> is_param(#[trigger] pattern[i]) || pattern[i] == path[i]
}

/// A pattern fits a path.
pub open spec fn route_matches(pattern: Seq<char>, path: Seq<char>) -> bool {
    pieces_match(split_path(pattern), split_path(path))
}

/// What the placeholders of a pattern stand for in a path, in order.
pub open spec fn captures(pattern: Seq<Seq<char>>, path: Seq<Seq<char>>) -> Seq<
    (Seq<char>, Seq<char>),
>
    decreases pattern.len(),
{
    if pattern.len() == 0 || path.len() == 0 {
        Seq::empty()
    } else {
        let before = captures(pattern.drop_last(), path.drop_last());
        if is_param(pattern.last()) {
            before.push((param_name(pattern.last()), path.last()))
        } else {
            before
        }
    }
}

/// What the placeholders of a pattern stand for in a path that it fits.
pub open spec fn route_captures(pattern: Seq<char>, path: Seq<char>) -> Seq<
    (Seq<char>, Seq<char>),
> {
    captures(split_path(pattern), split_path(path))
}

/// Texts as character sequences.
pub open spec fn texts(v: Seq<String>) -> Seq<Seq<char>> {
    v.map_values(|s: String| s@)
}

/// A path has at least one piece.
proof fn lemma_split_not_empty(path: Seq<char>)
    ensures
        split_path(path).len() > 0,
    decreases path.len(),
{
    if path.len() > 0 {
        lemma_split_not_empty(path.drop_last());
    }
}

/// The pieces of a path between its slashes.
fn split(path: &str) -> (r: Vec<String>)
    ensures
        texts(r@) == split_path(path@),
{
    let chars: Vec<char> = text::chars_of(path);
    let mut pieces: Vec<String> = Vec::new();
    let mut piece: String = String::new();
    let mut i: usize = 0;
    assert(path@.take(0) =~= Seq::empty());
    assert(texts(pieces@).push(piece@) =~= split_path(path@.take(0)));
    while i < chars.len()
        invariant
            i <= chars@.len(),
            chars@ == path@,
            texts(pieces@).push(piece@) == split_path(path@.take(i as int)),
        decreases chars@.len() - i,
    {
        let c: char = chars[i];
        let ghost before = texts(pieces@);
        let ghost open_piece = piece@;
        if c == '/' {
            pieces.push(piece);
            piece = String::new();
            assert(texts(pieces@) =~= before.push(open_piece));
        } else {
            piece.push(c);
        }
        i = i + 1;
        assert(path@.take(i as int).drop_last() =~= path@.take(i - 1));
        assert(before.push(open_piece).drop_last() =~= before);
    }
    let ghost before = texts(pieces@);
    let ghost last = piece@;
    pieces.push(piece);
    assert(texts(pieces@) =~= before.push(last));
    assert(path@.take(path@.len() as int) =~= path@);
    pieces
}

/// The name of the placeholder that a piece of a pattern is, if it is one.
fn placeholder(piece: &str) -> (r: Option<String>)
    ensures
        match r {
            Some(name) => is_param(piece@) && name@ == param_name(piece@),
            None => !is_param(piece@),
        },
{
    let chars: Vec<char> = text::chars_of(piece);
    let n: usize = chars.len();
    if n > 0 && chars[0] == '{' && chars[n - 1] == '}' {
        Some(text::text_of(&chars, 1, n - 1))
    } else {
        None
    }
}

/// What the placeholders of `pattern` stand for in `path`, or `None` where the
/// pattern does not fit. Where a name occurs several times in the pattern, its
/// last occurrence counts.
pub fn match_route(pattern: &str, path: &str) -> (r: Option<Table<String>>)
    ensures
        match r {
            Some(params) => {
                &&& route_matches(pattern@, path@)
                &&& params.wf()
                &&& forall|key: Seq<char>| #[trigger]
                    transport::text_for(params@, key) == transport::last_value(
                        route_captures(pattern@, path@),
                        key,
                    )
            },
            None => !route_matches(pattern@, path@),
        },
{
    let pattern_pieces: Vec<String> = split(pattern);
    let path_pieces: Vec<String> = split(path);
    let ghost pat = split_path(pattern@);
    let ghost act = split_path(path@);
    let n: usize = pattern_pieces.len();
    if n != path_pieces.len() {
        return None;
    }
    let mut params: Table<String> = Table::new();
    let mut i: usize = 0;
    while i < n
        invariant
            i <= n == pattern_pieces@.len() == path_pieces@.len(),
            texts(pattern_pieces@) == pat,
            texts(path_pieces@) == act,
            pat == split_path(pattern@),
            act == split_path(path@),
            pieces_match(pat.take(i as int), act.take(i as int)),
            params.wf(),
            forall|key: Seq<char>| #[trigger]
                transport::text_for(params@, key) == transport::last_value(
                    captures(pat.take(i as int), act.take(i as int)),
                    key,
                ),
        decreases n - i,
    {
        assert(pat[i as int] == pattern_pieces@[i as int]@);
        assert(act[i as int] == path_pieces@[i as int]@);
        assert(pat.take(i + 1).drop_last() =~= pat.take(i as int));
        assert(act.take(i + 1).drop_last() =~= act.take(i as int));
        let ghost before = params@;
        let ghost seen = captures(pat.take(i as int), act.take(i as int));
        match placeholder(pattern_pieces[i].as_str()) {
            Some(name) => {
                let ghost key = name@;
                params.insert(name, path_pieces[i].clone());
                assert(seen.push((key, act[i as int])).drop_last() =~= seen);
                assert forall|k: Seq<char>| #[trigger]
                    transport::text_for(params@, k) == transport::last_value(
                        captures(pat.take(i + 1), act.take(i + 1)),
                        k,
                    ) by {
                    assert(transport::text_for(before, k) == transport::last_value(seen, k));
                }
            },
            None => {
                if !text::same_text(pattern_pieces[i].as_str(), path_pieces[i].as_str()) {
                    return None;
                }
            },
        }
        i = i + 1;
        assert forall|k: int| 0 <= k < pat.take(i as int).len() implies is_param(
            #[trigger] pat.take(i as int)[k],
        ) || pat.take(i as int)[k] == act.take(i as int)[k] by {
            if k < i - 1 {
                assert(pat.take(i - 1)[k] == pat[k]);
            }
        }
    }
    assert(pat.take(n as int) =~= pat);
    assert(act.take(n as int) =~= act);
    Some(params)
}

/// Joins pieces with slashes.
pub open spec fn join_pieces(pieces: Seq<Seq<char>>) -> Seq<char>
    decreases pieces.len(),
{
    if pieces.len() == 0 {
        Seq::empty()
    } else if pieces.len() == 1 {
        pieces[0]
    } else {
        join_pieces(pieces.drop_last()).push('/') + pieces.last()
    }
}

/// Splitting a path loses nothing.
pub proof fn splitting_is_lossless(path: Seq<char>)
    ensures
        join_pieces(split_path(path)) == path,
    decreases path.len(),
{
    if path.len() > 0 {
        let before = split_path(path.drop_last());
        splitting_is_lossless(path.drop_last());
        lemma_split_not_empty(path.drop_last());
        let after = split_path(path);
        if path.last() == '/' {
            assert(after.drop_last() =~= before);
            assert(join_pieces(after) =~= path);
        } else {
            assert(after.drop_last() =~= before.drop_last());
            if before.len() > 1 {
                assert(join_pieces(after) =~= join_pieces(before).push(path.last()));
            }
            assert(join_pieces(after) =~= path);
        }
    }
}

/// A pattern without placeholders fits its own text and nothing else.
pub proof fn literal_patterns_match_only_themselves(pattern: Seq<char>, path: Seq<char>)
    requires
        forall|i: int|
            0 <= i < split_path(pattern).len() ==> !is_param(#[trigger] split_path(pattern)[i]),
    ensures
        route_matches(pattern, path) <==> pattern == path,
{
    if route_matches(pattern, path) {
        assert(split_path(pattern) =~= split_path(path));
        splitting_is_lossless(pattern);
        splitting_is_lossless(path);
    }
}

/// Where a slash stands, the path is split: the pieces of what is before it come
/// first, then those of what is behind it.
pub proof fn slashes_split(before: Seq<char>, behind: Seq<char>)
    ensures
        split_path(before.push('/') + behind) == split_path(before) + split_path(behind),
    decreases behind.len(),
{
    let path = before.push('/') + behind;
    if behind.len() == 0 {
        assert(path =~= before.push('/'));
        assert(path.drop_last() =~= before);
        assert(split_path(path) =~= split_path(before) + split_path(behind));
    } else {
        slashes_split(before, behind.drop_last());
        lemma_split_not_empty(behind.drop_last());
        let rest = split_path(behind.drop_last());
        assert(path.drop_last() =~= before.push('/') + behind.drop_last());
        assert(path.last() == behind.last());
        let all = split_path(before) + rest;
        assert(all.last() == rest.last());
        if behind.last() == '/' {
            assert(all.push(Seq::empty()) =~= split_path(before) + rest.push(Seq::empty()));
        } else {
            let longer = rest.last().push(behind.last());
            assert(all.drop_last().push(longer) =~= split_path(before) + rest.drop_last().push(
                longer,
            ));
        }
    }
}

/// A text without a slash is one piece.
pub proof fn texts_without_slashes_stay_whole(text: Seq<char>)
    requires
        forall|i: int| 0 <= i < text.len() ==> #[trigger] text[i] != '/',
    ensures
        split_path(text) == seq![text],
    decreases text.len(),
{
    if text.len() > 0 {
        let before = text.drop_last();
        assert forall|i: int| 0 <= i < before.len() implies #[trigger] before[i] != '/' by {
            assert(before[i] == text[i]);
        }
        texts_without_slashes_stay_whole(before);
        assert(before.push(text.last()) =~= text);
        assert(seq![before].drop_last() =~= Seq::empty());
        assert(text.last() == text[text.len() - 1]);
        assert(split_path(text) =~= seq![text]);
    } else {
        assert(text =~= Seq::empty());
    }
}

/// A pattern fits a path exactly where both have equally many pieces and every
/// piece of the pattern either is the path's piece or stands in braces.
pub proof fn patterns_fit_piece_by_piece(pattern: Seq<char>, path: Seq<char>)
    ensures
        route_matches(pattern, path) <==> {
            &&& split_path(pattern).len() == split_path(path).len()
            &&& forall|i: int|
                0 <= i < split_path(pattern).len() ==> {
                    let piece = #[trigger] split_path(pattern)[i];
                    ||| piece == split_path(path)[i]
                    ||| piece.len() >= 2 && piece[0] == '{' && piece[piece.len() - 1] == '}'
                }
        },
{
    let pat = split_path(pattern);
    let act = split_path(path);
    assert forall|i: int| 0 <= i < pat.len() implies (is_param(#[trigger] pat[i]) <==> (pat[i].len()
        >= 2 && pat[i][0] == '{' && pat[i][pat[i].len() - 1] == '}')) by {}
}

/// A placeholder with no other of its name behind it captures the path's piece at
/// its own position.
pub(crate) proof fn lemma_captured_at(pattern: Seq<Seq<char>>, path: Seq<Seq<char>>, i: int)
    requires
        pattern.len() == path.len(),
        0 <= i < pattern.len(),
        is_param(pattern[i]),
        forall|j: int|
            i < j < pattern.len() && is_param(#[trigger] pattern[j]) ==> param_name(pattern[j])
                != param_name(pattern[i]),
    ensures
        transport::last_value(captures(pattern, path), param_name(pattern[i])) == Some(path[i]),
    decreases pattern.len(),
{
    let pat = pattern.drop_last();
    let act = path.drop_last();
    let end = pattern.len() - 1;
    let before = captures(pat, act);
    if is_param(pattern.last()) {
        assert(captures(pattern, path).drop_last() =~= before);
    }
    if i < end {
        assert forall|j: int| i < j < pat.len() && is_param(#[trigger] pat[j]) implies param_name(
            pat[j],
        ) != param_name(pat[i]) by {
            assert(pat[j] == pattern[j]);
        }
        lemma_captured_at(pat, act, i);
        assert(pattern[end] == pattern.last());
    }
}

/// What is captured under a name was captured by a placeholder of this name.
pub(crate) proof fn lemma_capture_source(
    pattern: Seq<Seq<char>>,
    path: Seq<Seq<char>>,
    key: Seq<char>,
) -> (i: int)
    requires
        pattern.len() == path.len(),
        transport::last_value(captures(pattern, path), key) is Some,
    ensures
        0 <= i < pattern.len(),
        is_param(pattern[i]),
        param_name(pattern[i]) == key,
    decreases pattern.len(),
{
    if pattern.len() == 0 {
        0
    } else {
        let pat = pattern.drop_last();
        let act = path.drop_last();
        if is_param(pattern.last()) {
            assert(captures(pattern, path).drop_last() =~= captures(pat, act));
        }
        if is_param(pattern.last()) && param_name(pattern.last()) == key {
            pattern.len() - 1
        } else {
            lemma_capture_source(pat, act, key)
        }
    }
}

/// The parameters of a request, by position. For every piece of the pattern that
/// stands in braces, the path's piece at the same position is held under the
/// name between the braces, unless a later piece has the same name; and nothing
/// else is held.
///
/// `params` is what [`match_route`] gives for a pattern that fits.
pub proof fn placeholders_hold_their_pieces(
    pattern: Seq<char>,
    path: Seq<char>,
    params: Map<Seq<char>, String>,
)
    requires
        route_matches(pattern, path),
        forall|key: Seq<char>| #[trigger]
            transport::text_for(params, key) == transport::last_value(
                route_captures(pattern, path),
                key,
            ),
    ensures
        ({
            let pat = split_path(pattern);
            let act = split_path(path);
            &&& forall|i: int|
                0 <= i < pat.len() && (#[trigger] pat[i]).len() >= 2 && pat[i][0] == '{'
                    && pat[i][pat[i].len() - 1] == '}' && (forall|j: int|
                    i < j < pat.len() && (#[trigger] pat[j]).len() >= 2 && pat[j][0] == '{'
                        && pat[j][pat[j].len() - 1] == '}' ==> pat[j] != pat[i]) ==> {
                    let name = pat[i].subrange(1, pat[i].len() - 1);
                    params.contains_key(name) && params[name]@ == act[i]
                }
            &&& forall|key: Seq<char>| #[trigger]
                params.contains_key(key) ==> exists|i: int|
                    {
                        &&& 0 <= i < pat.len()
                        &&& #[trigger] pat[i] == seq!['{'] + key + seq!['}']
                    }
        }),
{
    let pat = split_path(pattern);
    let act = split_path(path);
    assert forall|i: int|
        0 <= i < pat.len() && (#[trigger] pat[i]).len() >= 2 && pat[i][0] == '{' && pat[i][
        pat[i].len() - 1] == '}' && (forall|j: int|
            i < j < pat.len() && (#[trigger] pat[j]).len() >= 2 && pat[j][0] == '{' && pat[j][
            pat[j].len() - 1] == '}' ==> pat[j] != pat[i]) implies {
        let name = pat[i].subrange(1, pat[i].len() - 1);
        params.contains_key(name) && params[name]@ == act[i]
    } by {
        let name = pat[i].subrange(1, pat[i].len() - 1);
        assert(is_param(pat[i]) && param_name(pat[i]) == name);
        assert forall|j: int| i < j < pat.len() && is_param(#[trigger] pat[j]) implies param_name(
            pat[j],
        ) != param_name(pat[i]) by {
            lemma_braces(pat[i]);
            lemma_braces(pat[j]);
        }
        lemma_captured_at(pat, act, i);
        assert(transport::text_for(params, name) == Some(act[i]));
    }
    assert forall|key: Seq<char>| #[trigger] params.contains_key(key) implies exists|i: int|
        {
            &&& 0 <= i < pat.len()
            &&& #[trigger] pat[i] == seq!['{'] + key + seq!['}']
        } by {
        assert(transport::text_for(params, key) is Some);
        let i = lemma_capture_source(pat, act, key);
        lemma_braces(pat[i]);
    }
}

/// A placeholder is its name in braces.
pub(crate) proof fn lemma_braces(piece: Seq<char>)
    requires
        is_param(piece),
    ensures
        piece == seq!['{'] + param_name(piece) + seq!['}'],
{
    assert(piece =~= seq!['{'] + param_name(piece) + seq!['}']);
}

} // verus!
