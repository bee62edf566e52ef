//! Reading a matrix written as text: one row per line, numbers separated by
//! anything that cannot be part of a number (spaces, `|`, `,`).
use vstd::prelude::*;

use crate::error::MatrixParseError;

verus! {

/// The separator between the numbers of a row: a run of characters that are
/// neither digits, nor `.`, nor `-`.
pub const TOKEN_SEPARATOR: &'static str = r"[^\d.\-]+";

/// What `str::trim` gives for a string: the string without leading and
/// trailing whitespace.
pub uninterp spec fn trimmed(s: Seq<char>) -> Seq<char>;

/// What `regex` gives for splitting `line` at the matches of `pattern`: the
/// pieces between the matches, in order, empty ones included.
pub uninterp spec fn regex_split(pattern: Seq<char>, line: Seq<char>) -> Seq<Seq<char>>;

/// The characters of each string.
pub open spec fn strings_view(v: Seq<String>) -> Seq<Seq<char>> {
    v.map_values(|s: String| s@)
}

/// The pieces of `s` between the `sep` characters, in order. A text without
/// `sep` is one piece; an empty text is one empty piece.
pub open spec fn pieces_of(s: Seq<char>, sep: char) -> Seq<Seq<char>>
    decreases s.len(),
{
    if s.len() == 0 {
        seq![Seq::empty()]
    } else {
        let init = pieces_of(s.drop_last(), sep);
        if s.last() == sep {
            init.push(Seq::empty())
        } else {
            init.update(init.len() - 1, init.last().push(s.last()))
        }
    }
}

/// The lines of `s`.
pub open spec fn lines_of(s: Seq<char>) -> Seq<Seq<char>> {
    pieces_of(s, '\n')
}

proof fn lemma_pieces_of_nonempty(s: Seq<char>, sep: char)
    ensures
        pieces_of(s, sep).len() >= 1,
    decreases s.len(),
{
    if s.len() > 0 {
        lemma_pieces_of_nonempty(s.drop_last(), sep);
    }
}

/// Relies on `str::trim`: strips leading and trailing whitespace.
#[verifier::external_body]
fn trim_text<'a>(s: &'a str) -> (r: &'a str)
    ensures
        r@ == trimmed(s@),
{
    s.trim()
}

/// Relies on `regex::Regex::new`, which compiles `TOKEN_SEPARATOR` (the one
/// pattern admitted), and on `regex::Regex::split`: the pieces of `line`
/// between the matches of the pattern.
#[verifier::external_body]
fn split_at_matches(pattern: &str, line: &str) -> (r: Vec<String>)
    requires
        pattern@ == TOKEN_SEPARATOR@,
    ensures
        strings_view(r@) == regex_split(pattern@, line@),
{
    let re = regex::Regex::new(pattern).unwrap();
    re.split(line).map(|p| p.to_string()).collect()
}

/// Splits `s` at each `sep`.
pub fn split_at_char(s: &str, sep: char) -> (r: Vec<String>)
    ensures
        strings_view(r@) == pieces_of(s@, sep),
{
    let n = s.unicode_len();
    let mut out: Vec<String> = Vec::new();
    let mut start: usize = 0;
    let mut i: usize = 0;
    proof {
        assert(strings_view(out@) =~= Seq::<Seq<char>>::empty());
        assert(s@.subrange(0, 0) =~= Seq::<char>::empty());
        assert(strings_view(out@).push(s@.subrange(0, 0)) =~= pieces_of(s@.take(0), sep));
    }
    while i < n
        invariant
            n == s@.len(),
            start <= i <= n,
            strings_view(out@).push(s@.subrange(start as int, i as int)) == pieces_of(
                s@.take(i as int),
                sep,
            ),
        decreases n - i,
    {
        let ch = s.get_char(i);
        proof {
            let t = s@.take(i as int + 1);
            assert(t.drop_last() =~= s@.take(i as int));
            assert(t.last() == ch);
            lemma_pieces_of_nonempty(s@.take(i as int), sep);
        }
        if ch == sep {
            let piece = String::from_str(s.substring_char(start, i));
            proof {
                assert(strings_view(out@.push(piece)) =~= strings_view(out@).push(piece@));
            }
            out.push(piece);
            start = i + 1;
            proof {
                assert(s@.subrange(start as int, start as int) =~= Seq::<char>::empty());
            }
        } else {
            proof {
                assert(s@.subrange(start as int, i as int + 1) =~= s@.subrange(
                    start as int,
                    i as int,
                ).push(ch));
            }
        }
        i += 1;
    }
    let last = String::from_str(s.substring_char(start, n));
    proof {
        assert(strings_view(out@.push(last)) =~= strings_view(out@).push(last@));
        assert(s@.take(n as int) =~= s@);
    }
    out.push(last);
    out
}

/// The numbers of a row: each piece trimmed, the empty ones dropped.
pub open spec fn tokens_of(pieces: Seq<Seq<char>>) -> Seq<Seq<char>>
    decreases pieces.len(),
{
    if pieces.len() == 0 {
        Seq::empty()
    } else {
        let rest = tokens_of(pieces.drop_last());
        let p = trimmed(pieces.last());
        if p.len() > 0 {
            rest.push(p)
        } else {
            rest
        }
    }
}

/// The rows of a matrix text: each line trimmed, blank lines dropped, and
/// each remaining line cut into its numbers.
pub open spec fn rows_of(lines: Seq<Seq<char>>) -> Seq<Seq<Seq<char>>>
    decreases lines.len(),
{
    if lines.len() == 0 {
        Seq::empty()
    } else {
        let rest = rows_of(lines.drop_last());
        let l = trimmed(lines.last());
        if l.len() > 0 {
            rest.push(tokens_of(regex_split(TOKEN_SEPARATOR@, l)))
        } else {
            rest
        }
    }
}

/// The number tokens of a matrix text, row by row.
pub open spec fn grid_tokens(contents: Seq<char>) -> Seq<Seq<Seq<char>>> {
    rows_of(lines_of(contents))
}

/// The text of each token of each row.
pub open spec fn grid_view(g: Seq<Vec<String>>) -> Seq<Seq<Seq<char>>> {
    g.map_values(|row: Vec<String>| strings_view(row@))
}

/// Cuts one (already trimmed) line into its number tokens.
pub fn row_tokens(line: &str) -> (r: Vec<String>)
    ensures
        strings_view(r@) == tokens_of(regex_split(TOKEN_SEPARATOR@, line@)),
{
    let pieces = split_at_matches(TOKEN_SEPARATOR, line);
    let ghost pv = strings_view(pieces@);
    let mut out: Vec<String> = Vec::new();
    let mut i: usize = 0;
    proof {
        assert(pv.take(0) =~= Seq::<Seq<char>>::empty());
        assert(strings_view(out@) =~= Seq::<Seq<char>>::empty());
    }
    while i < pieces.len()
        invariant
            pv == strings_view(pieces@),
            i <= pieces@.len(),
            strings_view(out@) == tokens_of(pv.take(i as int)),
        decreases pieces@.len() - i,
    {
        let piece = trim_text(pieces[i].as_str());
        proof {
            assert(pv.take(i as int + 1).drop_last() =~= pv.take(i as int));
            assert(pv.take(i as int + 1).last() == pieces@[i as int]@);
        }
        if piece.unicode_len() > 0 {
            let tok = String::from_str(piece);
            proof {
                assert(strings_view(out@.push(tok)) =~= strings_view(out@).push(tok@));
            }
            out.push(tok);
        }
        i += 1;
    }
    proof {
        assert(pv.take(pieces@.len() as int) =~= pv);
    }
    out
}

/// The number tokens of a matrix text, row by row: the text is cut into
/// lines, each line is trimmed, blank lines are dropped, and each line is
/// cut at the runs of `TOKEN_SEPARATOR`, keeping the non-empty pieces.
pub fn matrix_tokens(contents: &str) -> (r: Vec<Vec<String>>)
    ensures
        grid_view(r@) == grid_tokens(contents@),
{
    let lines = split_at_char(contents, '\n');
    let ghost lv = strings_view(lines@);
    let mut out: Vec<Vec<String>> = Vec::new();
    let mut i: usize = 0;
    proof {
        assert(lv.take(0) =~= Seq::<Seq<char>>::empty());
        assert(grid_view(out@) =~= Seq::<Seq<Seq<char>>>::empty());
    }
    while i < lines.len()
        invariant
            lv == strings_view(lines@),
            lv == lines_of(contents@),
            i <= lines@.len(),
            grid_view(out@) == rows_of(lv.take(i as int)),
        decreases lines@.len() - i,
    {
        let line = trim_text(lines[i].as_str());
        proof {
            assert(lv.take(i as int + 1).drop_last() =~= lv.take(i as int));
            assert(lv.take(i as int + 1).last() == lines@[i as int]@);
        }
        if line.unicode_len() > 0 {
            let row = row_tokens(line);
            proof {
                assert(grid_view(out@.push(row)) =~= grid_view(out@).push(strings_view(row@)));
            }
            out.push(row);
        }
        i += 1;
    }
    proof {
        assert(lv.take(lines@.len() as int) =~= lv);
    }
    out
}

/// `parse` may give `out` for a string that reads `tok`.
pub open spec fn parses_to<T, F: Fn(String) -> Result<T, String>>(
    parse: F,
    tok: Seq<char>,
    out: Result<T, String>,
) -> bool {
    exists|s: String| s@ == tok && call_ensures(parse, (s,), out)
}

/// `parse` may accept a string that reads `tok`.
pub open spec fn parses_ok<T, F: Fn(String) -> Result<T, String>>(parse: F, tok: Seq<char>) -> bool {
    exists|v: T| parses_to(parse, tok, Ok(v))
}

/// Reads every token of `grid` with `parse`, row by row and left to right.
/// The first token that `parse` refuses becomes the error, named with the
/// reason `parse` gave; otherwise each cell holds what `parse` made of its
/// token.
pub fn parse_tokens<T, F: Fn(String) -> Result<T, String>>(grid: &Vec<Vec<String>>, parse: F) -> (r:
    Result<Vec<Vec<T>>, MatrixParseError>)
    requires
        forall|s: String| call_requires(parse, (s,)),
    ensures
        r matches Ok(cells) ==> {
            &&& cells@.len() == grid@.len()
            &&& forall|i: int| 0 <= i < grid@.len() ==> #[trigger] cells@[i]@.len() == grid@[i]@.len()
            &&& forall|i: int, j: int|
                0 <= i < grid@.len() && 0 <= j < grid@[i]@.len() ==> parses_to(
                    parse,
                    grid@[i]@[j]@,
                    Ok(#[trigger] cells@[i]@[j]),
                )
        },
        r matches Err(e) ==> exists|i: int, j: int|
            {
                &&& 0 <= i < grid@.len()
                &&& 0 <= j < grid@[i]@.len()
                &&& e.token@ == #[trigger] grid@[i]@[j]@
                &&& parses_to(parse, e.token@, Err(e.reason))
                &&& forall|k: int, l: int|
                    (0 <= k < i && 0 <= l < grid@[k]@.len()) || (k == i && 0 <= l < j)
                        ==> parses_ok(parse, #[trigger] grid@[k]@[l]@)
            },
{
    let mut cells: Vec<Vec<T>> = Vec::new();
    let mut i: usize = 0;
    while i < grid.len()
        invariant
            forall|s: String| call_requires(parse, (s,)),
            i <= grid@.len(),
            cells@.len() == i,
            forall|k: int| 0 <= k < i ==> #[trigger] cells@[k]@.len() == grid@[k]@.len(),
            forall|k: int, l: int|
                0 <= k < i && 0 <= l < grid@[k]@.len() ==> parses_to(
                    parse,
                    grid@[k]@[l]@,
                    Ok(#[trigger] cells@[k]@[l]),
                ),
        decreases grid@.len() - i,
    {
        let mut row: Vec<T> = Vec::new();
        let mut j: usize = 0;
        while j < grid[i].len()
            invariant
                forall|s: String| call_requires(parse, (s,)),
                i < grid@.len(),
                j <= grid@[i as int]@.len(),
                row@.len() == j,
                cells@.len() == i,
                forall|k: int| 0 <= k < i ==> #[trigger] cells@[k]@.len() == grid@[k]@.len(),
                forall|k: int, l: int|
                    0 <= k < i && 0 <= l < grid@[k]@.len() ==> parses_to(
                        parse,
                        grid@[k]@[l]@,
                        Ok(#[trigger] cells@[k]@[l]),
                    ),
                forall|l: int|
                    0 <= l < j ==> parses_to(parse, grid@[i as int]@[l]@, Ok(#[trigger] row@[l])),
            decreases grid@[i as int]@.len() - j,
        {
            let tok = grid[i][j].clone();
            let arg = tok.clone();
            let ghost g = arg;
            let result = parse(arg);
            let ghost res = result;
            match result {
                Ok(v) => {
                    row.push(v);
                },
                Err(reason) => {
                    let e = MatrixParseError::new(tok, reason);
                    proof {
                        assert(call_ensures(parse, (g,), res));
                        assert(parses_to(parse, e.token@, Err(e.reason)));
                        assert forall|k: int, l: int|
                            (0 <= k < i && 0 <= l < grid@[k]@.len()) || (k == i && 0 <= l
                                < j) implies parses_ok(parse, #[trigger] grid@[k]@[l]@) by {
                            if k < i {
                                assert(parses_to(parse, grid@[k]@[l]@, Ok(cells@[k]@[l])));
                            } else {
                                assert(parses_to(parse, grid@[k]@[l]@, Ok(row@[l])));
                            }
                        }
                        assert(e.token@ == grid@[i as int]@[j as int]@);
                    }
                    return Err(e);
                },
            }
            j += 1;
        }
        cells.push(row);
        i += 1;
    }
    Ok(cells)
}

} // verus!
