use vstd::prelude::*;

use crate::map::{grid_view, load_map, spec_load, MapError};
use crate::world::World;

verus! {

/// The characters that surround lines and level text without meaning.
pub open spec fn is_blank(c: char) -> bool {
    c == ' ' || c == '\t' || c == '\r' || c == '\n'
}

/// The first index at or after `i` that holds no blank.
pub open spec fn solid_from(t: Seq<char>, i: int) -> int
    decreases t.len() - i,
{
    if 0 <= i < t.len() && is_blank(t[i]) {
        solid_from(t, i + 1)
    } else {
        i
    }
}

/// The end of `t[..j]` with its trailing blanks left off.
pub open spec fn solid_until(t: Seq<char>, j: int) -> int
    decreases j,
{
    if 0 < j <= t.len() && is_blank(t[j - 1]) {
        solid_until(t, j - 1)
    } else {
        j
    }
}

/// `t` without its leading and trailing blanks.
pub open spec fn trim(t: Seq<char>) -> Seq<char> {
    let a = solid_from(t, 0);
    let b = solid_until(t, t.len() as int);
    if a < b {
        t.subrange(a, b)
    } else {
        seq![]
    }
}

/// The pieces of `t` between occurrences of `sep`; `n` separators give
/// `n + 1` pieces, some of them perhaps empty.
pub open spec fn split_on(t: Seq<char>, sep: char) -> Seq<Seq<char>>
    decreases t.len(),
{
    if t.len() == 0 {
        seq![seq![]]
    } else {
        let p = split_on(t.drop_last(), sep);
        if t.last() == sep {
            p.push(seq![])
        } else {
            p.update(p.len() - 1, p.last().push(t.last()))
        }
    }
}

/// The token grid of a level text: the trimmed text cut into lines, each
/// line trimmed and cut at single spaces.
pub open spec fn level_tokens(text: Seq<char>) -> Seq<Seq<Seq<char>>> {
    split_on(trim(text), '\n').map_values(|line: Seq<char>| split_on(trim(line), ' '))
}

proof fn lemma_split_nonempty(t: Seq<char>, sep: char)
    ensures
        split_on(t, sep).len() >= 1,
    decreases t.len(),
{
    if t.len() > 0 {
        lemma_split_nonempty(t.drop_last(), sep);
    }
}

/// The bounds of `t` without leading and trailing blanks.
fn trim_bounds(t: &str) -> (r: (usize, usize))
    ensures
        r.0 <= r.1 <= t@.len(),
        trim(t@) == t@.subrange(r.0 as int, r.1 as int),
{
    let n = t.unicode_len();
    let mut a: usize = 0;
    while a < n && is_blank_char(t.get_char(a))
        invariant
            n == t@.len(),
            a <= n,
            solid_from(t@, 0) == solid_from(t@, a as int),
        decreases n - a,
    {
        a += 1;
    }
    let mut b: usize = n;
    while b > a && is_blank_char(t.get_char(b - 1))
        invariant
            n == t@.len(),
            a <= b <= n,
            solid_until(t@, n as int) == solid_until(t@, b as int),
            forall|k: int| b <= k < n ==> is_blank(#[trigger] t@[k]),
        decreases b,
    {
        b -= 1;
    }
    proof {
        if a < n {
            assert(!is_blank(t@[a as int]));
        }
        if b > a {
            assert(solid_until(t@, b as int) == b);
        } else {
            lemma_solid_until_stops(t@, n as int, a as int);
        }
    }
    (a, b)
}

/// Where everything from `a` to `j` is blank and `t[a]` is not (or `a` is
/// the end), trailing blanks are cut back to `a` at most.
proof fn lemma_solid_until_stops(t: Seq<char>, j: int, a: int)
    requires
        0 <= a <= j <= t.len(),
        forall|k: int| a <= k < j ==> is_blank(#[trigger] t[k]),
        solid_from(t, 0) == a,
    ensures
        solid_until(t, j) <= a,
    decreases j,
{
    if j > a {
        lemma_solid_until_stops(t, j - 1, a);
    } else {
        lemma_solid_until_le(t, j);
    }
}

proof fn lemma_solid_until_le(t: Seq<char>, j: int)
    requires
        0 <= j,
    ensures
        solid_until(t, j) <= j,
    decreases j,
{
    if 0 < j <= t.len() && is_blank(t[j - 1]) {
        lemma_solid_until_le(t, j - 1);
    }
}

fn is_blank_char(c: char) -> (r: bool)
    ensures
        r == is_blank(c),
{
    c == ' ' || c == '\t' || c == '\r' || c == '\n'
}

/// Cuts `t` at every `sep`.
fn split_at_char(t: &str, sep: char) -> (r: Vec<String>)
    ensures
        r@.map_values(|s: String| s@) == split_on(t@, sep),
{
    let n = t.unicode_len();
    let mut pieces: Vec<String> = Vec::new();
    let mut start: usize = 0;
    let mut i: usize = 0;
    assert(t@.subrange(0, 0) =~= seq![]);
    assert(pieces@.map_values(|s: String| s@).push(t@.subrange(0, 0)) =~= seq![seq![]]);
    while i < n
        invariant
            n == t@.len(),
            start <= i <= n,
            split_on(t@.subrange(0, i as int), sep) == pieces@.map_values(|s: String| s@).push(
                t@.subrange(start as int, i as int),
            ),
        decreases n - i,
    {
        let c = t.get_char(i);
        let ghost pre = t@.subrange(0, i as int);
        assert(t@.subrange(0, i + 1).drop_last() =~= pre);
        assert(t@.subrange(0, i + 1).last() == c);
        if c == sep {
            let piece = t.substring_char(start, i).to_string();
            let ghost before = pieces@.map_values(|s: String| s@);
            pieces.push(piece);
            assert(pieces@.map_values(|s: String| s@) =~= before.push(t@.subrange(start as int, i as int)));
            assert(t@.subrange(i + 1, i + 1) =~= seq![]);
            start = i + 1;
        } else {
            assert(t@.subrange(start as int, i + 1) =~= t@.subrange(start as int, i as int).push(c));
        }
        i += 1;
    }
    let last = t.substring_char(start, n).to_string();
    let ghost before = pieces@.map_values(|s: String| s@);
    pieces.push(last);
    assert(pieces@.map_values(|s: String| s@) =~= before.push(t@.subrange(start as int, n as int)));
    assert(t@.subrange(0, n as int) =~= t@);
    pieces
}

/// Cuts level text into its grid of tokens.
pub fn level_rows(text: &str) -> (r: Vec<Vec<String>>)
    ensures
        grid_view(r@) == level_tokens(text@),
{
    let (a, b) = trim_bounds(text);
    let body = text.substring_char(a, b);
    let lines = split_at_char(body, '\n');
    let ghost lv = lines@.map_values(|s: String| s@);
    let mut rows: Vec<Vec<String>> = Vec::new();
    let mut k: usize = 0;
    while k < lines.len()
        invariant
            lv == lines@.map_values(|s: String| s@),
            lv == split_on(trim(text@), '\n'),
            k <= lines@.len(),
            grid_view(rows@) == lv.subrange(0, k as int).map_values(
                |line: Seq<char>| split_on(trim(line), ' '),
            ),
        decreases lines@.len() - k,
    {
        let line = lines[k].as_str();
        let (c, d) = trim_bounds(line);
        let tokens = split_at_char(line.substring_char(c, d), ' ');
        let ghost before = grid_view(rows@);
        rows.push(tokens);
        assert(lv[k as int] == lines@[k as int]@);
        assert(grid_view(rows@) =~= before.push(tokens@.map_values(|t: String| t@)));
        assert(lv.subrange(0, k + 1) =~= lv.subrange(0, k as int).push(lv[k as int]));
        assert(lv.subrange(0, k + 1).map_values(|line: Seq<char>| split_on(trim(line), ' '))
            =~= lv.subrange(0, k as int).map_values(|line: Seq<char>| split_on(trim(line), ' ')).push(
            split_on(trim(lv[k as int]), ' '),
        ));
        k += 1;
    }
    assert(lv.subrange(0, lv.len() as int) =~= lv);
    rows
}

/// Builds a level from its text: lines of tokens separated by single
/// spaces, with blanks around the text and around each line ignored.
pub fn load_level(text: &str) -> (r: Result<World, MapError>)
    ensures
        r matches Ok(w) ==> w.wf() && spec_load(level_tokens(text@)) == Ok::<Seq<crate::components::EntityRecord>, MapError>(w.entities@),
        r matches Err(e) ==> spec_load(level_tokens(text@)) == Err::<Seq<crate::components::EntityRecord>, MapError>(e),
{
    let rows = level_rows(text);
    load_map(&rows)
}

} // verus!
