//! Reading boards drawn with box-drawing characters.

use vstd::prelude::*;

use crate::board::Board;
use crate::tile::Tile;

verus! {

/// Whether `c` has the Unicode `White_Space` property (what `char::is_whitespace` tests).
pub open spec fn is_ws(c: char) -> bool {
    let n = c as u32;
    (0x09 <= n && n <= 0x0D) || n == 0x20 || n == 0x85 || n == 0xA0 || n == 0x1680 || (0x2000 <= n
        && n <= 0x200A) || n == 0x2028 || n == 0x2029 || n == 0x202F || n == 0x205F || n == 0x3000
}

fn is_whitespace(c: char) -> (r: bool)
    ensures
        r == is_ws(c),
{
    let n = c as u32;
    (0x09 <= n && n <= 0x0D) || n == 0x20 || n == 0x85 || n == 0xA0 || n == 0x1680 || (0x2000 <= n
        && n <= 0x200A) || n == 0x2028 || n == 0x2029 || n == 0x202F || n == 0x205F || n == 0x3000
}

/// The tiles drawn by the characters of `s`, skipping characters that draw no tile.
pub open spec fn tiles_of(s: Seq<char>) -> Seq<Tile>
    decreases s.len(),
{
    if s.len() == 0 {
        Seq::empty()
    } else {
        let rest = tiles_of(s.drop_last());
        match Tile::char_spec(s.last()) {
            Some(t) => rest.push(t),
            None => rest,
        }
    }
}

/// The whitespace-separated words of `s`.
pub open spec fn words(s: Seq<char>) -> Seq<Seq<char>>
    decreases s.len(),
{
    if s.len() == 0 {
        Seq::empty()
    } else {
        let ws = words(s.drop_last());
        let c = s.last();
        if is_ws(c) {
            ws
        } else if s.len() >= 2 && !is_ws(s[s.len() - 2]) {
            ws.update(ws.len() - 1, ws.last().push(c))
        } else {
            ws.push(seq![c])
        }
    }
}

/// The rows of tiles drawn by `s`: one row per whitespace-separated word.
pub open spec fn parse_spec(s: Seq<char>) -> Seq<Seq<Tile>> {
    words(s).map_values(|w: Seq<char>| tiles_of(w))
}

proof fn lemma_words_nonempty_when_inside(s: Seq<char>)
    requires
        s.len() >= 1,
        !is_ws(s.last()),
    ensures
        words(s).len() >= 1,
    decreases s.len(),
{
    if s.len() >= 2 && !is_ws(s[s.len() - 2]) {
        assert(s.drop_last().last() == s[s.len() - 2]);
        lemma_words_nonempty_when_inside(s.drop_last());
    }
}

/// Reads the tiles drawn by a single line, skipping characters that draw no tile.
pub fn tile_row(line: &str) -> (r: Vec<Tile>)
    ensures
        r@ == tiles_of(line@),
{
    let mut row: Vec<Tile> = Vec::new();
    for c in it: line.chars()
        invariant
            it.seq() == line@,
            row@ == tiles_of(it.seq().subrange(0, it.index() as int)),
    {
        proof {
            let pre = it.seq().subrange(0, it.index() + 1);
            assert(pre.drop_last() =~= it.seq().subrange(0, it.index() as int));
            assert(pre.last() == c);
        }
        match Tile::from_char(c) {
            Some(t) => row.push(t),
            None => {},
        }
    }
    proof {
        assert(line@.subrange(0, line@.len() as int) =~= line@);
    }
    row
}

impl Board {
    /// Parses a board specified with `│─└┌┐┘├┬┤┴` into an actual matrix of tiles: each
    /// whitespace-separated word becomes a row, and characters that draw no tile are skipped.
    pub fn parse_board(spec: &str) -> (r: Vec<Vec<Tile>>)
        ensures
            r@.map_values(|row: Vec<Tile>| row@) == parse_spec(spec@),
    {
        let mut rows: Vec<Vec<Tile>> = Vec::new();
        let mut in_word = false;
        for c in it: spec.chars()
            invariant
                it.seq() == spec@,
                rows@.map_values(|row: Vec<Tile>| row@) == parse_spec(
                    it.seq().subrange(0, it.index() as int),
                ),
                in_word == (it.index() > 0 && !is_ws(it.seq()[it.index() - 1])),
        {
            let ghost pre = it.seq().subrange(0, it.index() as int);
            let ghost post = it.seq().subrange(0, it.index() + 1);
            let ghost ws0 = words(pre);
            proof {
                assert(post.drop_last() =~= pre);
                assert(post.last() == c);
                if it.index() > 0 {
                    assert(post[post.len() - 2] == it.seq()[it.index() - 1]);
                }
                assert(rows@.map_values(|row: Vec<Tile>| row@).len() == rows@.len());
                if in_word {
                    assert(pre.last() == it.seq()[it.index() - 1]);
                    lemma_words_nonempty_when_inside(pre);
                }
            }
            if is_whitespace(c) {
                in_word = false;
                proof {
                    assert(words(post) == ws0);
                }
            } else if in_word {
                let n = rows.len();
                let ghost old_rows = rows@;
                match Tile::from_char(c) {
                    Some(t) => rows[n - 1].push(t),
                    None => {},
                }
                proof {
                    let ws1 = words(post);
                    assert(ws1 == ws0.update(ws0.len() - 1, ws0.last().push(c)));
                    assert(ws0.len() == n);
                    assert(ws0.last() == ws0[n - 1]);
                    assert(ws0.last().push(c).drop_last() =~= ws0.last());
                    assert(rows@.map_values(|row: Vec<Tile>| row@) =~= ws1.map_values(
                        |w: Seq<char>| tiles_of(w),
                    )) by {
                        assert forall|k: int| 0 <= k < n implies #[trigger] rows@[k]@ == tiles_of(
                            ws1[k],
                        ) by {
                            if k < n - 1 {
                                assert(rows@[k] == old_rows[k]);
                                assert(old_rows.map_values(|row: Vec<Tile>| row@)[k] == tiles_of(
                                    ws0[k],
                                ));
                            } else {
                                assert(old_rows.map_values(|row: Vec<Tile>| row@)[k] == tiles_of(
                                    ws0[k],
                                ));
                            }
                        }
                    }
                }
                in_word = true;
            } else {
                let mut row: Vec<Tile> = Vec::new();
                match Tile::from_char(c) {
                    Some(t) => row.push(t),
                    None => {},
                }
                proof {
                    assert(seq![c].drop_last() =~= Seq::<char>::empty());
                    assert(tiles_of(Seq::<char>::empty()) == Seq::<Tile>::empty());
                    assert(seq![c].last() == c);
                    assert(row@ == tiles_of(seq![c]));
                    assert(words(post) == ws0.push(seq![c]));
                    assert(rows@.push(row).map_values(|row: Vec<Tile>| row@) =~= rows@.map_values(
                        |row: Vec<Tile>| row@,
                    ).push(row@));
                    assert(ws0.push(seq![c]).map_values(|w: Seq<char>| tiles_of(w)) =~= ws0.map_values(
                        |w: Seq<char>| tiles_of(w),
                    ).push(tiles_of(seq![c])));
                }
                rows.push(row);
                in_word = true;
            }
        }
        proof {
            assert(spec@.subrange(0, spec@.len() as int) =~= spec@);
        }
        rows
    }
}

} // verus!
