//! What the board holds: its tiles and the loose tile, counted with repetitions.

use vstd::multiset::Multiset;
use vstd::prelude::*;

use crate::anim::AnimSync;
use crate::board::{grid_rect, guide_line, pushed_out, shifted_grid, Board};
use crate::tile::{Direction, Tile};

verus! {

broadcast use {
    vstd::multiset::group_multiset_axioms,
    vstd::multiset::group_multiset_properties,
    vstd::seq_lib::to_multiset_update,
    vstd::seq_lib::to_multiset_build,
    vstd::seq_lib::to_multiset_contains,
};

/// All tiles of a grid, counted with repetitions.
pub open spec fn grid_tiles(g: Seq<Seq<Tile>>) -> Multiset<Tile>
    decreases g.len(),
{
    if g.len() == 0 {
        Multiset::empty()
    } else {
        grid_tiles(g.drop_last()).add(g.last().to_multiset())
    }
}

/// Column `t` of a grid, top to bottom.
pub open spec fn column(g: Seq<Seq<Tile>>, t: int) -> Seq<Tile> {
    Seq::new(g.len(), |r: int| g[r][t])
}

impl Board {
    /// The tiles on the board and the loose tile, counted with repetitions.
    pub open spec fn tiles(&self) -> Multiset<Tile> {
        grid_tiles(self.grid()).insert(self.loose_tile)
    }
}

/// Replacing one row changes the tiles of a grid by the tiles of the two rows.
proof fn lemma_replace_row(g: Seq<Seq<Tile>>, r: int, row: Seq<Tile>)
    requires
        0 <= r < g.len(),
    ensures
        grid_tiles(g.update(r, row)).add(g[r].to_multiset()) == grid_tiles(g).add(row.to_multiset()),
    decreases g.len(),
{
    let g2 = g.update(r, row);
    let init = g.drop_last();
    if r == g.len() - 1 {
        assert(g2.drop_last() =~= init);
        assert(grid_tiles(g2) == grid_tiles(init).add(row.to_multiset()));
        assert(grid_tiles(g) == grid_tiles(init).add(g[r].to_multiset()));
        assert(grid_tiles(g2).add(g[r].to_multiset()) =~= grid_tiles(g).add(row.to_multiset()));
    } else {
        lemma_replace_row(init, r, row);
        assert(g2.drop_last() =~= init.update(r, row));
        assert(g2.last() == g.last());
        assert(grid_tiles(g2) == grid_tiles(init.update(r, row)).add(g.last().to_multiset()));
        assert(grid_tiles(g) == grid_tiles(init).add(g.last().to_multiset()));
        assert(init[r] == g[r]);
        let a2 = grid_tiles(init.update(r, row));
        let a = grid_tiles(init);
        assert forall|x: Tile| #[trigger] grid_tiles(g2).add(g[r].to_multiset()).count(x) == grid_tiles(
            g,
        ).add(row.to_multiset()).count(x) by {
            assert(a2.add(init[r].to_multiset()).count(x) == a.add(row.to_multiset()).count(x));
        }
        assert(grid_tiles(g2).add(g[r].to_multiset()) =~= grid_tiles(g).add(row.to_multiset()));
    }
}

/// Replacing one tile in every row, along column `t`, changes the tiles of a grid by the tiles
/// of the two columns.
proof fn lemma_replace_column(g: Seq<Seq<Tile>>, g2: Seq<Seq<Tile>>, t: int)
    requires
        g2.len() == g.len(),
        forall|r: int| 0 <= r < g.len() ==> 0 <= t < (#[trigger] g[r]).len(),
        forall|r: int| 0 <= r < g.len() ==> #[trigger] g2[r] == g[r].update(t, g2[r][t]),
    ensures
        grid_tiles(g2).add(column(g, t).to_multiset()) == grid_tiles(g).add(
            column(g2, t).to_multiset(),
        ),
    decreases g.len(),
{
    if g.len() > 0 {
        let n = g.len() - 1;
        assert forall|r: int| 0 <= r < n implies 0 <= t < (#[trigger] g.drop_last()[r]).len() by {
            assert(g.drop_last()[r] == g[r]);
        }
        assert forall|r: int| 0 <= r < n implies #[trigger] g2.drop_last()[r] == g.drop_last()[r].update(
            t,
            g2.drop_last()[r][t],
        ) by {
            assert(g2[r] == g[r].update(t, g2[r][t]));
        }
        lemma_replace_column(g.drop_last(), g2.drop_last(), t);
        assert(column(g.drop_last(), t) =~= column(g, t).drop_last());
        assert(column(g2.drop_last(), t) =~= column(g2, t).drop_last());
        assert(column(g, t) =~= column(g, t).drop_last().push(g[n][t]));
        assert(column(g2, t) =~= column(g2, t).drop_last().push(g2[n][t]));
        assert(g2[n] == g[n].update(t, g2[n][t]));
        assert(g2[n].to_multiset() == g[n].to_multiset().insert(g2[n][t]).remove(g[n][t]));
        assert(g[n].contains(g[n][t]));
        assert(g[n].to_multiset().contains(g[n][t])) by {
            vstd::seq_lib::to_multiset_contains(g[n], g[n][t]);
        }
        assert(grid_tiles(g2) == grid_tiles(g2.drop_last()).add(g2[n].to_multiset()));
        assert(grid_tiles(g) == grid_tiles(g.drop_last()).add(g[n].to_multiset()));
        assert(column(g, t).drop_last().push(g[n][t]).to_multiset() =~= column(g, t).drop_last().to_multiset().insert(g[n][t]));
        assert(column(g2, t).drop_last().push(g2[n][t]).to_multiset() =~= column(g2, t).drop_last().to_multiset().insert(g2[n][t]));
        let a = grid_tiles(g.drop_last());
        let a2 = grid_tiles(g2.drop_last());
        let c = column(g, t).drop_last().to_multiset();
        let c2 = column(g2, t).drop_last().to_multiset();
        assert forall|x: Tile| #[trigger] grid_tiles(g2).add(column(g, t).to_multiset()).count(x)
            == grid_tiles(g).add(column(g2, t).to_multiset()).count(x) by {
            assert(a2.add(column(g.drop_last(), t).to_multiset()).count(x) == a.add(
                column(g2.drop_last(), t).to_multiset(),
            ).count(x));
        }
        assert(grid_tiles(g2).add(column(g, t).to_multiset()) =~= grid_tiles(g).add(
            column(g2, t).to_multiset(),
        ));
    }
}

/// Inserting the loose tile moves tiles around but keeps every one of them, with its target
/// mark: the tiles on the board and the loose tile are, counted with repetitions, the same
/// before and after.
pub proof fn lemma_insert_keeps_tiles(before: &Board, after: &Board, sync: AnimSync)
    requires
        before.rectangular(),
        before.loose_position_valid(),
        before.insert_effect(after, sync),
    ensures
        after.tiles() == before.tiles(),
{
    let g = before.grid();
    let w = before.width_spec();
    let h = before.height_spec();
    let dir = before.loose_tile_position.0;
    let t = guide_line(before.loose_tile_position.1);
    let loose = before.loose_tile;
    let g2 = shifted_grid(g, loose, dir, t, w, h);
    let out = pushed_out(g, dir, t, w, h);
    assert(after.grid() == g2);
    assert(after.loose_tile == out);
    assert(g.len() == h);
    match dir {
        Direction::North | Direction::South => {
            assert forall|r: int| 0 <= r < h implies #[trigger] g2[r] == g[r].update(t, g2[r][t]) by {
                assert(g[r].len() == w);
                assert(g2[r] =~= g[r].update(t, g2[r][t]));
            }
            assert forall|r: int| 0 <= r < h implies 0 <= t < (#[trigger] g[r]).len() by {}
            lemma_replace_column(g, g2, t);
            let c = column(g, t);
            let c2 = column(g2, t);
            if dir == Direction::North {
                let p = c.subrange(0, h - 1);
                assert(c2 =~= seq![loose] + p);
                assert(c =~= p.push(c[h - 1]));
                vstd::seq_lib::lemma_multiset_commutative(seq![loose], p);
                assert(seq![loose] =~= Seq::<Tile>::empty().push(loose));
                assert(seq![loose].to_multiset() =~= Multiset::empty().insert(loose));
                assert(c2.to_multiset() == seq![loose].to_multiset().add(p.to_multiset()));
                assert(c.to_multiset() == p.to_multiset().insert(c[h - 1]));
                assert(out == c[h - 1]);
                assert(c2.to_multiset().insert(out) =~= c.to_multiset().insert(loose));
            } else {
                let p = c.subrange(1, h);
                assert(c2 =~= p.push(loose));
                assert(c =~= seq![c[0]] + p);
                vstd::seq_lib::lemma_multiset_commutative(seq![c[0]], p);
                assert(seq![c[0]] =~= Seq::<Tile>::empty().push(c[0]));
                assert(seq![c[0]].to_multiset() =~= Multiset::empty().insert(c[0]));
                assert(c.to_multiset() == seq![c[0]].to_multiset().add(p.to_multiset()));
                assert(c2.to_multiset() == p.to_multiset().insert(loose));
                assert(out == c[0]);
                assert(c2.to_multiset().insert(out) =~= c.to_multiset().insert(loose));
            }
            assert forall|x: Tile| #[trigger] grid_tiles(g2).insert(out).count(x) == grid_tiles(
                g,
            ).insert(loose).count(x) by {
                assert(grid_tiles(g2).add(c.to_multiset()).count(x) == grid_tiles(g).add(
                    c2.to_multiset(),
                ).count(x));
                assert(c2.to_multiset().insert(out).count(x) == c.to_multiset().insert(loose).count(
                    x,
                ));
            }
            assert(grid_tiles(g2).insert(out) =~= grid_tiles(g).insert(loose));
        },
        Direction::East | Direction::West => {
            assert(g[t].len() == w);
            let row = g2[t];
            assert forall|r: int| 0 <= r < h && r != t implies #[trigger] g2[r] == g[r] by {
                assert(g[r].len() == w);
                assert(g2[r] =~= g[r]);
            }
            assert(g2 =~= g.update(t, row));
            lemma_replace_row(g, t, row);
            let old_row = g[t];
            if dir == Direction::West {
                let p = old_row.subrange(0, w - 1);
                assert(row =~= seq![loose] + p);
                assert(old_row =~= p.push(old_row[w - 1]));
                vstd::seq_lib::lemma_multiset_commutative(seq![loose], p);
                assert(seq![loose] =~= Seq::<Tile>::empty().push(loose));
                assert(seq![loose].to_multiset() =~= Multiset::empty().insert(loose));
                assert(row.to_multiset() == seq![loose].to_multiset().add(p.to_multiset()));
                assert(old_row.to_multiset() == p.to_multiset().insert(old_row[w - 1]));
                assert(out == old_row[w - 1]);
            } else {
                let p = old_row.subrange(1, w);
                assert(row =~= p.push(loose));
                assert(old_row =~= seq![old_row[0]] + p);
                vstd::seq_lib::lemma_multiset_commutative(seq![old_row[0]], p);
                assert(seq![old_row[0]] =~= Seq::<Tile>::empty().push(old_row[0]));
                assert(seq![old_row[0]].to_multiset() =~= Multiset::empty().insert(old_row[0]));
                assert(old_row.to_multiset() == seq![old_row[0]].to_multiset().add(p.to_multiset()));
                assert(row.to_multiset() == p.to_multiset().insert(loose));
                assert(out == old_row[0]);
            }
            assert(row.to_multiset().insert(out) =~= old_row.to_multiset().insert(loose));
            assert forall|x: Tile| #[trigger] grid_tiles(g2).insert(out).count(x) == grid_tiles(
                g,
            ).insert(loose).count(x) by {
                assert(grid_tiles(g.update(t, row)).add(old_row.to_multiset()).count(x) == grid_tiles(
                    g,
                ).add(row.to_multiset()).count(x));
                assert(row.to_multiset().insert(out).count(x) == old_row.to_multiset().insert(
                    loose,
                ).count(x));
            }
            assert(grid_tiles(g2).insert(out) =~= grid_tiles(g).insert(loose));
        },
    }
}

} // verus!
