//! The recursive expander: applies the substitution rule `depth` times and
//! flattens the results, depth first, into one flat ordered sequence of
//! tiles.  At depth zero a tile is terminal and expands to itself.

use vstd::prelude::*;

verus! {

use crate::num::Qr;
use crate::num::QrV;
use crate::geom::Point;
use crate::geom::PointV;
use crate::tile::Tile;
use crate::tile::TileV;
use crate::tile::tile_views;
use crate::tile::spec_subdivide;
use crate::tile::subdivide_req;
use crate::tile::subdivide_req_check;

/// The flat, depth-first expansion of one tile: the tile itself at depth
/// zero, and otherwise the concatenated expansions of its substitution
/// children at one depth less, in child order.
pub open spec fn spec_expand(t: TileV, depth: nat, img_center: PointV, img_size: QrV) -> Seq<
    TileV,
>
    decreases depth, 0int,
{
    if depth == 0 {
        seq![t]
    } else {
        spec_expand_all(
            spec_subdivide(t, img_center, img_size),
            (depth - 1) as nat,
            img_center,
            img_size,
        )
    }
}

/// The concatenation, in order, of the expansions of a sequence of tiles.
pub open spec fn spec_expand_all(
    ts: Seq<TileV>,
    depth: nat,
    img_center: PointV,
    img_size: QrV,
) -> Seq<TileV>
    decreases depth, ts.len(),
{
    if ts.len() == 0 {
        Seq::empty()
    } else {
        spec_expand(ts.first(), depth, img_center, img_size) + spec_expand_all(
            ts.drop_first(),
            depth,
            img_center,
            img_size,
        )
    }
}

/// The whole expansion stays within the machine integers: every tile on
/// which a substitution step is still performed satisfies `subdivide_req`.
pub open spec fn spec_expand_fits(t: TileV, depth: nat, img_center: PointV, img_size: QrV) -> bool
    decreases depth,
{
    depth == 0 || {
        &&& subdivide_req(t, img_center)
        &&& (forall|i: int|
            0 <= i < spec_subdivide(t, img_center, img_size).len() ==> spec_expand_fits(
                #[trigger] spec_subdivide(t, img_center, img_size)[i],
                (depth - 1) as nat,
                img_center,
                img_size,
            ))
    }
}

/// The sum of the expansion lengths of a sequence of tiles.
pub open spec fn expand_len_sum(ts: Seq<TileV>, depth: nat, img_center: PointV, img_size: QrV) -> nat
    decreases ts.len(),
{
    if ts.len() == 0 {
        0
    } else {
        spec_expand(ts.first(), depth, img_center, img_size).len() + expand_len_sum(
            ts.drop_first(),
            depth,
            img_center,
            img_size,
        )
    }
}

/// Expanding a concatenation expands each part in order.
pub proof fn lemma_expand_all_append(
    s1: Seq<TileV>,
    s2: Seq<TileV>,
    depth: nat,
    img_center: PointV,
    img_size: QrV,
)
    ensures
        spec_expand_all(s1 + s2, depth, img_center, img_size) == spec_expand_all(
            s1,
            depth,
            img_center,
            img_size,
        ) + spec_expand_all(s2, depth, img_center, img_size),
    decreases s1.len(),
{
    if s1.len() == 0 {
        assert(s1 + s2 =~= s2);
        assert(spec_expand_all(s1, depth, img_center, img_size) + spec_expand_all(
            s2,
            depth,
            img_center,
            img_size,
        ) =~= spec_expand_all(s2, depth, img_center, img_size));
    } else {
        assert((s1 + s2).len() > 0);
        assert((s1 + s2).first() == s1.first());
        assert((s1 + s2).drop_first() =~= s1.drop_first() + s2);
        lemma_expand_all_append(s1.drop_first(), s2, depth, img_center, img_size);
        assert(spec_expand(s1.first(), depth, img_center, img_size) + (spec_expand_all(
            s1.drop_first(),
            depth,
            img_center,
            img_size,
        ) + spec_expand_all(s2, depth, img_center, img_size)) =~= (spec_expand(
            s1.first(),
            depth,
            img_center,
            img_size,
        ) + spec_expand_all(s1.drop_first(), depth, img_center, img_size)) + spec_expand_all(
            s2,
            depth,
            img_center,
            img_size,
        ));
    }
}

/// Extending a prefix by one tile appends that tile's expansion.
pub proof fn lemma_expand_all_take_succ(
    ts: Seq<TileV>,
    depth: nat,
    i: int,
    img_center: PointV,
    img_size: QrV,
)
    requires
        0 <= i < ts.len(),
    ensures
        spec_expand_all(ts.take(i + 1), depth, img_center, img_size) == spec_expand_all(
            ts.take(i),
            depth,
            img_center,
            img_size,
        ) + spec_expand(ts[i], depth, img_center, img_size),
{
    let single = seq![ts[i]];
    assert(ts.take(i + 1) =~= ts.take(i) + single);
    lemma_expand_all_append(ts.take(i), single, depth, img_center, img_size);
    let e = Seq::<TileV>::empty();
    assert(single.drop_first() =~= e);
    assert(spec_expand_all(e, depth, img_center, img_size) == e);
    assert(single.first() == ts[i]);
    assert(spec_expand_all(single, depth, img_center, img_size) == spec_expand(
        ts[i],
        depth,
        img_center,
        img_size,
    ) + e);
    assert(spec_expand(ts[i], depth, img_center, img_size) + e =~= spec_expand(
        ts[i],
        depth,
        img_center,
        img_size,
    ));
}

/// Expanding a tile to depth zero yields exactly that tile.
pub proof fn lemma_expand_depth_zero(t: TileV, img_center: PointV, img_size: QrV)
    ensures
        spec_expand(t, 0, img_center, img_size) == seq![t],
{
}

/// One level of growth: the expansion to depth `depth + 1` is the
/// concatenation of the depth-`depth` expansions of the tile's immediate
/// substitution children, so its length is the sum of their lengths.
pub proof fn lemma_expand_growth(t: TileV, depth: nat, img_center: PointV, img_size: QrV)
    ensures
        spec_expand(t, depth + 1, img_center, img_size) == spec_expand_all(
            spec_subdivide(t, img_center, img_size),
            depth,
            img_center,
            img_size,
        ),
        spec_expand(t, depth + 1, img_center, img_size).len() == expand_len_sum(
            spec_subdivide(t, img_center, img_size),
            depth,
            img_center,
            img_size,
        ),
{
    lemma_expand_all_len(spec_subdivide(t, img_center, img_size), depth, img_center, img_size);
}

/// The length of an expanded sequence is the sum of the lengths.
pub proof fn lemma_expand_all_len(ts: Seq<TileV>, depth: nat, img_center: PointV, img_size: QrV)
    ensures
        spec_expand_all(ts, depth, img_center, img_size).len() == expand_len_sum(
            ts,
            depth,
            img_center,
            img_size,
        ),
    decreases ts.len(),
{
    if ts.len() != 0 {
        lemma_expand_all_len(ts.drop_first(), depth, img_center, img_size);
    }
}

/// Applies the substitution rule `depth` times to `tile` and returns the
/// flat, depth-first sequence of resulting tiles.
pub fn subdivide_recursively(tile: Tile, depth: usize, img_center: &Point, img_size: &Qr) -> (r:
    Vec<Tile>)
    requires
        spec_expand_fits(tile@, depth as nat, img_center@, img_size@),
    ensures
        tile_views(r@) == spec_expand(tile@, depth as nat, img_center@, img_size@),
        depth == 0 ==> r@.len() == 1,
    decreases depth,
{
    if depth == 0 {
        let mut r: Vec<Tile> = Vec::new();
        r.push(tile);
        proof {
            assert(tile_views(r@) =~= seq![tile@]);
        }
        r
    } else {
        let children = tile.subdivide(img_center, img_size);
        let ghost cs = spec_subdivide(tile@, img_center@, img_size@);
        let mut result: Vec<Tile> = Vec::new();
        let mut i: usize = 0;
        proof {
            assert(cs.take(0) =~= Seq::<TileV>::empty());
            assert(tile_views(result@) =~= spec_expand_all(
                cs.take(0),
                (depth - 1) as nat,
                img_center@,
                img_size@,
            ));
        }
        while i < children.len()
            invariant
                i <= children.len(),
                1 <= depth,
                tile_views(children@) == cs,
                cs == spec_subdivide(tile@, img_center@, img_size@),
                spec_expand_fits(tile@, depth as nat, img_center@, img_size@),
                tile_views(result@) == spec_expand_all(
                    cs.take(i as int),
                    (depth - 1) as nat,
                    img_center@,
                    img_size@,
                ),
            decreases children.len() - i,
        {
            let child = children[i];
            proof {
                assert(child@ == cs[i as int]);
                assert(spec_expand_fits(
                    spec_subdivide(tile@, img_center@, img_size@)[i as int],
                    (depth - 1) as nat,
                    img_center@,
                    img_size@,
                ));
            }
            let mut sub = subdivide_recursively(child, depth - 1, img_center, img_size);
            let ghost prev = result@;
            let ghost subv = sub@;
            result.append(&mut sub);
            proof {
                assert(tile_views(prev + subv) =~= tile_views(prev) + tile_views(subv));
                lemma_expand_all_take_succ(
                    cs,
                    (depth - 1) as nat,
                    i as int,
                    img_center@,
                    img_size@,
                );
            }
            i = i + 1;
        }
        proof {
            assert(cs.take(children@.len() as int) =~= cs);
        }
        result
    }
}

/// Decides `spec_expand_fits` at run time, so that unverified callers can
/// guard a call to `subdivide_recursively`.
pub fn expand_fits_check(tile: &Tile, depth: usize, img_center: &Point, img_size: &Qr) -> (r:
    bool)
    ensures
        r == spec_expand_fits(tile@, depth as nat, img_center@, img_size@),
    decreases depth,
{
    if depth == 0 {
        true
    } else if !subdivide_req_check(tile, img_center) {
        false
    } else {
        let children = tile.subdivide(img_center, img_size);
        let ghost cs = spec_subdivide(tile@, img_center@, img_size@);
        let mut i: usize = 0;
        let mut ok: bool = true;
        while i < children.len()
            invariant
                i <= children.len(),
                1 <= depth,
                tile_views(children@) == cs,
                cs == spec_subdivide(tile@, img_center@, img_size@),
                subdivide_req(tile@, img_center@),
                ok == (forall|j: int|
                    0 <= j < i ==> spec_expand_fits(
                        #[trigger] cs[j],
                        (depth - 1) as nat,
                        img_center@,
                        img_size@,
                    )),
            decreases children.len() - i,
        {
            let child = children[i];
            proof {
                assert(child@ == cs[i as int]);
            }
            let cfit = expand_fits_check(&child, depth - 1, img_center, img_size);
            ok = ok && cfit;
            i = i + 1;
        }
        proof {
            if ok {
                assert forall|j: int|
                    0 <= j < spec_subdivide(tile@, img_center@, img_size@).len() implies spec_expand_fits(
                    #[trigger] spec_subdivide(tile@, img_center@, img_size@)[j],
                    (depth - 1) as nat,
                    img_center@,
                    img_size@,
                ) by {
                    assert(spec_subdivide(tile@, img_center@, img_size@)[j] == cs[j]);
                }
                assert(spec_expand_fits(tile@, depth as nat, img_center@, img_size@));
            } else {
                if spec_expand_fits(tile@, depth as nat, img_center@, img_size@) {
                    assert forall|j: int| 0 <= j < cs.len() implies spec_expand_fits(
                        #[trigger] cs[j],
                        (depth - 1) as nat,
                        img_center@,
                        img_size@,
                    ) by {
                        assert(cs[j] == spec_subdivide(tile@, img_center@, img_size@)[j]);
                        assert(spec_expand_fits(
                            spec_subdivide(tile@, img_center@, img_size@)[j],
                            (depth - 1) as nat,
                            img_center@,
                            img_size@,
                        ));
                    }
                    assert(false);
                }
            }
        }
        ok
    }
}

} // verus!
