//! Sprites: flat pictures in the world that always face the camera.

use vstd::prelude::*;
use crate::fixed::{Fixed, distance, length_between};

verus! {

/// A sprite.
#[derive(Clone, Copy, Debug)]
pub struct Sprite {
    /// Where it stands, in cells.
    pub pos: (Fixed, Fixed),
    /// Which texture of the sprite atlas it shows.
    pub texture_index: u8,
    /// Its distance from the camera when the frame was last drawn.
    pub dist: Fixed,
}

impl Sprite {
    /// A sprite at the origin that shows the first texture.
    pub fn new() -> (s: Sprite)
        ensures
            s.pos == (0i64, 0i64),
            s.texture_index == 0,
            s.dist == 0,
    {
        Sprite { pos: (0, 0), texture_index: 0, dist: 0 }
    }

    /// Distance of the sprite from `pos2`, as the crow flies.
    pub fn eucl_dist(&mut self, pos2: (Fixed, Fixed)) -> (d: Fixed)
        ensures
            d == distance(old(self).pos, pos2),
            d >= 0,
            *final(self) == *old(self),
    {
        length_between(self.pos, pos2)
    }
}

/// A sprite that refers to a texture the sprite atlas does not hold.
#[derive(Clone, Copy, Debug, PartialEq, Eq, Structural)]
pub struct SpriteError {
    /// Place of the sprite among the sprites.
    pub index: usize,
    /// The texture that it refers to.
    pub id: u8,
}

/// Whether sprite `i` of `s` shows a texture that an atlas of `atlas_len` entries lacks.
pub open spec fn bad_sprite(s: Seq<Sprite>, i: int, atlas_len: int) -> bool {
    0 <= i < s.len() && s[i].texture_index >= atlas_len
}

/// Whether `e` names the first sprite of `s` that shows a texture which an
/// atlas of `atlas_len` entries lacks.
pub open spec fn first_bad_sprite(s: Seq<Sprite>, e: SpriteError, atlas_len: int) -> bool {
    &&& bad_sprite(s, e.index as int, atlas_len)
    &&& e.id == s[e.index as int].texture_index
    &&& forall|i: int| 0 <= i < e.index ==> !#[trigger] bad_sprite(s, i, atlas_len)
}

/// Looks for a sprite that shows a texture which an atlas of `atlas_len`
/// entries lacks, and fails with the first one.
pub fn check_sprites(sprites: &Vec<Sprite>, atlas_len: usize) -> (r: Result<(), SpriteError>)
    ensures
        r.is_ok() <==> forall|i: int| !#[trigger] bad_sprite(sprites@, i, atlas_len as int),
        r.is_err() ==> first_bad_sprite(sprites@, r.unwrap_err(), atlas_len as int),
{
    let n: usize = sprites.len();
    let mut i: usize = 0;
    while i < n
        invariant
            n == sprites@.len(),
            0 <= i <= n,
            forall|k: int| 0 <= k < i ==> !#[trigger] bad_sprite(sprites@, k, atlas_len as int),
        decreases n - i,
    {
        let id: u8 = sprites[i].texture_index;
        if id as usize >= atlas_len {
            proof {
                assert(bad_sprite(sprites@, i as int, atlas_len as int));
            }
            return Err(SpriteError { index: i, id });
        }
        i = i + 1;
    }
    Ok(())
}

/// Number of sprites at the front of `s`, without a gap, that are no nearer than `d`.
pub open spec fn far_prefix(s: Seq<Sprite>, d: int) -> nat
    decreases s.len(),
{
    if s.len() == 0 || s[0].dist < d {
        0
    } else {
        1 + far_prefix(s.drop_first(), d)
    }
}

/// `s` with `x` put in behind the sprites at its front that are no nearer than `x`.
pub open spec fn insert_sprite(s: Seq<Sprite>, x: Sprite) -> Seq<Sprite> {
    s.insert(far_prefix(s, x.dist as int) as int, x)
}

/// The sprites of `s` from the farthest to the nearest; sprites at the same
/// distance keep the order that they have in `s`.
pub open spec fn far_first(s: Seq<Sprite>) -> Seq<Sprite>
    decreases s.len(),
{
    if s.len() == 0 {
        s
    } else {
        insert_sprite(far_first(s.drop_last()), s.last())
    }
}

/// Whether no sprite of `s` stands before a farther one.
pub open spec fn is_far_first(s: Seq<Sprite>) -> bool {
    forall|i: int, j: int| 0 <= i < j < s.len() ==> s[i].dist >= s[j].dist
}

/// The prefix counted by `far_prefix` lies within the sequence, holds only
/// sprites that are no nearer than `d`, and ends before one that is nearer.
pub proof fn lemma_far_prefix(s: Seq<Sprite>, d: int)
    ensures
        far_prefix(s, d) <= s.len(),
        forall|i: int| 0 <= i < far_prefix(s, d) ==> (#[trigger] s[i]).dist >= d,
        far_prefix(s, d) < s.len() ==> s[far_prefix(s, d) as int].dist < d,
    decreases s.len(),
{
    if s.len() == 0 || s[0].dist < d {
    } else {
        let t = s.drop_first();
        lemma_far_prefix(t, d);
        assert forall|i: int| 0 <= i < far_prefix(s, d) implies (#[trigger] s[i]).dist >= d by {
            if i > 0 {
                assert(s[i] == t[i - 1]);
            }
        }
        if far_prefix(s, d) < s.len() {
            assert(s[far_prefix(s, d) as int] == t[far_prefix(t, d) as int]);
        }
    }
}

/// Where the first `p` sprites are no nearer than `d` and the next one, if
/// there is one, is nearer, the prefix counted by `far_prefix` has length `p`.
pub proof fn lemma_far_prefix_is(s: Seq<Sprite>, d: int, p: nat)
    requires
        p <= s.len(),
        forall|i: int| 0 <= i < p ==> (#[trigger] s[i]).dist >= d,
        p < s.len() ==> s[p as int].dist < d,
    ensures
        far_prefix(s, d) == p,
    decreases s.len(),
{
    if p > 0 {
        let t = s.drop_first();
        assert forall|i: int| 0 <= i < p - 1 implies (#[trigger] t[i]).dist >= d by {
            assert(t[i] == s[i + 1]);
        }
        lemma_far_prefix_is(t, d, (p - 1) as nat);
    }
}

/// Putting a sprite into a sequence that runs from far to near leaves it so.
pub proof fn lemma_insert_keeps_order(s: Seq<Sprite>, x: Sprite)
    requires
        is_far_first(s),
    ensures
        is_far_first(insert_sprite(s, x)),
{
    let p = far_prefix(s, x.dist as int) as int;
    lemma_far_prefix(s, x.dist as int);
    let t = insert_sprite(s, x);
    assert forall|i: int, j: int| 0 <= i < j < t.len() implies t[i].dist >= t[j].dist by {
        if i < p && j == p {
            assert(t[i] == s[i]);
        } else if i < p && j > p {
            assert(t[i] == s[i]);
            assert(t[j] == s[j - 1]);
        } else if i < p {
            assert(t[i] == s[i]);
            assert(t[j] == s[j]);
        } else if i == p {
            assert(t[j] == s[j - 1]);
            assert(s[p].dist < x.dist);
            if j - 1 > p {
                assert(s[p].dist >= s[j - 1].dist);
            }
        } else {
            assert(t[i] == s[i - 1]);
            assert(t[j] == s[j - 1]);
        }
    }
}

/// The sorted sequence runs from far to near.
pub proof fn lemma_far_first_ordered(s: Seq<Sprite>)
    ensures
        is_far_first(far_first(s)),
        far_first(s).len() == s.len(),
    decreases s.len(),
{
    if s.len() > 0 {
        lemma_far_first_ordered(s.drop_last());
        lemma_far_prefix(far_first(s.drop_last()), s.last().dist as int);
        lemma_insert_keeps_order(far_first(s.drop_last()), s.last());
    }
}

/// The sorted sequence holds the sprites of the given one, each as often.
pub proof fn lemma_far_first_permutes(s: Seq<Sprite>)
    ensures
        far_first(s).to_multiset() == s.to_multiset(),
    decreases s.len(),
{
    broadcast use vstd::seq_lib::group_to_multiset_ensures;

    if s.len() > 0 {
        let t = s.drop_last();
        let x = s.last();
        lemma_far_first_permutes(t);
        let f = far_first(t);
        let p = far_prefix(f, x.dist as int) as int;
        lemma_far_prefix(f, x.dist as int);
        let g = f.insert(p, x);
        assert(g.remove(p) =~= f);
        assert(g[p] == x);
        assert(g.remove(p).to_multiset() =~= g.to_multiset().remove(x));
        assert(g.to_multiset().count(x) > 0) by {
            assert(g.contains(x));
        }
        assert(g.to_multiset() =~= f.to_multiset().insert(x));
        assert(s =~= t.push(x));
        assert(s.to_multiset() =~= t.to_multiset().insert(x));
    }
}

/// Puts the sprites in the order in which they are drawn: from the farthest
/// to the nearest, those at the same distance in the order that they had.
pub fn sort_far_first(sprites: &mut Vec<Sprite>)
    ensures
        final(sprites)@ == far_first(old(sprites)@),
        final(sprites)@.len() == old(sprites)@.len(),
        is_far_first(final(sprites)@),
        final(sprites)@.to_multiset() == old(sprites)@.to_multiset(),
{
    let mut out: Vec<Sprite> = Vec::new();
    let n: usize = sprites.len();
    let mut i: usize = 0;
    while i < n
        invariant
            *sprites == *old(sprites),
            n == sprites@.len(),
            0 <= i <= n,
            out@ == far_first(sprites@.take(i as int)),
            out@.len() == i,
        decreases n - i,
    {
        let x: Sprite = sprites[i];
        let mut p: usize = 0;
        while p < out.len() && out[p].dist >= x.dist
            invariant
                0 <= p <= out@.len(),
                forall|k: int| 0 <= k < p ==> (#[trigger] out@[k]).dist >= x.dist,
            decreases out@.len() - p,
        {
            p = p + 1;
        }
        proof {
            lemma_far_prefix_is(out@, x.dist as int, p as nat);
            assert(sprites@.take(i + 1).drop_last() =~= sprites@.take(i as int));
            assert(sprites@.take(i + 1).last() == x);
        }
        out.insert(p, x);
        i = i + 1;
    }
    proof {
        assert(sprites@.take(n as int) =~= sprites@);
        lemma_far_first_ordered(sprites@);
        lemma_far_first_permutes(sprites@);
    }
    *sprites = out;
}

} // verus!
