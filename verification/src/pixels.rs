//! The places of an image, and the order in which its pixels are sampled.
//!
//! Pixels are sampled in the order of their indices. With the places of the
//! image in a random order, a sweep that a frame leaves unfinished has
//! sampled pixels all over the image, not its upper rows alone.

use rand::seq::SliceRandom;
use vstd::prelude::*;
use vstd::arithmetic::div_mod::lemma_fundamental_div_mod_converse;
use crate::components::Vec2u;

verus! {

/// The places of an image of the given size, row by row from the top, each
/// row from the left.
pub open spec fn grid(width: nat, height: nat) -> Seq<Vec2u> {
    Seq::new(
        width * height,
        |i: int| Vec2u { x: (i % width as int) as usize, y: (i / width as int) as usize },
    )
}

/// The places of an image, row by row: see `grid`. `None` where they are
/// more than a list can hold.
pub fn pixel_grid(width: usize, height: usize) -> (places: Option<Vec<Vec2u>>)
    ensures
        places is Some <==> width * height <= usize::MAX,
        places matches Some(list) ==> list@ == grid(width as nat, height as nat),
{
    let count = match width.checked_mul(height) {
        Some(c) => c,
        None => {
            return None;
        },
    };
    let mut list: Vec<Vec2u> = Vec::new();
    let mut x: usize = 0;
    let mut y: usize = 0;
    let mut i: usize = 0;
    while i < count
        invariant
            count == width * height,
            i <= count,
            i == y * width + x,
            i < count ==> x < width,
            list@.len() == i,
            forall|k: int|
                0 <= k < i ==> #[trigger] list@[k] == (Vec2u {
                    x: (k % width as int) as usize,
                    y: (k / width as int) as usize,
                }),
        decreases count - i,
    {
        proof {
            lemma_fundamental_div_mod_converse(i as int, width as int, y as int, x as int);
        }
        list.push(Vec2u { x, y });
        i = i + 1;
        if x + 1 == width {
            assert((y + 1) * width + 0 == y * width + x + 1) by (nonlinear_arith)
                requires
                    x + 1 == width,
            ;
            assert(i < count ==> y + 1 < height) by (nonlinear_arith)
                requires
                    i == (y + 1) * width,
                    count == width * height,
                    width > 0,
            ;
            x = 0;
            y = y + 1;
        } else {
            x = x + 1;
        }
    }
    assert(list@ =~= grid(width as nat, height as nat));
    Some(list)
}

/// `rand::seq::SliceRandom::shuffle` with the thread's generator: puts the
/// places into a random order. The call only exchanges places, so the list
/// holds what it held, each place as often as before; of the order nothing is
/// claimed.
#[verifier::external_body]
fn shuffle(places: &mut Vec<Vec2u>)
    ensures
        final(places)@.to_multiset() == old(places)@.to_multiset(),
{
    places.shuffle(&mut rand::thread_rng());
}

/// The places of an image in a random order: every place of `grid` once.
/// `None` where they are more than a list can hold.
pub fn shuffled_grid(width: usize, height: usize) -> (places: Option<Vec<Vec2u>>)
    ensures
        places is Some <==> width * height <= usize::MAX,
        places matches Some(list) ==> list@.to_multiset() == grid(
            width as nat,
            height as nat,
        ).to_multiset(),
{
    match pixel_grid(width, height) {
        Some(list) => {
            let mut list = list;
            shuffle(&mut list);
            Some(list)
        },
        None => None,
    }
}

/// No place comes twice among the places of an image.
proof fn lemma_grid_distinct(width: nat, height: nat)
    requires
        width * height <= usize::MAX,
    ensures
        grid(width, height).no_duplicates(),
{
    let all = grid(width, height);
    assert forall|i: int, j: int|
        0 <= i < all.len() && 0 <= j < all.len() && i != j implies all[i] != all[j] by {
        assert(width > 0) by (nonlinear_arith)
            requires
                0 <= i < width * height,
        ;
        let w = width as int;
        vstd::arithmetic::div_mod::lemma_fundamental_div_mod(i, w);
        vstd::arithmetic::div_mod::lemma_fundamental_div_mod(j, w);
        vstd::arithmetic::div_mod::lemma_mod_pos_bound(i, w);
        vstd::arithmetic::div_mod::lemma_mod_pos_bound(j, w);
        vstd::arithmetic::div_mod::lemma_div_pos_is_pos(i, w);
        vstd::arithmetic::div_mod::lemma_div_pos_is_pos(j, w);
        assert(i / w < height && j / w < height) by (nonlinear_arith)
            requires
                i == w * (i / w) + i % w,
                j == w * (j / w) + j % w,
                0 <= i % w,
                0 <= j % w,
                i < width * height,
                j < width * height,
                w == width,
                w > 0,
        ;
        assert(0 <= i / w <= i && 0 <= j / w <= j) by (nonlinear_arith)
            requires
                i == w * (i / w) + i % w,
                j == w * (j / w) + j % w,
                0 <= i % w,
                0 <= j % w,
                0 <= i / w,
                0 <= j / w,
                w > 0,
        ;
        if all[i] == all[j] {
            assert(i % w == j % w);
            assert(i / w == j / w);
        }
    }
}

/// Every place of a permutation of the places of an image lies in the
/// image, no place comes twice in it, and it has one place per place of the
/// image.
pub proof fn lemma_shuffled_in_image(width: nat, height: nat, places: Seq<Vec2u>)
    requires
        width * height <= usize::MAX,
        places.to_multiset() == grid(width, height).to_multiset(),
    ensures
        places.len() == width * height,
        forall|i: int|
            0 <= i < places.len() ==> (#[trigger] places[i]).x < width && places[i].y < height,
        forall|i: int, j: int|
            0 <= i < j < places.len() ==> #[trigger] places[i] != #[trigger] places[j],
{
    broadcast use vstd::seq_lib::group_to_multiset_ensures;

    let all = grid(width, height);
    places.to_multiset_ensures();
    all.to_multiset_ensures();
    lemma_grid_distinct(width, height);
    all.lemma_multiset_has_no_duplicates();
    places.lemma_multiset_has_no_duplicates_conv();
    assert(places.len() == all.len());
    assert forall|i: int| 0 <= i < places.len() implies (#[trigger] places[i]).x < width
        && places[i].y < height by {
        let p = places[i];
        assert(places.contains(p));
        assert(places.to_multiset().count(p) > 0);
        assert(all.contains(p));
        let k = choose|k: int| 0 <= k < all.len() && all[k] == p;
        assert(width > 0) by (nonlinear_arith)
            requires
                0 <= k < width * height,
        ;
        vstd::arithmetic::div_mod::lemma_mod_pos_bound(k, width as int);
        vstd::arithmetic::div_mod::lemma_fundamental_div_mod(k, width as int);
        vstd::arithmetic::div_mod::lemma_div_pos_is_pos(k, width as int);
        assert(k / (width as int) < height) by (nonlinear_arith)
            requires
                k == (width as int) * (k / (width as int)) + k % (width as int),
                0 <= k % (width as int),
                k < width * height,
                width > 0,
        ;
    }
}

} // verus!
