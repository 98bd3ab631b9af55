//! The sample scheduler: which pixels are sampled in a frame, how their
//! samples are gathered, and what is shown.
//!
//! A frame has a budget of samples. The pixels are sampled in sweeps: every
//! pixel once, in ascending order of its index, before any pixel is sampled
//! again. A frame takes up the sweep where the frame before left it and, if
//! its budget allows, goes on into the next. The pixels come in batches, no
//! pixel twice in a batch, so that the pixels of a batch can be worked on side
//! by side. Tracing the rays of a batch is the caller's part.

use vstd::prelude::*;
use vstd::arithmetic::div_mod::lemma_fundamental_div_mod_converse;
use crate::budget::{next_budget, sample_budget};
use crate::color::{Colorf32, Coloru8};
use crate::components::Vec2u;
use crate::resources::{
    all_below,
    handed_out,
    holds_nothing,
    index_limit,
    layered,
    max_index,
    members,
    PixelsToProcess,
};

verus! {

/// A pixel: where it lies, the sum of its samples so far, and how many they
/// are.
#[derive(Clone, Copy, Debug, PartialEq, Eq, Structural)]
pub struct PixelWorkItem {
    pub position: Vec2u,
    pub color: Colorf32,
    pub samples: u64,
}

/// What a new sample made of a pixel: the sum of its samples, the new one
/// included, and the colour to show for it.
#[derive(Clone, Copy, Debug, PartialEq, Eq, Structural)]
pub struct PixelSample {
    pub color: Colorf32,
    pub shown: Coloru8,
}

/// The scheduler and what it keeps: the pixels, the sweep, the batch that is
/// out, the budget, and the image as shown.
pub struct PathTrace {
    width: usize,
    height: usize,
    pixels: Vec<PixelWorkItem>,
    pixels_to_process: PixelsToProcess,
    batch: Vec<u32>,
    sweeps: u64,
    samples_to_process: u64,
    remaining: u64,
    buffer: Vec<u8>,
}

/// The scheduler as a value of specifications.
pub struct PathTraceView {
    /// The width and the height of the image, in pixels.
    pub width: nat,
    pub height: nat,
    /// The pixels. A pixel is named by its index in this list.
    pub pixels: Seq<PixelWorkItem>,
    /// The pixels that the sweep under way has not reached yet.
    pub pending: Set<u32>,
    /// Whether the layers of the set that holds them agree.
    pub pending_layered: bool,
    /// The pixels handed out for sampling and not yet reported.
    pub batch: Seq<u32>,
    /// How many sweeps have been begun.
    pub sweeps: nat,
    /// The sample budget of the frame under way.
    pub budget: nat,
    /// How much of the budget has not been handed out.
    pub remaining: nat,
    /// The image as shown: red, green, blue and alpha of each pixel, row by
    /// row.
    pub buffer: Seq<u8>,
}

/// One if the condition holds, zero if not.
pub open spec fn one_if(b: bool) -> int {
    if b {
        1
    } else {
        0
    }
}

/// The number of the place at a position, the places counted row by row.
pub open spec fn cell_of(width: nat, position: Vec2u) -> int {
    position.y * width + position.x
}

/// The index in the image of the first byte of the pixel at a position.
pub open spec fn offset_of(width: nat, position: Vec2u) -> int {
    (position.y * width + position.x) * 4
}

/// No two pixels lie at the same place.
pub open spec fn places_distinct(pixels: Seq<PixelWorkItem>) -> bool {
    forall|i: int, j: int|
        0 <= i < j < pixels.len() ==> (#[trigger] pixels[i]).position != (
        #[trigger] pixels[j]).position
}

/// Among the first `upto` positions one has the place with the number `c`.
pub open spec fn place_taken(positions: Seq<Vec2u>, width: nat, upto: int, c: int) -> bool {
    exists|k: int| 0 <= k < upto && k < positions.len() && #[trigger] cell_of(width, positions[k]) == c
}

/// Places in an image have different numbers, and the numbers are below the
/// number of places.
pub proof fn lemma_cells_differ(width: nat, height: nat, p: Vec2u, q: Vec2u)
    requires
        p.x < width,
        p.y < height,
        q.x < width,
        q.y < height,
    ensures
        0 <= cell_of(width, p) < width * height,
        cell_of(width, p) == cell_of(width, q) ==> p == q,
        p != q ==> offset_of(width, p) + 4 <= offset_of(width, q) || offset_of(width, q) + 4
            <= offset_of(width, p),
        offset_of(width, p) == 4 * cell_of(width, p),
        0 <= offset_of(width, p),
        offset_of(width, p) + 4 <= 4 * width * height,
{
    let w = width as int;
    lemma_fundamental_div_mod_converse(cell_of(width, p), w, p.y as int, p.x as int);
    lemma_fundamental_div_mod_converse(cell_of(width, q), w, q.y as int, q.x as int);
    assert(p.y * width + p.x < width * height) by (nonlinear_arith)
        requires
            0 <= p.x < width,
            0 <= p.y < height,
    ;
    assert(0 <= p.y * width) by (nonlinear_arith)
        requires
            0 <= p.y,
            0 <= width,
    ;
    assert(4 * (width * height) == 4 * width * height) by (nonlinear_arith);
}

impl PathTraceView {
    /// The indices in a batch ascend, and each names a pixel.
    pub open spec fn batch_ordered(self) -> bool {
        &&& forall|j: int, k: int|
            0 <= j < k < self.batch.len() ==> self.batch[j] < self.batch[k]
        &&& forall|k: int| 0 <= k < self.batch.len() ==> self.batch[k] < self.pixels.len()
    }

    /// What holds of a scheduler at all times.
    ///
    /// The layers of the set of waiting pixels agree, so that the set hands
    /// out every pixel that it holds. The image has room for four bytes per
    /// place, every pixel lies in it, and no two pixels lie at the same
    /// place. Pixels that wait for the sweep, and pixels that are out in a
    /// batch, are pixels, and none is both. A pixel has one sample per sweep
    /// begun, less one while it waits for the sweep under way or is out in a
    /// batch.
    pub open spec fn wf(self) -> bool {
        &&& self.pending_layered
        &&& self.pixels.len() <= index_limit()
        &&& self.buffer.len() == 4 * self.width * self.height
        &&& self.buffer.len() <= usize::MAX
        &&& self.sweeps <= u64::MAX
        &&& self.remaining <= self.budget <= u64::MAX
        &&& forall|i: int|
            0 <= i < self.pixels.len() ==> (#[trigger] self.pixels[i]).position.x < self.width
                && self.pixels[i].position.y < self.height
        &&& places_distinct(self.pixels)
        &&& forall|id: u32| #[trigger] self.pending.contains(id) ==> id < self.pixels.len()
        &&& self.batch_ordered()
        &&& forall|k: int|
            0 <= k < self.batch.len() ==> !self.pending.contains(#[trigger] self.batch[k])
        &&& forall|i: int|
            0 <= i < self.pixels.len() ==> (#[trigger] self.pixels[i]).samples + one_if(
                self.pending.contains(i as u32),
            ) + one_if(self.batch.contains(i as u32)) == self.sweeps
    }

    /// No batch is out.
    pub open spec fn idle(self) -> bool {
        self.batch.len() == 0
    }
}

/// A pixel at its start: nothing gathered.
pub open spec fn fresh_pixel(position: Vec2u) -> PixelWorkItem {
    PixelWorkItem {
        position,
        color: Colorf32 {
            r: crate::scalar::Scalar { bits: 0 },
            g: crate::scalar::Scalar { bits: 0 },
            b: crate::scalar::Scalar { bits: 0 },
            a: crate::scalar::Scalar { bits: 0 },
        },
        samples: 0,
    }
}

/// Whether a scheduler can be set up for an image of this size with pixels at
/// these positions: four bytes per place must fit the machine, the pixels
/// must not be more than a set of indices takes, each must lie in the image,
/// and no two at the same place.
pub open spec fn can_schedule(width: nat, height: nat, positions: Seq<Vec2u>) -> bool {
    &&& 4 * width * height <= usize::MAX
    &&& positions.len() <= index_limit()
    &&& forall|i: int|
        0 <= i < positions.len() ==> (#[trigger] positions[i]).x < width && positions[i].y
            < height
    &&& forall|i: int, j: int|
        0 <= i < j < positions.len() ==> #[trigger] positions[i] != #[trigger] positions[j]
}

impl View for PathTrace {
    type V = PathTraceView;

    closed spec fn view(&self) -> PathTraceView {
        PathTraceView {
            width: self.width as nat,
            height: self.height as nat,
            pixels: self.pixels@,
            pending: members(self.pixels_to_process.0),
            pending_layered: layered(self.pixels_to_process.0),
            batch: self.batch@,
            sweeps: self.sweeps as nat,
            budget: self.samples_to_process as nat,
            remaining: self.remaining as nat,
            buffer: self.buffer@,
        }
    }
}

impl PathTrace {
    /// A scheduler for an image of the given size, with one pixel per
    /// position, in the order given, and a first budget; `None` where
    /// `can_schedule` does not hold, as where two positions are the same. Nothing has been sampled, no sweep has
    /// begun, and the image is black and transparent.
    pub fn new(width: usize, height: usize, positions: &Vec<Vec2u>, samples_to_process: u64) -> (made:
        Option<PathTrace>)
        ensures
            made is Some <==> can_schedule(width as nat, height as nat, positions@),
            made matches Some(s) ==> {
                &&& s@.wf()
                &&& s@.width == width
                &&& s@.height == height
                &&& s@.pixels == positions@.map_values(|p: Vec2u| fresh_pixel(p))
                &&& holds_nothing(s@.pending)
                &&& s@.batch == Seq::<u32>::empty()
                &&& s@.sweeps == 0
                &&& s@.budget == samples_to_process
                &&& s@.remaining == 0
                &&& s@.buffer == Seq::new(4 * width as nat * height as nat, |i: int| 0u8)
            },
    {
        let places = match width.checked_mul(height) {
            Some(p) => p,
            None => {
                assert(4 * width as nat * height as nat > usize::MAX) by (nonlinear_arith)
                    requires
                        width * height > usize::MAX,
                ;
                return None;
            },
        };
        let bytes = match places.checked_mul(4) {
            Some(b) => b,
            None => {
                assert(4 * width as nat * height as nat == 4 * (width * height)) by (nonlinear_arith);
                return None;
            },
        };
        assert(4 * width as nat * height as nat == bytes) by (nonlinear_arith)
            requires
                bytes == (width * height) * 4,
        ;
        if positions.len() > max_index() as usize {
            return None;
        }
        let mut pixels: Vec<PixelWorkItem> = Vec::new();
        let mut seen: Vec<bool> = vec![false; places];
        let mut i: usize = 0;
        while i < positions.len()
            invariant
                i <= positions.len(),
                places == width * height,
                pixels@.len() == i,
                seen@.len() == places,
                forall|k: int|
                    0 <= k < i ==> (#[trigger] positions@[k]).x < width && positions@[k].y < height,
                forall|j: int, k: int|
                    0 <= j < k < i ==> #[trigger] positions@[j] != #[trigger] positions@[k],
                forall|c: int|
                    0 <= c < places ==> (#[trigger] seen@[c] <==> place_taken(
                        positions@,
                        width as nat,
                        i as int,
                        c,
                    )),
                forall|k: int| 0 <= k < i ==> #[trigger] pixels@[k] == fresh_pixel(positions@[k]),
            decreases positions.len() - i,
        {
            let p = positions[i];
            if p.x >= width || p.y >= height {
                return None;
            }
            proof {
                lemma_cells_differ(width as nat, height as nat, p, p);
            }
            let cell = p.y * width + p.x;
            if seen[cell] {
                proof {
                    let k = choose|k: int|
                        0 <= k < i && k < positions@.len() && #[trigger] cell_of(
                            width as nat,
                            positions@[k],
                        ) == cell;
                    lemma_cells_differ(width as nat, height as nat, positions@[k], p);
                    assert(positions@[k] == positions@[i as int]);
                }
                return None;
            }
            let ghost before = seen@;
            seen.set(cell, true);
            pixels.push(PixelWorkItem { position: p, color: Colorf32::default(), samples: 0 });
            proof {
                assert forall|j: int, k: int| 0 <= j < k < i + 1 implies #[trigger] positions@[j]
                    != #[trigger] positions@[k] by {
                    if k == i && positions@[j] == p {
                        assert(cell_of(width as nat, positions@[j]) == cell);
                        assert(place_taken(positions@, width as nat, i as int, cell as int));
                    }
                }
                assert forall|c: int| 0 <= c < places implies (#[trigger] seen@[c] <==> place_taken(
                    positions@,
                    width as nat,
                    i + 1,
                    c,
                )) by {
                    if c == cell {
                        assert(cell_of(width as nat, positions@[i as int]) == c);
                    } else {
                        if place_taken(positions@, width as nat, i + 1, c) {
                            let k = choose|k: int|
                                0 <= k < i + 1 && k < positions@.len() && #[trigger] cell_of(
                                    width as nat,
                                    positions@[k],
                                ) == c;
                            assert(k < i);
                            assert(place_taken(positions@, width as nat, i as int, c));
                        }
                        if place_taken(positions@, width as nat, i as int, c) {
                            let k = choose|k: int|
                                0 <= k < i && k < positions@.len() && #[trigger] cell_of(
                                    width as nat,
                                    positions@[k],
                                ) == c;
                            assert(k < i + 1);
                        }
                        assert(before[c] == seen@[c]);
                    }
                }
            }
            i = i + 1;
        }
        let buffer: Vec<u8> = vec![0u8; bytes];
        let made = PathTrace {
            width,
            height,
            pixels,
            pixels_to_process: PixelsToProcess::new(),
            batch: Vec::new(),
            sweeps: 0,
            samples_to_process,
            remaining: 0,
            buffer,
        };
        proof {
            assert(made@.pixels =~= positions@.map_values(|p: Vec2u| fresh_pixel(p)));
            assert(made@.buffer =~= Seq::new(4 * width as nat * height as nat, |i: int| 0u8));
            assert(made@.batch =~= Seq::<u32>::empty());
            assert(places_distinct(made@.pixels));
            assert forall|i: int| 0 <= i < made@.pixels.len() implies (#[trigger] made@.pixels[i]).samples
                + one_if(made@.pending.contains(i as u32)) + one_if(
                made@.batch.contains(i as u32),
            ) == made@.sweeps by {
                assert(!made@.batch.contains(i as u32));
            }
        }
        Some(made)
    }

    /// The width of the image.
    pub fn width(&self) -> (w: usize)
        ensures
            w == self@.width,
    {
        self.width
    }

    /// The height of the image.
    pub fn height(&self) -> (h: usize)
        ensures
            h == self@.height,
    {
        self.height
    }

    /// How many pixels there are.
    pub fn pixel_count(&self) -> (n: usize)
        ensures
            n == self@.pixels.len(),
    {
        self.pixels.len()
    }

    /// The pixel with the given index, if there is one.
    pub fn pixel(&self, id: u32) -> (item: Option<PixelWorkItem>)
        ensures
            item == if id < self@.pixels.len() {
                Some(self@.pixels[id as int])
            } else {
                None
            },
    {
        if (id as usize) < self.pixels.len() {
            Some(self.pixels[id as usize])
        } else {
            None
        }
    }

    /// Where the pixel with the given index lies when rows are counted from
    /// the bottom of the image, as the camera counts them; `None` where
    /// there is no such pixel.
    pub fn plane_position(&self, id: u32) -> (place: Option<Vec2u>)
        requires
            self@.wf(),
        ensures
            place == if id < self@.pixels.len() {
                Some(
                    Vec2u {
                        x: self@.pixels[id as int].position.x,
                        y: (self@.height - 1 - self@.pixels[id as int].position.y) as usize,
                    },
                )
            } else {
                None
            },
    {
        if (id as usize) < self.pixels.len() {
            let at = self.pixels[id as usize].position;
            Some(Vec2u { x: at.x, y: self.height - 1 - at.y })
        } else {
            None
        }
    }

    /// Whether the pixel with the given index waits for the sweep under way.
    pub fn is_pending(&self, id: u32) -> (waits: bool)
        ensures
            waits == self@.pending.contains(id),
    {
        self.pixels_to_process.contains(id)
    }

    /// How many sweeps have been begun.
    pub fn sweeps(&self) -> (n: u64)
        ensures
            n == self@.sweeps,
    {
        self.sweeps
    }

    /// The sample budget of the frame under way.
    pub fn samples_to_process(&self) -> (n: u64)
        ensures
            n == self@.budget,
    {
        self.samples_to_process
    }

    /// How much of the budget has not been handed out.
    pub fn remaining(&self) -> (n: u64)
        ensures
            n == self@.remaining,
    {
        self.remaining
    }

    /// The image as shown.
    pub fn buffer(&self) -> (bytes: &Vec<u8>)
        ensures
            bytes@ == self@.buffer,
    {
        &self.buffer
    }

    /// Begins a frame: sets its budget from the budget of the frame before,
    /// the time that a frame should take and the time that the last frame
    /// took, and returns it. Without a last frame the frame is taken to have
    /// lasted as long as it should. Nothing else changes.
    pub fn begin_frame(&mut self, target: u64, measured: Option<u64>) -> (budget: u64)
        requires
            old(self)@.wf(),
        ensures
            final(self)@.wf(),
            budget == next_budget(
                old(self)@.budget as int,
                target as int,
                match measured {
                    Some(m) => m as int,
                    None => target as int,
                },
            ),
            final(self)@ == (PathTraceView {
                budget: budget as nat,
                remaining: budget as nat,
                ..old(self)@
            }),
    {
        let actual = match measured {
            Some(m) => m,
            None => target,
        };
        let budget = sample_budget(self.samples_to_process, target, actual);
        self.samples_to_process = budget;
        self.remaining = budget;
        budget
    }
}

/// The pixels after the first `upto` results of a batch have been recorded:
/// each pixel of the batch has the sum that its result gives, and one sample
/// more.
pub open spec fn recorded(
    pixels: Seq<PixelWorkItem>,
    batch: Seq<u32>,
    results: Seq<PixelSample>,
    upto: int,
) -> Seq<PixelWorkItem>
    decreases upto,
{
    if upto <= 0 {
        pixels
    } else {
        let earlier = recorded(pixels, batch, results, upto - 1);
        let id = batch[upto - 1] as int;
        earlier.update(
            id,
            PixelWorkItem {
                position: earlier[id].position,
                color: results[upto - 1].color,
                samples: (earlier[id].samples + 1) as u64,
            },
        )
    }
}

/// The image with one pixel shown: red, green, blue and alpha in the four
/// bytes from `at` on.
pub open spec fn shown_at(buffer: Seq<u8>, at: int, shown: Coloru8) -> Seq<u8> {
    buffer.update(at, shown.r).update(at + 1, shown.g).update(at + 2, shown.b).update(
        at + 3,
        shown.a,
    )
}

/// The image after the first `upto` results of a batch have been shown, each
/// at the place of its pixel.
pub open spec fn painted(
    buffer: Seq<u8>,
    width: nat,
    pixels: Seq<PixelWorkItem>,
    batch: Seq<u32>,
    results: Seq<PixelSample>,
    upto: int,
) -> Seq<u8>
    decreases upto,
{
    if upto <= 0 {
        buffer
    } else {
        shown_at(
            painted(buffer, width, pixels, batch, results, upto - 1),
            offset_of(width, pixels[batch[upto - 1] as int].position),
            results[upto - 1].shown,
        )
    }
}

impl PathTraceView {
    /// No batch can be handed out: one is out already, the budget is used
    /// up, there are no pixels, or the sweeps can be counted no further.
    pub open spec fn stalled(self) -> bool {
        ||| !self.idle()
        ||| self.remaining == 0
        ||| self.pixels.len() == 0
        ||| (holds_nothing(self.pending) && self.sweeps == u64::MAX)
    }

    /// The pixels from which the next batch is taken: those that wait for the
    /// sweep under way, or all of them where none waits, which begins a
    /// sweep.
    pub open spec fn source(self) -> Set<u32> {
        if holds_nothing(self.pending) {
            all_below(self.pixels.len())
        } else {
            self.pending
        }
    }

    /// `after` is the scheduler when the next batch has been handed out.
    ///
    /// A stalled scheduler stays as it is. Else the batch holds the least
    /// pixels of the source, as many as the rest of the budget allows, which
    /// is at least one; where budget is left over, the sweep is through.
    pub open spec fn hands_out(self, after: PathTraceView) -> bool {
        if self.stalled() {
            after == self
        } else {
            &&& after.width == self.width
            &&& after.height == self.height
            &&& after.pixels == self.pixels
            &&& after.buffer == self.buffer
            &&& after.budget == self.budget
            &&& after.pending_layered == self.pending_layered
            &&& after.sweeps == self.sweeps + one_if(holds_nothing(self.pending))
            &&& handed_out(self.source(), after.batch, after.pending)
            &&& after.batch.len() >= 1
            &&& after.batch.len() + after.remaining == self.remaining
            &&& after.remaining > 0 ==> holds_nothing(after.pending)
        }
    }

    /// `after` is the scheduler when the results of the batch that is out
    /// have been recorded and shown.
    pub open spec fn records(self, results: Seq<PixelSample>, after: PathTraceView) -> bool {
        after == (PathTraceView {
            pixels: recorded(self.pixels, self.batch, results, self.batch.len() as int),
            buffer: painted(
                self.buffer,
                self.width,
                self.pixels,
                self.batch,
                results,
                self.batch.len() as int,
            ),
            batch: Seq::empty(),
            ..self
        })
    }
}

/// A copy of a list of indices.
fn copy_ids(ids: &Vec<u32>) -> (copy: Vec<u32>)
    ensures
        copy@ == ids@,
{
    let mut copy: Vec<u32> = Vec::new();
    let mut i: usize = 0;
    while i < ids.len()
        invariant
            i <= ids.len(),
            copy@ == ids@.take(i as int),
        decreases ids.len() - i,
    {
        copy.push(ids[i]);
        assert(ids@.take(i + 1) =~= ids@.take(i as int).push(ids@[i as int]));
        i = i + 1;
    }
    assert(ids@.take(ids.len() as int) =~= ids@);
    copy
}

/// The pixel `id` is among the first `upto` of the batch.
pub open spec fn among_first(batch: Seq<u32>, upto: int, id: int) -> bool {
    exists|k: int| 0 <= k < upto && k < batch.len() && #[trigger] batch[k] == id
}

impl PathTrace {
    /// Hands out the next batch of pixels to sample: see `hands_out`. The
    /// batch is out until its results are handed to `finish_batch`; asked
    /// again before that, the scheduler names the same batch. An empty batch
    /// says that the frame is over.
    pub fn next_batch(&mut self) -> (out: Vec<u32>)
        requires
            old(self)@.wf(),
        ensures
            final(self)@.wf(),
            out@ == final(self)@.batch,
            old(self)@.hands_out(final(self)@),
    {
        if self.batch.len() > 0 || self.remaining == 0 || self.pixels.len() == 0 {
            return copy_ids(&self.batch);
        }
        let ghost before = self@;
        let waiting = self.pixels_to_process.is_empty();
        if waiting {
            if self.sweeps == u64::MAX {
                return copy_ids(&self.batch);
            }
            self.pixels_to_process.refill(self.pixels.len() as u32);
            self.sweeps = self.sweeps + 1;
        }
        let ghost from = members(self.pixels_to_process.0);
        let out = self.pixels_to_process.drain(self.remaining);
        let ghost left = members(self.pixels_to_process.0);
        proof {
            assert forall|id: u32| from.contains(id) <==> before.source().contains(id) by {}
            assert(out@.len() >= 1) by {
                if out@.len() == 0 {
                    if waiting {
                        assert(from.contains(0u32));
                        assert(left.contains(0u32));
                    } else {
                        let id = choose|id: u32| before.pending.contains(id);
                        assert(left.contains(id));
                    }
                }
            }
            assert forall|k: int| 0 <= k < out@.len() implies #[trigger] out@[k]
                < self.pixels@.len() by {
                assert(from.contains(out@[k]));
            }
        }
        self.remaining = self.remaining - out.len() as u64;
        self.batch = copy_ids(&out);
        proof {
            let after = self@;
            assert forall|i: int| 0 <= i < after.pixels.len() implies (#[trigger] after.pixels[i]).samples
                + one_if(after.pending.contains(i as u32)) + one_if(
                after.batch.contains(i as u32),
            ) == after.sweeps by {
                let id = i as u32;
                assert(before.pixels[i].samples + one_if(before.pending.contains(id)) + one_if(
                    before.batch.contains(id),
                ) == before.sweeps);
                assert(!before.batch.contains(id));
                assert(from.contains(id) <==> (waiting || before.pending.contains(id)));
                if after.batch.contains(id) {
                    let k = choose|k: int| 0 <= k < out@.len() && out@[k] == id;
                    assert(from.contains(out@[k]));
                }
                assert(left.contains(id) <==> from.contains(id) && !out@.contains(id));
            }
            assert forall|k: int| 0 <= k < after.batch.len() implies !after.pending.contains(
                #[trigger] after.batch[k],
            ) by {
                assert(out@.contains(out@[k]));
            }
            assert(handed_out(before.source(), after.batch, after.pending));
        }
        out
    }

    /// Records the results of the batch that is out, one result per pixel in
    /// the order of the batch: each pixel gets the sum that its result gives
    /// and one sample more, and its colour is written into the image, red,
    /// green, blue and alpha. After that no batch is out.
    ///
    /// Results that are not as many as the batch are refused: the answer is
    /// `false` and nothing changes.
    pub fn finish_batch(&mut self, results: &Vec<PixelSample>) -> (done: bool)
        requires
            old(self)@.wf(),
        ensures
            final(self)@.wf(),
            done == (results@.len() == old(self)@.batch.len()),
            !done ==> final(self)@ == old(self)@,
            done ==> old(self)@.records(results@, final(self)@),
            forall|i: int|
                0 <= i < old(self)@.pixels.len() ==> (#[trigger] final(self)@.pixels[i]).samples
                    >= old(self)@.pixels[i].samples,
    {
        if results.len() != self.batch.len() {
            return false;
        }
        let ghost before = self@;
        let n = self.batch.len();
        let mut i: usize = 0;
        while i < n
            invariant
                i <= n,
                n == self.batch@.len(),
                n == results@.len(),
                before.wf(),
                self@.width == before.width,
                self@.height == before.height,
                self@.pending == before.pending,
                self@.pending_layered == before.pending_layered,
                self@.batch == before.batch,
                self@.sweeps == before.sweeps,
                self@.budget == before.budget,
                self@.remaining == before.remaining,
                self@.pixels.len() == before.pixels.len(),
                self@.buffer.len() == before.buffer.len(),
                self@.pixels == recorded(before.pixels, before.batch, results@, i as int),
                self@.buffer == painted(
                    before.buffer,
                    before.width,
                    before.pixels,
                    before.batch,
                    results@,
                    i as int,
                ),
                forall|id: int|
                    0 <= id < before.pixels.len() ==> (#[trigger] self@.pixels[id]).position
                        == before.pixels[id].position && self@.pixels[id].samples
                        == before.pixels[id].samples + one_if(among_first(before.batch, i as int, id)),
            decreases n - i,
        {
            let id = self.batch[i] as usize;
            let item = self.pixels[id];
            proof {
                assert(!among_first(before.batch, i as int, id as int)) by {
                    if among_first(before.batch, i as int, id as int) {
                        let k = choose|k: int|
                            0 <= k < i && k < before.batch.len() && #[trigger] before.batch[k]
                                == id as int;
                        assert(before.batch[k] < before.batch[i as int]);
                    }
                }
                assert(before.batch.contains(id as u32)) by {
                    assert(before.batch[i as int] == id as u32);
                }
                assert(before.pixels[id as int].samples + one_if(
                    before.pending.contains(id as u32),
                ) + one_if(before.batch.contains(id as u32)) == before.sweeps);
            }
            let result = results[i];
            self.pixels.set(
                id,
                PixelWorkItem { position: item.position, color: result.color, samples: item.samples + 1 },
            );
            let x = item.position.x;
            let y = item.position.y;
            assert((y * self.width + x) * 4 + 3 < self.buffer@.len()) by (nonlinear_arith)
                requires
                    0 <= x < self.width,
                    0 <= y < self.height,
                    self.buffer@.len() == 4 * self.width as nat * self.height as nat,
            ;
            let at = (y * self.width + x) * 4;
            self.buffer.set(at, result.shown.r);
            self.buffer.set(at + 1, result.shown.g);
            self.buffer.set(at + 2, result.shown.b);
            self.buffer.set(at + 3, result.shown.a);
            proof {
                assert forall|other: int| 0 <= other < before.pixels.len() implies (
                #[trigger] self@.pixels[other]).position == before.pixels[other].position
                    && self@.pixels[other].samples == before.pixels[other].samples + one_if(
                    among_first(before.batch, i + 1, other),
                ) by {
                    if other == id {
                        assert(before.batch[i as int] == other);
                    } else {
                        if among_first(before.batch, i + 1, other) {
                            let k = choose|k: int|
                                0 <= k < i + 1 && k < before.batch.len()
                                    && #[trigger] before.batch[k] == other;
                            assert(k < i);
                        }
                        if among_first(before.batch, i as int, other) {
                            let k = choose|k: int|
                                0 <= k < i && k < before.batch.len() && #[trigger] before.batch[k]
                                    == other;
                            assert(k < i + 1);
                        }
                    }
                }
            }
            i = i + 1;
        }
        self.batch = Vec::new();
        proof {
            let after = self@;
            assert(after.batch =~= Seq::<u32>::empty());
            assert forall|id: int| 0 <= id < after.pixels.len() implies (#[trigger] after.pixels[id]).samples
                + one_if(after.pending.contains(id as u32)) + one_if(
                after.batch.contains(id as u32),
            ) == after.sweeps by {
                assert(before.pixels[id].samples + one_if(before.pending.contains(id as u32))
                    + one_if(before.batch.contains(id as u32)) == before.sweeps);
                assert(!after.batch.contains(id as u32));
                if before.batch.contains(id as u32) {
                    let k = choose|k: int| 0 <= k < before.batch.len() && before.batch[k] == id as u32;
                    assert(before.batch[k] == id);
                    assert(among_first(before.batch, n as int, id));
                    assert(!before.pending.contains(before.batch[k]));
                } else {
                    if among_first(before.batch, n as int, id) {
                        let k = choose|k: int|
                            0 <= k < n && k < before.batch.len() && #[trigger] before.batch[k] == id;
                        assert(before.batch[k] == id as u32);
                    }
                }
            }
        }
        true
    }
}

/// The samples of all pixels together.
pub open spec fn total_samples(pixels: Seq<PixelWorkItem>) -> int
    decreases pixels.len(),
{
    if pixels.len() == 0 {
        0
    } else {
        total_samples(pixels.drop_last()) + pixels.last().samples
    }
}

/// Pixels that have at least `k` samples each have at least `k` times their
/// number together, and exactly that if each has exactly `k`.
pub proof fn lemma_total_samples(pixels: Seq<PixelWorkItem>, k: int)
    ensures
        (forall|i: int| 0 <= i < pixels.len() ==> (#[trigger] pixels[i]).samples >= k)
            ==> total_samples(pixels) >= k * pixels.len(),
        (forall|i: int| 0 <= i < pixels.len() ==> (#[trigger] pixels[i]).samples == k)
            ==> total_samples(pixels) == k * pixels.len(),
    decreases pixels.len(),
{
    if pixels.len() > 0 {
        let rest = pixels.drop_last();
        lemma_total_samples(rest, k);
        assert(forall|i: int| 0 <= i < rest.len() ==> rest[i] == pixels[i]);
        assert(k * pixels.len() == k * rest.len() + k) by (nonlinear_arith)
            requires
                pixels.len() == rest.len() + 1,
        ;
        if forall|i: int| 0 <= i < pixels.len() ==> (#[trigger] pixels[i]).samples >= k {
            assert(pixels.last().samples >= k);
            assert(forall|i: int| 0 <= i < rest.len() ==> (#[trigger] rest[i]).samples >= k);
        }
        if forall|i: int| 0 <= i < pixels.len() ==> (#[trigger] pixels[i]).samples == k {
            assert(pixels.last().samples == k);
            assert(forall|i: int| 0 <= i < rest.len() ==> (#[trigger] rest[i]).samples == k);
        }
    } else {
        assert(k * 0 == 0) by (nonlinear_arith);
    }
}

/// Sampling is even, and sweeps are conserved.
///
/// While no batch is out, a pixel has as many samples as sweeps have been
/// begun, less one if it still waits for the sweep under way. So no pixel is
/// ever more than one sample behind another; after `k` sweeps that are through
/// every pixel has at least `k` samples, and all together have at least `k`
/// times the number of pixels; and when the sweep under way is through, they
/// have exactly the number of sweeps times the number of pixels.
pub proof fn lemma_sweeps_conserved(s: PathTraceView)
    requires
        s.wf(),
        s.idle(),
    ensures
        forall|i: int|
            0 <= i < s.pixels.len() ==> (#[trigger] s.pixels[i]).samples == s.sweeps - one_if(
                s.pending.contains(i as u32),
            ),
        total_samples(s.pixels) >= (s.sweeps - 1) * s.pixels.len(),
        holds_nothing(s.pending) ==> total_samples(s.pixels) == s.sweeps * s.pixels.len(),
{
    assert forall|i: int| 0 <= i < s.pixels.len() implies (#[trigger] s.pixels[i]).samples
        == s.sweeps - one_if(s.pending.contains(i as u32)) by {
        assert(!s.batch.contains(i as u32));
    }
    lemma_total_samples(s.pixels, s.sweeps - 1);
    lemma_total_samples(s.pixels, s.sweeps as int);
}

/// A batch that is out holds every pixel at most once, so that the pixels of
/// a batch can be sampled side by side; and a pixel that is out does not wait
/// for the sweep at the same time.
pub proof fn lemma_batch_distinct(s: PathTraceView, j: int, k: int)
    requires
        s.wf(),
        0 <= j < s.batch.len(),
        0 <= k < s.batch.len(),
        j != k,
    ensures
        s.batch[j] != s.batch[k],
        !s.pending.contains(s.batch[j]),
        s.batch[j] < s.pixels.len(),
{
    if j < k {
        assert(s.batch[j] < s.batch[k]);
    } else {
        assert(s.batch[k] < s.batch[j]);
    }
}

/// The pixels and the batch of a scheduler that is in order, as far as
/// recording and showing go: the image has four bytes per place, every pixel
/// lies in it, no two at one place, and the batch names pixels in ascending
/// order.
pub open spec fn batch_fits(
    buffer: Seq<u8>,
    width: nat,
    height: nat,
    pixels: Seq<PixelWorkItem>,
    batch: Seq<u32>,
) -> bool {
    &&& buffer.len() == 4 * width * height
    &&& forall|i: int|
        0 <= i < pixels.len() ==> (#[trigger] pixels[i]).position.x < width && pixels[i].position.y
            < height
    &&& places_distinct(pixels)
    &&& forall|j: int, k: int| 0 <= j < k < batch.len() ==> batch[j] < batch[k]
    &&& forall|k: int| 0 <= k < batch.len() ==> batch[k] < pixels.len()
}

/// Recording assigns no pixel another place, and adds or takes away no
/// pixel; showing does not change the size of the image.
proof fn lemma_recording_keeps_shape(
    buffer: Seq<u8>,
    width: nat,
    height: nat,
    pixels: Seq<PixelWorkItem>,
    batch: Seq<u32>,
    results: Seq<PixelSample>,
    upto: int,
)
    requires
        batch_fits(buffer, width, height, pixels, batch),
        0 <= upto <= batch.len(),
    ensures
        recorded(pixels, batch, results, upto).len() == pixels.len(),
        forall|i: int|
            0 <= i < pixels.len() ==> (#[trigger] recorded(pixels, batch, results, upto)[i]).position
                == pixels[i].position,
        painted(buffer, width, pixels, batch, results, upto).len() == buffer.len(),
    decreases upto,
{
    if upto > 0 {
        lemma_recording_keeps_shape(buffer, width, height, pixels, batch, results, upto - 1);
        let last = batch[upto - 1] as int;
        let place = pixels[last].position;
        lemma_cells_differ(width, height, place, place);
        let earlier = painted(buffer, width, pixels, batch, results, upto - 1);
        let at = offset_of(width, place);
        let shown = results[upto - 1].shown;
        assert(earlier.update(at, shown.r).len() == buffer.len());
        assert(earlier.update(at, shown.r).update(at + 1, shown.g).len() == buffer.len());
        assert(earlier.update(at, shown.r).update(at + 1, shown.g).update(at + 2, shown.b).len()
            == buffer.len());
    }
}

/// What recording and showing the first `upto` results of a batch does to
/// the pixel `id` and to the four bytes at its place: if the pixel is the
/// `k`-th of the batch, for a `k` below `upto`, it has the sum that the
/// `k`-th result gives and one sample more, and its bytes are the colour that
/// the result shows; if it is not among them, it and its bytes are as they
/// were.
proof fn lemma_recording_pointwise(
    buffer: Seq<u8>,
    width: nat,
    height: nat,
    pixels: Seq<PixelWorkItem>,
    batch: Seq<u32>,
    results: Seq<PixelSample>,
    upto: int,
    id: int,
)
    requires
        batch_fits(buffer, width, height, pixels, batch),
        0 <= upto <= batch.len(),
        0 <= id < pixels.len(),
    ensures
        forall|k: int|
            0 <= k < upto && #[trigger] batch[k] == id ==> {
                let at = offset_of(width, pixels[id].position);
                let shown = results[k].shown;
                let image = painted(buffer, width, pixels, batch, results, upto);
                &&& recorded(pixels, batch, results, upto)[id] == (PixelWorkItem {
                    position: pixels[id].position,
                    color: results[k].color,
                    samples: (pixels[id].samples + 1) as u64,
                })
                &&& image[at] == shown.r
                &&& image[at + 1] == shown.g
                &&& image[at + 2] == shown.b
                &&& image[at + 3] == shown.a
            },
        !among_first(batch, upto, id) ==> {
            let at = offset_of(width, pixels[id].position);
            let image = painted(buffer, width, pixels, batch, results, upto);
            &&& recorded(pixels, batch, results, upto)[id] == pixels[id]
            &&& image[at] == buffer[at]
            &&& image[at + 1] == buffer[at + 1]
            &&& image[at + 2] == buffer[at + 2]
            &&& image[at + 3] == buffer[at + 3]
        },
    decreases upto,
{
    if upto > 0 {
        let last = batch[upto - 1] as int;
        lemma_recording_pointwise(buffer, width, height, pixels, batch, results, upto - 1, id);
        lemma_recording_pointwise(buffer, width, height, pixels, batch, results, upto - 1, last);
        lemma_recording_keeps_shape(buffer, width, height, pixels, batch, results, upto - 1);
        lemma_cells_differ(width, height, pixels[id].position, pixels[last].position);
        lemma_cells_differ(width, height, pixels[last].position, pixels[id].position);
        assert(!among_first(batch, upto - 1, last)) by {
            if among_first(batch, upto - 1, last) {
                let j = choose|j: int|
                    0 <= j < upto - 1 && j < batch.len() && #[trigger] batch[j] == last;
                assert(batch[j] < batch[upto - 1]);
            }
        }
        if last == id {
            assert forall|k: int| 0 <= k < upto && #[trigger] batch[k] == id implies k == upto
                - 1 by {
                if k < upto - 1 {
                    assert(batch[k] < batch[upto - 1]);
                }
            }
        } else {
            assert(pixels[id].position != pixels[last].position) by {
                if id < last {
                    assert(pixels[id].position != pixels[last].position);
                } else {
                    assert(pixels[last].position != pixels[id].position);
                }
            }
            if !among_first(batch, upto, id) {
                assert(!among_first(batch, upto - 1, id)) by {
                    if among_first(batch, upto - 1, id) {
                        let j = choose|j: int|
                            0 <= j < upto - 1 && j < batch.len() && #[trigger] batch[j] == id;
                        assert(0 <= j < upto && j < batch.len() && batch[j] == id);
                    }
                }
            }
            assert forall|k: int| 0 <= k < upto && #[trigger] batch[k] == id implies k < upto
                - 1 by {}
        }
    } else {
        assert(!among_first(batch, 0, id));
    }
}

/// What a finished batch has done, pixel by pixel.
///
/// The `k`-th pixel of the batch has the sum that the `k`-th result gives and
/// one sample more, and the four bytes at its place are red, green, blue and
/// alpha of the colour that the result shows. Since no two pixels lie at one
/// place, no result is written over by another.
pub proof fn lemma_batch_recorded(
    s: PathTraceView,
    results: Seq<PixelSample>,
    after: PathTraceView,
    k: int,
)
    requires
        s.wf(),
        results.len() == s.batch.len(),
        s.records(results, after),
        0 <= k < s.batch.len(),
    ensures
        ({
            let id = s.batch[k] as int;
            let at = offset_of(s.width, s.pixels[id].position);
            &&& 0 <= at
            &&& at + 4 <= after.buffer.len()
            &&& after.pixels[id] == (PixelWorkItem {
                position: s.pixels[id].position,
                color: results[k].color,
                samples: (s.pixels[id].samples + 1) as u64,
            })
            &&& after.buffer[at] == results[k].shown.r
            &&& after.buffer[at + 1] == results[k].shown.g
            &&& after.buffer[at + 2] == results[k].shown.b
            &&& after.buffer[at + 3] == results[k].shown.a
        }),
{
    let id = s.batch[k] as int;
    let n = s.batch.len() as int;
    assert(batch_fits(s.buffer, s.width, s.height, s.pixels, s.batch));
    lemma_recording_pointwise(s.buffer, s.width, s.height, s.pixels, s.batch, results, n, id);
    lemma_recording_keeps_shape(s.buffer, s.width, s.height, s.pixels, s.batch, results, n);
    lemma_cells_differ(s.width, s.height, s.pixels[id].position, s.pixels[id].position);
}

/// What a finished batch has left alone: a pixel that was not in the batch,
/// and the four bytes at its place, are as they were.
pub proof fn lemma_batch_spares(
    s: PathTraceView,
    results: Seq<PixelSample>,
    after: PathTraceView,
    id: int,
)
    requires
        s.wf(),
        results.len() == s.batch.len(),
        s.records(results, after),
        0 <= id < s.pixels.len(),
        !s.batch.contains(id as u32),
    ensures
        ({
            let at = offset_of(s.width, s.pixels[id].position);
            &&& after.pixels[id] == s.pixels[id]
            &&& after.buffer[at] == s.buffer[at]
            &&& after.buffer[at + 1] == s.buffer[at + 1]
            &&& after.buffer[at + 2] == s.buffer[at + 2]
            &&& after.buffer[at + 3] == s.buffer[at + 3]
        }),
{
    let n = s.batch.len() as int;
    assert(batch_fits(s.buffer, s.width, s.height, s.pixels, s.batch));
    assert(!among_first(s.batch, n, id)) by {
        if among_first(s.batch, n, id) {
            let j = choose|j: int| 0 <= j < n && j < s.batch.len() && #[trigger] s.batch[j] == id;
            assert(s.batch[j] == id as u32);
        }
    }
    lemma_recording_pointwise(s.buffer, s.width, s.height, s.pixels, s.batch, results, n, id);
}

} // verus!
