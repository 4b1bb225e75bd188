//! The stateful geometry encoder.
//!
//! A [`GeometryEncoder`] accumulates the packed command/parameter words of
//! one feature's geometry. It remembers the absolute coordinates of the last
//! point it wrote, so that repeated `add_*` calls on one encoder chain their
//! delta encoding across parts, as multi-part geometries require.

use crate::zigzag::spec_zigzag;
use crate::zigzag::zigzag;
use vstd::prelude::*;

verus! {

/// Command id of a move-to.
pub const GEOM_COMMAND_MOVE_TO: u32 = 1;

/// Command id of a line-to.
pub const GEOM_COMMAND_LINE_TO: u32 = 2;

/// Command id of a close-path.
pub const GEOM_COMMAND_CLOSE_PATH: u32 = 7;

/// A move-to command word with a count of one parameter pair:
/// `command_word(GEOM_COMMAND_MOVE_TO, 1)`.
pub const GEOM_COMMAND_MOVE_TO_WITH_COUNT1: u32 = 9;

/// The close-path command word, always written with count one:
/// `command_word(GEOM_COMMAND_CLOSE_PATH, 1)`.
pub const GEOM_COMMAND_CLOSE_PATH_WITH_COUNT1: u32 = 15;

/// The geometry command stream caps a command's parameter-pair count at what
/// fits in the 29 bits of a command word above its 3-bit id, so no single
/// part may bring more points than that.
pub const GEOM_MAX_PART_POINTS: usize = 0x1fff_ffff;

/// A command word packs a parameter-pair count above a 3-bit command id.
pub open spec fn command_word(id: u32, count: int) -> u32 {
    (count * 8 + id) as u32
}

/// The parameter words one subsequent point contributes: its zig-zag-encoded
/// delta pair from the point before it, or nothing when the delta is zero on
/// both axes (exact consecutive duplicates are filtered out).
pub open spec fn step_words(px: i16, py: i16, q: [i16; 2]) -> Seq<u32> {
    if q[0] - px == 0 && q[1] - py == 0 {
        Seq::empty()
    } else {
        seq![spec_zigzag(q[0] - px) as u32, spec_zigzag(q[1] - py) as u32]
    }
}

/// The last absolute point after consuming `pts`, starting from `(px, py)`:
/// the encoder tracks the literal previous input point, whether or not that
/// point was emitted.
pub open spec fn prev_after(px: i16, py: i16, pts: Seq<[i16; 2]>) -> (i16, i16) {
    if pts.len() == 0 {
        (px, py)
    } else {
        (pts.last()[0], pts.last()[1])
    }
}

/// The parameter words of the points that follow a part's first point:
/// each point's delta pair from its literal predecessor, duplicates dropped.
pub open spec fn tail_words(px: i16, py: i16, pts: Seq<[i16; 2]>) -> Seq<u32>
    decreases pts.len(),
{
    if pts.len() == 0 {
        Seq::empty()
    } else {
        let front = pts.drop_last();
        let p = prev_after(px, py, front);
        tail_words(px, py, front) + step_words(p.0, p.1, pts.last())
    }
}

/// How many subsequent points of a part survive duplicate filtering.
pub open spec fn tail_count(px: i16, py: i16, pts: Seq<[i16; 2]>) -> int {
    tail_words(px, py, pts).len() as int / 2
}

/// The words a multipoint part appends: one move-to command word whose count
/// is the number of points that survive duplicate filtering, then all their
/// delta pairs.
pub open spec fn points_words(px: i16, py: i16, pts: Seq<[i16; 2]>) -> Seq<u32> {
    if pts.len() == 0 {
        Seq::empty()
    } else {
        let fx = pts[0][0];
        let fy = pts[0][1];
        let tail = pts.skip(1);
        seq![
            command_word(GEOM_COMMAND_MOVE_TO, 1 + tail_count(fx, fy, tail)),
            spec_zigzag(fx - px) as u32,
            spec_zigzag(fy - py) as u32,
        ] + tail_words(fx, fy, tail)
    }
}

/// The words a path part (line string or ring) appends: a move-to of the
/// first point, a line-to block holding the surviving delta pairs — or one
/// `(0, 0)` pair when filtering leaves none, so that every path keeps at
/// least two vertices on the wire — and, for a ring, one close-path word.
pub open spec fn path_words(px: i16, py: i16, pts: Seq<[i16; 2]>, close: bool) -> Seq<u32> {
    if pts.len() == 0 {
        Seq::empty()
    } else {
        let fx = pts[0][0];
        let fy = pts[0][1];
        let tail = tail_words(fx, fy, pts.skip(1));
        let params = if tail.len() == 0 {
            seq![0u32, 0u32]
        } else {
            tail
        };
        let closing: Seq<u32> = if close {
            seq![GEOM_COMMAND_CLOSE_PATH_WITH_COUNT1]
        } else {
            Seq::empty()
        };
        seq![
            GEOM_COMMAND_MOVE_TO_WITH_COUNT1,
            spec_zigzag(fx - px) as u32,
            spec_zigzag(fy - py) as u32,
            command_word(GEOM_COMMAND_LINE_TO, params.len() as int / 2),
        ] + params + closing
    }
}

/// The tail of a part contributes an even number of words — whole delta
/// pairs — and at most one pair per point.
pub proof fn lemma_tail_words_len(px: i16, py: i16, pts: Seq<[i16; 2]>)
    ensures
        tail_words(px, py, pts).len() % 2 == 0,
        tail_words(px, py, pts).len() <= 2 * pts.len(),
    decreases pts.len(),
{
    if pts.len() > 0 {
        lemma_tail_words_len(px, py, pts.drop_last());
    }
}

/// A self-describing command stream: read start-to-end, every move-to or
/// line-to command word announces at least one parameter pair and is
/// followed by exactly `2 * count` parameter words, and a close-path word by
/// none, with no words left over.
pub open spec fn well_formed_words(ws: Seq<u32>) -> bool
    decreases ws.len(),
{
    if ws.len() == 0 {
        true
    } else {
        let id = ws[0] as int % 8;
        let count = ws[0] as int / 8;
        if id == GEOM_COMMAND_CLOSE_PATH {
            well_formed_words(ws.skip(1))
        } else if (id == GEOM_COMMAND_MOVE_TO || id == GEOM_COMMAND_LINE_TO) && count >= 1 {
            1 + 2 * count <= ws.len() && well_formed_words(ws.skip(1 + 2 * count))
        } else {
            false
        }
    }
}

/// Two self-describing command streams concatenate to one.
pub proof fn lemma_well_formed_concat(a: Seq<u32>, b: Seq<u32>)
    requires
        well_formed_words(a),
        well_formed_words(b),
    ensures
        well_formed_words(a + b),
    decreases a.len(),
{
    if a.len() == 0 {
        assert(a + b =~= b);
    } else {
        let id = a[0] as int % 8;
        let count = a[0] as int / 8;
        if id == GEOM_COMMAND_CLOSE_PATH {
            assert((a + b).skip(1) =~= a.skip(1) + b);
            lemma_well_formed_concat(a.skip(1), b);
        } else {
            assert((a + b).skip(1 + 2 * count) =~= a.skip(1 + 2 * count) + b);
            lemma_well_formed_concat(a.skip(1 + 2 * count), b);
        }
    }
}

/// The words of one multipoint part form a self-describing command stream.
pub proof fn lemma_points_words_well_formed(px: i16, py: i16, pts: Seq<[i16; 2]>)
    requires
        pts.len() <= GEOM_MAX_PART_POINTS,
    ensures
        well_formed_words(points_words(px, py, pts)),
{
    if pts.len() > 0 {
        let fx = pts[0][0];
        let fy = pts[0][1];
        let tail = pts.skip(1);
        let tc = tail_count(fx, fy, tail);
        lemma_tail_words_len(fx, fy, tail);
        let ws = points_words(px, py, pts);
        assert(ws.len() == 3 + 2 * tc);
        assert(ws[0] == command_word(GEOM_COMMAND_MOVE_TO, 1 + tc));
        assert(ws[0] as int % 8 == 1 && ws[0] as int / 8 == 1 + tc);
        assert(ws.skip(1 + 2 * (1 + tc)) =~= Seq::<u32>::empty());
        assert(well_formed_words(Seq::<u32>::empty()));
        assert(well_formed_words(ws));
    }
}

/// The words of one path part form a self-describing command stream.
pub proof fn lemma_path_words_well_formed(px: i16, py: i16, pts: Seq<[i16; 2]>, close: bool)
    requires
        pts.len() <= GEOM_MAX_PART_POINTS,
    ensures
        well_formed_words(path_words(px, py, pts, close)),
{
    if pts.len() > 0 {
        let fx = pts[0][0];
        let fy = pts[0][1];
        let tail = tail_words(fx, fy, pts.skip(1));
        lemma_tail_words_len(fx, fy, pts.skip(1));
        let params: Seq<u32> = if tail.len() == 0 {
            seq![0u32, 0u32]
        } else {
            tail
        };
        let pc = params.len() as int / 2;
        let closing: Seq<u32> = if close {
            seq![GEOM_COMMAND_CLOSE_PATH_WITH_COUNT1]
        } else {
            Seq::empty()
        };
        let ws = path_words(px, py, pts, close);
        // the move-to block: count one, a single parameter pair
        assert(ws[0] as int % 8 == 1 && ws[0] as int / 8 == 1);
        let after_move = ws.skip(3);
        assert(after_move =~= seq![command_word(GEOM_COMMAND_LINE_TO, pc)] + params + closing);
        // the line-to block: pc parameter pairs
        assert(after_move[0] as int % 8 == 2 && after_move[0] as int / 8 == pc && pc >= 1);
        let after_line = after_move.skip(1 + 2 * pc);
        assert(after_line =~= closing);
        assert(well_formed_words(Seq::<u32>::empty()));
        if close {
            // the close-path block: no parameters
            assert(closing[0] as int % 8 == 7);
            assert(closing.skip(1) =~= Seq::<u32>::empty());
        }
        assert(well_formed_words(closing));
        assert(well_formed_words(after_line));
        assert(well_formed_words(after_move));
        assert(well_formed_words(ws));
    }
}

/// Law: a ring is encoded exactly as the same line string followed by one
/// close-path word — the fixed value `command_word(GEOM_COMMAND_CLOSE_PATH, 1)`
/// — however many of its points duplicate filtering removes.
pub proof fn lemma_ring_closes(px: i16, py: i16, pts: Seq<[i16; 2]>)
    ensures
        pts.len() == 0 ==> path_words(px, py, pts, true) == Seq::<u32>::empty(),
        pts.len() > 0 ==> path_words(px, py, pts, true) == path_words(px, py, pts, false).push(
            GEOM_COMMAND_CLOSE_PATH_WITH_COUNT1,
        ),
        pts.len() > 0 ==> path_words(px, py, pts, true).last()
            == GEOM_COMMAND_CLOSE_PATH_WITH_COUNT1,
{
    if pts.len() > 0 {
        assert(path_words(px, py, pts, true) =~= path_words(px, py, pts, false).push(
            GEOM_COMMAND_CLOSE_PATH_WITH_COUNT1,
        ));
    }
}

/// Law: parts chain — after one part is encoded, the encoder's previous
/// point is that part's last input point, and the next part's move-to delta
/// pair is taken from it, not from the origin.
pub proof fn lemma_parts_chain(px: i16, py: i16, pts1: Seq<[i16; 2]>, pts2: Seq<[i16; 2]>, close: bool)
    requires
        pts1.len() > 0,
        pts2.len() > 0,
    ensures
        prev_after(px, py, pts1) == (pts1.last()[0], pts1.last()[1]),
        path_words(pts1.last()[0], pts1.last()[1], pts2, close)[1] == spec_zigzag(
            pts2[0][0] - pts1.last()[0],
        ) as u32,
        path_words(pts1.last()[0], pts1.last()[1], pts2, close)[2] == spec_zigzag(
            pts2[0][1] - pts1.last()[1],
        ) as u32,
        points_words(pts1.last()[0], pts1.last()[1], pts2)[1] == spec_zigzag(
            pts2[0][0] - pts1.last()[0],
        ) as u32,
        points_words(pts1.last()[0], pts1.last()[1], pts2)[2] == spec_zigzag(
            pts2[0][1] - pts1.last()[1],
        ) as u32,
{
}

/// Utility for encoding MVT geometries.
pub struct GeometryEncoder {
    buf: Vec<u32>,
    prev_x: i16,
    prev_y: i16,
}

impl GeometryEncoder {
    /// The command/parameter words written so far.
    pub closed spec fn words(self) -> Seq<u32> {
        self.buf@
    }

    /// The absolute coordinates of the last point written, `(0, 0)` before
    /// any point is.
    pub closed spec fn prev(self) -> (i16, i16) {
        (self.prev_x, self.prev_y)
    }

    /// Returns an encoder with an empty output buffer, whose first move-to
    /// will be a delta from the origin.
    pub fn new() -> (r: GeometryEncoder)
        ensures
            r.words() == Seq::<u32>::empty(),
            r.prev() == (0i16, 0i16),
            well_formed_words(r.words()),
    {
        GeometryEncoder { buf: Vec::new(), prev_x: 0, prev_y: 0 }
    }

    /// Adds points.
    ///
    /// Encodes one MultiPoint/Point part: a single move-to command whose
    /// count is the number of points left after collapsing runs of exact
    /// consecutive duplicates, followed by that many zig-zag-encoded delta
    /// pairs, each taken from the literal previous point. An empty input
    /// writes nothing and leaves the encoder unchanged.
    pub fn add_points(&mut self, points: &[[i16; 2]])
        requires
            points@.len() <= GEOM_MAX_PART_POINTS,
        ensures
            final(self).words() == old(self).words() + points_words(
                old(self).prev().0,
                old(self).prev().1,
                points@,
            ),
            final(self).prev() == prev_after(old(self).prev().0, old(self).prev().1, points@),
            points@.len() == 0 ==> final(self).words() == old(self).words(),
            well_formed_words(old(self).words()) ==> well_formed_words(final(self).words()),
    {
        if points.len() == 0 {
            proof {
                assert(old(self).words() + points_words(
                    old(self).prev().0,
                    old(self).prev().1,
                    points@,
                ) =~= old(self).words());
            }
            return ;
        }
        let first = points[0];
        let dx = first[0] as i32 - self.prev_x as i32;
        let dy = first[1] as i32 - self.prev_y as i32;
        self.prev_x = first[0];
        self.prev_y = first[1];

        // move to; the count is back-patched once it is known
        let moveto_cmd_pos = self.buf.len();
        self.buf.push(GEOM_COMMAND_MOVE_TO_WITH_COUNT1);
        self.buf.push(zigzag(dx));
        self.buf.push(zigzag(dy));

        let mut count: u32 = 1;
        let mut i: usize = 1;
        proof {
            assert(points@.subrange(1, 1) =~= Seq::<[i16; 2]>::empty());
        }
        while i < points.len()
            invariant
                1 <= i <= points@.len(),
                points@.len() <= GEOM_MAX_PART_POINTS,
                moveto_cmd_pos == old(self).words().len(),
                first == points@[0],
                self.prev() == prev_after(first[0], first[1], points@.subrange(1, i as int)),
                self.words() == old(self).words() + seq![
                    GEOM_COMMAND_MOVE_TO_WITH_COUNT1,
                    spec_zigzag(points@[0][0] - old(self).prev().0) as u32,
                    spec_zigzag(points@[0][1] - old(self).prev().1) as u32,
                ] + tail_words(first[0], first[1], points@.subrange(1, i as int)),
                2 * (count - 1) == tail_words(
                    first[0],
                    first[1],
                    points@.subrange(1, i as int),
                ).len(),
                count <= i,
            decreases points@.len() - i,
        {
            let p = points[i];
            let dx = p[0] as i32 - self.prev_x as i32;
            let dy = p[1] as i32 - self.prev_y as i32;
            proof {
                let sub_next = points@.subrange(1, i + 1);
                assert(sub_next.drop_last() =~= points@.subrange(1, i as int));
                assert(sub_next.last() == points@[i as int]);
                lemma_tail_words_len(first[0], first[1], sub_next);
            }
            self.prev_x = p[0];
            self.prev_y = p[1];
            if dx != 0 || dy != 0 {
                self.buf.push(zigzag(dx));
                self.buf.push(zigzag(dy));
                count = count + 1;
            }
            i = i + 1;
        }

        // back-patch the move-to command word with the emitted point count
        let cmd = pack_command(GEOM_COMMAND_MOVE_TO, count);
        self.buf[moveto_cmd_pos] = cmd;
        proof {
            let px = old(self).prev().0;
            let py = old(self).prev().1;
            assert(points@.subrange(1, points@.len() as int) =~= points@.skip(1));
            assert(self.words() =~= old(self).words() + points_words(px, py, points@));
            if well_formed_words(old(self).words()) {
                lemma_points_words_well_formed(px, py, points@);
                lemma_well_formed_concat(old(self).words(), points_words(px, py, points@));
            }
        }
    }

    /// Adds a line string.
    ///
    /// Encodes one LineString part: a move-to of the first point, then one
    /// line-to command holding the zig-zag-encoded delta pair of every
    /// subsequent point that is not an exact duplicate of its predecessor.
    /// When filtering leaves no subsequent point, a single `(0, 0)` pair is
    /// written instead, so the part keeps at least two vertices on the wire.
    /// An empty input writes nothing and leaves the encoder unchanged.
    pub fn add_linestring(&mut self, points: &[[i16; 2]])
        requires
            points@.len() <= GEOM_MAX_PART_POINTS,
        ensures
            final(self).words() == old(self).words() + path_words(
                old(self).prev().0,
                old(self).prev().1,
                points@,
                false,
            ),
            final(self).prev() == prev_after(old(self).prev().0, old(self).prev().1, points@),
            points@.len() == 0 ==> final(self).words() == old(self).words(),
            well_formed_words(old(self).words()) ==> well_formed_words(final(self).words()),
    {
        self.add_path(points, false)
    }

    /// Adds a polygon ring.
    ///
    /// A polygon consists of one exterior ring (clockwise) and optionally one
    /// or more interior rings (counter-clockwise); supplying rings in that
    /// winding order is the caller's responsibility and is not checked here.
    /// A ring is encoded exactly as a line string, with one close-path word
    /// appended after the line-to block.
    pub fn add_ring(&mut self, points: &[[i16; 2]])
        requires
            points@.len() <= GEOM_MAX_PART_POINTS,
        ensures
            final(self).words() == old(self).words() + path_words(
                old(self).prev().0,
                old(self).prev().1,
                points@,
                true,
            ),
            final(self).prev() == prev_after(old(self).prev().0, old(self).prev().1, points@),
            points@.len() == 0 ==> final(self).words() == old(self).words(),
            well_formed_words(old(self).words()) ==> well_formed_words(final(self).words()),
    {
        self.add_path(points, true)
    }

    /// Adds a path (line string or polygon ring).
    fn add_path(&mut self, points: &[[i16; 2]], close: bool)
        requires
            points@.len() <= GEOM_MAX_PART_POINTS,
        ensures
            final(self).words() == old(self).words() + path_words(
                old(self).prev().0,
                old(self).prev().1,
                points@,
                close,
            ),
            final(self).prev() == prev_after(old(self).prev().0, old(self).prev().1, points@),
            points@.len() == 0 ==> final(self).words() == old(self).words(),
            well_formed_words(old(self).words()) ==> well_formed_words(final(self).words()),
    {
        if points.len() == 0 {
            proof {
                assert(old(self).words() + path_words(
                    old(self).prev().0,
                    old(self).prev().1,
                    points@,
                    close,
                ) =~= old(self).words());
            }
            return ;
        }
        let first = points[0];
        let dx = first[0] as i32 - self.prev_x as i32;
        let dy = first[1] as i32 - self.prev_y as i32;
        self.prev_x = first[0];
        self.prev_y = first[1];

        // move to
        self.buf.push(GEOM_COMMAND_MOVE_TO_WITH_COUNT1);
        self.buf.push(zigzag(dx));
        self.buf.push(zigzag(dy));

        // line to; the count is back-patched once it is known
        let lineto_cmd_pos = self.buf.len();
        self.buf.push(GEOM_COMMAND_LINE_TO);
        let mut count: u32 = 0;
        let mut i: usize = 1;
        proof {
            assert(points@.subrange(1, 1) =~= Seq::<[i16; 2]>::empty());
        }
        while i < points.len()
            invariant
                1 <= i <= points@.len(),
                points@.len() <= GEOM_MAX_PART_POINTS,
                lineto_cmd_pos == old(self).words().len() + 3,
                first == points@[0],
                self.prev() == prev_after(first[0], first[1], points@.subrange(1, i as int)),
                self.words() == old(self).words() + seq![
                    GEOM_COMMAND_MOVE_TO_WITH_COUNT1,
                    spec_zigzag(points@[0][0] - old(self).prev().0) as u32,
                    spec_zigzag(points@[0][1] - old(self).prev().1) as u32,
                    GEOM_COMMAND_LINE_TO,
                ] + tail_words(first[0], first[1], points@.subrange(1, i as int)),
                2 * count == tail_words(first[0], first[1], points@.subrange(1, i as int)).len(),
                count < i,
            decreases points@.len() - i,
        {
            let p = points[i];
            let dx = p[0] as i32 - self.prev_x as i32;
            let dy = p[1] as i32 - self.prev_y as i32;
            proof {
                let sub_next = points@.subrange(1, i + 1);
                assert(sub_next.drop_last() =~= points@.subrange(1, i as int));
                assert(sub_next.last() == points@[i as int]);
                lemma_tail_words_len(first[0], first[1], sub_next);
            }
            self.prev_x = p[0];
            self.prev_y = p[1];
            // zero-length segments are dropped; at low zoom levels upstream
            // simplification produces them frequently
            if dx != 0 || dy != 0 {
                self.buf.push(zigzag(dx));
                self.buf.push(zigzag(dy));
                count = count + 1;
            }
            i = i + 1;
        }

        // if every subsequent point was filtered out, repeat the first point
        // as one zero-delta segment
        if count == 0 {
            self.buf.push(0);
            self.buf.push(0);
            count = 1;
        }

        // back-patch the line-to command word with the emitted segment count
        let cmd = pack_command(GEOM_COMMAND_LINE_TO, count);
        self.buf[lineto_cmd_pos] = cmd;

        if close {
            self.buf.push(GEOM_COMMAND_CLOSE_PATH_WITH_COUNT1);
        }
        proof {
            let px = old(self).prev().0;
            let py = old(self).prev().1;
            assert(points@.subrange(1, points@.len() as int) =~= points@.skip(1));
            assert(self.words() =~= old(self).words() + path_words(px, py, points@, close));
            if well_formed_words(old(self).words()) {
                lemma_path_words_well_formed(px, py, points@, close);
                lemma_well_formed_concat(old(self).words(), path_words(px, py, points@, close));
            }
        }
    }

    /// Consumes the encoder and returns the encoded geometry.
    pub fn into_vec(self) -> (r: Vec<u32>)
        ensures
            r@ == self.words(),
    {
        self.buf
    }
}

impl Default for GeometryEncoder {
    fn default() -> (r: Self)
        ensures
            r.words() == Seq::<u32>::empty(),
            r.prev() == (0i16, 0i16),
            well_formed_words(r.words()),
    {
        GeometryEncoder::new()
    }
}

/// Packs a parameter-pair count above a 3-bit command id.
fn pack_command(id: u32, count: u32) -> (r: u32)
    requires
        id < 8,
        count <= GEOM_MAX_PART_POINTS,
    ensures
        r == command_word(id, count as int),
{
    proof {
        assert(((count << 3) | id) == count * 8 + id) by (bit_vector)
            requires
                id < 8u32,
                count <= 0x1fff_ffffu32,
        ;
    }
    (count << 3) | id
}

} // verus!
