use vstd::prelude::*;
use crate::canvas::ImageBuffer;
use crate::geometry::{CELLS, in_stamp, col_of, row_of};
use crate::pixel::{CHANNEL_MAX, same_pixel, shows};

verus! {

/// Every byte of a well-formed canvas lies in `[0, 255]` and the alpha byte
/// of every pixel is 255. `new`, `init` and `update` each leave the canvas
/// well-formed, so this holds after any sequence of them.
pub proof fn lemma_bytes_in_range<P>(b: ImageBuffer<P>)
    requires
        b.wf(),
    ensures
        b.bytes().len() == 4 * CELLS,
        forall|i: int| 0 <= i < b.bytes().len() ==> 0 <= #[trigger] b.bytes()[i] <= CHANNEL_MAX,
        forall|i: int| 0 <= i < b.bytes().len() && i % 4 == 3 ==> #[trigger] b.bytes()[i] == CHANNEL_MAX,
{
    assert forall|i: int| 0 <= i < b.bytes().len() && i % 4 == 3 implies #[trigger] b.bytes()[i] == CHANNEL_MAX by {
        let p = i / 4;
        assert(i == 4 * p + 3);
        assert(b.bytes()[4 * p + 3] == CHANNEL_MAX);
    }
}

/// A stamp whose radius is 0 or less, or whose `mix` declines every pixel,
/// leaves every cell and every byte of the canvas as it was.
pub proof fn lemma_update_no_op<P, F: Fn(P, i32, i32) -> Option<(P, [u32; 3])>>(
    before: ImageBuffer<P>,
    after: ImageBuffer<P>,
    x: i32,
    y: i32,
    r: i32,
    mix: F,
)
    requires
        before.wf(),
        after.wf(),
        forall|p: int|
            0 <= p < CELLS ==> #[trigger] before.stamped(after, x as int, y as int, r as int, mix, p),
        r <= 0 || forall|args: (P, i32, i32), res: Option<(P, [u32; 3])>|
            #[trigger] mix.ensures(args, res) ==> res is None,
    ensures
        after.cells() == before.cells(),
        after.bytes() == before.bytes(),
{
    assert forall|p: int| 0 <= p < CELLS implies #[trigger] before.kept(after, p) by {
        assert(before.stamped(after, x as int, y as int, r as int, mix, p));
    }
    assert(after.cells() =~= before.cells()) by {
        assert forall|p: int| 0 <= p < CELLS implies after.cells()[p] == before.cells()[p] by {
            assert(before.kept(after, p));
        }
    }
    assert(after.bytes() =~= before.bytes()) by {
        assert forall|i: int| 0 <= i < 4 * CELLS implies after.bytes()[i] == before.bytes()[i] by {
            let p = i / 4;
            assert(before.kept(after, p));
            assert(same_pixel(after.bytes(), before.bytes(), p));
        }
    }
}

/// A stamp leaves each pixel outside its square, or off the canvas, with the
/// pigment and the bytes it had.
pub proof fn lemma_update_outside_square<P, F: Fn(P, i32, i32) -> Option<(P, [u32; 3])>>(
    before: ImageBuffer<P>,
    after: ImageBuffer<P>,
    x: i32,
    y: i32,
    r: i32,
    mix: F,
)
    requires
        forall|p: int|
            0 <= p < CELLS ==> #[trigger] before.stamped(after, x as int, y as int, r as int, mix, p),
    ensures
        forall|p: int|
            0 <= p < CELLS && !in_stamp(x as int, y as int, r as int, p) ==> #[trigger] before.kept(
                after,
                p,
            ),
{
    assert forall|p: int| 0 <= p < CELLS && !in_stamp(x as int, y as int, r as int, p) implies #[trigger] before.kept(after, p) by {
        assert(before.stamped(after, x as int, y as int, r as int, mix, p));
    }
}

/// `mix` gives, for each offset, one result whatever pigment it is handed:
/// it replaces the pigment rather than blending with it.
pub open spec fn replaces<P, F: Fn(P, i32, i32) -> Option<(P, [u32; 3])>>(mix: F) -> bool {
    forall|c1: P, c2: P, dx: i32, dy: i32, r1: Option<(P, [u32; 3])>, r2: Option<(P, [u32; 3])>|
        #[trigger] mix.ensures((c1, dx, dy), r1) && #[trigger] mix.ensures((c2, dx, dy), r2)
            ==> r1 == r2
}

/// A stamp whose `mix` replaces pigment, applied twice in a row (`before` to
/// `mid` to `twice`), leaves the canvas as applying it once (`before` to
/// `once`) does.
pub proof fn lemma_replacing_update_idempotent<P, F: Fn(P, i32, i32) -> Option<(P, [u32; 3])>>(
    before: ImageBuffer<P>,
    mid: ImageBuffer<P>,
    twice: ImageBuffer<P>,
    once: ImageBuffer<P>,
    x: i32,
    y: i32,
    r: i32,
    mix: F,
)
    requires
        before.wf(),
        mid.wf(),
        twice.wf(),
        once.wf(),
        replaces(mix),
        forall|p: int|
            0 <= p < CELLS ==> #[trigger] before.stamped(mid, x as int, y as int, r as int, mix, p),
        forall|p: int|
            0 <= p < CELLS ==> #[trigger] mid.stamped(twice, x as int, y as int, r as int, mix, p),
        forall|p: int|
            0 <= p < CELLS ==> #[trigger] before.stamped(once, x as int, y as int, r as int, mix, p),
    ensures
        twice.cells() == once.cells(),
        twice.bytes() == once.bytes(),
{
    assert forall|p: int| 0 <= p < CELLS implies twice.cells()[p] == once.cells()[p]
        && #[trigger] same_pixel(twice.bytes(), once.bytes(), p) by {
        assert(before.stamped(mid, x as int, y as int, r as int, mix, p));
        assert(mid.stamped(twice, x as int, y as int, r as int, mix, p));
        assert(before.stamped(once, x as int, y as int, r as int, mix, p));
        if in_stamp(x as int, y as int, r as int, p) {
            let dx = (col_of(p) - x) as i32;
            let dy = (row_of(p) - y) as i32;
            let r0 = choose|res: Option<(P, [u32; 3])>|
                #[trigger] mix.ensures((before.cells()[p], dx, dy), res) && match res {
                    None => before.kept(mid, p),
                    Some(v) => mid.cells()[p] == v.0 && shows(mid.bytes(), p, v.1),
                };
            let r1 = choose|res: Option<(P, [u32; 3])>|
                #[trigger] mix.ensures((mid.cells()[p], dx, dy), res) && match res {
                    None => mid.kept(twice, p),
                    Some(v) => twice.cells()[p] == v.0 && shows(twice.bytes(), p, v.1),
                };
            let r2 = choose|res: Option<(P, [u32; 3])>|
                #[trigger] mix.ensures((before.cells()[p], dx, dy), res) && match res {
                    None => before.kept(once, p),
                    Some(v) => once.cells()[p] == v.0 && shows(once.bytes(), p, v.1),
                };
            assert(r0 == r2);
            assert(r1 == r2);
        }
    }
    assert(twice.cells() =~= once.cells()) by {
        assert forall|p: int| 0 <= p < CELLS implies twice.cells()[p] == once.cells()[p] by {
            assert(same_pixel(twice.bytes(), once.bytes(), p));
        }
    }
    assert(twice.bytes() =~= once.bytes()) by {
        assert forall|i: int| 0 <= i < 4 * CELLS implies twice.bytes()[i] == once.bytes()[i] by {
            let p = i / 4;
            assert(same_pixel(twice.bytes(), once.bytes(), p));
        }
    }
}

} // verus!
