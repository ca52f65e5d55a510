//! A picture held as interleaved RGBA bytes, row after row.
use vstd::prelude::*;

verus! {

/// The byte offset of pixel `(x, y)` in a picture `width` pixels wide,
/// before any wrapping.
pub open spec fn raw_index(width: int, x: int, y: int) -> int {
    (x + y * width) * 4
}

/// The byte offset of pixel `(x, y)` in `len` bytes of a picture `width` pixels
/// wide: its offset in the grid, or `0` when that offset lies past the end.
pub open spec fn wrapped_index(len: int, width: int, x: int, y: int) -> int {
    if raw_index(width, x, y) >= len {
        0
    } else {
        raw_index(width, x, y)
    }
}

/// Whether pixel `(x, y)` of `len` bytes of a picture `width` pixels wide can
/// be read or written: its offset fits in a `usize` and its four bytes lie in
/// the data.
pub open spec fn accessible_in(len: int, width: int, x: int, y: int) -> bool {
    &&& 0 <= x
    &&& 0 <= y
    &&& raw_index(width, x, y) <= usize::MAX
    &&& wrapped_index(len, width, x, y) + 4 <= len
}

/// Whether every pixel of a `grid_width * grid_height` grid can be read or
/// written in `len` bytes of a picture `width` pixels wide.
pub open spec fn covers(len: int, width: int, grid_width: int, grid_height: int) -> bool {
    forall|x: int, y: int|
        0 <= x < grid_width && 0 <= y < grid_height ==> #[trigger] accessible_in(len, width, x, y)
}

/// `data` with the four bytes from `at` replaced by `rgba`.
pub open spec fn painted(data: Seq<u8>, at: int, rgba: Seq<u8>) -> Seq<u8> {
    Seq::new(data.len(), |j: int| if at <= j < at + 4 { rgba[j - at] } else { data[j] })
}

/// A picture: `width * height` pixels of four bytes (red, green, blue, alpha),
/// left to right and top to bottom.
#[derive(Clone, Debug)]
pub struct Picture {
    pub data: Vec<u8>,
    pub width: usize,
    pub height: usize,
}

impl View for Picture {
    type V = Seq<u8>;

    open spec fn view(&self) -> Seq<u8> {
        self.data@
    }
}

impl Picture {
    /// The byte offset at which pixel `(x, y)` is read and written: its offset in
    /// the grid, or `0` when that offset lies past the end of the data.
    pub open spec fn pixel_index(&self, x: int, y: int) -> int {
        wrapped_index(self@.len() as int, self.width as int, x, y)
    }

    /// Whether pixel `(x, y)` can be read or written: its offset fits in a
    /// `usize` and its four bytes lie in the data.
    pub open spec fn accessible(&self, x: int, y: int) -> bool {
        accessible_in(self@.len() as int, self.width as int, x, y)
    }

    /// Whether every pixel of the grid can be read or written.
    pub open spec fn accessible_grid(&self) -> bool {
        covers(self@.len() as int, self.width as int, self.width as int, self.height as int)
    }

    /// The four bytes of pixel `(x, y)`.
    pub open spec fn pixel_at(&self, x: int, y: int) -> Seq<u8> {
        self@.subrange(self.pixel_index(x, y), self.pixel_index(x, y) + 4)
    }

    /// A picture over `raw_data`, read as `width` pixels per row.
    pub fn new(raw_data: Vec<u8>, width: usize, height: usize) -> (p: Self)
        ensures
            p@ == raw_data@,
            p.width == width,
            p.height == height,
    {
        Self { data: raw_data, width, height }
    }

    /// The four bytes of pixel `(x, y)`.
    pub fn get_pixel(&self, x: usize, y: usize) -> (rgba: [u8; 4])
        requires
            self.accessible(x as int, y as int),
        ensures
            rgba@ == self.pixel_at(x as int, y as int),
    {
        let index = self.get_index(x, y);
        let rgba = [self.data[index], self.data[index + 1], self.data[index + 2], self.data[index + 3]];
        assert(rgba@ =~= self.pixel_at(x as int, y as int));
        rgba
    }

    /// Replaces the four bytes of pixel `(x, y)` with `value`.
    pub fn set_pixel(&mut self, x: usize, y: usize, value: [u8; 4])
        requires
            old(self).accessible(x as int, y as int),
        ensures
            final(self)@ == painted(old(self)@, old(self).pixel_index(x as int, y as int), value@),
            final(self).width == old(self).width,
            final(self).height == old(self).height,
    {
        let index = self.get_index(x, y);
        let ghost before = self.data@;
        let mut i: usize = 0;
        while i < 4
            invariant
                0 <= i <= 4,
                index + 4 <= self.data@.len(),
                self.data@.len() == before.len(),
                self.width == old(self).width,
                self.height == old(self).height,
                before == old(self)@,
                index == old(self).pixel_index(x as int, y as int),
                forall|j: int|
                    0 <= j < before.len() ==> #[trigger] self.data@[j] == (if index <= j < index + i {
                        value@[j - index]
                    } else {
                        before[j]
                    }),
            decreases 4 - i,
        {
            self.data.set(index + i, value[i]);
            i = i + 1;
        }
        assert(self.data@ =~= painted(before, index as int, value@));
    }

    /// Byte `color_index` of pixel `(x, y)` (0 red, 1 green, 2 blue, 3 alpha).
    pub fn get_pixel_color(&self, x: usize, y: usize, color_index: usize) -> (c: u8)
        requires
            0 <= x,
            raw_index(self.width as int, x as int, y as int) <= usize::MAX,
            self.pixel_index(x as int, y as int) + color_index < self@.len(),
        ensures
            c == self@[self.pixel_index(x as int, y as int) + color_index],
    {
        let base = self.get_index(x, y);
        // the length of a vector fits in a usize
        let _len = self.data.len();
        let index = base + color_index;
        self.data[index]
    }

    fn get_index(&self, x: usize, y: usize) -> (index: usize)
        requires
            raw_index(self.width as int, x as int, y as int) <= usize::MAX,
        ensures
            index == self.pixel_index(x as int, y as int),
    {
        proof {
            assert(0 <= y * self.width <= x + y * self.width) by (nonlinear_arith)
                requires
                    0 <= x,
                    0 <= y,
                    0 <= self.width,
            ;
        }
        // wraps to the first pixel when too high
        let mut index = (x + y * self.width) * 4;
        if index >= self.data.len() {
            index = 0;
        }
        index
    }

    /// Whether every pixel of a `width * height` grid can be read and written
    /// in this picture.
    pub fn grid_accessible(&self, width: usize, height: usize) -> (ok: bool)
        ensures
            ok == covers(self@.len() as int, self.width as int, width as int, height as int),
    {
        let len = self.data.len();
        let mut y: usize = 0;
        while y < height
            invariant
                len == self@.len(),
                y <= height,
                forall|x2: int, y2: int|
                    0 <= x2 < width && 0 <= y2 < y ==> #[trigger] accessible_in(len as int, self.width as int, x2, y2),
            decreases height - y,
        {
            let mut x: usize = 0;
            while x < width
                invariant
                    len == self@.len(),
                    y < height,
                    x <= width,
                    forall|x2: int, y2: int|
                        0 <= x2 < width && 0 <= y2 < y ==> #[trigger] accessible_in(len as int, self.width as int, x2, y2),
                    forall|x2: int| 0 <= x2 < x ==> #[trigger] accessible_in(len as int, self.width as int, x2, y as int),
                decreases width - x,
            {
                let row_start = y.checked_mul(self.width);
                let raw = match row_start {
                    Some(r) => match x.checked_add(r) {
                        Some(cell) => cell.checked_mul(4),
                        None => None,
                    },
                    None => None,
                };
                match raw {
                    Some(raw) => {
                        let index = if raw >= len { 0 } else { raw };
                        if len < 4 || index > len - 4 {
                            assert(!accessible_in(len as int, self.width as int, x as int, y as int));
                            return false;
                        }
                    },
                    None => {
                        proof {
                            assert(raw_index(self.width as int, x as int, y as int) > usize::MAX) by (nonlinear_arith)
                                requires
                                    row_start is None ==> y * self.width > usize::MAX,
                                    row_start is Some ==> row_start->0 == y * self.width,
                                    row_start is Some ==> (x + row_start->0 > usize::MAX || (x + row_start->0) * 4 > usize::MAX),
                                    0 <= x,
                                    0 <= y,
                                    0 <= self.width,
                            ;
                        }
                        assert(!accessible_in(len as int, self.width as int, x as int, y as int));
                        return false;
                    },
                }
                x = x + 1;
            }
            y = y + 1;
        }
        true
    }

    /// A copy of the picture's bytes.
    pub fn get_raw_data(&self) -> (data: Vec<u8>)
        ensures
            data@ == self@,
    {
        self.data.clone()
    }

    /// The number of bytes of the picture.
    pub fn get_lenght(&self) -> (n: usize)
        ensures
            n == self@.len(),
    {
        self.data.len()
    }
}

/// Reading a pixel gives back what writing it wrote, and writing a pixel
/// leaves every byte outside its four bytes as it was: if `after` is `before`
/// with pixel `(x, y)` set to `value`, the length and width are unchanged,
/// `after`'s pixel `(x, y)` is `value`, and any pixel whose bytes do not overlap
/// those of `(x, y)` reads as in `before`.
pub proof fn law_get_after_set(before: Picture, after: Picture, x: int, y: int, value: [u8; 4], x2: int, y2: int)
    requires
        before.accessible(x, y),
        after.width == before.width,
        after@ == painted(before@, before.pixel_index(x, y), value@),
    ensures
        after@.len() == before@.len(),
        after.pixel_index(x, y) == before.pixel_index(x, y),
        after.pixel_at(x, y) == value@,
        before.accessible(x2, y2) && (before.pixel_index(x2, y2) + 4 <= before.pixel_index(x, y)
            || before.pixel_index(x, y) + 4 <= before.pixel_index(x2, y2))
            ==> after.pixel_at(x2, y2) == before.pixel_at(x2, y2),
{
    assert(after.pixel_at(x, y) =~= value@);
    if before.accessible(x2, y2) && (before.pixel_index(x2, y2) + 4 <= before.pixel_index(x, y)
        || before.pixel_index(x, y) + 4 <= before.pixel_index(x2, y2)) {
        assert(after.pixel_at(x2, y2) =~= before.pixel_at(x2, y2));
    }
}

/// In a picture of exactly `width * height` pixels, every pixel of the grid can
/// be read and written, at its own offset without wrapping.
pub proof fn law_full_picture_is_accessible(p: Picture)
    requires
        p@.len() == p.width * p.height * 4,
    ensures
        p.accessible_grid(),
        forall|x: int, y: int|
            0 <= x < p.width && 0 <= y < p.height ==> #[trigger] p.pixel_index(x, y) == raw_index(p.width as int, x, y),
{
    // the length of a vector fits in a usize
    assert(p.data.len() as int == p@.len());
    assert forall|x: int, y: int| 0 <= x < p.width && 0 <= y < p.height implies
        #[trigger] accessible_in(p@.len() as int, p.width as int, x, y)
        && p.pixel_index(x, y) == raw_index(p.width as int, x, y) by {
        assert((x + y * p.width) * 4 + 4 <= p.width * p.height * 4) by (nonlinear_arith)
            requires
                0 <= x < p.width,
                0 <= y < p.height,
        ;
        assert(0 <= (x + y * p.width) * 4) by (nonlinear_arith)
            requires
                0 <= x,
                0 <= y,
        ;
    }
    assert forall|x: int, y: int| 0 <= x < p.width && 0 <= y < p.height implies
        #[trigger] p.pixel_index(x, y) == raw_index(p.width as int, x, y) by {
        assert(accessible_in(p@.len() as int, p.width as int, x, y));
    }
}

} // verus!
