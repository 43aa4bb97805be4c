//! The in-memory monochrome frame that text is drawn into and the panel is fed from.
//!
//! Pixels are packed row by row, eight to a byte, the first pixel in the most
//! significant bit. An `Off` (paper) pixel is a set bit, an `On` (ink) pixel a
//! cleared one.
use vstd::prelude::*;

verus! {

/// The two colors of a pixel.
#[derive(Clone, Copy, Debug, PartialEq, Eq, Structural)]
pub enum Color {
    Off,
    On,
}

/// The frame and the panel disagree on their dimensions.
#[derive(Clone, Copy, Debug, PartialEq, Eq, Structural)]
pub enum ConfigurationError {
    GeometryMismatch,
}

/// Number of bytes that hold `width * height` pixels.
pub open spec fn byte_len(width: nat, height: nat) -> nat {
    ((width * height + 7) / 8) as nat
}

/// The color that bit `k` (0 is the most significant) of `byte` stands for.
pub open spec fn color_of(byte: u8, k: u8) -> Color {
    if byte & (0x80u8 >> k) != 0 {
        Color::Off
    } else {
        Color::On
    }
}

/// The byte whose eight pixels all have color `c`.
pub open spec fn fill_byte(c: Color) -> u8 {
    match c {
        Color::Off => 0xFFu8,
        Color::On => 0u8,
    }
}

proof fn lemma_bits(b: u8, k: u8, j: u8)
    requires
        k < 8,
        j < 8,
    ensures
        (b | (0x80u8 >> k)) & (0x80u8 >> k) != 0,
        (b & !(0x80u8 >> k)) & (0x80u8 >> k) == 0,
        j != k ==> (b | (0x80u8 >> k)) & (0x80u8 >> j) == b & (0x80u8 >> j),
        j != k ==> (b & !(0x80u8 >> k)) & (0x80u8 >> j) == b & (0x80u8 >> j),
        0xFFu8 & (0x80u8 >> j) != 0,
        0u8 & (0x80u8 >> j) == 0,
{
    assert((b | (0x80u8 >> k)) & (0x80u8 >> k) != 0) by (bit_vector)
        requires
            k < 8,
    ;
    assert((b & !(0x80u8 >> k)) & (0x80u8 >> k) == 0) by (bit_vector);
    assert(j != k ==> (b | (0x80u8 >> k)) & (0x80u8 >> j) == b & (0x80u8 >> j)) by (bit_vector)
        requires
            k < 8,
            j < 8,
    ;
    assert(j != k ==> (b & !(0x80u8 >> k)) & (0x80u8 >> j) == b & (0x80u8 >> j)) by (bit_vector)
        requires
            k < 8,
            j < 8,
    ;
    assert(0xFFu8 & (0x80u8 >> j) != 0) by (bit_vector)
        requires
            j < 8,
    ;
    assert(0u8 & (0x80u8 >> j) == 0) by (bit_vector);
}

/// A fixed-size bitmap of `width` by `height` pixels.
pub struct FrameBuffer {
    width: u32,
    height: u32,
    bytes: Vec<u8>,
}

impl FrameBuffer {
    pub closed spec fn width_spec(&self) -> nat {
        self.width as nat
    }

    pub closed spec fn height_spec(&self) -> nat {
        self.height as nat
    }

    /// The packed bytes, as the panel receives them.
    pub closed spec fn bytes(&self) -> Seq<u8> {
        self.bytes@
    }

    /// Every pixel, row by row.
    pub open spec fn pixels(&self) -> Seq<Color> {
        Seq::new(
            self.width_spec() * self.height_spec(),
            |i: int| color_of(self.bytes()[i / 8], (i % 8) as u8),
        )
    }

    pub open spec fn wf(&self) -> bool {
        &&& self.width_spec() * self.height_spec() + 7 <= usize::MAX
        &&& self.bytes().len() == byte_len(self.width_spec(), self.height_spec())
    }

    /// A frame of the given dimensions with every pixel `Off`.
    pub fn new(width: u32, height: u32) -> (r: Self)
        requires
            width * height + 7 <= usize::MAX,
        ensures
            r.wf(),
            r.width_spec() == width,
            r.height_spec() == height,
            forall|i: int| 0 <= i < r.pixels().len() ==> #[trigger] r.pixels()[i] == Color::Off,
    {
        let n = (width as usize * height as usize + 7) / 8;
        let mut bytes: Vec<u8> = Vec::new();
        while bytes.len() < n
            invariant
                bytes@.len() <= n,
                forall|j: int| 0 <= j < bytes@.len() ==> bytes@[j] == 0xFFu8,
            decreases n - bytes@.len(),
        {
            bytes.push(0xFFu8);
        }
        let r = FrameBuffer { width, height, bytes };
        proof {
            assert forall|i: int| 0 <= i < r.pixels().len() implies #[trigger] r.pixels()[i]
                == Color::Off by {
                lemma_bits(0u8, 0u8, (i % 8) as u8);
            }
        }
        r
    }

    pub fn width(&self) -> (r: u32)
        ensures
            r == self.width_spec(),
    {
        self.width
    }

    pub fn height(&self) -> (r: u32)
        ensures
            r == self.height_spec(),
    {
        self.height
    }

    /// The packed bytes, to be handed to the panel.
    pub fn buffer(&self) -> (r: &[u8])
        ensures
            r@ == self.bytes(),
    {
        self.bytes.as_slice()
    }

    /// Sets every pixel to `color`; the dimensions stay as they are.
    pub fn clear(&mut self, color: Color)
        requires
            old(self).wf(),
        ensures
            final(self).wf(),
            final(self).width_spec() == old(self).width_spec(),
            final(self).height_spec() == old(self).height_spec(),
            forall|i: int|
                0 <= i < final(self).pixels().len() ==> #[trigger] final(self).pixels()[i]
                    == color,
    {
        let fill: u8 = match color {
            Color::Off => 0xFFu8,
            Color::On => 0u8,
        };
        let n = self.bytes.len();
        let mut k: usize = 0;
        while k < n
            invariant
                0 <= k <= n,
                n == self.bytes@.len(),
                self.bytes@.len() == old(self).bytes@.len(),
                self.width == old(self).width,
                self.height == old(self).height,
                fill == fill_byte(color),
                forall|j: int| 0 <= j < k ==> self.bytes@[j] == fill,
            decreases n - k,
        {
            self.bytes.set(k, fill);
            k = k + 1;
        }
        proof {
            assert forall|i: int| 0 <= i < self.pixels().len() implies #[trigger] self.pixels()[i]
                == color by {
                lemma_bits(0u8, 0u8, (i % 8) as u8);
                assert(i / 8 < self.bytes@.len());
            }
        }
    }

    /// Sets the pixel at column `x`, row `y` to `color`; a position outside the
    /// frame changes nothing.
    pub fn set_pixel(&mut self, x: u32, y: u32, color: Color)
        requires
            old(self).wf(),
        ensures
            final(self).wf(),
            final(self).width_spec() == old(self).width_spec(),
            final(self).height_spec() == old(self).height_spec(),
            x < old(self).width_spec() && y < old(self).height_spec() ==> final(self).pixels()
                == old(self).pixels().update(y * old(self).width_spec() + x, color),
            !(x < old(self).width_spec() && y < old(self).height_spec()) ==> final(self).pixels()
                == old(self).pixels(),
    {
        if x >= self.width || y >= self.height {
            return ;
        }
        proof {
            assert((y as int) * (self.width as int) + (x as int) < (self.width as int) * (
            self.height as int)) by (nonlinear_arith)
                requires
                    x < self.width,
                    y < self.height,
            ;
        }
        let i = y as usize * self.width as usize + x as usize;
        let idx = i / 8;
        let k = (i % 8) as u8;
        let bit = 0x80u8 >> k;
        let b = self.bytes[idx];
        let nb = match color {
            Color::On => b & !bit,
            Color::Off => b | bit,
        };
        let ghost before = self.pixels();
        self.bytes.set(idx, nb);
        proof {
            let target = before.update(i as int, color);
            assert forall|j: int| 0 <= j < self.pixels().len() implies #[trigger] self.pixels()[j]
                == target[j] by {
                if j / 8 == idx as int {
                    lemma_bits(b, k, (j % 8) as u8);
                }
            }
            assert(self.pixels() =~= target);
        }
    }

    /// Checks that the frame has exactly the panel's dimensions.
    pub fn check_geometry(&self, panel_width: u32, panel_height: u32) -> (r: Result<
        (),
        ConfigurationError,
    >)
        ensures
            r is Ok <==> self.width_spec() == panel_width && self.height_spec() == panel_height,
            r is Err ==> r == Err::<(), ConfigurationError>(ConfigurationError::GeometryMismatch),
    {
        if self.width == panel_width && self.height == panel_height {
            Ok(())
        } else {
            Err(ConfigurationError::GeometryMismatch)
        }
    }
}

} // verus!
