use vstd::prelude::*;

verus! {

/// The column and row of the pixel at `index` in a row-major buffer of rows
/// `width` pixels wide.
pub fn pixel_position(index: usize, width: usize) -> (r: (usize, usize))
    requires
        width > 0,
    ensures
        r.0 == index % width,
        r.1 == index / width,
{
    (index % width, index / width)
}

/// The index of the pixel at column `x`, row `y` in a row-major buffer of rows
/// `width` pixels wide.
pub fn pixel_index(x: usize, y: usize, width: usize) -> (r: usize)
    requires
        x < width,
        y * width + x <= usize::MAX,
    ensures
        r == y * width + x,
{
    proof {
        assert(0 <= y * width <= y * width + x) by (nonlinear_arith)
            requires
                x < width,
        ;
    }
    y * width + x
}

/// Each index of a `width` by `height` image has a position inside the grid,
/// and the index is found again from that position.
pub proof fn lemma_pixel_index_round_trip(index: usize, width: usize, height: usize)
    requires
        width > 0,
        index < width * height,
    ensures
        index % width < width,
        index / width < height,
        (index / width) * width + index % width == index,
{
    vstd::arithmetic::div_mod::lemma_fundamental_div_mod(index as int, width as int);
    vstd::arithmetic::div_mod::lemma_div_is_ordered(index as int, (width * height) as int, width as int);
    vstd::arithmetic::div_mod::lemma_div_by_multiple(height as int, width as int);
    vstd::arithmetic::div_mod::lemma_mod_bound(index as int, width as int);
    vstd::arithmetic::mul::lemma_mul_is_commutative((index / width) as int, width as int);
    if index / width >= height {
        assert(width * height <= width * (index / width)) by (nonlinear_arith)
            requires
                index / width >= height,
                width > 0,
        ;
    }
}

/// A channel level on the 8-bit scale, cut to 0..=255.
pub open spec fn spec_channel_byte(level: i32) -> u8 {
    if level < 0 {
        0
    } else if level > 255 {
        255
    } else {
        level as u8
    }
}

/// Cuts a channel level to the 8-bit range.
pub fn channel_byte(level: i32) -> (r: u8)
    ensures
        r == spec_channel_byte(level),
{
    if level < 0 {
        0
    } else if level > 255 {
        255
    } else {
        level as u8
    }
}

/// The bytes of an 8-bit RGB image whose pixels have the channel levels
/// `levels`: three bytes a pixel, red, green, blue, each level cut to 0..=255.
pub fn pack_rgb(levels: &Vec<[i32; 3]>) -> (r: Vec<u8>)
    requires
        levels.len() * 3 <= usize::MAX,
    ensures
        r@.len() == levels.len() * 3,
        forall|i: int, c: int|
            0 <= i < levels.len() && 0 <= c < 3 ==> r@[i * 3 + c] == spec_channel_byte(
                #[trigger] levels@[i]@[c],
            ),
{
    let mut bytes: Vec<u8> = Vec::new();
    let mut i: usize = 0;
    while i < levels.len()
        invariant
            i <= levels.len(),
            bytes@.len() == i * 3,
            forall|j: int, c: int|
                0 <= j < i && 0 <= c < 3 ==> bytes@[j * 3 + c] == spec_channel_byte(
                    #[trigger] levels@[j]@[c],
                ),
        decreases levels.len() - i,
    {
        let pixel = levels[i];
        bytes.push(channel_byte(pixel[0]));
        bytes.push(channel_byte(pixel[1]));
        bytes.push(channel_byte(pixel[2]));
        proof {
            assert forall|j: int, c: int|
                0 <= j < i + 1 && 0 <= c < 3 implies bytes@[j * 3 + c] == spec_channel_byte(
                    #[trigger] levels@[j]@[c],
                ) by {
                if j < i {
                    assert(j * 3 + c < i * 3) by (nonlinear_arith)
                        requires
                            j < i,
                            c < 3,
                    ;
                } else {
                    assert(j * 3 + c == i * 3 + c);
                }
            }
        }
        i += 1;
    }
    bytes
}

} // verus!
