use vstd::prelude::*;

verus! {

/// Where the four bytes of a converted pixel come from: for blue, green and
/// alpha the place of the byte inside the source pixel, or `None` for a
/// channel that the source does not have; for red the place of its byte.
#[derive(Clone, Copy, Debug, PartialEq, Eq, Structural)]
pub struct Layout {
    pub stride: usize,
    pub blue: Option<usize>,
    pub green: Option<usize>,
    pub red: usize,
    pub alpha: Option<usize>,
}

impl Layout {
    /// Whether every place lies inside a source pixel.
    pub open spec fn fits(self) -> bool {
        &&& self.stride > 0
        &&& self.red < self.stride
        &&& (self.blue matches Some(o) ==> o < self.stride)
        &&& (self.green matches Some(o) ==> o < self.stride)
        &&& (self.alpha matches Some(o) ==> o < self.stride)
    }
}

/// The byte of a channel of source pixel `pixel`: the byte at its place, or
/// `missing` for a channel that the source does not have.
pub open spec fn channel(data: Seq<u8>, stride: usize, pixel: int, place: Option<usize>, missing: u8) -> u8 {
    match place {
        Some(offset) => data[stride * pixel + offset],
        None => missing,
    }
}

/// Byte `k` of the converted image: the pixels of the source in their
/// order, each as blue, green, red, alpha; a missing colour is 0, a missing
/// alpha is 255. Bytes after the last whole source pixel are left out.
pub open spec fn converted_byte(data: Seq<u8>, layout: Layout, k: int) -> u8 {
    let pixel = k / 4;
    if k % 4 == 0 {
        channel(data, layout.stride, pixel, layout.blue, 0)
    } else if k % 4 == 1 {
        channel(data, layout.stride, pixel, layout.green, 0)
    } else if k % 4 == 2 {
        channel(data, layout.stride, pixel, Some(layout.red), 0)
    } else {
        channel(data, layout.stride, pixel, layout.alpha, 255)
    }
}

/// The converted image of `data`.
pub open spec fn converted(data: Seq<u8>, layout: Layout) -> Seq<u8> {
    Seq::new(
        (4 * (data.len() / layout.stride as nat)) as nat,
        |k: int| converted_byte(data, layout, k),
    )
}

fn pick(data: &Vec<u8>, stride: usize, pixel: usize, place: Option<usize>, missing: u8) -> (r: u8)
    requires
        stride > 0,
        pixel < data@.len() / stride as nat,
        place matches Some(o) ==> o < stride,
    ensures
        r == channel(data@, stride, pixel as int, place, missing),
{
    match place {
        Some(offset) => {
            let len: usize = data.len();
            proof {
                lemma_pixel_inside(len as nat, stride as nat, pixel as nat, offset as nat);
                assert(stride * pixel >= 0) by (nonlinear_arith)
                    requires
                        stride >= 0,
                        pixel >= 0,
                ;
            }
            data[stride * pixel + offset]
        },
        None => missing,
    }
}

/// The bytes of a whole pixel lie inside the data.
proof fn lemma_pixel_inside(len: nat, stride: nat, pixel: nat, offset: nat)
    requires
        stride > 0,
        pixel < len / stride,
        offset < stride,
    ensures
        stride * pixel + offset < len,
{
    assert(stride * pixel + offset < len) by (nonlinear_arith)
        requires
            stride > 0,
            pixel < len / stride,
            offset < stride,
    ;
}

fn convert(data: &Vec<u8>, layout: Layout) -> (r: Vec<u8>)
    requires
        layout.fits(),
    ensures
        r@ == converted(data@, layout),
{
    let size: usize = data.len() / layout.stride;
    let mut result: Vec<u8> = Vec::new();
    let mut i: usize = 0;
    while i < size
        invariant
            i <= size,
            layout.fits(),
            size == data@.len() / layout.stride as nat,
            result@.len() == 4 * i,
            forall|k: int| 0 <= k < 4 * i ==> #[trigger] result@[k] == converted_byte(data@, layout, k),
        decreases size - i,
    {
        let blue: u8 = pick(data, layout.stride, i, layout.blue, 0);
        let green: u8 = pick(data, layout.stride, i, layout.green, 0);
        let red: u8 = pick(data, layout.stride, i, Some(layout.red), 0);
        let alpha: u8 = pick(data, layout.stride, i, layout.alpha, 255);
        result.push(blue);
        result.push(green);
        result.push(red);
        result.push(alpha);
        i += 1;
    }
    assert(result@ =~= converted(data@, layout));
    result
}

/// Three bytes per pixel: red, green, blue.
pub open spec fn layout_r8g8b8() -> Layout {
    Layout { stride: 3, blue: Some(2), green: Some(1), red: 0, alpha: None }
}

/// Six bytes per pixel: red, green, blue, two bytes each, of which the first is kept.
pub open spec fn layout_r16g16b16() -> Layout {
    Layout { stride: 6, blue: Some(4), green: Some(2), red: 0, alpha: None }
}

/// Two bytes per pixel: red, green.
pub open spec fn layout_r8g8() -> Layout {
    Layout { stride: 2, blue: None, green: Some(1), red: 0, alpha: None }
}

/// Four bytes per pixel: red, green, two bytes each, of which the first is kept.
pub open spec fn layout_r16g16() -> Layout {
    Layout { stride: 4, blue: None, green: Some(2), red: 0, alpha: None }
}

/// Four bytes per pixel: red, green, blue, alpha.
pub open spec fn layout_r8g8b8a8() -> Layout {
    Layout { stride: 4, blue: Some(2), green: Some(1), red: 0, alpha: Some(3) }
}

/// Eight bytes per pixel: red, green, blue, alpha, two bytes each, of which the first is kept.
pub open spec fn layout_r16g16b16a16() -> Layout {
    Layout { stride: 8, blue: Some(4), green: Some(2), red: 0, alpha: Some(6) }
}

/// One byte per pixel: red.
pub open spec fn layout_r8() -> Layout {
    Layout { stride: 1, blue: None, green: None, red: 0, alpha: None }
}

/// Two bytes per pixel: red, of which the first byte is kept.
pub open spec fn layout_r16() -> Layout {
    Layout { stride: 2, blue: None, green: None, red: 0, alpha: None }
}

#[allow(non_snake_case)]
pub fn convert_R8G8B8(data: &Vec<u8>) -> (r: Vec<u8>)
    ensures
        r@ == converted(data@, layout_r8g8b8()),
{
    convert(data, Layout { stride: 3, blue: Some(2), green: Some(1), red: 0, alpha: None })
}

#[allow(non_snake_case)]
pub fn convert_R16G16B16(data: &Vec<u8>) -> (r: Vec<u8>)
    ensures
        r@ == converted(data@, layout_r16g16b16()),
{
    convert(data, Layout { stride: 6, blue: Some(4), green: Some(2), red: 0, alpha: None })
}

#[allow(non_snake_case)]
pub fn convert_R8G8(data: &Vec<u8>) -> (r: Vec<u8>)
    ensures
        r@ == converted(data@, layout_r8g8()),
{
    convert(data, Layout { stride: 2, blue: None, green: Some(1), red: 0, alpha: None })
}

#[allow(non_snake_case)]
pub fn convert_R16G16(data: &Vec<u8>) -> (r: Vec<u8>)
    ensures
        r@ == converted(data@, layout_r16g16()),
{
    convert(data, Layout { stride: 4, blue: None, green: Some(2), red: 0, alpha: None })
}

#[allow(non_snake_case)]
pub fn convert_R8G8B8A8(data: &Vec<u8>) -> (r: Vec<u8>)
    ensures
        r@ == converted(data@, layout_r8g8b8a8()),
{
    convert(data, Layout { stride: 4, blue: Some(2), green: Some(1), red: 0, alpha: Some(3) })
}

#[allow(non_snake_case)]
pub fn convert_R16G16B16A16(data: &Vec<u8>) -> (r: Vec<u8>)
    ensures
        r@ == converted(data@, layout_r16g16b16a16()),
{
    convert(data, Layout { stride: 8, blue: Some(4), green: Some(2), red: 0, alpha: Some(6) })
}

#[allow(non_snake_case)]
pub fn convert_R8(data: &Vec<u8>) -> (r: Vec<u8>)
    ensures
        r@ == converted(data@, layout_r8()),
{
    convert(data, Layout { stride: 1, blue: None, green: None, red: 0, alpha: None })
}

#[allow(non_snake_case)]
pub fn convert_R16(data: &Vec<u8>) -> (r: Vec<u8>)
    ensures
        r@ == converted(data@, layout_r16()),
{
    convert(data, Layout { stride: 2, blue: None, green: None, red: 0, alpha: None })
}

/// How the bytes of an image are laid out, pixel by pixel.
#[allow(non_camel_case_types)]
#[derive(Clone, Copy, Debug, PartialEq, Eq, Structural)]
pub enum Format {
    R8,
    R8G8,
    R8G8B8,
    R8G8B8A8,
    R16,
    R16G16,
    R16G16B16,
    R16G16B16A16,
    /// Three scalars per pixel.
    R32G32B32FLOAT,
    /// Four scalars per pixel.
    R32G32B32A32FLOAT,
}

impl Format {
    /// How many bytes a pixel takes.
    pub open spec fn spec_chunk_size(self) -> usize {
        match self {
            Format::R8 => 1,
            Format::R8G8 => 2,
            Format::R8G8B8 => 3,
            Format::R8G8B8A8 => 4,
            Format::R16 => 2,
            Format::R16G16 => 4,
            Format::R16G16B16 => 6,
            Format::R16G16B16A16 => 8,
            Format::R32G32B32FLOAT => 12,
            Format::R32G32B32A32FLOAT => 16,
        }
    }

    /// Where the bytes of a converted pixel come from; `None` for the
    /// formats of scalars, which are not converted by moving bytes.
    pub open spec fn spec_layout(self) -> Option<Layout> {
        match self {
            Format::R8 => Some(layout_r8()),
            Format::R8G8 => Some(layout_r8g8()),
            Format::R8G8B8 => Some(layout_r8g8b8()),
            Format::R8G8B8A8 => Some(layout_r8g8b8a8()),
            Format::R16 => Some(layout_r16()),
            Format::R16G16 => Some(layout_r16g16()),
            Format::R16G16B16 => Some(layout_r16g16b16()),
            Format::R16G16B16A16 => Some(layout_r16g16b16a16()),
            Format::R32G32B32FLOAT => None,
            Format::R32G32B32A32FLOAT => None,
        }
    }

    #[verifier::when_used_as_spec(spec_chunk_size)]
    pub fn chunk_size(self) -> (r: usize)
        ensures
            r == self.spec_chunk_size(),
            r > 0,
            self.spec_layout() matches Some(layout) ==> layout.stride == r && layout.fits(),
    {
        match self {
            Format::R8 => 1,
            Format::R8G8 => 2,
            Format::R8G8B8 => 3,
            Format::R8G8B8A8 => 4,
            Format::R16 => 2,
            Format::R16G16 => 4,
            Format::R16G16B16 => 6,
            Format::R16G16B16A16 => 8,
            Format::R32G32B32FLOAT => 12,
            Format::R32G32B32A32FLOAT => 16,
        }
    }

    #[verifier::when_used_as_spec(spec_layout)]
    pub fn layout(self) -> (r: Option<Layout>)
        ensures
            r == self.spec_layout(),
    {
        match self {
            Format::R8 => Some(Layout { stride: 1, blue: None, green: None, red: 0, alpha: None }),
            Format::R8G8 => Some(
                Layout { stride: 2, blue: None, green: Some(1), red: 0, alpha: None },
            ),
            Format::R8G8B8 => Some(
                Layout { stride: 3, blue: Some(2), green: Some(1), red: 0, alpha: None },
            ),
            Format::R8G8B8A8 => Some(
                Layout { stride: 4, blue: Some(2), green: Some(1), red: 0, alpha: Some(3) },
            ),
            Format::R16 => Some(Layout { stride: 2, blue: None, green: None, red: 0, alpha: None }),
            Format::R16G16 => Some(
                Layout { stride: 4, blue: None, green: Some(2), red: 0, alpha: None },
            ),
            Format::R16G16B16 => Some(
                Layout { stride: 6, blue: Some(4), green: Some(2), red: 0, alpha: None },
            ),
            Format::R16G16B16A16 => Some(
                Layout { stride: 8, blue: Some(4), green: Some(2), red: 0, alpha: Some(6) },
            ),
            Format::R32G32B32FLOAT => None,
            Format::R32G32B32A32FLOAT => None,
        }
    }
}

/// The pixels of an image as blue, green, red, alpha, one array per whole
/// pixel of the source. `None` for the formats of scalars.
pub fn convert_texture(format: Format, pixels: &Vec<u8>) -> (r: Option<Vec<[u8; 4]>>)
    ensures
        match format.spec_layout() {
            None => r is None,
            Some(layout) => r matches Some(image) && image@.len() == pixels@.len()
                / layout.stride as nat && forall|i: int, c: int|
                0 <= i < image@.len() && 0 <= c < 4 ==> #[trigger] image@[i][c] == converted_byte(
                    pixels@,
                    layout,
                    4 * i + c,
                ),
        },
{
    let layout = match format.layout() {
        Some(layout) => layout,
        None => {
            return None;
        },
    };
    let stride: usize = format.chunk_size();
    let size: usize = pixels.len() / stride;
    let mut image: Vec<[u8; 4]> = Vec::new();
    let mut i: usize = 0;
    while i < size
        invariant
            i <= size,
            layout.fits(),
            layout.stride == stride,
            size == pixels@.len() / stride as nat,
            image@.len() == i,
            forall|k: int, c: int|
                0 <= k < i && 0 <= c < 4 ==> #[trigger] image@[k][c] == converted_byte(
                    pixels@,
                    layout,
                    4 * k + c,
                ),
        decreases size - i,
    {
        let pixel: [u8; 4] = [
            pick(pixels, stride, i, layout.blue, 0),
            pick(pixels, stride, i, layout.green, 0),
            pick(pixels, stride, i, Some(layout.red), 0),
            pick(pixels, stride, i, layout.alpha, 255),
        ];
        image.push(pixel);
        i += 1;
    }
    Some(image)
}

/// The first byte of each whole pixel of an image: its red channel, as a
/// map of one channel takes it. `None` for the formats of scalars.
pub fn convert_single_channel(format: Format, pixels: &Vec<u8>) -> (r: Option<Vec<u8>>)
    ensures
        match format.spec_layout() {
            None => r is None,
            Some(layout) => r matches Some(image) && image@.len() == pixels@.len()
                / layout.stride as nat && forall|i: int|
                0 <= i < image@.len() ==> #[trigger] image@[i] == pixels@[layout.stride * i],
        },
{
    let layout = match format.layout() {
        Some(layout) => layout,
        None => {
            return None;
        },
    };
    let stride: usize = format.chunk_size();
    let size: usize = pixels.len() / stride;
    let mut image: Vec<u8> = Vec::new();
    let mut i: usize = 0;
    while i < size
        invariant
            i <= size,
            stride > 0,
            layout.stride == stride,
            size == pixels@.len() / stride as nat,
            image@.len() == i,
            forall|k: int| 0 <= k < i ==> #[trigger] image@[k] == pixels@[stride * k],
        decreases size - i,
    {
        image.push(pick(pixels, stride, i, Some(0), 0));
        i += 1;
    }
    Some(image)
}

} // verus!
