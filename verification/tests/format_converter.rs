use kor_engine::format_converter::{
    convert_R16, convert_R16G16, convert_R16G16B16, convert_R16G16B16A16, convert_R8, convert_R8G8,
    convert_R8G8B8, convert_R8G8B8A8, convert_single_channel, convert_texture, Format,
};

fn bytes(count: u8) -> Vec<u8> {
    (1..=count).collect()
}

#[test]
fn three_bytes_become_blue_green_red_opaque() {
    assert_eq!(convert_R8G8B8(&bytes(6)), vec![3, 2, 1, 255, 6, 5, 4, 255]);
    assert_eq!(convert_R8G8B8(&bytes(8)), vec![3, 2, 1, 255, 6, 5, 4, 255]);
    assert_eq!(convert_R8G8B8(&bytes(2)), Vec::<u8>::new());
    assert_eq!(convert_R8G8B8(&vec![]), Vec::<u8>::new());
}

#[test]
fn wide_channels_keep_their_first_byte() {
    assert_eq!(convert_R16G16B16(&bytes(12)), vec![5, 3, 1, 255, 11, 9, 7, 255]);
    assert_eq!(convert_R16G16B16A16(&bytes(16)), vec![5, 3, 1, 7, 13, 11, 9, 15]);
    assert_eq!(convert_R16G16(&bytes(8)), vec![0, 3, 1, 255, 0, 7, 5, 255]);
    assert_eq!(convert_R16(&bytes(5)), vec![0, 0, 1, 255, 0, 0, 3, 255]);
}

#[test]
fn missing_channels_are_black_and_opaque() {
    assert_eq!(convert_R8G8(&bytes(4)), vec![0, 2, 1, 255, 0, 4, 3, 255]);
    assert_eq!(convert_R8(&bytes(2)), vec![0, 0, 1, 255, 0, 0, 2, 255]);
}

#[test]
fn alpha_is_kept_where_the_source_has_it() {
    assert_eq!(convert_R8G8B8A8(&bytes(8)), vec![3, 2, 1, 4, 7, 6, 5, 8]);
}

#[test]
fn convert_texture_goes_by_the_format() {
    assert_eq!(convert_texture(Format::R8G8B8, &bytes(6)), Some(vec![[3, 2, 1, 255], [6, 5, 4, 255]]));
    assert_eq!(convert_texture(Format::R16G16, &bytes(4)), Some(vec![[0, 3, 1, 255]]));
    assert_eq!(convert_texture(Format::R8G8B8A8, &bytes(4)), Some(vec![[3, 2, 1, 4]]));
    assert_eq!(convert_texture(Format::R16G16B16A16, &bytes(8)), Some(vec![[5, 3, 1, 7]]));
    assert_eq!(convert_texture(Format::R8, &bytes(1)), Some(vec![[0, 0, 1, 255]]));
    assert_eq!(convert_texture(Format::R16, &bytes(2)), Some(vec![[0, 0, 1, 255]]));
    assert_eq!(convert_texture(Format::R8G8, &bytes(2)), Some(vec![[0, 2, 1, 255]]));
    assert_eq!(convert_texture(Format::R16G16B16, &bytes(6)), Some(vec![[5, 3, 1, 255]]));
    assert_eq!(convert_texture(Format::R32G32B32FLOAT, &bytes(12)), None);
    assert_eq!(convert_texture(Format::R32G32B32A32FLOAT, &bytes(16)), None);
}

#[test]
fn single_channel_is_the_first_byte_of_each_pixel() {
    assert_eq!(convert_single_channel(Format::R8G8B8, &bytes(7)), Some(vec![1, 4]));
    assert_eq!(convert_single_channel(Format::R16G16B16A16, &bytes(16)), Some(vec![1, 9]));
    assert_eq!(convert_single_channel(Format::R8, &bytes(3)), Some(vec![1, 2, 3]));
    assert_eq!(convert_single_channel(Format::R32G32B32FLOAT, &bytes(12)), None);
}

#[test]
fn chunk_sizes_are_the_bytes_of_a_pixel() {
    let sizes: Vec<usize> = [
        Format::R8,
        Format::R8G8,
        Format::R8G8B8,
        Format::R8G8B8A8,
        Format::R16,
        Format::R16G16,
        Format::R16G16B16,
        Format::R16G16B16A16,
        Format::R32G32B32FLOAT,
        Format::R32G32B32A32FLOAT,
    ]
    .iter()
    .map(|f| f.chunk_size())
    .collect();
    assert_eq!(sizes, vec![1, 2, 3, 4, 2, 4, 6, 8, 12, 16]);
    assert_eq!(Format::R8G8B8.layout().unwrap().stride, 3);
    assert!(Format::R32G32B32FLOAT.layout().is_none());
}
