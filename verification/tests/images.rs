use asset_inator::formats::img::{Img, ImgContainer};
use asset_inator::{Format, Status};

#[test]
fn garbage_bytes_do_not_decode() {
    let e = Img(ImgContainer::Png).parse(&vec![1, 2, 3, 4]).unwrap_err();
    assert_eq!(e.status, Status::InvalidArgument);
    let e = Img(ImgContainer::Jpeg).parse(&vec![]).unwrap_err();
    assert_eq!(e.status, Status::InvalidArgument);
}

#[test]
fn a_minimal_png_decodes() {
    // a 1x1 RGBA PNG
    let png: Vec<u8> = vec![
        0x89, 0x50, 0x4E, 0x47, 0x0D, 0x0A, 0x1A, 0x0A, 0x00, 0x00, 0x00, 0x0D, 0x49, 0x48,
        0x44, 0x52, 0x00, 0x00, 0x00, 0x01, 0x00, 0x00, 0x00, 0x01, 0x08, 0x06, 0x00, 0x00,
        0x00, 0x1F, 0x15, 0xC4, 0x89, 0x00, 0x00, 0x00, 0x0D, 0x49, 0x44, 0x41, 0x54, 0x78,
        0x9C, 0x63, 0xF8, 0xCF, 0xC0, 0xF0, 0x1F, 0x00, 0x05, 0x00, 0x01, 0xFF, 0x89, 0x99,
        0x3D, 0x1D, 0x00, 0x00, 0x00, 0x00, 0x49, 0x45, 0x4E, 0x44, 0xAE, 0x42, 0x60, 0x82,
    ];
    let img = Img(ImgContainer::Png).parse(&png).unwrap();
    assert_eq!(img.width(), 1);
    assert_eq!(img.height(), 1);
}
