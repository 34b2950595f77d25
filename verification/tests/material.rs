use term3d::display::Rgb;
use term3d::material::{
    average, Material, MaterialGenericColor, MaterialGenericTexture, RgbaImage,
};

#[test]
fn average_leaves_out_black_and_clear_pixels() {
    let image = RgbaImage {
        pixels: vec![[10, 20, 30, 255], [0, 0, 0, 255], [200, 100, 50, 0], [21, 41, 61, 1]],
    };
    assert_eq!(average(&image), Some(Rgb(15, 30, 45)));
}

#[test]
fn average_rounds_down() {
    let image = RgbaImage { pixels: vec![[1, 0, 255, 255], [2, 0, 255, 255], [2, 1, 254, 9]] };
    assert_eq!(average(&image), Some(Rgb(1, 0, 254)));
}

#[test]
fn average_of_nothing_is_nothing() {
    assert_eq!(average(&RgbaImage { pixels: vec![] }), None);
    assert_eq!(average(&RgbaImage { pixels: vec![[0, 0, 0, 255], [9, 9, 9, 0]] }), None);
}

#[test]
fn texture_shows_its_average() {
    let image = RgbaImage { pixels: vec![[0, 0, 1, 255], [0, 0, 3, 255]] };
    let texture = MaterialGenericTexture::new(image);
    assert_eq!(texture.sample(), Rgb(0, 0, 2));
    assert!(MaterialGenericTexture::try_new(RgbaImage { pixels: vec![[0, 0, 0, 1]] }).is_none());
    let texture = MaterialGenericTexture::try_new(RgbaImage { pixels: vec![[7, 8, 9, 1]] });
    assert_eq!(Material::Texture(texture.unwrap()).sample(), Rgb(7, 8, 9));
}

#[test]
fn flat_material_shows_its_colour() {
    let flat = MaterialGenericColor::new(Rgb(1, 2, 3));
    assert_eq!(flat.sample(), Rgb(1, 2, 3));
    assert_eq!(Material::Color(flat).sample(), Rgb(1, 2, 3));
}
