use assembly_theory::node::{Texture, TextureType};
use assembly_theory::texture::find_text;

fn s(text: &str) -> String {
    text.to_string()
}

/// An image of a width and a height in which the pixel at `(x, y)` is `(x, y, 7)`.
fn picture(width: u32, height: u32, grid: &str, layout: &str) -> Texture {
    let mut t = Texture::new();
    t.add_attr(s("gridsize"), s(grid)).unwrap();
    t.add_attr(s("gridlayout"), s(layout)).unwrap();
    t.texture_image_dimensions = (width, height);
    for y in 0..height {
        for x in 0..width {
            t.file_data.push(x as u8);
            t.file_data.push(y as u8);
            t.file_data.push(7);
        }
    }
    t
}

fn pixels(data: &[u8]) -> Vec<(u8, u8, u8)> {
    data.chunks(3).map(|p| (p[0], p[1], p[2])).collect()
}

#[test]
fn a_new_texture_is_a_cube_of_one_cell() {
    let t = Texture::new();
    assert_eq!(t.t_type(), TextureType::Cube);
    assert_eq!(t.gridsize(), (1, 1));
    assert_eq!(t.gridlayout(), "");
    assert_eq!(t.rgb1, (128, 102, 76));
    assert_eq!(t.get_file(), "");
}

#[test]
fn typed_attributes_of_a_texture() {
    let mut t = Texture::new();
    t.add_attr(s("type"), s("2d")).unwrap();
    t.add_attr(s("gridsize"), s("3 4")).unwrap();
    t.add_attr(s("file"), s("sky.png")).unwrap();
    assert_eq!(t.t_type(), TextureType::TwoD);
    assert_eq!(t.gridsize(), (3, 4));
    assert_eq!(t.to_load_file(), "sky.png");
    let mut sky = Texture::new();
    sky.add_attr(s("type"), s("skybox")).unwrap();
    assert_eq!(sky.t_type(), TextureType::Skybox);
    let mut cube = Texture::new();
    cube.add_attr(s("type"), s("cube")).unwrap();
    assert_eq!(cube.t_type(), TextureType::Cube);
}

#[test]
fn a_face_is_the_cell_that_the_layout_gives_it() {
    let t = picture(6, 4, "2 3", "LRUDFB");
    let (w, h, data) = t.get_cube_face_raw_image_data(s("L"));
    assert_eq!((w, h), (2, 2));
    assert_eq!(pixels(&data), vec![(0, 0, 7), (1, 0, 7), (0, 1, 7), (1, 1, 7)]);
    let (_, _, data) = t.get_cube_face_raw_image_data(s("U"));
    assert_eq!(pixels(&data), vec![(4, 0, 7), (5, 0, 7), (4, 1, 7), (5, 1, 7)]);
    let (_, _, data) = t.get_cube_face_raw_image_data(s("F"));
    assert_eq!(pixels(&data), vec![(2, 2, 7), (3, 2, 7), (2, 3, 7), (3, 3, 7)]);
    let (_, _, data) = t.get_cube_face_raw_image_data(s("B"));
    assert_eq!(pixels(&data), vec![(4, 2, 7), (5, 2, 7), (4, 3, 7), (5, 3, 7)]);
}

#[test]
fn a_face_without_a_cell_has_the_colour_of_a_missing_face() {
    let t = picture(6, 4, "2 3", "LRUD");
    let (w, h, data) = t.get_cube_face_raw_image_data(s("F"));
    assert_eq!((w, h), (2, 2));
    assert_eq!(pixels(&data), vec![(128, 102, 76); 4]);
    let long = picture(6, 4, "2 3", "......F");
    let (_, _, data) = long.get_cube_face_raw_image_data(s("F"));
    assert_eq!(pixels(&data), vec![(128, 102, 76); 4]);
}

#[test]
fn a_texture_without_an_image_has_faces_without_pixels() {
    let mut t = Texture::new();
    t.add_attr(s("gridlayout"), s("L")).unwrap();
    let (w, h, data) = t.get_cube_face_raw_image_data(s("L"));
    assert_eq!((w, h, data.len()), (0, 0, 0));
}

#[test]
fn cells_leave_out_the_pixels_that_do_not_fill_one() {
    let t = picture(7, 5, "2 3", "LRUDFB");
    let (w, h, data) = t.get_cube_face_raw_image_data(s("D"));
    assert_eq!((w, h), (2, 2));
    assert_eq!(pixels(&data), vec![(0, 2, 7), (1, 2, 7), (0, 3, 7), (1, 3, 7)]);
}

#[test]
fn finding_a_text_in_a_text() {
    assert_eq!(find_text("LRUDFB", "U"), Some(2));
    assert_eq!(find_text("LRUDFB", "X"), None);
    assert_eq!(find_text("abcabc", "bc"), Some(1));
    assert_eq!(find_text("abc", ""), Some(0));
    assert_eq!(find_text("", ""), Some(0));
    assert_eq!(find_text("", "a"), None);
    assert_eq!(find_text("éa", "a"), Some(1));
}

#[test]
fn the_faces_of_a_cube_come_left_right_down_up_front_back() {
    let t = picture(6, 4, "2 3", "LRUDFB");
    let faces = t.get_cube_faces();
    assert_eq!(faces.len(), 6);
    let firsts: Vec<(u8, u8, u8)> = faces.iter().map(|f| pixels(&f.2)[0]).collect();
    assert_eq!(
        firsts,
        vec![(0, 0, 7), (2, 0, 7), (0, 2, 7), (4, 0, 7), (2, 2, 7), (4, 2, 7)]
    );
    for (k, letter) in ["L", "R", "D", "U", "F", "B"].iter().enumerate() {
        assert_eq!(faces[k], t.get_cube_face_raw_image_data(s(letter)));
    }
}

#[test]
fn a_face_without_a_cell_needs_no_image() {
    let mut t = Texture::new();
    t.add_attr(s("gridsize"), s("2 3")).unwrap();
    t.add_attr(s("gridlayout"), s("LRUD")).unwrap();
    t.texture_image_dimensions = (6, 4);
    let (w, h, data) = t.get_cube_face_raw_image_data(s("F"));
    assert_eq!((w, h), (2, 2));
    assert_eq!(pixels(&data), vec![(128, 102, 76); 4]);
}

#[test]
fn a_texture_knows_the_faces_it_has_a_cell_for() {
    let t = picture(6, 4, "2 3", "LRUD");
    assert!(t.has_cell("L"));
    assert!(t.has_cell("D"));
    assert!(!t.has_cell("F"));
    let long = picture(6, 4, "2 3", "......F");
    assert!(!long.has_cell("F"));
    assert!(long.has_cell("."));
}
