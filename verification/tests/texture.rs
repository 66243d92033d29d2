use inox2d::texture::loading::{
    in_add_texture_binary, in_begin_texture_loading, in_end_texture_loading, in_get_latest_texture,
    in_get_texture_from_id, Filtering, TextureBindings,
};
use inox2d::texture::{in_tex_premultiply, in_tex_unpremultiply, TextureId};

#[test]
fn premultiply_scales_colour_by_alpha() {
    let mut buf = [100u8, 50, 200, 128, 9, 9];
    in_tex_premultiply(&mut buf);
    assert_eq!(buf, [50, 25, 100, 128, 9, 9]);
}

#[test]
fn premultiply_keeps_opaque_and_clears_transparent() {
    let mut buf = [1u8, 2, 3, 255, 200, 100, 50, 0];
    in_tex_premultiply(&mut buf);
    assert_eq!(buf, [1, 2, 3, 255, 0, 0, 0, 0]);
}

#[test]
fn unpremultiply_divides_colour_by_alpha() {
    let mut buf = [50u8, 25, 100, 128, 7, 8, 9, 0, 1];
    in_tex_unpremultiply(&mut buf);
    assert_eq!(buf, [99, 49, 199, 128, 7, 8, 9, 0, 1]);
}

#[test]
fn unpremultiply_truncates_to_eight_bits() {
    let mut buf = [200u8, 0, 0, 100];
    in_tex_unpremultiply(&mut buf);
    assert_eq!(buf, [254, 0, 0, 100]);
}

#[test]
fn opaque_round_trip() {
    let original = [12u8, 34, 56, 255, 78, 90, 12, 255];
    let mut buf = original;
    in_tex_premultiply(&mut buf);
    in_tex_unpremultiply(&mut buf);
    assert_eq!(buf, original);
}

#[test]
fn loading_pass_binds_and_releases() {
    let mut bindings: TextureBindings<&str> = TextureBindings::new();
    in_begin_texture_loading(&mut bindings);
    assert_eq!(in_get_latest_texture(&bindings), None);
    in_add_texture_binary(&mut bindings, "albedo");
    in_add_texture_binary(&mut bindings, "emissive");
    assert_eq!(in_get_texture_from_id(&bindings, 0), Some(&"albedo"));
    assert_eq!(in_get_texture_from_id(&bindings, 1), Some(&"emissive"));
    assert_eq!(in_get_texture_from_id(&bindings, 2), None);
    assert_eq!(in_get_latest_texture(&bindings), Some(&"emissive"));
    in_end_texture_loading(&mut bindings);
    in_begin_texture_loading(&mut bindings);
    assert_eq!(in_get_texture_from_id(&bindings, 0), None);
    in_end_texture_loading(&mut bindings);
}

#[test]
fn texture_ids_and_filtering() {
    assert_eq!(TextureId(7).raw(), 7);
    assert_ne!(Filtering::Linear, Filtering::Point);
}

#[test]
fn premultiply_round_trip_loses_at_most_a_step_of_alpha() {
    let original = vec![200u8, 100, 7, 3, 9, 9, 9, 0, 255, 128, 1, 128, 5];
    let mut buf = original.clone();
    in_tex_premultiply(&mut buf);
    assert_eq!(buf, vec![2, 1, 0, 3, 0, 0, 0, 0, 128, 64, 0, 128, 5]);
    in_tex_unpremultiply(&mut buf);
    assert_eq!(buf, vec![170, 85, 0, 3, 0, 0, 0, 0, 255, 127, 0, 128, 5]);
    for p in 0..3 {
        let a = original[4 * p + 3];
        assert_eq!(buf[4 * p + 3], a);
        for c in 0..3 {
            let (before, after) = (original[4 * p + c], buf[4 * p + c]);
            if a == 0 {
                assert_eq!(after, 0);
            } else {
                assert!(after <= before && before - after <= 255 / a + 1);
            }
        }
    }
}
