use inox2d::math::matrix::Matrix2d;
use inox2d::nodes::node_data::{BlendMode, MaskMode};
use inox2d::puppet::{
    allowed_bool, InterpolateMode, PuppetAllowedModification, PuppetAllowedRedistribution, PuppetAllowedUsers,
    PuppetMeta, PuppetUsageRights, INOCHI2D_SPEC_VERSION,
};

#[test]
fn blend_and_mask_modes_from_names() {
    assert_eq!(BlendMode::try_from("Normal").unwrap(), BlendMode::Normal);
    assert_eq!(BlendMode::try_from("SliceFromLower").unwrap(), BlendMode::SliceFromLower);
    assert_eq!(BlendMode::try_from("Overlay").unwrap_err().0, "Overlay");
    assert_eq!(MaskMode::try_from("Mask").unwrap(), MaskMode::Mask);
    assert_eq!(MaskMode::try_from("DodgeMask").unwrap_err().0, "DodgeMask");
}

#[test]
fn usage_right_names() {
    assert_eq!(PuppetAllowedUsers::try_from("OnlyLicensee").unwrap(), PuppetAllowedUsers::OnlyLicensee);
    assert_eq!(PuppetAllowedUsers::try_from("nobody").unwrap_err().0, "nobody");
    assert_eq!(
        PuppetAllowedRedistribution::try_from("ViralLicense").unwrap(),
        PuppetAllowedRedistribution::ViralLicense
    );
    assert_eq!(PuppetAllowedModification::try_from("AllowRedistribute").unwrap(), PuppetAllowedModification::AllowRedistribute);
    assert!(matches!(InterpolateMode::try_from("Linear"), Ok(InterpolateMode::Linear)));
    assert_eq!(InterpolateMode::try_from("Cubic").unwrap_err().0, "Cubic");
    assert_eq!(allowed_bool(true), "allowed");
    assert_eq!(allowed_bool(false), "prohibited");
}

#[test]
fn usage_rights_text() {
    let rights = PuppetUsageRights::default();
    assert_eq!(
        rights.to_display_string(),
        "| allowed users:  only author\n\
         | violence:       prohibited\n\
         | sexual:         prohibited\n\
         | commercial:     prohibited\n\
         | redistribution: prohibited\n\
         | modification:   prohibited\n\
         | attribution: not required\n"
    );
}

#[test]
fn default_meta_has_spec_version() {
    let meta = PuppetMeta::default();
    assert_eq!(meta.version, INOCHI2D_SPEC_VERSION);
    assert!(meta.name.is_none());
    assert!(!meta.preserve_pixels);
}

#[test]
fn matrix_cells() {
    let mut m: Matrix2d<u8> = Matrix2d::from_slice_vecs(&[vec![1, 2, 3], vec![4, 5, 6]]).unwrap();
    assert_eq!(m.width(), 3);
    assert_eq!(m.height(), 2);
    assert_eq!(m[(2, 1)], 6);
    assert_eq!(m.get(0, 1), Some(&4));
    assert_eq!(m.get(0, 2), None);
    *m.get_mut(1, 0).unwrap() = 20;
    assert_eq!(m[(1, 0)], 20);
    let err = Matrix2d::<u8>::from_slice_vecs(&[vec![1], vec![2, 3]]).unwrap_err();
    assert_eq!(err.0, vec![1, 2]);
    let filled: Matrix2d<u8> = Matrix2d::default_filled(2, 3);
    assert_eq!(filled.get(1, 2), Some(&0));
    let empty: Matrix2d<u8> = Matrix2d::from_slice_vecs(&[]).unwrap();
    assert_eq!(empty.width(), 0);
}

#[test]
fn meta_text() {
    let mut meta = PuppetMeta::default();
    meta.name = Some("Aka".to_owned());
    meta.rights = Some(PuppetUsageRights::default());
    meta.thumbnail_id = Some(120);
    meta.contact = Some("someone@example.com".to_owned());
    assert_eq!(
        meta.to_display_string(),
        "Name:            Aka\n\
         Version:         1.0-alpha\n\
         Rights:\n\
         | allowed users:  only author\n\
         | violence:       prohibited\n\
         | sexual:         prohibited\n\
         | commercial:     prohibited\n\
         | redistribution: prohibited\n\
         | modification:   prohibited\n\
         | attribution: not required\n\
         \n\
         Contact:         someone@example.com\n\
         Thumbnail ID:    120\n\
         Preserve pixels: no\n"
    );
    let unnamed = PuppetMeta { preserve_pixels: true, ..PuppetMeta::default() };
    assert_eq!(
        unnamed.to_display_string(),
        "(No Name)\nVersion:         1.0-alpha\nPreserve pixels: yes\n"
    );
}

#[test]
fn unknown_usage_right_names() {
    assert_eq!(PuppetAllowedRedistribution::try_from("Free").unwrap_err().0, "Free");
    assert_eq!(PuppetAllowedModification::try_from("Anything").unwrap_err().0, "Anything");
    assert_eq!(PuppetAllowedRedistribution::try_from("Prohibited").unwrap(), PuppetAllowedRedistribution::Prohibited);
    assert_eq!(PuppetAllowedModification::try_from("Prohibited").unwrap(), PuppetAllowedModification::Prohibited);
    assert_eq!(PuppetAllowedUsers::try_from("OnlyAuthor").unwrap(), PuppetAllowedUsers::OnlyAuthor);
    assert_eq!(PuppetAllowedUsers::Everyone.display_name(), "Everyone");
    assert_eq!(PuppetAllowedRedistribution::ViralLicense.display_name(), "viral license");
    assert_eq!(PuppetAllowedModification::AllowRedistribute.display_name(), "allow redistribute");
}
