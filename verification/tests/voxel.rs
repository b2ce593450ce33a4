use primitive_engineering::internal::color::Color;
use primitive_engineering::internal::voxel::voxel_types::VoxelId;
use primitive_engineering::internal::voxel::{EmptyVoxel, NotEmptyVoxel, Voxel, VOXEL_VALUE_MAX};

/// `x` of a full voxel, in units of `1 / VOXEL_VALUE_MAX`, truncated like the float path.
fn level_of(x: f32) -> i32 {
    let magnitude = (x.abs().clamp(0.0, 1.0) * VOXEL_VALUE_MAX as f32) as i32;
    if x < 0.0 {
        -magnitude
    } else {
        magnitude
    }
}

#[test]
fn modify_voxel() {
    let mut voxel = Voxel::new(level_of(0.5), VoxelId::default());

    assert!(
        !voxel.is_modified(),
        "Voxel should not be modified after creation"
    );

    voxel.set_modified(true);

    assert!(
        voxel.is_modified(),
        "Voxel should preserve the modified state after setting it"
    );

    voxel -= level_of(1.0);

    assert!(
        voxel.is_modified(),
        "Voxel should preserve the modified state after subtraction"
    );
}

#[test]
fn modified_state_for_empty_voxel() {
    let mut voxel = Voxel::new(level_of(-0.5), VoxelId::default());

    assert!(
        !voxel.is_modified(),
        "Voxel should not be modified after creation"
    );

    voxel.set_modified(true);

    assert!(
        voxel.is_modified(),
        "Voxel should preserve the modified state after setting it"
    );
}

#[test]
fn new_voxel_sign_decides_emptiness() {
    let v = Voxel::new(32767, VoxelId::stone());
    assert!(!v.is_empty());
    assert_eq!(v.value(), 32767);
    assert_eq!(v.id(), VoxelId(2));

    let e = Voxel::new(-100, VoxelId::stone());
    assert!(e.is_empty());
    assert_eq!(e.value(), -100);
    assert_eq!(e.id(), VoxelId::default());

    let zero = Voxel::new(0, VoxelId::sand());
    assert!(zero.is_empty());
    assert_eq!(zero.value(), 0);
    assert!(!Voxel::new(1, VoxelId::sand()).is_empty());
}

#[test]
fn new_voxel_clamps_level() {
    assert_eq!(Voxel::new(100_000, VoxelId::dirt()).value(), VOXEL_VALUE_MAX);
    assert_eq!(Voxel::new(-100_000, VoxelId::dirt()).value(), -VOXEL_VALUE_MAX);
    assert_eq!(
        Voxel::new(i32::MIN, VoxelId::dirt()),
        Voxel::Empty(EmptyVoxel { value: 65535, modified: false })
    );
}

#[test]
fn subtraction_lowers_level_and_keeps_flag() {
    let mut v = Voxel::new(1000, VoxelId::snow());
    v.set_modified(true);
    let w = v - 300;
    assert_eq!(w.value(), 700);
    assert!(w.is_modified());
    assert_eq!(w.id(), VoxelId::snow());

    let x = w - 1000;
    assert!(x.is_empty());
    assert_eq!(x.value(), -300);
    assert!(x.is_modified());

    let gone = Voxel::new(1000, VoxelId::snow()) - 1000;
    assert!(gone.is_empty());
    assert_eq!(gone.value(), 0);

    let y = Voxel::new(-65535, VoxelId::snow()) - 10;
    assert_eq!(y.value(), -65535);
    let z = Voxel::new(65535, VoxelId::snow()) - (-10);
    assert_eq!(z.value(), 65535);
}

#[test]
fn default_voxel_is_empty_and_unmodified() {
    let v = Voxel::default();
    assert_eq!(v, Voxel::Empty(EmptyVoxel { value: 0, modified: false }));
    assert_eq!(v, Voxel::empty());
    assert!(v.is_empty());
    assert!(!v.is_modified());
}

#[test]
fn set_modified_changes_only_the_flag() {
    let mut v = Voxel::NotEmpty(NotEmptyVoxel { modified: false, value: 12, id: VoxelId(3) });
    v.set_modified(true);
    assert_eq!(v, Voxel::NotEmpty(NotEmptyVoxel { modified: true, value: 12, id: VoxelId(3) }));
    v.set_modified(false);
    assert!(!v.is_modified());
}

#[test]
fn voxel_ids_and_colors() {
    assert!(VoxelId::new(0).is_empty());
    assert!(!VoxelId::new(5).is_empty());
    assert_eq!(VoxelId::grass().get_color(), Color::rgb_u8(40, 133, 7));
    assert_eq!(VoxelId::dirt().get_color(), Color::rgb_u8(65, 40, 22));
    assert_eq!(VoxelId::stone().get_color(), Color::rgb_u8(100, 100, 100));
    assert_eq!(VoxelId::sand().get_color(), Color::rgb_u8(218, 185, 113));
    assert_eq!(VoxelId::sand_stone().get_color(), Color::rgb_u8(200, 158, 100));
    assert_eq!(VoxelId::snow().get_color(), Color::rgb_u8(255, 255, 255));
    assert_eq!(VoxelId::new(42).get_color(), Color::rgb_u8(255, 0, 255));
}
