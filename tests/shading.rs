use raytracer_rs::scene::{gather_columns, plan_shading};
use raytracer_rs::{ShadePlan, SurfaceKind, Viewport};

#[test]
fn reflective_sphere_with_no_generations_is_black() {
    assert_eq!(plan_shading(true, 0, 0, SurfaceKind::Reflective), ShadePlan::Black);
    assert_eq!(plan_shading(false, 0, 0, SurfaceKind::Reflective), ShadePlan::Background);
}

#[test]
fn generation_bound_is_black_and_children_are_one_older() {
    assert_eq!(plan_shading(true, 3, 3, SurfaceKind::Diffuse), ShadePlan::Black);
    assert_eq!(plan_shading(true, 4, 3, SurfaceKind::Refractive), ShadePlan::Black);
    assert_eq!(plan_shading(true, 2, 3, SurfaceKind::Diffuse), ShadePlan::Direct);
    assert_eq!(
        plan_shading(true, 2, 3, SurfaceKind::Reflective),
        ShadePlan::DirectAndReflection { child: 3 }
    );
    assert_eq!(plan_shading(true, 0, 5, SurfaceKind::Refractive), ShadePlan::Fresnel { child: 1 });
}

#[test]
fn gather_places_columns_in_any_order() {
    let cols = vec![(1u32, vec![10, 11, 12, 13, 14, 15]), (0u32, vec![1, 2, 3, 4, 5, 6])];
    let img = gather_columns(3, 2, &cols);
    assert_eq!(
        img,
        vec![1, 2, 3, 10, 11, 12, 0, 0, 0, 4, 5, 6, 13, 14, 15, 0, 0, 0]
    );
}

#[test]
fn viewport_default_is_800_by_600() {
    let v = Viewport::default();
    assert_eq!((v.width, v.height), (800, 600));
    assert_eq!(Viewport::new(4, 2), Viewport { width: 4, height: 2 });
}

#[test]
fn gather_result_is_independent_of_arrival_order() {
    let a = (0u32, vec![1, 1, 1]);
    let b = (1u32, vec![2, 2, 2]);
    let c = (2u32, vec![3, 3, 3]);
    let forward = gather_columns(3, 1, &vec![a.clone(), b.clone(), c.clone()]);
    let shuffled = gather_columns(3, 1, &vec![c, a, b]);
    assert_eq!(forward, shuffled);
    assert_eq!(forward, vec![1, 1, 1, 2, 2, 2, 3, 3, 3]);
}
