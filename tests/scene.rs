use pathtracer::scene::Scene;

#[test]
fn scene_keeps_insertion_order() {
    let mut scene: Scene<&str, u32, (u8, u8, u8)> = Scene::new((255, 255, 255));
    scene.add_renderable("sphere");
    scene.add_renderable("plane");
    scene.add_light(7);
    scene.add_light(3);
    assert_eq!(scene.get_renderables(), &vec!["sphere", "plane"]);
    assert_eq!(scene.get_lights(), &vec![7, 3]);
    assert_eq!(scene.get_background(), &(255, 255, 255));
}

#[test]
fn new_scene_is_empty() {
    let scene: Scene<u8, u8, f32> = Scene::new(0.25);
    assert!(scene.get_renderables().is_empty());
    assert!(scene.get_lights().is_empty());
    assert_eq!(*scene.get_background(), 0.25);
}
