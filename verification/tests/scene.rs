use ray_tracer::scene::{run_scene, RenderSettings, Scene, SceneSetup};

fn setup(scene: Scene, aw: u32, ah: u32, w: u32, spp: u32, depth: u32) -> SceneSetup {
    SceneSetup {
        scene,
        settings: RenderSettings {
            aspect_width: aw,
            aspect_height: ah,
            image_width: w,
            samples_per_pixel: spp,
            max_depth: depth,
        },
    }
}

#[test]
fn run_scene_wide_scenes() {
    assert_eq!(run_scene(Scene::BoundingSphere), setup(Scene::BoundingSphere, 16, 9, 800, 100, 50));
    assert_eq!(run_scene(Scene::CheckerSphere), setup(Scene::CheckerSphere, 16, 9, 400, 100, 50));
    assert_eq!(run_scene(Scene::Earth), setup(Scene::Earth, 16, 9, 800, 100, 50));
    assert_eq!(run_scene(Scene::PerlinSphere), setup(Scene::PerlinSphere, 16, 9, 1200, 200, 50));
    assert_eq!(run_scene(Scene::Quads), setup(Scene::Quads, 16, 9, 800, 200, 50));
    assert_eq!(run_scene(Scene::Light), setup(Scene::Light, 16, 9, 800, 200, 50));
}

#[test]
fn run_scene_square_scenes() {
    assert_eq!(run_scene(Scene::CornellBox), setup(Scene::CornellBox, 1, 1, 600, 200, 50));
    assert_eq!(run_scene(Scene::CornellSmoke), setup(Scene::CornellSmoke, 1, 1, 600, 200, 50));
}

#[test]
fn run_scene_final_scenes_share_a_world() {
    assert_eq!(run_scene(Scene::FinalScene), setup(Scene::FinalScene, 1, 1, 400, 250, 4));
    assert_eq!(run_scene(Scene::FinalSceneHQ), setup(Scene::FinalScene, 1, 1, 800, 10000, 40));
}

#[test]
fn scene_names() {
    assert_eq!(Scene::from_name("bounding"), Some(Scene::BoundingSphere));
    assert_eq!(Scene::from_name("checker"), Some(Scene::CheckerSphere));
    assert_eq!(Scene::from_name("earth"), Some(Scene::Earth));
    assert_eq!(Scene::from_name("perlin"), Some(Scene::PerlinSphere));
    assert_eq!(Scene::from_name("quads"), Some(Scene::Quads));
    assert_eq!(Scene::from_name("light"), Some(Scene::Light));
    assert_eq!(Scene::from_name("cornell"), Some(Scene::CornellBox));
    assert_eq!(Scene::from_name("smoke"), Some(Scene::CornellSmoke));
    assert_eq!(Scene::from_name("final"), Some(Scene::FinalScene));
    assert_eq!(Scene::from_name("hq"), Some(Scene::FinalSceneHQ));
}

#[test]
fn unknown_scene_names() {
    assert_eq!(Scene::from_name(""), None);
    assert_eq!(Scene::from_name("Final"), None);
    assert_eq!(Scene::from_name("finals"), None);
    assert_eq!(Scene::from_name("fina"), None);
}
