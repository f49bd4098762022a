use vstd::prelude::*;
use vstd::string::StringSliceAdditionalSpecFns;

verus! {

/// The sample scenes.
#[derive(PartialEq, Eq, Structural, Clone, Copy, Debug)]
pub enum Scene {
    /// A scene with bounding spheres, test for basic optics
    BoundingSphere,
    /// A scene with spheres having checker texture
    CheckerSphere,
    /// A globe with image mapping
    Earth,
    /// A sphere with perlin noise
    PerlinSphere,
    /// Five quads
    Quads,
    /// Simple light source
    Light,
    /// Cornell box
    CornellBox,
    /// Cornell box with smoke
    CornellSmoke,
    /// Final cover of book2
    FinalScene,
    /// Final cover of book2 with high quality
    FinalSceneHQ,
}

/// What a scene is rendered with: the image's aspect ratio as
/// `aspect_width : aspect_height`, its width in pixels, the samples taken per
/// pixel and the most bounces a ray makes.
#[derive(PartialEq, Eq, Structural, Clone, Copy, Debug)]
pub struct RenderSettings {
    /// Horizontal part of the aspect ratio.
    pub aspect_width: u32,
    /// Vertical part of the aspect ratio.
    pub aspect_height: u32,
    /// Rendered image width in pixels.
    pub image_width: u32,
    /// Random samples for each pixel.
    pub samples_per_pixel: u32,
    /// Most bounces of a ray into the scene.
    pub max_depth: u32,
}

/// The world to build and the settings to render it with.
#[derive(PartialEq, Eq, Structural, Clone, Copy, Debug)]
pub struct SceneSetup {
    /// The scene whose world is built.
    pub scene: Scene,
    /// How the world is rendered.
    pub settings: RenderSettings,
}

/// Render settings made of their five parts.
pub open spec fn settings(aw: u32, ah: u32, width: u32, spp: u32, depth: u32) -> RenderSettings {
    RenderSettings {
        aspect_width: aw,
        aspect_height: ah,
        image_width: width,
        samples_per_pixel: spp,
        max_depth: depth,
    }
}

/// The settings each scene is rendered with.
pub open spec fn spec_scene_settings(option: Scene) -> RenderSettings {
    match option {
        Scene::BoundingSphere => settings(16, 9, 800, 100, 50),
        Scene::CheckerSphere => settings(16, 9, 400, 100, 50),
        Scene::Earth => settings(16, 9, 800, 100, 50),
        Scene::PerlinSphere => settings(16, 9, 1200, 200, 50),
        Scene::Quads => settings(16, 9, 800, 200, 50),
        Scene::Light => settings(16, 9, 800, 200, 50),
        Scene::CornellBox => settings(1, 1, 600, 200, 50),
        Scene::CornellSmoke => settings(1, 1, 600, 200, 50),
        Scene::FinalScene => settings(1, 1, 400, 250, 4),
        Scene::FinalSceneHQ => settings(1, 1, 800, 10000, 40),
    }
}

/// The world that a scene option builds: both final options build the
/// final scene, which differ only in their render settings.
pub open spec fn spec_scene_world(option: Scene) -> Scene {
    match option {
        Scene::FinalSceneHQ => Scene::FinalScene,
        _ => option,
    }
}

fn make_settings(aw: u32, ah: u32, width: u32, spp: u32, depth: u32) -> (s: RenderSettings)
    ensures
        s == settings(aw, ah, width, spp, depth),
{
    RenderSettings {
        aspect_width: aw,
        aspect_height: ah,
        image_width: width,
        samples_per_pixel: spp,
        max_depth: depth,
    }
}

/// Chooses the world to build and the settings to render it with for a
/// scene option.
pub fn run_scene(option: Scene) -> (setup: SceneSetup)
    ensures
        setup.scene == spec_scene_world(option),
        setup.settings == spec_scene_settings(option),
{
    match option {
        Scene::BoundingSphere => SceneSetup {
            scene: Scene::BoundingSphere,
            settings: make_settings(16, 9, 800, 100, 50),
        },
        Scene::CheckerSphere => SceneSetup {
            scene: Scene::CheckerSphere,
            settings: make_settings(16, 9, 400, 100, 50),
        },
        Scene::Earth => SceneSetup { scene: Scene::Earth, settings: make_settings(16, 9, 800, 100, 50) },
        Scene::PerlinSphere => SceneSetup {
            scene: Scene::PerlinSphere,
            settings: make_settings(16, 9, 1200, 200, 50),
        },
        Scene::Quads => SceneSetup { scene: Scene::Quads, settings: make_settings(16, 9, 800, 200, 50) },
        Scene::Light => SceneSetup { scene: Scene::Light, settings: make_settings(16, 9, 800, 200, 50) },
        Scene::CornellBox => SceneSetup {
            scene: Scene::CornellBox,
            settings: make_settings(1, 1, 600, 200, 50),
        },
        Scene::CornellSmoke => SceneSetup {
            scene: Scene::CornellSmoke,
            settings: make_settings(1, 1, 600, 200, 50),
        },
        Scene::FinalScene => SceneSetup {
            scene: Scene::FinalScene,
            settings: make_settings(1, 1, 400, 250, 4),
        },
        Scene::FinalSceneHQ => SceneSetup {
            scene: Scene::FinalScene,
            settings: make_settings(1, 1, 800, 10000, 40),
        },
    }
}

/// The scene that a command-line name selects, by the name's bytes.
pub open spec fn spec_scene_named(name: Seq<u8>) -> Option<Scene> {
    if name == "bounding".spec_bytes() {
        Some(Scene::BoundingSphere)
    } else if name == "checker".spec_bytes() {
        Some(Scene::CheckerSphere)
    } else if name == "earth".spec_bytes() {
        Some(Scene::Earth)
    } else if name == "perlin".spec_bytes() {
        Some(Scene::PerlinSphere)
    } else if name == "quads".spec_bytes() {
        Some(Scene::Quads)
    } else if name == "light".spec_bytes() {
        Some(Scene::Light)
    } else if name == "cornell".spec_bytes() {
        Some(Scene::CornellBox)
    } else if name == "smoke".spec_bytes() {
        Some(Scene::CornellSmoke)
    } else if name == "final".spec_bytes() {
        Some(Scene::FinalScene)
    } else if name == "hq".spec_bytes() {
        Some(Scene::FinalSceneHQ)
    } else {
        None
    }
}

/// Whether two byte strings are equal.
fn bytes_eq(a: &[u8], b: &[u8]) -> (eq: bool)
    ensures
        eq == (a@ == b@),
{
    if a.len() != b.len() {
        return false;
    }
    let n = a.len();
    for k in 0..n
        invariant
            n == a@.len(),
            n == b@.len(),
            forall|m: int| 0 <= m < k ==> a@[m] == b@[m],
    {
        if a[k] != b[k] {
            return false;
        }
    }
    assert(a@ =~= b@);
    true
}

impl Scene {
    /// The scene that a command-line name selects (`bounding`, `checker`,
    /// `earth`, `perlin`, `quads`, `light`, `cornell`, `smoke`, `final`,
    /// `hq`), or `None` for any other name.
    pub fn from_name(name: &str) -> (scene: Option<Scene>)
        ensures
            scene == spec_scene_named(name.spec_bytes()),
    {
        let b = name.as_bytes();
        if bytes_eq(b, "bounding".as_bytes()) {
            Some(Scene::BoundingSphere)
        } else if bytes_eq(b, "checker".as_bytes()) {
            Some(Scene::CheckerSphere)
        } else if bytes_eq(b, "earth".as_bytes()) {
            Some(Scene::Earth)
        } else if bytes_eq(b, "perlin".as_bytes()) {
            Some(Scene::PerlinSphere)
        } else if bytes_eq(b, "quads".as_bytes()) {
            Some(Scene::Quads)
        } else if bytes_eq(b, "light".as_bytes()) {
            Some(Scene::Light)
        } else if bytes_eq(b, "cornell".as_bytes()) {
            Some(Scene::CornellBox)
        } else if bytes_eq(b, "smoke".as_bytes()) {
            Some(Scene::CornellSmoke)
        } else if bytes_eq(b, "final".as_bytes()) {
            Some(Scene::FinalScene)
        } else if bytes_eq(b, "hq".as_bytes()) {
            Some(Scene::FinalSceneHQ)
        } else {
            None
        }
    }
}

} // verus!
