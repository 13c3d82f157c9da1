use vstd::prelude::*;

verus! {

/// The addresses the client answers.
#[derive(Debug, Copy, Clone, PartialEq, Eq, Structural)]
pub enum Route {
    Default,
    Home,
    NotFound,
}

/// The screens the client can show.
#[derive(Debug, Copy, Clone, PartialEq, Eq, Structural)]
pub enum Scene {
    Home,
    NotFound,
}

impl Scene {
    /// The label shown on the scene's button.
    pub fn text(&self) -> (r: String)
        ensures
            *self == Scene::Home ==> r@ == "Home"@,
            *self == Scene::NotFound ==> r@ == "Not found"@,
    {
        match self {
            Scene::Home => "Home".to_owned(),
            Scene::NotFound => "Not found".to_owned(),
        }
    }
}

/// Which scenes a route offers, and which of them starts selected.
pub fn scenes_for_route(route: Route) -> (r: (Vec<Scene>, usize))
    ensures
        (route == Route::Default || route == Route::Home) ==> r.0@ == seq![Scene::Home],
        route == Route::NotFound ==> r.0@ == seq![Scene::NotFound],
        r.1 == 0,
        r.1 < r.0@.len(),
{
    let mut scenes: Vec<Scene> = Vec::new();
    match route {
        Route::Default | Route::Home => {
            scenes.push(Scene::Home);
            proof {
                assert(scenes@ =~= seq![Scene::Home]);
            }
        },
        Route::NotFound => {
            scenes.push(Scene::NotFound);
            proof {
                assert(scenes@ =~= seq![Scene::NotFound]);
            }
        },
    }
    (scenes, 0)
}

} // verus!
