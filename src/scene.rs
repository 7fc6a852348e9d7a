use vstd::prelude::*;

verus! {

/// The apparatus that is currently set up.
#[derive(Clone, Copy, Debug, PartialEq, Eq, Hash, Structural)]
pub enum SelectedScene {
    CylindricalDiode,
    PlateDiode,
}

impl Default for SelectedScene {
    fn default() -> (r: SelectedScene)
        ensures
            r == SelectedScene::CylindricalDiode,
    {
        SelectedScene::CylindricalDiode
    }
}

} // verus!
