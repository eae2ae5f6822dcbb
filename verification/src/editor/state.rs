use vstd::prelude::*;
use crate::ecs::components::EntityId;
use crate::ecs::scene::{can_despawn, can_spawn, despawned, meta_of, parent_or_root, spawned, Scene};
use crate::ecs::type_info::TypeInfo;
use crate::ecs::world::cloned_view;
use crate::editor::project::{Project, ProjectPath};

verus! {

/// What the editor's inspector shows.
#[derive(PartialEq, Eq, Debug, Clone, Copy, Structural)]
pub enum Selection {
    Entity(EntityId),
    Nothing,
}

/// The popup windows of the editor.
#[derive(Eq, Hash, PartialEq, Debug, Clone, Copy, Structural)]
pub enum WindowKind {
    Preferences,
    Nothing,
}

/// Whether the scene is being edited or played.
#[derive(Eq, PartialEq, Debug, Clone, Copy, Structural)]
pub enum SceneState {
    Editing,
    Running,
}

/// What a click in the hierarchy panel asks for.
#[derive(Eq, PartialEq, Debug, Clone, Copy, Structural)]
pub enum HierachyAction {
    Nothing,
    /// Spawn an empty entity under the given parent, or under the root.
    AddChildEntity(Option<EntityId>),
    DestroyEntity(EntityId),
}

/// What the editor keeps while a scene runs: the scene as it was before playing, and
/// the id of the game window.
pub struct RuntimeData<C> {
    pub backup_scene: Scene<C>,
    pub game_window_id: u64,
}

/// The editor's state that outlives a frame: the scene being edited or played, where it
/// was saved, what is selected, the open project and the open popup window.
pub struct EditorState<C> {
    pub scene: Scene<C>,
    pub scene_state: SceneState,
    pub editor_scene_path: Option<ProjectPath>,
    /// The scene as it was when it started playing.
    pub backup_scene: Option<Scene<C>>,
    pub selection: Selection,
    pub project: Project,
    pub window_open: WindowKind,
}

/// `copy` holds a clone of each entity and component of `scene`.
pub open spec fn is_copy_of<C: Clone>(copy: Scene<C>, scene: Scene<C>) -> bool {
    &&& copy.wf()
    &&& copy.meta_info == scene.meta_info
    &&& cloned_view(scene.view(), copy.view())
}

/// `after` is `before` playing, with a copy of the scene kept to come back to.
pub open spec fn played<C: Clone>(before: EditorState<C>, after: EditorState<C>) -> bool {
    &&& after.backup_scene matches Some(backup) && is_copy_of(backup, before.scene)
    &&& after.scene_state == SceneState::Running
    &&& after.scene == before.scene
    &&& after.editor_scene_path == before.editor_scene_path
    &&& after.selection == before.selection
    &&& after.project == before.project
    &&& after.window_open == before.window_open
}

/// `after` is `before` stopped: a running scene is replaced by its backup, and an edited
/// one is left as it is.
pub open spec fn stopped<C>(before: EditorState<C>, after: EditorState<C>) -> bool {
    &&& after.scene_state == SceneState::Editing
    &&& before.scene_state == SceneState::Running ==> {
        &&& Some(after.scene) == before.backup_scene
        &&& after.backup_scene is None
    }
    &&& before.scene_state == SceneState::Editing ==> {
        &&& after.scene == before.scene
        &&& after.backup_scene == before.backup_scene
    }
    &&& after.editor_scene_path == before.editor_scene_path
    &&& after.selection == before.selection
    &&& after.project == before.project
    &&& after.window_open == before.window_open
}

/// Law: stopping a scene that was just played brings back a copy of the scene as it was
/// when it started playing.
pub proof fn law_stop_restores_played_scene<C: Clone>(s0: EditorState<C>, s1: EditorState<C>, s2: EditorState<C>)
    requires
        played(s0, s1),
        stopped(s1, s2),
    ensures
        is_copy_of(s2.scene, s0.scene),
        s2.scene_state == SceneState::Editing,
        s2.backup_scene is None,
        s2.project == s0.project,
        s2.editor_scene_path == s0.editor_scene_path,
{
}

impl<C: Clone> EditorState<C> {
    /// Starts playing the scene, keeping a copy of it to come back to when it stops.
    pub fn play_scene(&mut self)
        requires
            old(self).wf(),
        ensures
            final(self).wf(),
            played(*old(self), *final(self)),
    {
        self.backup_scene = Some(self.scene.clone());
        self.scene_state = SceneState::Running;
    }
}

impl<C> EditorState<C> {
    /// Whether the state can be kept: the scenes are well formed, and a running scene has
    /// its backup.
    pub open spec fn wf(&self) -> bool {
        &&& self.scene.wf()
        &&& self.backup_scene matches Some(b) ==> b.wf()
        &&& self.scene_state == SceneState::Running ==> self.backup_scene is Some
    }

    /// A fresh editor: the default scene, editing, nothing selected, and `project`.
    pub fn new(project: Project) -> (r: EditorState<C>)
        ensures
            r.wf(),
            r.scene.wf(),
            r.scene.view().dom() == Set::<usize>::empty().insert(Scene::<C>::ROOT_ID),
            meta_of(r.scene.view(), r.scene.meta_id(), Scene::<C>::ROOT_ID) matches Some(m) && m.name@ == "Root"@
                && m.children@ == Seq::<EntityId>::empty(),
            r.scene_state == SceneState::Editing,
            r.editor_scene_path is None,
            r.backup_scene is None,
            r.selection == Selection::Nothing,
            r.project == project,
            r.window_open == WindowKind::Nothing,
    {
        EditorState {
            scene: Scene::default(),
            scene_state: SceneState::Editing,
            editor_scene_path: None,
            backup_scene: None,
            selection: Selection::Nothing,
            project,
            window_open: WindowKind::Nothing,
        }
    }

    /// Stops a running scene and brings back the scene as it was before it started;
    /// does nothing while editing.
    pub fn stop_scene(&mut self)
        requires
            old(self).wf(),
        ensures
            final(self).wf(),
            stopped(*old(self), *final(self)),
    {
        if self.scene_state != SceneState::Running {
            return;
        }
        match self.backup_scene.take() {
            Some(backup) => {
                self.scene = backup;
            },
            None => {},
        }
        self.scene_state = SceneState::Editing;
    }

    /// Records that the scene was saved at `path` (relative to the project). The first
    /// saved scene becomes the project's main scene; the result says whether the project
    /// must then be saved.
    pub fn scene_saved(&mut self, path: ProjectPath) -> (save_project: bool)
        ensures
            final(self).editor_scene_path == Some(path),
            save_project == old(self).project.main_scene is None,
            save_project ==> (final(self).project.main_scene matches Some(m) && m.absolute == path.absolute
                && m.names() == path.names()),
            !save_project ==> final(self).project.main_scene == old(self).project.main_scene,
            final(self).project.name == old(self).project.name,
            final(self).project.directory == old(self).project.directory,
            final(self).scene == old(self).scene,
            final(self).scene_state == old(self).scene_state,
            final(self).backup_scene == old(self).backup_scene,
            final(self).selection == old(self).selection,
            final(self).window_open == old(self).window_open,
    {
        let save_project = self.project.main_scene.is_none();
        if save_project {
            self.project.main_scene = Some(path.copy());
        }
        self.editor_scene_path = Some(path);
        save_project
    }

    /// Replaces the scene with one loaded from `path` and returns `true`; while a scene
    /// runs, loading is refused: nothing changes and the result is `false`.
    pub fn scene_loaded(&mut self, scene: Scene<C>, path: ProjectPath) -> (loaded: bool)
        requires
            old(self).wf(),
            scene.wf(),
        ensures
            final(self).wf(),
            loaded == (old(self).scene_state == SceneState::Editing),
            !loaded ==> *final(self) == *old(self),
            loaded ==> {
                &&& final(self).scene == scene
                &&& final(self).scene_state == SceneState::Editing
                &&& final(self).editor_scene_path == Some(path)
                &&& final(self).backup_scene == old(self).backup_scene
                &&& final(self).selection == old(self).selection
                &&& final(self).project == old(self).project
                &&& final(self).window_open == old(self).window_open
            },
    {
        if self.scene_state == SceneState::Running {
            return false;
        }
        self.scene = scene;
        self.editor_scene_path = Some(path);
        true
    }
}

/// Carries out what the hierarchy panel asked for: spawns an entity named `Empty` with
/// `components` under the given parent (or the root) and returns it, or despawns an
/// entity with everything below it.
pub fn apply_hierarchy_action<C>(
    scene: &mut Scene<C>,
    action: HierachyAction,
    components: Vec<(TypeInfo, C)>,
) -> (r: Option<EntityId>)
    requires
        old(scene).wf(),
        match action {
            HierachyAction::AddChildEntity(parent) => can_spawn(*old(scene), components@, parent_or_root(parent)),
            HierachyAction::DestroyEntity(id) => can_despawn(*old(scene), id),
            HierachyAction::Nothing => true,
        },
    ensures
        final(scene).wf(),
        match action {
            HierachyAction::AddChildEntity(parent) => r matches Some(e) && spawned(
                *old(scene),
                *final(scene),
                "Empty"@,
                components@,
                parent_or_root(parent),
                e,
            ),
            HierachyAction::DestroyEntity(id) => r is None && despawned(*old(scene), *final(scene), id),
            HierachyAction::Nothing => r is None && *final(scene) == *old(scene),
        },
{
    match action {
        HierachyAction::AddChildEntity(parent) => {
            let name = "Empty";
            proof {
                reveal_strlit("Empty");
            }
            Some(scene.spawn(name, components, parent))
        },
        HierachyAction::DestroyEntity(id) => {
            scene.despawn(id);
            None
        },
        HierachyAction::Nothing => None,
    }
}

} // verus!
