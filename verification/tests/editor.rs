use crile::ecs::scene::Scene;
use crile::ecs::type_info::TypeInfo;
use crile::editor::project::{Project, ProjectPath};
use crile::editor::state::{apply_hierarchy_action, EditorState, HierachyAction, SceneState, Selection, WindowKind};

fn path(absolute: bool, names: &[&str]) -> ProjectPath {
    ProjectPath { absolute, components: names.iter().map(|s| s.to_string()).collect() }
}

fn project() -> Project {
    Project { name: "Game".to_string(), main_scene: None, directory: path(true, &["home", "me", "game"]) }
}

#[derive(Clone, Debug, PartialEq)]
struct Transform {
    x: i32,
}

#[test]
fn make_absolute_joins_project_directory() {
    let p = project();
    let abs = p.make_absolute(&path(false, &["scenes", "main.scene"]));
    assert!(abs.absolute);
    assert_eq!(abs.components, vec!["home", "me", "game", "scenes", "main.scene"]);
    let already = p.make_absolute(&path(true, &["tmp", "x.scene"]));
    assert!(already.absolute);
    assert_eq!(already.components, vec!["tmp", "x.scene"]);
}

#[test]
fn make_relative_strips_project_directory() {
    let p = project();
    let rel = p.make_relative(&path(true, &["home", "me", "game", "a.scene"])).unwrap();
    assert!(!rel.absolute);
    assert_eq!(rel.components, vec!["a.scene"]);
    assert!(p.make_relative(&path(true, &["home", "you", "a.scene"])).is_none());
    assert!(p.make_relative(&path(false, &["home", "me", "game", "a.scene"])).is_none());
    assert!(p.make_relative(&path(true, &["home"])).is_none());
}

#[test]
fn relative_and_absolute_undo_each_other() {
    let p = project();
    let rel = path(false, &["levels", "one.scene"]);
    let back = p.make_relative(&p.make_absolute(&rel)).unwrap();
    assert_eq!(back.components, rel.components);
    assert!(!back.absolute);
    let abs = path(true, &["home", "me", "game", "x"]);
    let again = p.make_absolute(&p.make_relative(&abs).unwrap());
    assert_eq!(again.components, abs.components);
    assert!(again.absolute);
}

#[test]
fn project_file_and_loaded_directory() {
    let p = project();
    let file = p.project_file();
    assert!(file.absolute);
    assert_eq!(file.components, vec!["home", "me", "game", "project.crile"]);
    let loaded = Project::loaded("Game".to_string(), Some(path(false, &["main.scene"])), &file);
    assert_eq!(loaded.directory.components, vec!["home", "me", "game"]);
    assert!(loaded.directory.absolute);
    assert_eq!(loaded.main_scene.unwrap().components, vec!["main.scene"]);
}

#[test]
fn play_and_stop_restore_the_scene() {
    let mut state: EditorState<Transform> = EditorState::new(project());
    assert!(state.scene_state == SceneState::Editing);
    assert_eq!(state.selection, Selection::Nothing);
    assert_eq!(state.window_open, WindowKind::Nothing);
    state.scene.spawn("Edited", vec![(TypeInfo::of::<Transform>(), Transform { x: 3 })], None);
    state.play_scene();
    assert!(state.scene_state == SceneState::Running);
    state.scene.spawn("Runtime", vec![], None);
    state.scene.despawn(1);
    assert!(!state.scene.world.entity_exists(1));
    state.stop_scene();
    assert!(state.scene_state == SceneState::Editing);
    assert!(state.scene.world.entity_exists(1));
    assert!(!state.scene.world.entity_exists(2));
    assert_eq!(state.scene.get_meta(1).unwrap().name, "Edited");
    assert_eq!(state.scene.world.get(TypeInfo::of::<Transform>().id, 1).map(|c| match c {
        crile::ecs::scene::SceneComponent::Other(t) => t.x,
        _ => -1,
    }), Some(3));
    assert!(state.backup_scene.is_none());
    // Stopping again does nothing.
    state.stop_scene();
    assert!(state.scene_state == SceneState::Editing);
}

#[test]
fn first_saved_scene_becomes_main_scene() {
    let mut state: EditorState<Transform> = EditorState::new(project());
    assert!(state.scene_saved(path(false, &["a.scene"])));
    assert_eq!(state.project.main_scene.as_ref().unwrap().components, vec!["a.scene"]);
    assert!(!state.scene_saved(path(false, &["b.scene"])));
    assert_eq!(state.project.main_scene.as_ref().unwrap().components, vec!["a.scene"]);
    assert_eq!(state.editor_scene_path.as_ref().unwrap().components, vec!["b.scene"]);
}

#[test]
fn loading_a_scene_is_refused_while_running() {
    let mut state: EditorState<Transform> = EditorState::new(project());
    state.play_scene();
    let mut loaded: Scene<Transform> = Scene::default();
    loaded.spawn("Loaded", vec![], None);
    assert!(!state.scene_loaded(loaded, path(false, &["l.scene"])));
    assert!(state.scene_state == SceneState::Running);
    assert!(state.scene.get_meta(1).is_none());
    assert!(state.editor_scene_path.is_none());
}

#[test]
fn loading_a_scene_replaces_the_edited_one() {
    let mut state: EditorState<Transform> = EditorState::new(project());
    let mut loaded: Scene<Transform> = Scene::default();
    loaded.spawn("Loaded", vec![], None);
    assert!(state.scene_loaded(loaded, path(false, &["l.scene"])));
    assert!(state.scene_state == SceneState::Editing);
    assert_eq!(state.scene.get_meta(1).unwrap().name, "Loaded");
    assert_eq!(state.editor_scene_path.as_ref().unwrap().components, vec!["l.scene"]);
}

#[test]
fn hierarchy_actions_change_the_scene() {
    let mut scene: Scene<Transform> = Scene::default();
    let info = TypeInfo::of::<Transform>();
    let a = apply_hierarchy_action(&mut scene, HierachyAction::AddChildEntity(None), vec![(info, Transform { x: 0 })]);
    assert_eq!(a, Some(1));
    let b = apply_hierarchy_action(&mut scene, HierachyAction::AddChildEntity(Some(1)), vec![]);
    assert_eq!(b, Some(2));
    assert_eq!(scene.get_meta(2).unwrap().name, "Empty");
    assert_eq!(scene.get_meta(2).unwrap().parent, 1);
    assert_eq!(apply_hierarchy_action(&mut scene, HierachyAction::Nothing, vec![]), None);
    assert_eq!(apply_hierarchy_action(&mut scene, HierachyAction::DestroyEntity(1), vec![]), None);
    assert!(!scene.world.entity_exists(1));
    assert!(!scene.world.entity_exists(2));
    assert!(scene.root_meta().children.is_empty());
}

