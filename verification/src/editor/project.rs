use vstd::prelude::*;

verus! {

/// A file system path as its components: whether it starts at the root, and the names
/// in it.
pub struct ProjectPath {
    pub absolute: bool,
    pub components: Vec<String>,
}

/// The names of a path's components.
pub open spec fn component_names(components: Seq<String>) -> Seq<Seq<char>> {
    components.map_values(|s: String| s@)
}

impl ProjectPath {
    pub open spec fn names(&self) -> Seq<Seq<char>> {
        component_names(self.components@)
    }
}

/// `base` with `path` appended: `path` itself if it is absolute.
pub open spec fn joined(
    base_absolute: bool,
    base: Seq<Seq<char>>,
    path_absolute: bool,
    path: Seq<Seq<char>>,
) -> (bool, Seq<Seq<char>>) {
    if path_absolute {
        (true, path)
    } else {
        (base_absolute, base + path)
    }
}

/// `path` with the leading components `prefix` taken off, if it starts with them; the
/// rest is a relative path.
pub open spec fn stripped(
    prefix_absolute: bool,
    prefix: Seq<Seq<char>>,
    path_absolute: bool,
    path: Seq<Seq<char>>,
) -> Option<Seq<Seq<char>>> {
    if prefix_absolute == path_absolute && prefix.len() <= path.len() && path.subrange(
        0,
        prefix.len() as int,
    ) == prefix {
        Some(path.subrange(prefix.len() as int, path.len() as int))
    } else {
        None
    }
}

fn copy_names(names: &Vec<String>, out: &mut Vec<String>)
    ensures
        component_names(final(out)@) == component_names(old(out)@) + component_names(names@),
{
    let ghost start = out@;
    let mut i: usize = 0;
    while i < names.len()
        invariant
            i <= names@.len(),
            component_names(out@) == component_names(start) + component_names(names@.subrange(0, i as int)),
        decreases names@.len() - i,
    {
        let ghost before = out@;
        out.push(names[i].clone());
        i = i + 1;
        proof {
            assert(component_names(out@) =~= component_names(before).push(names@[i - 1]@));
            assert(component_names(names@.subrange(0, i as int)) =~= component_names(
                names@.subrange(0, i - 1),
            ).push(names@[i - 1]@));
            assert(component_names(out@) =~= component_names(start) + component_names(names@.subrange(0, i as int)));
        }
    }
    assert(names@.subrange(0, names@.len() as int) =~= names@);
}

impl ProjectPath {
    /// A copy of the path.
    pub fn copy(&self) -> (r: ProjectPath)
        ensures
            r.absolute == self.absolute,
            r.names() == self.names(),
    {
        let mut components: Vec<String> = Vec::new();
        copy_names(&self.components, &mut components);
        assert(component_names(components@) =~= self.names());
        ProjectPath { absolute: self.absolute, components }
    }
}

/// A project: its name, the scene it opens with, and the directory it lives in.
pub struct Project {
    pub name: String,
    pub main_scene: Option<ProjectPath>,
    pub directory: ProjectPath,
}

impl Project {
    /// A project read from the project file at `file`: it lives in the directory that
    /// holds the file.
    pub fn loaded(name: String, main_scene: Option<ProjectPath>, file: &ProjectPath) -> (r: Project)
        ensures
            r.name == name,
            r.main_scene == main_scene,
            r.directory.absolute == file.absolute,
            r.directory.names() == (if file.names().len() > 0 { file.names().drop_last() } else { file.names() }),
    {
        let mut components: Vec<String> = Vec::new();
        copy_names(&file.components, &mut components);
        assert(component_names(components@) =~= file.names());
        if components.len() > 0 {
            let ghost before = components@;
            components.pop();
            assert(component_names(components@) =~= component_names(before).drop_last());
        }
        Project { name, main_scene, directory: ProjectPath { absolute: file.absolute, components } }
    }

    /// Where the project is saved: `project.crile` in its directory.
    pub fn project_file(&self) -> (r: ProjectPath)
        ensures
            r.absolute == self.directory.absolute,
            r.names() == self.directory.names().push("project.crile"@),
    {
        let mut components: Vec<String> = Vec::new();
        copy_names(&self.directory.components, &mut components);
        let file = "project.crile";
        proof {
            reveal_strlit("project.crile");
        }
        let ghost before = components@;
        components.push(file.to_owned());
        assert(component_names(components@) =~= component_names(before).push("project.crile"@));
        ProjectPath { absolute: self.directory.absolute, components }
    }

    /// `relative_path` taken from the project directory.
    pub fn make_absolute(&self, relative_path: &ProjectPath) -> (r: ProjectPath)
        ensures
            (r.absolute, r.names()) == joined(
                self.directory.absolute,
                self.directory.names(),
                relative_path.absolute,
                relative_path.names(),
            ),
    {
        let mut components: Vec<String> = Vec::new();
        if relative_path.absolute {
            copy_names(&relative_path.components, &mut components);
            assert(component_names(components@) =~= relative_path.names());
            ProjectPath { absolute: true, components }
        } else {
            copy_names(&self.directory.components, &mut components);
            copy_names(&relative_path.components, &mut components);
            assert(component_names(components@) =~= self.directory.names() + relative_path.names());
            ProjectPath { absolute: self.directory.absolute, components }
        }
    }

    /// `path` relative to the project directory, or `None` if it lies outside it.
    pub fn make_relative(&self, path: &ProjectPath) -> (r: Option<ProjectPath>)
        ensures
            match r {
                Some(q) => !q.absolute && stripped(
                    self.directory.absolute,
                    self.directory.names(),
                    path.absolute,
                    path.names(),
                ) == Some(q.names()),
                None => stripped(
                    self.directory.absolute,
                    self.directory.names(),
                    path.absolute,
                    path.names(),
                ) is None,
            },
    {
        let prefix = &self.directory.components;
        let n = prefix.len();
        if self.directory.absolute != path.absolute || n > path.components.len() {
            return None;
        }
        let mut i: usize = 0;
        while i < n
            invariant
                prefix@ == self.directory.components@,
                n == prefix@.len(),
                n <= path.components@.len(),
                i <= n,
                forall|j: int| 0 <= j < i ==> prefix@[j]@ == #[trigger] path.components@[j]@,
            decreases n - i,
        {
            let same = prefix[i] == path.components[i];
            if !same {
                proof {
                    assert(path.names().subrange(0, n as int)[i as int] != self.directory.names()[i as int]);
                }
                return None;
            }
            i = i + 1;
        }
        assert(path.names().subrange(0, n as int) =~= self.directory.names());
        let mut components: Vec<String> = Vec::new();
        let mut j: usize = n;
        while j < path.components.len()
            invariant
                n <= j <= path.components@.len(),
                component_names(components@) == path.names().subrange(n as int, j as int),
            decreases path.components@.len() - j,
        {
            let ghost before = components@;
            components.push(path.components[j].clone());
            j = j + 1;
            assert(component_names(components@) =~= component_names(before).push(path.components@[j - 1]@));
            assert(component_names(components@) =~= path.names().subrange(n as int, j as int));
        }
        Some(ProjectPath { absolute: false, components })
    }
}

/// Law: a relative path made absolute against the project directory is made relative
/// again to exactly itself.
pub proof fn law_relative_after_absolute(
    directory_absolute: bool,
    directory: Seq<Seq<char>>,
    path: Seq<Seq<char>>,
)
    ensures
        ({
            let (a, names) = joined(directory_absolute, directory, false, path);
            stripped(directory_absolute, directory, a, names) == Some(path)
        }),
{
    let names = directory + path;
    assert(names.subrange(0, directory.len() as int) =~= directory);
    assert(names.subrange(directory.len() as int, names.len() as int) =~= path);
}

/// Law: a path inside the project directory, made relative and then absolute again,
/// is the path itself.
pub proof fn law_absolute_after_relative(
    directory_absolute: bool,
    directory: Seq<Seq<char>>,
    path_absolute: bool,
    path: Seq<Seq<char>>,
)
    requires
        stripped(directory_absolute, directory, path_absolute, path) is Some,
    ensures
        joined(
            directory_absolute,
            directory,
            false,
            stripped(directory_absolute, directory, path_absolute, path).unwrap(),
        ) == (path_absolute, path),
{
    let rest = stripped(directory_absolute, directory, path_absolute, path).unwrap();
    assert(directory + rest =~= path);
}

} // verus!
